use nexo::accounts::{
    accept_invitation, audit, check_accept, create_invitation, create_recovery, delete_user,
    ensure_workspace_enabled, initialize_schema, inspect_invitation, list_invitations, list_users,
    require_admin, require_workspace,
    resource_address, resource_session, revoke_invitation, show_invitation, update_user,
    valid_invitation, workspace_path, AcceptInvitation, InspectInvitation, UserUpdate,
};
use nexo::auth::{
    change_password, channel, check_initialize, check_login_password, check_login_size,
    cleared_cookies, cookie, create_recovery_code, current_session_info, create_session, ensure_bootstrap_code,
    hash_password, initialize, list_sessions, load_session, login, login_candidate, login_key,
    logout, new_password_hash, read_bootstrap_code, recover, recovery_user, require_csrf,
    require_session, revoke_session, session_cookies, status, validate_password,
    validate_username, verify_password, Accounts, BootstrapStep, ChangePasswordRequest,
    InitializeRequest, LoginRequest, RecoverRequest, Session, SessionSecrets, Tenant, User,
    RECOVERY_SECONDS, SESSION_SECONDS,
};
use nexo::tunnels::{Owned, TunnelKey};

const NOW: i64 = 1_800_000_000;

fn user(id: &str, name: &str, role: &str, hash: &str) -> User {
    User {
        id: id.into(),
        tenant_id: if role == "system_admin" { "default" } else { id }.into(),
        username: name.into(),
        role: role.into(),
        password_hash: hash.into(),
        enabled: true,
        created_at: 0,
    }
}

fn tenant(id: &str, name: &str) -> Tenant {
    Tenant {
        id: id.into(),
        name: name.into(),
        enabled: true,
        created_at: 0,
    }
}

fn fixture() -> Accounts {
    Accounts {
        users: vec![user("u", "admin", "system_admin", "unused")],
        tenants: vec![tenant("default", "default")],
        sessions: vec![],
        recoveries: vec![],
        invitations: vec![],
    }
}

fn add_user(accounts: &mut Accounts, id: &str) -> String {
    accounts.users.push(user(id, id, "tenant", "unused"));
    accounts.tenants.push(tenant(id, id));
    sign_in(accounts, id, id)
}

fn sign_in(accounts: &mut Accounts, user: &str, tenant: &str) -> String {
    header(&create_session(&mut accounts.sessions, user, tenant, NOW))
}

fn header(secrets: &SessionSecrets) -> String {
    format!("other=1; nexo_session={}", secrets.session)
}

fn actor() -> Session {
    Session {
        user_id: "u".into(),
        tenant_id: "default".into(),
        csrf: "c".into(),
    }
}

#[test]
fn recovery_is_targeted_expiring_single_use_and_revokes_sessions_atomically() {
    let mut state = fixture();
    state.users.push(user("other", "other-admin", "system_admin", "untouched"));
    sign_in(&mut state, "u", "default");
    sign_in(&mut state, "other", "default");
    assert!(create_recovery_code(&mut state, None, NOW).is_none());
    let expired = create_recovery_code(&mut state, Some("admin"), NOW).unwrap();
    assert_eq!(expired.expires_at, NOW + 900);
    let input = |code: &str| RecoverRequest {
        recovery_code: code.into(),
        new_password: "a-safe-new-password".into(),
    };
    assert_eq!(
        recovery_user(&state, &input(&expired.code), NOW + RECOVERY_SECONDS)
            .unwrap_err()
            .status,
        401
    );
    let old = create_recovery_code(&mut state, Some("admin"), NOW).unwrap();
    let code = create_recovery_code(&mut state, Some("admin"), NOW).unwrap();
    assert!(recovery_user(&state, &input(&old.code), NOW).is_err());
    let first = recovery_user(&state, &input(&code.code), NOW).unwrap();
    let second = recovery_user(&state, &input(&code.code), NOW).unwrap();
    assert_eq!(first, "u");
    let hash = hash_password("a-safe-new-password").unwrap();
    let (name, event) = recover(&mut state, &code.code, &first, hash.clone(), NOW).unwrap();
    assert_eq!(name, "admin");
    assert_eq!(event.tenant_id, "default");
    assert_eq!(event.actor_user_id, None);
    assert_eq!(event.resource_id, "u");
    assert!(recover(&mut state, &code.code, &second, hash, NOW).is_err());
    assert!(verify_password("a-safe-new-password", &state.users[0].password_hash));
    assert_eq!(list_sessions(&state.sessions, "u").len(), 0);
    assert_eq!(list_sessions(&state.sessions, "other").len(), 1);
    assert_eq!(state.users[1].password_hash, "untouched");
    let candidate = login_candidate(&state, "admin").unwrap();
    assert!(check_login_password(&candidate, "old-password").is_err());
    assert!(check_login_password(&candidate, "a-safe-new-password").is_ok());
    assert!(login(&mut state, &candidate, "admin", NOW).is_ok());
}

#[test]
fn session_mutations_require_csrf_and_https_cookies_are_secure() {
    let mut state = fixture();
    let secrets = create_session(&mut state.sessions, "u", "default", NOW);
    let session = require_session(&state, Some(&header(&secrets)), NOW).unwrap();
    assert_eq!(require_csrf(&session, None).unwrap_err().status, 403);
    assert_eq!(require_csrf(&session, Some("wrong")).unwrap_err().status, 403);
    assert!(require_csrf(&session, Some(&secrets.csrf)).is_ok());
    for secure in [false, true] {
        let (one, two) = session_cookies(&secrets, secure);
        assert_eq!(one.contains("; Secure"), secure);
        assert_eq!(two.contains("; Secure"), secure);
        assert!(one.contains("HttpOnly"));
    }
    let (one, two) = cleared_cookies();
    assert!(one.starts_with("nexo_session=;") && one.contains("Max-Age=0"));
    assert!(two.starts_with("nexo_csrf=;"));
    assert_ne!(channel(true), channel(false));
}

#[test]
fn sessions_last_seven_days() {
    let mut state = fixture();
    let cookies = sign_in(&mut state, "u", "default");
    assert_eq!(SESSION_SECONDS, 7 * 86400);
    assert!(load_session(&state, Some(&cookies), NOW + SESSION_SECONDS - 1).is_some());
    assert!(load_session(&state, Some(&cookies), NOW + SESSION_SECONDS).is_none());
    assert!(load_session(&state, None, NOW).is_none());
    assert_eq!(require_session(&state, None, NOW).unwrap_err().status, 401);
    state.users[0].enabled = false;
    assert!(load_session(&state, Some(&cookies), NOW).is_none());
}

#[test]
fn secrets_are_stored_as_digests() {
    let mut state = fixture();
    let secrets = create_session(&mut state.sessions, "u", "default", NOW);
    assert_ne!(state.sessions[0].session_digest, secrets.session);
    assert_ne!(state.sessions[0].csrf_digest, secrets.csrf);
    assert_eq!(state.sessions[0].session_digest.len(), 64);
    assert_ne!(secrets.session, secrets.csrf);
}

#[test]
fn sessions_end_one_by_one() {
    let mut state = fixture();
    let first = sign_in(&mut state, "u", "default");
    let second = sign_in(&mut state, "u", "default");
    logout(&mut state.sessions, Some(&first));
    assert!(load_session(&state, Some(&first), NOW).is_none());
    assert!(load_session(&state, Some(&second), NOW).is_some());
    let id = state.sessions[0].id.clone();
    revoke_session(&mut state.sessions, &id, "other");
    assert_eq!(state.sessions.len(), 1);
    revoke_session(&mut state.sessions, &id, "u");
    assert!(state.sessions.is_empty());
}

#[test]
fn names_and_passwords_are_bounded() {
    for name in ["", " a ", "-", &"a".repeat(65)] {
        assert!(validate_username(name).is_err(), "{}", name);
    }
    for name in ["ab", "名", &"a".repeat(64)] {
        assert!(validate_username(name).is_ok(), "{}", name);
    }
    assert!(validate_password("eleven-char").is_err());
    assert!(validate_password("密码密码密码密码密码密").is_err());
    assert!(validate_password("密码密码密码密码密码密码").is_ok());
    assert!(validate_password(&"x".repeat(1024)).is_ok());
    assert!(validate_password(&"x".repeat(1025)).is_err());
}

#[test]
fn passwords_are_verified() {
    let hash = hash_password("correct-horse-battery").unwrap();
    assert!(hash.starts_with("$argon2id$"));
    assert!(verify_password("correct-horse-battery", &hash));
    assert!(!verify_password("correct-horse", &hash));
    assert!(!verify_password("correct-horse-battery", "no hash"));
    assert_ne!(hash, hash_password("correct-horse-battery").unwrap());
}

#[test]
fn cookies_are_found_by_name() {
    assert_eq!(cookie("a=1; nexo_session=x", "nexo_session").as_deref(), Some("x"));
    assert_eq!(cookie("nexo_session_2=x", "nexo_session"), None);
    assert_eq!(cookie("", "nexo_session"), None);
}

#[test]
fn the_first_administrator_needs_the_code() {
    let mut empty = fixture();
    empty.users.clear();
    let step = ensure_bootstrap_code(0, false);
    let BootstrapStep::Create { code } = step else {
        panic!();
    };
    assert!(matches!(ensure_bootstrap_code(0, true), BootstrapStep::Keep));
    assert!(matches!(ensure_bootstrap_code(1, true), BootstrapStep::Destroy));
    assert_eq!(read_bootstrap_code(&format!("{}\n", code)).as_deref(), Some(code.as_str()));
    let mut input = InitializeRequest {
        bootstrap_code: code.clone(),
        username: "admin".into(),
        password: "correct-horse-battery".into(),
    };
    assert!(check_initialize(Some(&code), &input).is_ok());
    assert!(check_initialize(None, &input).is_err());
    input.bootstrap_code = "wrong".into();
    assert!(check_initialize(Some(&code), &input).is_err());
    assert!(initialize(&mut empty, "admin", "hash".into(), NOW).is_ok());
    assert_eq!(empty.users.len(), 1);
    assert_eq!(empty.users[0].role, "system_admin");
    assert!(initialize(&mut empty, "second", "hash".into(), NOW).is_err());
    assert_eq!(empty.users.len(), 1);
}

#[test]
fn signing_in_is_checked_again_at_the_end() {
    let mut state = fixture();
    let candidate = login_candidate(&state, " admin ").unwrap();
    let mut open = fixture();
    let secrets = login(&mut open, &candidate, "admin", NOW).unwrap();
    for secret in [&secrets.session, &secrets.csrf] {
        assert_eq!(secret.len(), 64);
        assert!(secret.chars().all(|c| c.is_ascii_hexdigit()));
    }
    assert_eq!(open.sessions.len(), 1);
    assert_eq!(login_candidate(&state, "nobody").unwrap_err().status, 401);
    state.users[0].password_hash = "changed".into();
    assert!(login(&mut state, &candidate, "admin", NOW).is_err());
    assert!(state.sessions.is_empty());
    assert_eq!(login_key("admin"), "account:admin");
    let long = LoginRequest {
        username: "a".into(),
        password: "x".repeat(100_000),
    };
    assert!(check_login_size(&long).is_err());
}

#[test]
fn the_state_of_a_visitor() {
    let mut state = fixture();
    let cookies = sign_in(&mut state, "u", "default");
    let seen = status(&state, Some(&cookies), false, NOW);
    assert!(seen.initialized && seen.authenticated);
    assert_eq!(seen.user_id.as_deref(), Some("u"));
    assert_eq!(seen.workspace_id.as_deref(), Some("default"));
    assert!(seen.local_http_warning);
    let unknown = status(&state, None, true, NOW);
    assert!(unknown.initialized && !unknown.authenticated);
    assert!(unknown.user_id.is_none());
}

#[test]
fn passwords_change_only_from_the_known_one() {
    let mut state = fixture();
    let hash = hash_password("correct-horse-battery").unwrap();
    state.users[0].password_hash = hash.clone();
    sign_in(&mut state, "u", "default");
    let wrong = ChangePasswordRequest {
        current_password: "incorrect-horse".into(),
        new_password: "a-safe-new-password".into(),
    };
    assert!(new_password_hash(&wrong, &hash).is_err());
    let right = ChangePasswordRequest {
        current_password: "correct-horse-battery".into(),
        new_password: "a-safe-new-password".into(),
    };
    let next = new_password_hash(&right, &hash).unwrap();
    assert!(change_password(&mut state, "u", "another", next.clone()).is_err());
    assert!(change_password(&mut state, "u", &hash, next).is_ok());
    assert!(verify_password("a-safe-new-password", &state.users[0].password_hash));
    assert!(state.sessions.is_empty());
}

#[test]
fn invitation_is_expiring_revocable_and_single_use_under_concurrency() {
    let mut state = fixture();
    let (invite, event) = create_invitation(&mut state, &actor(), NOW);
    assert_eq!(invite.expires_at, NOW + 7 * 86400);
    assert_eq!(event.actor_user_id.as_deref(), Some("u"));
    let input = |name: &str| AcceptInvitation {
        token: invite.token.clone(),
        username: name.into(),
        password: "correct-horse-battery".into(),
    };
    assert!(check_accept(&state.invitations, false, &input("alice"), NOW).is_ok());
    assert!(check_accept(&state.invitations, false, &input("bob"), NOW).is_ok());
    assert!(check_accept(&state.invitations, true, &input("bob"), NOW).is_err());
    let hash = hash_password("correct-horse-battery").unwrap();
    assert!(accept_invitation(&mut state, &invite.token, "alice", hash.clone(), NOW).is_ok());
    assert!(accept_invitation(&mut state, &invite.token, "bob", hash, NOW).is_err());
    assert_eq!(state.users.iter().filter(|one| one.role == "tenant").count(), 1);
    assert!(valid_invitation(&state.invitations, &invite.token, NOW).is_err());
    let shown = show_invitation(&state.invitations[0], &state.users, NOW);
    assert_eq!(shown.status, "used");
    assert_eq!(shown.username.as_deref(), Some("alice"));

    let (invite, _) = create_invitation(&mut state, &actor(), NOW);
    revoke_invitation(&mut state, &actor(), &invite.id, NOW);
    assert!(valid_invitation(&state.invitations, &invite.token, NOW).is_err());
    let (invite, _) = create_invitation(&mut state, &actor(), NOW);
    assert!(valid_invitation(&state.invitations, &invite.token, NOW).is_ok());
    assert!(valid_invitation(&state.invitations, &invite.token, NOW + 7 * 86400).is_err());
}

#[test]
fn disabling_revokes_sessions_and_enrollment_without_losing_service_flags() {
    let mut state = fixture();
    let alice = add_user(&mut state, "alice");
    let (recovery, _) = create_recovery(&mut state, &actor(), "alice", NOW).unwrap();
    assert_eq!(recovery.expires_at, NOW + 900);
    let set = |enabled| UserUpdate {
        enabled: Some(enabled),
        username: None,
        role: None,
    };
    let change = update_user(&mut state, &actor(), "alice", &set(false), NOW).unwrap();
    assert!(change.status_changed && change.withdraw_devices && !change.renamed);
    assert!(require_session(&state, Some(&alice), NOW).is_err());
    assert!(state.recoveries.iter().all(|one| one.id != "alice"));
    assert!(ensure_workspace_enabled(&state.tenants, "alice").is_err());
    let change = update_user(&mut state, &actor(), "alice", &set(true), NOW).unwrap();
    assert!(change.status_changed && !change.withdraw_devices);
    assert!(require_session(&state, Some(&alice), NOW).is_err());
    assert!(ensure_workspace_enabled(&state.tenants, "alice").is_ok());
    assert!(update_user(&mut state, &actor(), "u", &set(false), NOW).is_err());
}

#[test]
fn renaming_keeps_resources_and_revokes_only_changed_accounts() {
    let mut state = fixture();
    let admin = sign_in(&mut state, "u", "default");
    let alice = add_user(&mut state, "alice");
    let bob = add_user(&mut state, "bob");
    state.tenants[1].name = "alice的工作空间".into();
    create_recovery(&mut state, &actor(), "alice", NOW).unwrap();
    let rename = |name: &str| UserUpdate {
        enabled: None,
        username: Some(name.into()),
        role: None,
    };
    let role = UserUpdate {
        enabled: None,
        username: None,
        role: Some("system_admin".into()),
    };
    for body in [role, rename("x")] {
        let error = update_user(&mut state, &actor(), "alice", &body, NOW).unwrap_err();
        assert_eq!(error.status, 400);
    }
    let error = update_user(&mut state, &actor(), "alice", &rename("bob"), NOW).unwrap_err();
    assert_eq!(error.status, 409);
    let enable = UserUpdate {
        enabled: Some(true),
        username: None,
        role: None,
    };
    assert_eq!(update_user(&mut state, &actor(), "u", &enable, NOW).unwrap_err().status, 403);
    assert!(update_user(&mut state, &actor(), "alice", &rename(" alice "), NOW).is_ok());
    assert!(require_session(&state, Some(&alice), NOW).is_ok());
    assert_eq!(state.recoveries.len(), 1);
    let change = update_user(&mut state, &actor(), "alice", &rename("new-alice"), NOW).unwrap();
    assert!(change.renamed && !change.reauthenticate);
    assert!(require_session(&state, Some(&alice), NOW).is_err());
    assert!(require_session(&state, Some(&bob), NOW).is_ok());
    assert_eq!(state.tenants[1].name, "new-alice的工作空间");
    assert!(state.recoveries.is_empty());
    assert!(login_candidate(&state, "alice").is_err());
    assert!(login_candidate(&state, "new-alice").is_ok());
    let change = update_user(&mut state, &actor(), "u", &rename("owner"), NOW).unwrap();
    assert!(change.reauthenticate);
    assert!(require_session(&state, Some(&admin), NOW).is_err());
    assert!(require_session(&state, Some(&bob), NOW).is_ok());
    assert!(login_candidate(&state, "owner").is_ok());
}

#[test]
fn deletion_checks_confirmation_and_cascades_without_reviving_invites() {
    let mut state = fixture();
    let alice = add_user(&mut state, "alice");
    let bob = add_user(&mut state, "bob");
    let (invite, _) = create_invitation(&mut state, &actor(), NOW);
    state.invitations[0].used_by = Some("alice".into());
    create_recovery(&mut state, &actor(), "alice", NOW).unwrap();
    let mut delete = |state: &mut Accounts, id: &str, name: &str| {
        delete_user(state, &actor(), id, name, NOW).map(|one| one.0).map_err(|one| one.status)
    };
    assert_eq!(delete(&mut state, "u", "admin"), Err(403));
    assert_eq!(delete(&mut state, "alice", "wrong"), Err(409));
    state.users[1].username = "renamed".into();
    assert_eq!(delete(&mut state, "alice", "alice"), Err(409));
    assert_eq!(delete(&mut state, "alice", "renamed"), Ok("alice".to_owned()));
    assert_eq!(delete(&mut state, "alice", "renamed"), Err(404));
    assert!(require_session(&state, Some(&alice), NOW).is_err());
    assert!(require_session(&state, Some(&bob), NOW).is_ok());
    assert!(state.recoveries.is_empty());
    assert!(state.tenants.iter().all(|one| one.id != "alice"));
    assert!(valid_invitation(&state.invitations, &invite.token, NOW).is_err());
}

#[test]
fn administrators_reach_other_workspaces_by_their_path_alone() {
    let mut state = fixture();
    add_user(&mut state, "bob");
    assert!(require_admin(&state.users, &actor()).is_ok());
    let plain = Session {
        user_id: "bob".into(),
        tenant_id: "bob".into(),
        csrf: "c".into(),
    };
    assert_eq!(require_admin(&state.users, &plain).unwrap_err().status, 403);
    let path = workspace_path("/api/v1/admin/workspaces/bob/public-domains").unwrap();
    assert_eq!(path, Some(("bob".to_owned(), "public-domains".to_owned())));
    assert_eq!(
        workspace_path("/api/v1/admin/workspaces/bob/auth/password").unwrap_err().status,
        404
    );
    assert_eq!(workspace_path("/api/v1/public-domains").unwrap(), None);
    assert!(require_workspace(&state.tenants, "bob").is_ok());
    assert_eq!(require_workspace(&state.tenants, "none").unwrap_err().status, 404);
    assert_eq!(
        resource_address("public-domains", Some("a=1")),
        "/api/v1/public-domains?a=1"
    );
    let moved = resource_session(&state.users, actor(), Some("bob")).unwrap();
    assert_eq!((moved.user_id.as_str(), moved.tenant_id.as_str()), ("u", "bob"));
    let own = resource_session(&state.users, actor(), None).unwrap();
    assert_eq!(own.tenant_id, "default");
    assert_eq!(
        resource_session(&state.users, plain, Some("default")).unwrap_err().status,
        403
    );
    let event = audit(&moved, "domain_created", "public_domain", "d", NOW);
    assert_eq!(event.actor_user_id.as_deref(), Some("u"));
    assert_eq!(event.tenant_id, "bob");
}

#[test]
fn the_schema_of_accounts_is_upgraded_once() {
    let db = rusqlite::Connection::open_in_memory().unwrap();
    db.execute_batch(
        "CREATE TABLE users(id TEXT PRIMARY KEY, tenant_id TEXT, username TEXT, role TEXT);
        CREATE TABLE tenants(id TEXT PRIMARY KEY, name TEXT);
        CREATE TABLE auth_recovery(id TEXT PRIMARY KEY);",
    )
    .unwrap();
    for has_enabled in [false, true] {
        for statement in initialize_schema(has_enabled) {
            db.execute_batch(&statement).unwrap();
        }
    }
    let columns: i64 = db
        .query_row(
            "SELECT COUNT(*) FROM pragma_table_info('tenants') WHERE name='enabled'",
            [],
            |row| row.get(0),
        )
        .unwrap();
    assert_eq!(columns, 1);
}

fn owned(id: &str, tenant: &str) -> Owned {
    Owned {
        id: id.into(),
        tenant_id: tenant.into(),
    }
}

fn service(id: &str, tenant: &str, deleted: bool) -> TunnelKey {
    TunnelKey {
        id: id.into(),
        tenant_id: tenant.into(),
        protocol: "tcp".into(),
        public_port: None,
        address: None,
        deleted,
    }
}

#[test]
fn users_are_listed_with_what_their_workspaces_hold() {
    let mut accounts = fixture();
    add_user(&mut accounts, "alice");
    accounts.users.push(user("lost", "lost", "tenant", "unused"));
    let devices = vec![owned("d1", "alice"), owned("d2", "default"), owned("d3", "alice")];
    let services = vec![service("s1", "alice", false), service("s2", "alice", true)];
    let domains = vec![owned("p1", "default")];
    let list = list_users(&accounts, &devices, &services, &domains);
    assert_eq!(list.len(), 2);
    assert_eq!((list[0].devices, list[0].services, list[0].domains), (1, 0, 1));
    assert_eq!(list[1].username, "alice");
    assert_eq!(list[1].workspace_name, "alice");
    assert_eq!((list[1].devices, list[1].services, list[1].domains), (2, 1, 0));
}

#[test]
fn at_most_a_hundred_invitations_are_listed() {
    let mut accounts = fixture();
    let (made, _) = create_invitation(&mut accounts, &actor(), NOW);
    let input = InspectInvitation {
        token: made.token.clone(),
    };
    assert_eq!(inspect_invitation(&accounts.invitations, &input, NOW).ok(), Some(made.expires_at));
    let late = inspect_invitation(&accounts.invitations, &input, made.expires_at);
    assert_eq!(late.err().unwrap().status, 400);
    for _ in 0..120 {
        create_invitation(&mut accounts, &actor(), NOW);
    }
    let list = list_invitations(&accounts.invitations, &accounts.users, NOW);
    assert_eq!(list.len(), 100);
    assert_eq!(list[0].id, accounts.invitations[0].id);
    assert_eq!(list[0].status, "pending");
}

#[test]
fn the_session_of_a_request_is_shown() {
    let mut accounts = fixture();
    let cookies = sign_in(&mut accounts, "u", "default");
    sign_in(&mut accounts, "u", "default");
    let mine = accounts.sessions[0].id.clone();
    let shown = current_session_info(&accounts, Some(&cookies), NOW).unwrap();
    assert_eq!(shown.id, mine);
    assert_eq!(shown.expires_at, NOW + SESSION_SECONDS);
    let refused = current_session_info(&accounts, None, NOW).err().unwrap();
    assert_eq!((refused.status, refused.code), (401, Some("session_expired")));
}
