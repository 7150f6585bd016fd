use nexo::auth::{Session, Tenant};
use nexo::enrollment::{
    agent_enroll, agent_poll, approve, cancel_enrollment, create_enrollment, create_recovery,
    get_enrollment, initialize_schema, list_enrollments, withdraw_workspace, ApproveEnrollment,
    CreateEnrollment, DeviceRow, IdentityRow, Registry,
};
use nexo::enrollment_token::EnrollmentStatus;
use nexo::identity::{accept_certificate, Authority};
use nexo::protocol::AgentEnrollmentRequest;
use nexo::services::{recover_services, StoredService};
use nexo::tunnels::TunnelState;
use nexo::x509::{certificate_info, fingerprint};
use rcgen::{CertificateParams, KeyPair};

const NOW: i64 = 1_800_000_000;

fn tenants() -> Vec<Tenant> {
    ["default", "other"]
        .iter()
        .map(|id| Tenant {
            id: id.to_string(),
            name: id.to_string(),
            enabled: true,
            created_at: 0,
        })
        .collect()
}

fn session(tenant: &str) -> Session {
    Session {
        user_id: "u".into(),
        tenant_id: tenant.into(),
        csrf: "c".into(),
    }
}

fn empty() -> Registry {
    Registry {
        rows: vec![],
        devices: vec![],
        identities: vec![],
    }
}

fn request(token: &str) -> AgentEnrollmentRequest {
    let csr = CertificateParams::new(vec!["agent.nexo".into()])
        .unwrap()
        .serialize_request(&KeyPair::generate().unwrap())
        .unwrap()
        .pem()
        .unwrap();
    AgentEnrollmentRequest {
        token: token.into(),
        device_name: "测试设备".into(),
        os: Some("test".into()),
        architecture: None,
        agent_version: "test".into(),
        csr_pem: Some(csr),
    }
}

fn invite(registry: &mut Registry) -> (String, String) {
    let input = CreateEnrollment {
        ttl_seconds: Some(3600),
    };
    let (enrollment, _) =
        create_enrollment(registry, &tenants(), &session("default"), &input, NOW).unwrap();
    (enrollment.id, enrollment.token.unwrap())
}

fn unnamed() -> ApproveEnrollment {
    ApproveEnrollment { device_name: None }
}

#[test]
fn enrollment_binds_csr_and_response_retries_reuse_one_identity() {
    let authority = Authority::generate(NOW).ok().unwrap();
    let ca = authority.ca_pem.clone();
    let mut state = empty();
    let (id, token) = invite(&mut state);
    let input = request(&token);
    assert!(agent_enroll(&mut state.rows, &tenants(), &input, NOW).is_ok());
    let rejected = agent_enroll(&mut state.rows, &tenants(), &request(&token), NOW).unwrap_err();
    assert_eq!(rejected.status, 409);
    let (approval, _) =
        approve(&mut state, &tenants(), &authority, &session("default"), &id, &unnamed(), NOW)
            .unwrap();
    let first = agent_poll(&mut state.rows, &tenants(), &id, &token, &ca, NOW).unwrap();
    assert!(agent_enroll(&mut state.rows, &tenants(), &input, NOW).is_ok());
    let second = agent_poll(&mut state.rows, &tenants(), &id, &token, &ca, NOW).unwrap();
    assert_eq!(first.device_id, approval.device_id);
    assert_eq!(first.certificate_pem, second.certificate_pem);
    assert_eq!(first.ca_certificate_pem.as_deref(), Some(ca.as_str()));
    let certificate = first.certificate_pem.unwrap();
    assert_eq!(Some(certificate_info(&certificate).unwrap().0), first.device_id);
    assert_eq!(state.devices.len(), 1);
    assert_eq!(state.devices[0].name, "测试设备");
    state.rows[0].expires_at = 0;
    assert_eq!(
        agent_poll(&mut state.rows, &tenants(), &id, &token, &ca, NOW)
            .unwrap_err()
            .status,
        401
    );
}

#[test]
fn approval_requires_csr_and_unexpired_owned_invitation() {
    let authority = Authority::generate(NOW).ok().unwrap();
    let mut state = empty();
    let (id, token) = invite(&mut state);
    let mut try_approve = |state: &mut Registry, tenant: &str| {
        approve(state, &tenants(), &authority, &session(tenant), &id, &unnamed(), NOW)
            .map(|_| ())
            .map_err(|error| error.status)
    };
    assert_eq!(try_approve(&mut state, "default"), Err(409));
    let mut invalid = request(&token);
    invalid.csr_pem = Some("invalid".into());
    assert_eq!(
        agent_enroll(&mut state.rows, &tenants(), &invalid, NOW)
            .unwrap_err()
            .status,
        400
    );
    assert!(agent_enroll(&mut state.rows, &tenants(), &request(&token), NOW).is_ok());
    assert!(try_approve(&mut state, "other").is_err());
    state.rows[0].expires_at = 0;
    assert_eq!(try_approve(&mut state, "default"), Err(409));
    assert_eq!(state.identities.len(), 0);
}

#[test]
fn recovery_preserves_device_and_services_and_rejects_revoked_keys() {
    let authority = Authority::generate(NOW).ok().unwrap();
    let ca = authority.ca_pem.clone();
    let mut state = empty();
    let (id, token) = invite(&mut state);
    agent_enroll(&mut state.rows, &tenants(), &request(&token), NOW).unwrap();
    let named = |name: &str| ApproveEnrollment {
        device_name: Some(name.into()),
    };
    let own = session("default");
    let (original, _) =
        approve(&mut state, &tenants(), &authority, &own, &id, &named("原设备"), NOW).unwrap();
    let device = original.device_id.unwrap();
    let old = agent_poll(&mut state.rows, &tenants(), &id, &token, &ca, NOW)
        .unwrap()
        .certificate_pem
        .unwrap();
    let mut services: Vec<StoredService> = [("enabled-service", true), ("disabled-service", false)]
        .iter()
        .map(|(id, enabled)| StoredService {
            id: id.to_string(),
            tenant_id: "default".into(),
            device_id: Some(device.clone()),
            reported: true,
            state: TunnelState::created(Some(*enabled)),
        })
        .collect();
    assert!(create_recovery(&mut state, &tenants(), &session("other"), &device, NOW).is_err());
    let (first, _) = create_recovery(&mut state, &tenants(), &own, &device, NOW).unwrap();
    let (second, _) = create_recovery(&mut state, &tenants(), &own, &device, NOW).unwrap();
    let stale = request(&first.token.unwrap());
    assert!(agent_enroll(&mut state.rows, &tenants(), &stale, NOW).is_err());
    let token = second.token.unwrap();
    let submitted = agent_enroll(&mut state.rows, &tenants(), &request(&token), NOW).unwrap();
    assert_eq!(submitted.device_id.as_deref(), Some(device.as_str()));
    let digest = fingerprint(&old).unwrap();
    let row = state.identities.pop().unwrap();
    let identity = accept_certificate(Some(row.identity), &digest).ok().unwrap();
    state.identities.push(IdentityRow { identity, ..row });
    let (approved, event) = approve(
        &mut state,
        &tenants(),
        &authority,
        &own,
        &second.id,
        &named("不应重命名"),
        NOW,
    )
    .unwrap();
    assert_eq!(approved.device_id.as_deref(), Some(device.as_str()));
    assert_eq!(approved.kind, "recovery");
    assert_eq!(approved.status, "approved");
    assert_eq!(approved.expires_at, second.expires_at);
    assert!(approved.token.is_none());
    assert_eq!(event.event_type, "identity_recovered");
    assert_eq!(event.resource_type, "device");
    assert_eq!(event.resource_id, device);
    assert_eq!(event.actor_user_id.as_deref(), Some("u"));
    assert_eq!(event.created_at, NOW);
    recover_services(&mut services, &device);
    let issued = agent_poll(&mut state.rows, &tenants(), &second.id, &token, &ca, NOW)
        .unwrap()
        .certificate_pem
        .unwrap();
    assert_eq!(state.devices.len(), 1);
    assert_eq!(state.devices[0].name, "原设备");
    assert_eq!(state.identities.len(), 1);
    let of_device = |one: &&StoredService| one.device_id.as_deref() == Some(device.as_str());
    assert_eq!(services.iter().filter(of_device).count(), 2);
    assert_eq!(services.iter().filter(of_device).filter(|one| one.state.enabled).count(), 1);
    let row = state.identities.pop().unwrap();
    let identity = accept_certificate(Some(row.identity), &fingerprint(&issued).unwrap()).ok().unwrap();
    assert!(accept_certificate(Some(identity), &digest).is_err());
    let (invite, _) = create_recovery(&mut state, &tenants(), &own, &device, NOW).unwrap();
    cancel_enrollment(&mut state.rows, &own, &invite.id).unwrap();
    let withdrawn = request(&invite.token.unwrap());
    assert!(agent_enroll(&mut state.rows, &tenants(), &withdrawn, NOW).is_err());
    let (invite, _) = create_recovery(&mut state, &tenants(), &own, &device, NOW).unwrap();
    state.devices.clear();
    for row in state.rows.iter_mut().filter(|row| row.device_id.as_deref() == Some(device.as_str())) {
        row.device_id = None;
    }
    let orphaned = request(&invite.token.unwrap());
    assert!(agent_enroll(&mut state.rows, &tenants(), &orphaned, NOW).is_err());
}

#[test]
fn services_of_a_recovered_device_are_to_be_checked_again() {
    let service = |id: &str, device: &str, enabled: bool| StoredService {
        id: id.into(),
        tenant_id: "default".into(),
        device_id: Some(device.into()),
        reported: true,
        state: TunnelState {
            enabled,
            apply_status: "ok".into(),
            apply_revision: 4,
            deleted: false,
        },
    };
    let mut rows = vec![service("on", "d", true), service("off", "d", false), service("other", "e", true)];
    rows.push(StoredService {
        state: TunnelState {
            deleted: true,
            ..service("gone", "d", false).state
        },
        ..service("gone", "d", false)
    });
    recover_services(&mut rows, "d");
    let shown: Vec<(&str, bool, bool, &str, i64)> = rows
        .iter()
        .map(|one| {
            let state = &one.state;
            (one.id.as_str(), one.reported, state.enabled, state.apply_status.as_str(), state.apply_revision)
        })
        .collect();
    assert_eq!(shown[0], ("on", false, true, "checking", 5));
    assert_eq!(shown[1], ("off", false, false, "disabled", 5));
    assert_eq!(shown[2], ("other", true, true, "ok", 4));
    assert_eq!(shown[3], ("gone", false, false, "ok", 4));
}

#[test]
fn approving_an_invitation_is_recorded() {
    let authority = Authority::generate(NOW).ok().unwrap();
    let mut state = empty();
    let (id, token) = invite(&mut state);
    agent_enroll(&mut state.rows, &tenants(), &request(&token), NOW).unwrap();
    let (made, event) =
        approve(&mut state, &tenants(), &authority, &session("default"), &id, &unnamed(), NOW)
            .unwrap();
    assert_eq!(made.id, id);
    assert_eq!(made.tenant_id, "default");
    assert_eq!(made.status, "approved");
    assert_eq!(made.expires_at, NOW + 3600);
    assert!(made.token.is_none());
    assert_eq!(event.event_type, "enrollment_approved");
    assert_eq!(event.resource_type, "device");
    assert_eq!(Some(event.resource_id), made.device_id);
    assert_eq!(event.tenant_id, "default");
}

#[test]
fn an_authority_that_ends_soon_lets_no_device_in() {
    let authority = Authority::generate(NOW).ok().unwrap();
    let mut state = empty();
    let (id, token) = invite(&mut state);
    agent_enroll(&mut state.rows, &tenants(), &request(&token), NOW).unwrap();
    let (_, end) = certificate_info(&authority.ca_pem).unwrap();
    state.rows[0].expires_at = end + 1;
    let refused =
        approve(&mut state, &tenants(), &authority, &session("default"), &id, &unnamed(), end - 1)
            .unwrap_err();
    assert_eq!(refused.status, 500);
    assert_eq!(refused.message, "内部 CA 即将到期，请管理员更换信任根");
    assert_eq!(state.rows[0].status, "awaiting_approval");
    assert!(state.devices.is_empty());
    assert!(state.identities.is_empty());
}

#[test]
fn a_recovery_needs_the_device_to_be_there() {
    let authority = Authority::generate(NOW).ok().unwrap();
    let mut state = empty();
    let (id, token) = invite(&mut state);
    agent_enroll(&mut state.rows, &tenants(), &request(&token), NOW).unwrap();
    let own = session("default");
    let (made, _) =
        approve(&mut state, &tenants(), &authority, &own, &id, &unnamed(), NOW).unwrap();
    let device = made.device_id.unwrap();
    let (recovery, _) = create_recovery(&mut state, &tenants(), &own, &device, NOW).unwrap();
    agent_enroll(&mut state.rows, &tenants(), &request(&recovery.token.unwrap()), NOW).unwrap();
    state.devices.clear();
    let refused = approve(&mut state, &tenants(), &authority, &own, &recovery.id, &unnamed(), NOW)
        .unwrap_err();
    assert_eq!(refused.status, 404);
    assert_eq!(refused.message, "原设备不存在");
    assert_eq!(state.rows[1].status, "awaiting_approval");
}

#[test]
fn a_workspace_that_is_switched_off_withdraws_its_invitations() {
    let mut state = empty();
    for _ in 0..3 {
        invite(&mut state);
    }
    state.rows[1].status = "consumed".into();
    state.rows[2].tenant_id = "other".into();
    for tenant in ["default", "other"] {
        state.devices.push(DeviceRow {
            id: tenant.into(),
            tenant_id: tenant.into(),
            name: "device".into(),
            os: None,
            architecture: None,
            agent_version: "test".into(),
            status: "online".into(),
            enrolled_at: 1,
            updated_at: 2,
        });
    }
    withdraw_workspace(&mut state, "default");
    let statuses: Vec<&str> = state.rows.iter().map(|row| row.status.as_str()).collect();
    assert_eq!(statuses, ["revoked", "consumed", "awaiting_agent"]);
    let statuses: Vec<&str> = state.devices.iter().map(|row| row.status.as_str()).collect();
    assert_eq!(statuses, ["offline", "online"]);
    assert_eq!(state.devices[0].updated_at, 2);
}

#[test]
fn invitations_are_listed_per_workspace_and_can_be_withdrawn() {
    let mut state = empty();
    let (id, token) = invite(&mut state);
    assert_eq!(list_enrollments(&state.rows, "default", NOW).len(), 1);
    assert!(list_enrollments(&state.rows, "default", NOW)[0].token.is_none());
    assert_eq!(list_enrollments(&state.rows, "other", NOW).len(), 0);
    assert_eq!(
        cancel_enrollment(&mut state.rows, &session("other"), &id).unwrap_err().status,
        409
    );
    cancel_enrollment(&mut state.rows, &session("default"), &id).unwrap();
    assert!(agent_enroll(&mut state.rows, &tenants(), &request(&token), NOW).is_err());
    let poll = agent_poll(&mut state.rows, &tenants(), &id, &token, "ca", NOW);
    assert!(!matches!(poll, Ok(answer) if answer.status == EnrollmentStatus::Approved));
}

#[test]
fn disabled_workspaces_invite_nobody() {
    let mut all = tenants();
    all[0].enabled = false;
    let mut state = empty();
    let input = CreateEnrollment { ttl_seconds: None };
    assert!(create_enrollment(&mut state, &all, &session("default"), &input, NOW).is_err());
    let (_, token) = invite(&mut state);
    assert!(agent_enroll(&mut state.rows, &all, &request(&token), NOW).is_err());
}

#[test]
fn the_schema_of_enrollments_is_upgraded_once() {
    let db = rusqlite::Connection::open_in_memory().unwrap();
    db.execute_batch("CREATE TABLE pending_enrollments(id TEXT PRIMARY KEY);").unwrap();
    for has_kind in [false, true] {
        for statement in initialize_schema(has_kind) {
            db.execute_batch(&statement).unwrap();
        }
    }
    let columns: i64 = db
        .query_row(
            "SELECT COUNT(*) FROM pragma_table_info('pending_enrollments') WHERE name='kind'",
            [],
            |row| row.get(0),
        )
        .unwrap();
    assert_eq!(columns, 1);
}

#[test]
fn one_invitation_is_shown_as_expired_once_its_time_has_passed() {
    let mut state = empty();
    let (id, _) = invite(&mut state);
    let shown = get_enrollment(&state.rows, "default", &id, NOW).unwrap();
    assert_eq!(shown.status, "awaiting_agent");
    assert_eq!(shown.expires_at, NOW + 3600);
    assert!(shown.token.is_none());
    let late = get_enrollment(&state.rows, "default", &id, NOW + 3600).unwrap();
    assert_eq!(late.status, "expired");
    state.rows[0].status = "approved".into();
    let approved = get_enrollment(&state.rows, "default", &id, NOW + 3600).unwrap();
    assert_eq!(approved.status, "approved");
    let foreign = get_enrollment(&state.rows, "other", &id, NOW).err().unwrap();
    assert_eq!(foreign.status, 404);
}

#[test]
fn the_secret_of_an_invitation_is_url_safe_text() {
    let mut state = empty();
    let (_, token) = invite(&mut state);
    let (_, other) = invite(&mut state);
    assert_ne!(token, other);
    for secret in [token, other] {
        assert_eq!(secret.len(), 43);
        let safe = |c: char| c.is_ascii_alphanumeric() || c == '-' || c == '_';
        assert!(secret.chars().all(safe));
    }
}
