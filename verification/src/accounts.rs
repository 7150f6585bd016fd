//! The administration of accounts: users, their workspaces and invitations.
use vstd::prelude::*;

use crate::auth;
use crate::auth::{
    copy_user, create_session, find_user, remove_recoveries, remove_sessions, validate_password,
    validate_username, Accounts, AuditEvent, InvitationRow, Recovery, Session, SessionSecrets,
    Tenant, User, RECOVERY_SECONDS, SESSION_SECONDS,
};
use crate::digest;
use crate::digest::{digest, new_uuid};
use crate::enrollment_token;
use crate::enrollment_token::EnrollmentToken;
use crate::error;
use crate::error::{ApiError, BAD_REQUEST, CONFLICT, FORBIDDEN, NOT_FOUND};
use crate::picked;
use crate::text;
use crate::text::{bytes_of, is_text, join2, same, split_on, split_once, strip_prefix, trim};
use crate::tunnels::{Owned, TunnelKey};

verus! {

/// The header with which a request that was checked carries the workspace that it is for.
pub const WORKSPACE_HEADER: &'static str = "x-nexo-internal-workspace";

/// The life of an invitation: seven days.
pub const INVITATION_SECONDS: i64 = 604800;

/// The statements that add the tables of this module to a database. The switch of a workspace came
/// later than the workspaces, so it is added where it is missing.
pub open spec fn schema(has_enabled: bool) -> Seq<Seq<char>> {
    let table =
        "CREATE TABLE IF NOT EXISTS user_invitations (id TEXT PRIMARY KEY,token_digest TEXT NOT NULL UNIQUE,created_by TEXT NOT NULL REFERENCES users(id),created_at INTEGER NOT NULL,expires_at INTEGER NOT NULL,used_by TEXT REFERENCES users(id),revoked_at INTEGER);"@;
    if has_enabled {
        seq![table]
    } else {
        seq!["ALTER TABLE tenants ADD COLUMN enabled INTEGER NOT NULL DEFAULT 1;"@, table]
    }
}

/// The statements that add the tables of this module to a database.
pub fn initialize_schema(has_enabled: bool) -> (r: Vec<String>)
    ensures
        text::views(r@) == schema(has_enabled),
{
    let mut statements: Vec<String> = Vec::new();
    if !has_enabled {
        statements.push(
            "ALTER TABLE tenants ADD COLUMN enabled INTEGER NOT NULL DEFAULT 1;".to_owned(),
        );
    }
    statements.push(
        "CREATE TABLE IF NOT EXISTS user_invitations (id TEXT PRIMARY KEY,token_digest TEXT NOT NULL UNIQUE,created_by TEXT NOT NULL REFERENCES users(id),created_at INTEGER NOT NULL,expires_at INTEGER NOT NULL,used_by TEXT REFERENCES users(id),revoked_at INTEGER);".to_owned(),
    );
    assert(text::views(statements@) =~= schema(has_enabled));
    statements
}

/// What is asked of a user.
#[derive(Debug, Clone)]
pub struct UserUpdate {
    pub enabled: Option<bool>,
    pub username: Option<String>,
    pub role: Option<String>,
}

/// The confirmation with which a user is deleted.
pub struct DeleteUser {
    pub confirm_username: String,
}

/// What is kept of an action in a workspace.
pub fn audit(session: &Session, event: &str, kind: &str, id: &str, now: i64) -> (r: AuditEvent)
    ensures
        auth::is_audit(r, session.tenant_id@, Some(session.user_id@), event@, kind@, id@, now),
{
    AuditEvent {
        tenant_id: session.tenant_id.clone(),
        actor_user_id: Some(session.user_id.clone()),
        event_type: event.to_owned(),
        resource_type: kind.to_owned(),
        resource_id: id.to_owned(),
        created_at: now,
    }
}

/// Whether a workspace is there and on.
pub open spec fn workspace_on(tenants: Seq<Tenant>, tenant: Seq<char>) -> bool {
    exists|i: int|
        0 <= i < tenants.len() && (#[trigger] tenants[i]).id@ == tenant && tenants[i].enabled
}

/// Whether a workspace is there.
pub open spec fn workspace_there(tenants: Seq<Tenant>, tenant: Seq<char>) -> bool {
    exists|i: int| 0 <= i < tenants.len() && (#[trigger] tenants[i]).id@ == tenant
}

/// Refuses to let devices join a workspace that is not on.
pub fn ensure_workspace_enabled(tenants: &Vec<Tenant>, tenant: &str) -> (r: Result<(), ApiError>)
    ensures
        match r {
            Ok(_) => workspace_on(tenants@, tenant@),
            Err(e) => !workspace_on(tenants@, tenant@) && error::told(e) == error::refusal(
                CONFLICT,
                "用户已停用，请先启用再办理设备入网",
            ),
        },
{
    let mut i: usize = 0;
    while i < tenants.len()
        invariant
            i <= tenants@.len(),
            forall|j: int|
                0 <= j < i ==> !((#[trigger] tenants@[j]).id@ == tenant@ && tenants@[j].enabled),
        decreases tenants@.len() - i,
    {
        if same(tenants[i].id.as_str(), tenant) && tenants[i].enabled {
            return Ok(());
        }
        i = i + 1;
    }
    Err(ApiError::new(CONFLICT, "用户已停用，请先启用再办理设备入网"))
}

fn check_workspace(tenants: &Vec<Tenant>, tenant: &str) -> (r: bool)
    ensures
        r == workspace_there(tenants@, tenant@),
{
    let mut i: usize = 0;
    while i < tenants.len()
        invariant
            i <= tenants@.len(),
            forall|j: int| 0 <= j < i ==> (#[trigger] tenants@[j]).id@ != tenant@,
        decreases tenants@.len() - i,
    {
        if same(tenants[i].id.as_str(), tenant) {
            return true;
        }
        i = i + 1;
    }
    false
}

/// Whether a user is an enabled administrator.
pub open spec fn is_admin(users: Seq<User>, id: Seq<char>) -> bool {
    auth::user_at(users, id) matches Some(k) && users[k].role@ == "system_admin"@ && users[k].enabled
}

/// Refuses a user who is no administrator.
pub fn require_admin(users: &Vec<User>, session: &Session) -> (r: Result<(), ApiError>)
    ensures
        match r {
            Ok(_) => is_admin(users@, session.user_id@),
            Err(e) => !is_admin(users@, session.user_id@) && error::told(e) == error::refusal(
                FORBIDDEN,
                "此操作需要管理员权限",
            ),
        },
{
    if let Some(k) = find_user(users, session.user_id.as_str()) {
        if same(users[k].role.as_str(), "system_admin") && users[k].enabled {
            return Ok(());
        }
    }
    Err(ApiError::new(FORBIDDEN, "此操作需要管理员权限"))
}

/// Whether a sort of resource belongs to a workspace.
pub open spec fn workspace_resource(kind: Seq<char>) -> bool {
    kind == "devices"@ || kind == "enrollments"@ || kind == "tunnels"@ || kind == "public-domains"@
        || kind == "public-domain-runtime-events"@
}

/// The workspace and the resource that a path for administrators names. `Ok(None)` for any other
/// path.
pub open spec fn workspace_path_of(path: Seq<char>) -> Result<
    Option<(Seq<char>, Seq<char>)>,
    Option<error::Refusal>,
> {
    match text::after_prefix(path, "/api/v1/admin/workspaces/"@) {
        None => Ok(None),
        Some(rest) => match text::cut_at(rest, '/') {
            None => Err(error::refusal(NOT_FOUND, "工作空间入口不存在")),
            Some(cut) => if workspace_resource(text::split(cut.1, '/')[0]) {
                Ok(Some(cut))
            } else {
                Err(error::refusal(NOT_FOUND, "工作空间资源不存在"))
            },
        },
    }
}

/// The workspace and the resource that a path for administrators names. Paths outside of the
/// resources of a workspace are refused there, so that nobody acts on the account of another.
pub fn workspace_path(path: &str) -> (r: Result<Option<(String, String)>, ApiError>)
    ensures
        match r {
            Ok(Some(named)) => workspace_path_of(path@) == Ok::<
                Option<(Seq<char>, Seq<char>)>,
                Option<error::Refusal>,
            >(Some((named.0@, named.1@))),
            Ok(None) => workspace_path_of(path@) == Ok::<
                Option<(Seq<char>, Seq<char>)>,
                Option<error::Refusal>,
            >(None),
            Err(e) => workspace_path_of(path@) == Err::<Option<(Seq<char>, Seq<char>)>, _>(
                error::told(e),
            ),
        },
{
    let rest: String = match strip_prefix(path, "/api/v1/admin/workspaces/") {
        Some(rest) => rest,
        None => {
            return Ok(None);
        },
    };
    let (workspace, resource): (String, String) = match split_once(rest.as_str(), '/') {
        Some(cut) => cut,
        None => {
            return Err(ApiError::new(NOT_FOUND, "工作空间入口不存在"));
        },
    };
    let parts: Vec<String> = split_on(resource.as_str(), '/');
    let ghost all = text::split(resource@, '/');
    proof {
        text::lemma_split_len(resource@, '/');
        assert(all.len() == parts@.len());
        assert(all[0] == parts@[0]@);
    }
    let kind: &str = parts[0].as_str();
    if !(same(kind, "devices") || same(kind, "enrollments") || same(kind, "tunnels") || same(
        kind,
        "public-domains",
    ) || same(kind, "public-domain-runtime-events")) {
        return Err(ApiError::new(NOT_FOUND, "工作空间资源不存在"));
    }
    Ok(Some((workspace, resource)))
}

/// Refuses a workspace that is not there to an administrator.
pub fn require_workspace(tenants: &Vec<Tenant>, workspace: &str) -> (r: Result<(), ApiError>)
    ensures
        match r {
            Ok(_) => workspace_there(tenants@, workspace@),
            Err(e) => !workspace_there(tenants@, workspace@) && error::told(e) == error::refusal(
                NOT_FOUND,
                "工作空间不存在",
            ),
        },
{
    if check_workspace(tenants, workspace) {
        Ok(())
    } else {
        Err(ApiError::new(NOT_FOUND, "工作空间不存在"))
    }
}

/// The address of a resource without the workspace.
pub fn resource_address(resource: &str, query: Option<&str>) -> (r: String)
    ensures
        r@ == "/api/v1/"@ + resource@ + (match query {
            Some(query) => "?"@ + query@,
            None => Seq::empty(),
        }),
{
    let path: String = join2("/api/v1/", resource);
    match query {
        Some(query) => {
            let tail: String = join2("?", query);
            join2(path.as_str(), tail.as_str())
        },
        None => {
            assert(path@ + Seq::<char>::empty() =~= path@);
            path
        },
    }
}

/// The session for the resources of a workspace: its own, or, for an administrator, the one that
/// was named. Who acts stays the same.
pub fn resource_session(users: &Vec<User>, session: Session, workspace: Option<&str>) -> (r: Result<
    Session,
    ApiError,
>)
    ensures
        match (workspace, r) {
            (None, Ok(s)) => s == session,
            (Some(name), Ok(s)) => is_admin(users@, session.user_id@) && s.user_id@
                == session.user_id@ && s.csrf@ == session.csrf@ && s.tenant_id@ == name@,
            (Some(_), Err(e)) => !is_admin(users@, session.user_id@) && error::told(e)
                == error::refusal(FORBIDDEN, "此操作需要管理员权限"),
            (None, Err(_)) => false,
        },
{
    match workspace {
        None => Ok(session),
        Some(name) => {
            if let Err(e) = require_admin(users, &session) {
                return Err(e);
            }
            Ok(Session { user_id: session.user_id, tenant_id: name.to_owned(), csrf: session.csrf })
        },
    }
}

/// The name that the system gives the workspace of a user.
pub open spec fn workspace_name(username: Seq<char>) -> Seq<char> {
    username + "的工作空间"@
}

/// Whether another user has a name.
pub open spec fn name_taken(users: Seq<User>, name: Seq<char>, id: Seq<char>) -> bool {
    exists|i: int|
        0 <= i < users.len() && (#[trigger] users[i]).username@ == name && users[i].id@ != id
}

fn check_name(users: &Vec<User>, name: &str, id: &str) -> (r: bool)
    ensures
        r == name_taken(users@, name@, id@),
{
    let mut i: usize = 0;
    while i < users.len()
        invariant
            i <= users@.len(),
            forall|j: int|
                0 <= j < i ==> !((#[trigger] users@[j]).username@ == name@ && users@[j].id@
                    != id@),
        decreases users@.len() - i,
    {
        if same(users[i].username.as_str(), name) && !same(users[i].id.as_str(), id) {
            return true;
        }
        i = i + 1;
    }
    false
}

/// The name of a user after a change.
pub open spec fn next_name(user: User, input: UserUpdate) -> Seq<char> {
    match input.username {
        Some(name) => text::trimmed(name@),
        None => user.username@,
    }
}

/// Whether a user is enabled after a change.
pub open spec fn next_enabled(user: User, input: UserUpdate) -> bool {
    match input.enabled {
        Some(flag) => flag,
        None => user.enabled,
    }
}

/// Why a change of a user is refused, if it is. The administrator may change the own name alone.
pub open spec fn update_refusal(
    users: Seq<User>,
    actor: Seq<char>,
    id: Seq<char>,
    input: UserUpdate,
) -> Option<error::Refusal> {
    if input.role is Some {
        error::refusal(BAD_REQUEST, "系统只有一位管理员，不支持修改角色")
    } else if input.username matches Some(name) && auth::username_refusal(name@) is Some {
        auth::username_refusal(input.username->0@)
    } else {
        match auth::user_at(users, id) {
            None => error::refusal(NOT_FOUND, "用户不存在"),
            Some(k) => if users[k].role@ == "system_admin"@ && (input.enabled is Some || actor
                != id) {
                error::refusal(FORBIDDEN, "管理员只能修改自己的用户名，不能启停管理员")
            } else if next_name(users[k], input) != users[k].username@ && name_taken(
                users,
                next_name(users[k], input),
                id,
            ) {
                error::refusal(CONFLICT, "用户名已被使用")
            } else {
                None
            },
        }
    }
}

/// What a change of a user comes to.
#[derive(Debug, Clone)]
pub struct UserChange {
    pub username: String,
    pub enabled: bool,
    pub renamed: bool,
    pub status_changed: bool,
    /// Whether the acting user has to sign in again.
    pub reauthenticate: bool,
    /// Whether the devices of the workspace go offline and its open enrollments end.
    pub withdraw_devices: bool,
    pub events: Vec<AuditEvent>,
}

/// Whether a workspace is what it is after a change of its user.
pub open spec fn tenant_changed(
    before: Tenant,
    after: Tenant,
    user: User,
    name: Seq<char>,
    enabled: bool,
) -> bool {
    let own = before.id@ == user.tenant_id@;
    let renamed = own && name != user.username@ && user.role@ == "tenant"@ && before.name@
        == workspace_name(user.username@);
    &&& after.id@ == before.id@
    &&& after.created_at == before.created_at
    &&& after.name@ == (if renamed {
        workspace_name(name)
    } else {
        before.name@
    })
    &&& after.enabled == (if own && enabled != user.enabled {
        enabled
    } else {
        before.enabled
    })
}

fn change_tenants(tenants: &mut Vec<Tenant>, user: &User, name: &str, enabled: bool)
    ensures
        final(tenants)@.len() == old(tenants)@.len(),
        forall|i: int|
            0 <= i < old(tenants)@.len() ==> tenant_changed(
                #[trigger] old(tenants)@[i],
                final(tenants)@[i],
                *user,
                name@,
                enabled,
            ),
{
    let old_name: String = join2(user.username.as_str(), "的工作空间");
    let new_name: String = join2(name, "的工作空间");
    let rename: bool = !same(name, user.username.as_str()) && same(user.role.as_str(), "tenant");
    let mut next: Vec<Tenant> = Vec::new();
    let mut i: usize = 0;
    while i < tenants.len()
        invariant
            i <= tenants@.len(),
            tenants@ == old(tenants)@,
            next@.len() == i,
            old_name@ == workspace_name(user.username@),
            new_name@ == workspace_name(name@),
            rename == (name@ != user.username@ && user.role@ == "tenant"@),
            forall|j: int|
                0 <= j < i ==> tenant_changed(
                    #[trigger] old(tenants)@[j],
                    next@[j],
                    *user,
                    name@,
                    enabled,
                ),
        decreases tenants@.len() - i,
    {
        let row: &Tenant = &tenants[i];
        let own: bool = same(row.id.as_str(), user.tenant_id.as_str());
        let changed = Tenant {
            id: row.id.clone(),
            name: if own && rename && same(row.name.as_str(), old_name.as_str()) {
                new_name.clone()
            } else {
                row.name.clone()
            },
            enabled: if own && enabled != user.enabled {
                enabled
            } else {
                row.enabled
            },
            created_at: row.created_at,
        };
        next.push(changed);
        assert(tenant_changed(old(tenants)@[i as int], changed, *user, name@, enabled));
        i = i + 1;
    }
    *tenants = next;
}

/// Changes the name of a user or switches the user off or on. A new name and a switch off end all
/// sessions and the recovery code of the user.
pub fn update_user(
    accounts: &mut Accounts,
    actor: &Session,
    id: &str,
    input: &UserUpdate,
    now: i64,
) -> (r: Result<UserChange, ApiError>)
    ensures
        final(accounts).invitations == old(accounts).invitations,
        match r {
            Err(e) => update_refusal(old(accounts).users@, actor.user_id@, id@, *input)
                == error::told(e) && *final(accounts) == *old(accounts),
            Ok(change) => update_refusal(old(accounts).users@, actor.user_id@, id@, *input) is None
                && (auth::user_at(old(accounts).users@, id@) matches Some(k) && ({
                let user = old(accounts).users@[k];
                let name = next_name(user, *input);
                let enabled = next_enabled(user, *input);
                let renamed = name != user.username@;
                let switched = enabled != user.enabled;
                let ends = renamed || (switched && !enabled);
                &&& change.username@ == name
                &&& change.enabled == enabled
                &&& change.renamed == renamed
                &&& change.status_changed == switched
                &&& change.reauthenticate == (renamed && actor.user_id@ == id@)
                &&& change.withdraw_devices == (switched && !enabled)
                &&& final(accounts).users@.len() == old(accounts).users@.len()
                &&& final(accounts).users@[k].username@ == name
                &&& final(accounts).users@ == old(accounts).users@.update(
                    k,
                    User { username: final(accounts).users@[k].username, enabled, ..user },
                )
                &&& final(accounts).tenants@.len() == old(accounts).tenants@.len()
                &&& forall|i: int|
                    0 <= i < old(accounts).tenants@.len() ==> tenant_changed(
                        #[trigger] old(accounts).tenants@[i],
                        final(accounts).tenants@[i],
                        user,
                        name,
                        enabled,
                    )
                &&& final(accounts).sessions@ == (if ends {
                    auth::sessions_without(
                        old(accounts).sessions@,
                        id@,
                        old(accounts).sessions@.len() as int,
                    )
                } else {
                    old(accounts).sessions@
                })
                &&& final(accounts).recoveries@ == (if ends {
                    auth::recoveries_without(
                        old(accounts).recoveries@,
                        id@,
                        old(accounts).recoveries@.len() as int,
                    )
                } else {
                    old(accounts).recoveries@
                })
                &&& change.events@.len() == (if renamed {
                    1int
                } else {
                    0
                }) + (if switched {
                    1int
                } else {
                    0
                })
                &&& renamed ==> auth::is_audit(
                    change.events@[0],
                    user.tenant_id@,
                    Some(actor.user_id@),
                    "user_renamed"@,
                    "user"@,
                    id@,
                    now,
                )
                &&& switched ==> auth::is_audit(
                    change.events@.last(),
                    user.tenant_id@,
                    Some(actor.user_id@),
                    if enabled {
                        "user_enabled"@
                    } else {
                        "user_disabled"@
                    },
                    "user"@,
                    id@,
                    now,
                )
            })),
        },
{
    if input.role.is_some() {
        return Err(
            ApiError::new(BAD_REQUEST, "系统只有一位管理员，不支持修改角色"),
        );
    }
    if let Some(name) = &input.username {
        if let Err(e) = validate_username(name.as_str()) {
            return Err(e);
        }
    }
    let k: usize = match find_user(&accounts.users, id) {
        Some(k) => k,
        None => {
            return Err(ApiError::new(NOT_FOUND, "用户不存在"));
        },
    };
    let user: User = copy_user(&accounts.users[k]);
    if same(user.role.as_str(), "system_admin") && (input.enabled.is_some() || !same(
        actor.user_id.as_str(),
        id,
    )) {
        return Err(
            ApiError::new(
                FORBIDDEN,
                "管理员只能修改自己的用户名，不能启停管理员",
            ),
        );
    }
    let name: String = match &input.username {
        Some(name) => trim(name.as_str()),
        None => user.username.clone(),
    };
    let enabled: bool = match input.enabled {
        Some(flag) => flag,
        None => user.enabled,
    };
    let renamed: bool = !same(name.as_str(), user.username.as_str());
    let switched: bool = enabled != user.enabled;
    if renamed && check_name(&accounts.users, name.as_str(), id) {
        return Err(ApiError::new(CONFLICT, "用户名已被使用"));
    }
    change_tenants(&mut accounts.tenants, &user, name.as_str(), enabled);
    let mut next: User = copy_user(&user);
    next.username = name.clone();
    next.enabled = enabled;
    accounts.users.set(k, next);
    if renamed || (switched && !enabled) {
        remove_sessions(&mut accounts.sessions, id);
        remove_recoveries(&mut accounts.recoveries, id);
    }
    let scoped = Session {
        user_id: actor.user_id.clone(),
        tenant_id: user.tenant_id.clone(),
        csrf: actor.csrf.clone(),
    };
    let mut events: Vec<AuditEvent> = Vec::new();
    if renamed {
        events.push(audit(&scoped, "user_renamed", "user", id, now));
    }
    if switched {
        let what: &str = if enabled {
            "user_enabled"
        } else {
            "user_disabled"
        };
        events.push(audit(&scoped, what, "user", id, now));
    }
    Ok(
        UserChange {
            username: name,
            enabled,
            renamed,
            status_changed: switched,
            reauthenticate: renamed && same(actor.user_id.as_str(), id),
            withdraw_devices: switched && !enabled,
            events,
        },
    )
}

/// The administrator is never switched off, on or given another role: a change that is accepted
/// leaves the administrator enabled as before.
pub proof fn the_administrator_stays_enabled(
    users: Seq<User>,
    actor: Seq<char>,
    id: Seq<char>,
    input: UserUpdate,
    k: int,
)
    requires
        auth::user_at(users, id) == Some(k),
        0 <= k < users.len(),
        users[k].role@ == "system_admin"@,
        update_refusal(users, actor, id, input) is None,
    ensures
        next_enabled(users[k], input) == users[k].enabled,
        actor == id,
{
}

/// Whether no two users have one name.
pub open spec fn names_differ(users: Seq<User>) -> bool {
    forall|i: int, j: int|
        0 <= i < j < users.len() ==> (#[trigger] users[i]).username@ != (
        #[trigger] users[j]).username@
}

/// Whether no two users have one identifier.
pub open spec fn ids_differ(users: Seq<User>) -> bool {
    forall|i: int, j: int|
        0 <= i < j < users.len() ==> (#[trigger] users[i]).id@ != (#[trigger] users[j]).id@
}

/// User names stay different through every change of a user.
pub proof fn renaming_keeps_names_different(
    users: Seq<User>,
    actor: Seq<char>,
    id: Seq<char>,
    input: UserUpdate,
    k: int,
    changed: User,
)
    requires
        names_differ(users),
        ids_differ(users),
        auth::user_at(users, id) == Some(k),
        0 <= k < users.len(),
        users[k].id@ == id,
        update_refusal(users, actor, id, input) is None,
        changed.username@ == next_name(users[k], input),
    ensures
        names_differ(users.update(k, changed)),
{
    let after = users.update(k, changed);
    assert forall|i: int, j: int| 0 <= i < j < after.len() implies (#[trigger] after[i]).username@
        != (#[trigger] after[j]).username@ by {
        let name = changed.username@;
        if name != users[k].username@ {
            if i == k {
                assert(users[k].id@ != users[j].id@);
                assert(!(users[j].username@ == name && users[j].id@ != id));
            } else if j == k {
                assert(users[i].id@ != users[k].id@);
                assert(!(users[i].username@ == name && users[i].id@ != id));
            } else {
                assert(users[i].username@ != users[j].username@);
            }
        } else {
            assert(users[i].username@ != users[j].username@);
        }
    }
}

/// Whether another user shares a workspace.
pub open spec fn shared_workspace(users: Seq<User>, tenant: Seq<char>, id: Seq<char>) -> bool {
    exists|i: int|
        0 <= i < users.len() && (#[trigger] users[i]).tenant_id@ == tenant && users[i].id@ != id
}

/// Why a user cannot be deleted, if that is so: the administrator never can, and the current name
/// has to be confirmed.
pub open spec fn delete_refusal(
    users: Seq<User>,
    actor: Seq<char>,
    id: Seq<char>,
    confirmed: Seq<char>,
) -> Option<error::Refusal> {
    match auth::user_at(users, id) {
        None => error::refusal(NOT_FOUND, "用户不存在或已被删除"),
        Some(k) => if users[k].role@ == "system_admin"@ || actor == id {
            error::refusal(FORBIDDEN, "不能删除管理员账号")
        } else if confirmed != users[k].username@ {
            error::refusal(CONFLICT, "确认用户名不匹配，请刷新用户信息后重试")
        } else if shared_workspace(users, users[k].tenant_id@, id) {
            error::refusal(CONFLICT, "此工作空间仍关联其他账号，不能删除")
        } else {
            None
        },
    }
}

/// Those of the first `n` users that are not of a workspace.
pub open spec fn users_outside(list: Seq<User>, tenant: Seq<char>, n: int) -> Seq<User>
    decreases n,
{
    if n <= 0 {
        Seq::empty()
    } else if list[n - 1].tenant_id@ == tenant {
        users_outside(list, tenant, n - 1)
    } else {
        users_outside(list, tenant, n - 1).push(list[n - 1])
    }
}

/// Those of the first `n` workspaces that are not one.
pub open spec fn tenants_without(list: Seq<Tenant>, tenant: Seq<char>, n: int) -> Seq<Tenant>
    decreases n,
{
    if n <= 0 {
        Seq::empty()
    } else if list[n - 1].id@ == tenant {
        tenants_without(list, tenant, n - 1)
    } else {
        tenants_without(list, tenant, n - 1).push(list[n - 1])
    }
}

/// Whether an invitation was made or used by a user.
pub open spec fn invitation_of(row: InvitationRow, user: Seq<char>) -> bool {
    text::opt(row.used_by) == Some(user) || row.created_by@ == user
}

/// Those of the first `n` invitations that a user has neither made nor used.
pub open spec fn invitations_without(list: Seq<InvitationRow>, user: Seq<char>, n: int) -> Seq<
    InvitationRow,
>
    decreases n,
{
    if n <= 0 {
        Seq::empty()
    } else if invitation_of(list[n - 1], user) {
        invitations_without(list, user, n - 1)
    } else {
        invitations_without(list, user, n - 1).push(list[n - 1])
    }
}

fn copy_tenant(row: &Tenant) -> (r: Tenant)
    ensures
        r == *row,
{
    Tenant {
        id: row.id.clone(),
        name: row.name.clone(),
        enabled: row.enabled,
        created_at: row.created_at,
    }
}

fn copy_invitation(row: &InvitationRow) -> (r: InvitationRow)
    ensures
        r == *row,
{
    InvitationRow {
        id: row.id.clone(),
        token_digest: row.token_digest.clone(),
        created_by: row.created_by.clone(),
        created_at: row.created_at,
        expires_at: row.expires_at,
        used_by: match &row.used_by {
            Some(user) => Some(user.clone()),
            None => None,
        },
        revoked_at: row.revoked_at,
    }
}

fn remove_users(list: &mut Vec<User>, tenant: &str)
    ensures
        final(list)@ == users_outside(old(list)@, tenant@, old(list)@.len() as int),
{
    let mut kept: Vec<User> = Vec::new();
    let ghost all = list@;
    let mut i: usize = 0;
    while i < list.len()
        invariant
            i <= list@.len(),
            all == list@,
            all == old(list)@,
            kept@ == users_outside(all, tenant@, i as int),
        decreases list@.len() - i,
    {
        if !same(list[i].tenant_id.as_str(), tenant) {
            kept.push(copy_user(&list[i]));
        }
        i = i + 1;
    }
    *list = kept;
}

fn remove_tenants(list: &mut Vec<Tenant>, tenant: &str)
    ensures
        final(list)@ == tenants_without(old(list)@, tenant@, old(list)@.len() as int),
{
    let mut kept: Vec<Tenant> = Vec::new();
    let ghost all = list@;
    let mut i: usize = 0;
    while i < list.len()
        invariant
            i <= list@.len(),
            all == list@,
            all == old(list)@,
            kept@ == tenants_without(all, tenant@, i as int),
        decreases list@.len() - i,
    {
        if !same(list[i].id.as_str(), tenant) {
            kept.push(copy_tenant(&list[i]));
        }
        i = i + 1;
    }
    *list = kept;
}

fn remove_invitations(list: &mut Vec<InvitationRow>, user: &str)
    ensures
        final(list)@ == invitations_without(old(list)@, user@, old(list)@.len() as int),
{
    let mut kept: Vec<InvitationRow> = Vec::new();
    let ghost all = list@;
    let mut i: usize = 0;
    while i < list.len()
        invariant
            i <= list@.len(),
            all == list@,
            all == old(list)@,
            kept@ == invitations_without(all, user@, i as int),
        decreases list@.len() - i,
    {
        if !(is_text(&list[i].used_by, user) || same(list[i].created_by.as_str(), user)) {
            kept.push(copy_invitation(&list[i]));
        }
        i = i + 1;
    }
    *list = kept;
}

/// Deletes a user with the workspace and all that belongs to them: sessions, the recovery code and
/// the invitations. Gives the workspace and what is kept of the action.
pub fn delete_user(
    accounts: &mut Accounts,
    actor: &Session,
    id: &str,
    confirm_username: &str,
    now: i64,
) -> (r: Result<(String, AuditEvent), ApiError>)
    ensures
        match r {
            Err(e) => delete_refusal(
                old(accounts).users@,
                actor.user_id@,
                id@,
                confirm_username@,
            ) == error::told(e) && *final(accounts) == *old(accounts),
            Ok(done) => delete_refusal(
                old(accounts).users@,
                actor.user_id@,
                id@,
                confirm_username@,
            ) is None && (auth::user_at(old(accounts).users@, id@) matches Some(k) && ({
                let tenant = old(accounts).users@[k].tenant_id@;
                &&& done.0@ == tenant
                &&& auth::is_audit(
                    done.1,
                    tenant,
                    Some(actor.user_id@),
                    "user_deleted"@,
                    "user"@,
                    id@,
                    now,
                )
                &&& final(accounts).users@ == users_outside(
                    old(accounts).users@,
                    tenant,
                    old(accounts).users@.len() as int,
                )
                &&& final(accounts).tenants@ == tenants_without(
                    old(accounts).tenants@,
                    tenant,
                    old(accounts).tenants@.len() as int,
                )
                &&& final(accounts).sessions@ == auth::sessions_without(
                    old(accounts).sessions@,
                    id@,
                    old(accounts).sessions@.len() as int,
                )
                &&& final(accounts).recoveries@ == auth::recoveries_without(
                    old(accounts).recoveries@,
                    id@,
                    old(accounts).recoveries@.len() as int,
                )
                &&& final(accounts).invitations@ == invitations_without(
                    old(accounts).invitations@,
                    id@,
                    old(accounts).invitations@.len() as int,
                )
            })),
        },
{
    let k: usize = match find_user(&accounts.users, id) {
        Some(k) => k,
        None => {
            return Err(ApiError::new(NOT_FOUND, "用户不存在或已被删除"));
        },
    };
    let user: User = copy_user(&accounts.users[k]);
    if same(user.role.as_str(), "system_admin") || same(actor.user_id.as_str(), id) {
        return Err(ApiError::new(FORBIDDEN, "不能删除管理员账号"));
    }
    if !same(confirm_username, user.username.as_str()) {
        return Err(
            ApiError::new(CONFLICT, "确认用户名不匹配，请刷新用户信息后重试"),
        );
    }
    let tenant: String = user.tenant_id.clone();
    let mut i: usize = 0;
    while i < accounts.users.len()
        invariant
            i <= accounts.users@.len(),
            *accounts == *old(accounts),
            tenant@ == user.tenant_id@,
            auth::user_at(old(accounts).users@, id@) == Some(k as int),
            k < old(accounts).users@.len(),
            user == old(accounts).users@[k as int],
            user.role@ != "system_admin"@,
            actor.user_id@ != id@,
            confirm_username@ == user.username@,
            forall|j: int|
                0 <= j < i ==> !((#[trigger] accounts.users@[j]).tenant_id@ == tenant@
                    && accounts.users@[j].id@ != id@),
        decreases accounts.users@.len() - i,
    {
        if same(accounts.users[i].tenant_id.as_str(), tenant.as_str()) && !same(
            accounts.users[i].id.as_str(),
            id,
        ) {
            return Err(
                ApiError::new(CONFLICT, "此工作空间仍关联其他账号，不能删除"),
            );
        }
        i = i + 1;
    }
    let scoped = Session {
        user_id: actor.user_id.clone(),
        tenant_id: tenant.clone(),
        csrf: actor.csrf.clone(),
    };
    let event: AuditEvent = audit(&scoped, "user_deleted", "user", id, now);
    remove_invitations(&mut accounts.invitations, id);
    remove_recoveries(&mut accounts.recoveries, id);
    remove_tenants(&mut accounts.tenants, tenant.as_str());
    remove_users(&mut accounts.users, tenant.as_str());
    remove_sessions(&mut accounts.sessions, id);
    Ok((tenant, event))
}

proof fn lemma_users_outside(list: Seq<User>, tenant: Seq<char>, n: int)
    requires
        0 <= n <= list.len(),
    ensures
        forall|i: int|
            0 <= i < users_outside(list, tenant, n).len() ==> (#[trigger] users_outside(
                list,
                tenant,
                n,
            )[i]).tenant_id@ != tenant,
        forall|i: int|
            0 <= i < n && (#[trigger] list[i]).tenant_id@ != tenant ==> users_outside(
                list,
                tenant,
                n,
            ).contains(list[i]),
    decreases n,
{
    if n > 0 {
        lemma_users_outside(list, tenant, n - 1);
        let before = users_outside(list, tenant, n - 1);
        let after = users_outside(list, tenant, n);
        assert forall|i: int|
            0 <= i < n && (#[trigger] list[i]).tenant_id@ != tenant implies after.contains(
            list[i],
        ) by {
            if i < n - 1 {
                assert(before.contains(list[i]));
                let k = choose|k: int| 0 <= k < before.len() && before[k] == list[i];
                assert(after[k] == list[i]);
            } else {
                assert(after[after.len() - 1] == list[i]);
            }
        }
    }
}

/// Deleting a user deletes this user alone: every other user stays, the administrators among them.
pub proof fn deleting_touches_no_other_user(
    users: Seq<User>,
    actor: Seq<char>,
    id: Seq<char>,
    confirmed: Seq<char>,
    k: int,
    other: int,
)
    requires
        auth::user_at(users, id) == Some(k),
        0 <= k < users.len(),
        delete_refusal(users, actor, id, confirmed) is None,
        0 <= other < users.len(),
        users[other].id@ != id,
    ensures
        users_outside(users, users[k].tenant_id@, users.len() as int).contains(users[other]),
{
    assert(!(users[other].tenant_id@ == users[k].tenant_id@ && users[other].id@ != id));
    lemma_users_outside(users, users[k].tenant_id@, users.len() as int);
}

/// A link with which a user replaces a forgotten password.
#[derive(Debug, Clone)]
pub struct RecoveryLink {
    pub token: String,
    pub expires_at: i64,
}

/// Whether a user can get a recovery link: an enabled one who is no administrator.
pub open spec fn link_allowed(users: Seq<User>, id: Seq<char>) -> bool {
    auth::user_at(users, id) matches Some(k) && users[k].role@ == "tenant"@ && users[k].enabled
}

/// Makes a recovery link for a user, in place of an earlier one.
pub fn create_recovery(accounts: &mut Accounts, actor: &Session, id: &str, now: i64) -> (r: Result<
    (RecoveryLink, AuditEvent),
    ApiError,
>)
    ensures
        final(accounts).users == old(accounts).users,
        final(accounts).tenants == old(accounts).tenants,
        final(accounts).sessions == old(accounts).sessions,
        final(accounts).invitations == old(accounts).invitations,
        match r {
            Err(e) => !link_allowed(old(accounts).users@, id@) && *final(accounts) == *old(accounts)
                && error::told(e) == error::refusal(
                BAD_REQUEST,
                "只能为已启用的普通用户生成恢复链接",
            ),
            Ok(made) => link_allowed(old(accounts).users@, id@) && ({
                let kept = auth::recoveries_without(
                    old(accounts).recoveries@,
                    id@,
                    old(accounts).recoveries@.len() as int,
                );
                let row = final(accounts).recoveries@.last();
                &&& final(accounts).recoveries@.len() == kept.len() + 1
                &&& final(accounts).recoveries@.drop_last() == kept
                &&& row.id@ == id@ && !row.used && row.expires_at == made.0.expires_at
                &&& row.recovery_digest@ == digest::digest_of(made.0.token@)
                &&& made.0.expires_at == enrollment_token::later(now, RECOVERY_SECONDS)
                &&& digest::secret_token(made.0.token@)
            }),
        },
        r matches Ok(made) ==> (auth::user_at(old(accounts).users@, id@) matches Some(k)
            && auth::is_audit(
            made.1,
            old(accounts).users@[k].tenant_id@,
            Some(actor.user_id@),
            "recovery_created"@,
            "user"@,
            id@,
            now,
        )),
{
    if let Some(k) = find_user(&accounts.users, id) {
        if same(accounts.users[k].role.as_str(), "tenant") && accounts.users[k].enabled {
            let scoped = Session {
                user_id: actor.user_id.clone(),
                tenant_id: accounts.users[k].tenant_id.clone(),
                csrf: actor.csrf.clone(),
            };
            let token: String = digest::random_token();
            let expires_at: i64 = enrollment_token::add_seconds(now, RECOVERY_SECONDS);
            remove_recoveries(&mut accounts.recoveries, id);
            let ghost kept = accounts.recoveries@;
            accounts.recoveries.push(
                Recovery {
                    id: id.to_owned(),
                    recovery_digest: digest(token.as_str()),
                    expires_at,
                    used: false,
                },
            );
            assert(accounts.recoveries@.drop_last() =~= kept);
            let event: AuditEvent = audit(&scoped, "recovery_created", "user", id, now);
            return Ok((RecoveryLink { token, expires_at }, event));
        }
    }
    Err(
        ApiError::new(BAD_REQUEST, "只能为已启用的普通用户生成恢复链接"),
    )
}

/// The state of an invitation as it is shown.
pub open spec fn invitation_state(row: InvitationRow, now: i64) -> Seq<char> {
    if row.used_by is Some {
        "used"@
    } else if row.revoked_at is Some {
        "revoked"@
    } else if row.expires_at <= now {
        "expired"@
    } else {
        "pending"@
    }
}

/// An invitation as it is shown.
#[derive(Debug, Clone)]
pub struct Invitation {
    pub id: String,
    pub created_at: i64,
    pub expires_at: i64,
    pub status: String,
    pub username: Option<String>,
}

/// Whether an invitation is shown as it is, with the name of the user who has used it.
pub open spec fn is_shown(
    shown: Invitation,
    row: InvitationRow,
    users: Seq<User>,
    now: i64,
) -> bool {
    &&& shown.id@ == row.id@
    &&& shown.created_at == row.created_at
    &&& shown.expires_at == row.expires_at
    &&& shown.status@ == invitation_state(row, now)
    &&& text::opt(shown.username) == (match row.used_by {
        Some(user) => match auth::user_at(users, user@) {
            Some(k) => Some(users[k].username@),
            None => None,
        },
        None => None,
    })
}

/// An invitation as it is shown, with the name of the user who has used it.
pub fn show_invitation(row: &InvitationRow, users: &Vec<User>, now: i64) -> (r: Invitation)
    ensures
        is_shown(r, *row, users@, now),
{
    let status: &str = if row.used_by.is_some() {
        "used"
    } else if row.revoked_at.is_some() {
        "revoked"
    } else if row.expires_at <= now {
        "expired"
    } else {
        "pending"
    };
    let username: Option<String> = match &row.used_by {
        Some(user) => match find_user(users, user.as_str()) {
            Some(k) => Some(users[k].username.clone()),
            None => None,
        },
        None => None,
    };
    Invitation {
        id: row.id.clone(),
        created_at: row.created_at,
        expires_at: row.expires_at,
        status: status.to_owned(),
        username,
    }
}

/// A new invitation, as its maker sees it.
#[derive(Debug, Clone)]
pub struct NewInvitation {
    pub id: String,
    pub token: String,
    pub expires_at: i64,
}

/// Makes an invitation. Only the digest of its secret is stored.
pub fn create_invitation(accounts: &mut Accounts, actor: &Session, now: i64) -> (r: (
    NewInvitation,
    AuditEvent,
))
    ensures
        final(accounts).users == old(accounts).users,
        final(accounts).tenants == old(accounts).tenants,
        final(accounts).sessions == old(accounts).sessions,
        final(accounts).recoveries == old(accounts).recoveries,
        final(accounts).invitations@.len() == old(accounts).invitations@.len() + 1,
        final(accounts).invitations@.drop_last() == old(accounts).invitations@,
        ({
            let row = final(accounts).invitations@.last();
            &&& row.id@ == r.0.id@ && digest::uuid_text(row.id@)
            &&& row.token_digest@ == digest::digest_of(r.0.token@)
            &&& row.created_by@ == actor.user_id@ && row.created_at == now
            &&& row.expires_at == r.0.expires_at && r.0.expires_at == enrollment_token::later(
                now,
                INVITATION_SECONDS,
            )
            &&& row.used_by is None && row.revoked_at is None
            &&& auth::is_audit(
                r.1,
                actor.tenant_id@,
                Some(actor.user_id@),
                "invitation_created"@,
                "invitation"@,
                r.0.id@,
                now,
            )
        }),
        digest::secret_token(r.0.token@),
{
    let token: String = digest::random_token();
    let id: String = new_uuid();
    let expires_at: i64 = enrollment_token::add_seconds(now, INVITATION_SECONDS);
    accounts.invitations.push(
        InvitationRow {
            id: id.clone(),
            token_digest: digest(token.as_str()),
            created_by: actor.user_id.clone(),
            created_at: now,
            expires_at,
            used_by: None,
            revoked_at: None,
        },
    );
    assert(accounts.invitations@.drop_last() =~= old(accounts).invitations@);
    let event: AuditEvent = audit(actor, "invitation_created", "invitation", id.as_str(), now);
    (NewInvitation { id, token, expires_at }, event)
}

/// The invitations after one was withdrawn: one that was used stays as it is.
pub open spec fn withdrawn(list: Seq<InvitationRow>, id: Seq<char>, now: i64) -> Seq<InvitationRow> {
    Seq::new(
        list.len(),
        |i: int|
            if list[i].id@ == id && list[i].used_by is None {
                InvitationRow { revoked_at: Some(now), ..list[i] }
            } else {
                list[i]
            },
    )
}

/// Withdraws an invitation that was not used.
pub fn revoke_invitation(accounts: &mut Accounts, actor: &Session, id: &str, now: i64) -> (r:
    AuditEvent)
    ensures
        final(accounts).users == old(accounts).users,
        final(accounts).tenants == old(accounts).tenants,
        final(accounts).sessions == old(accounts).sessions,
        final(accounts).recoveries == old(accounts).recoveries,
        final(accounts).invitations@ == withdrawn(old(accounts).invitations@, id@, now),
        auth::is_audit(
            r,
            actor.tenant_id@,
            Some(actor.user_id@),
            "invitation_revoked"@,
            "invitation"@,
            id@,
            now,
        ),
{
    let mut next: Vec<InvitationRow> = Vec::new();
    let ghost all = accounts.invitations@;
    let mut i: usize = 0;
    while i < accounts.invitations.len()
        invariant
            i <= accounts.invitations@.len(),
            *accounts == *old(accounts),
            all == accounts.invitations@,
            next@ == withdrawn(all, id@, now).take(i as int),
        decreases accounts.invitations@.len() - i,
    {
        let mut row: InvitationRow = copy_invitation(&accounts.invitations[i]);
        if same(row.id.as_str(), id) && row.used_by.is_none() {
            row.revoked_at = Some(now);
        }
        next.push(row);
        assert(next@ =~= withdrawn(all, id@, now).take(i + 1));
        i = i + 1;
    }
    assert(withdrawn(all, id@, now).take(all.len() as int) =~= withdrawn(all, id@, now));
    accounts.invitations = next;
    audit(actor, "invitation_revoked", "invitation", id, now)
}

/// Whether an invitation can be used with a secret.
pub open spec fn invitation_usable(row: InvitationRow, token: Seq<char>, now: i64) -> bool {
    row.token_digest@ == digest::digest_of(token) && row.used_by is None && row.revoked_at is None
        && row.expires_at > now
}

/// The position of the first invitation from position `i` on that can be used with a secret.
pub open spec fn invitation_from(
    list: Seq<InvitationRow>,
    token: Seq<char>,
    now: i64,
    i: int,
) -> Option<int>
    decreases list.len() - i,
{
    if i < 0 || i >= list.len() {
        None
    } else if invitation_usable(list[i], token, now) {
        Some(i)
    } else {
        invitation_from(list, token, now, i + 1)
    }
}

/// Why an invitation is refused, if it is.
pub open spec fn invitation_refusal(list: Seq<InvitationRow>, token: Seq<char>, now: i64) -> Option<error::Refusal> {
    if text::byte_len(token) > 256 {
        error::refusal(BAD_REQUEST, "邀请链接无效")
    } else if invitation_from(list, token, now, 0) is None {
        error::refusal(BAD_REQUEST, "邀请链接已失效、已使用或已过期")
    } else {
        None
    }
}

/// The invitation that a secret is for.
pub fn valid_invitation(list: &Vec<InvitationRow>, token: &str, now: i64) -> (r: Result<
    usize,
    ApiError,
>)
    ensures
        match r {
            Ok(k) => invitation_refusal(list@, token@, now) is None && invitation_from(
                list@,
                token@,
                now,
                0,
            ) == Some(k as int) && k < list@.len(),
            Err(e) => invitation_refusal(list@, token@, now) == error::told(e),
        },
{
    if bytes_of(token) > 256 {
        return Err(ApiError::new(BAD_REQUEST, "邀请链接无效"));
    }
    let wanted: String = EnrollmentToken::digest(token);
    let mut i: usize = 0;
    while i < list.len()
        invariant
            i <= list@.len(),
            wanted@ == digest::digest_of(token@),
            text::byte_len(token@) <= 256,
            invitation_from(list@, token@, now, 0) == invitation_from(
                list@,
                token@,
                now,
                i as int,
            ),
        decreases list@.len() - i,
    {
        let row: &InvitationRow = &list[i];
        if same(row.token_digest.as_str(), wanted.as_str()) && row.used_by.is_none()
            && row.revoked_at.is_none() && row.expires_at > now {
            return Ok(i);
        }
        i = i + 1;
    }
    Err(ApiError::new(BAD_REQUEST, "邀请链接已失效、已使用或已过期"))
}

/// What a new user takes an invitation with.
pub struct AcceptInvitation {
    pub token: String,
    pub username: String,
    pub password: String,
}

/// Why an invitation cannot be taken, if it cannot, before the password is hashed.
pub open spec fn accept_refusal(
    invitations: Seq<InvitationRow>,
    signed_in: bool,
    input: AcceptInvitation,
    now: i64,
) -> Option<error::Refusal> {
    if signed_in {
        error::refusal(CONFLICT, "请先退出当前账号，再接受邀请")
    } else if auth::username_refusal(input.username@) is Some {
        auth::username_refusal(input.username@)
    } else if auth::password_refusal(input.password@) is Some {
        auth::password_refusal(input.password@)
    } else {
        invitation_refusal(invitations, input.token@, now)
    }
}

/// Checks whether an invitation can be taken, before the password is hashed.
pub fn check_accept(
    invitations: &Vec<InvitationRow>,
    signed_in: bool,
    input: &AcceptInvitation,
    now: i64,
) -> (r: Result<(), ApiError>)
    ensures
        match r {
            Ok(_) => accept_refusal(invitations@, signed_in, *input, now) is None,
            Err(e) => accept_refusal(invitations@, signed_in, *input, now) == error::told(e),
        },
{
    if signed_in {
        return Err(ApiError::new(CONFLICT, "请先退出当前账号，再接受邀请"));
    }
    if let Err(e) = validate_username(input.username.as_str()) {
        return Err(e);
    }
    if let Err(e) = validate_password(input.password.as_str()) {
        return Err(e);
    }
    match valid_invitation(invitations, input.token.as_str(), now) {
        Ok(_) => Ok(()),
        Err(e) => Err(e),
    }
}

/// Why a new user is not created, if that is so: the invitation is checked again, and the name must
/// be free.
pub open spec fn create_refusal(
    accounts: Accounts,
    token: Seq<char>,
    username: Seq<char>,
    now: i64,
) -> Option<error::Refusal> {
    if invitation_refusal(accounts.invitations@, token, now) is Some {
        invitation_refusal(accounts.invitations@, token, now)
    } else if exists|i: int|
        0 <= i < accounts.users@.len() && (#[trigger] accounts.users@[i]).username@
            == text::trimmed(username) {
        error::refusal(CONFLICT, "用户名已被使用")
    } else {
        None
    }
}

/// Creates the user of an invitation with a workspace of the own and a session, and uses up the
/// invitation.
pub fn accept_invitation(
    accounts: &mut Accounts,
    token: &str,
    username: &str,
    hash: String,
    now: i64,
) -> (r: Result<(SessionSecrets, AuditEvent), ApiError>)
    requires
        now + SESSION_SECONDS <= i64::MAX,
    ensures
        final(accounts).recoveries == old(accounts).recoveries,
        match r {
            Err(e) => create_refusal(*old(accounts), token@, username@, now) == error::told(e)
                && *final(accounts) == *old(accounts),
            Ok(done) => create_refusal(*old(accounts), token@, username@, now) is None && ({
                let name = text::trimmed(username@);
                let user = final(accounts).users@.last();
                let tenant = final(accounts).tenants@.last();
                let k = invitation_from(old(accounts).invitations@, token@, now, 0)->0;
                let row = old(accounts).invitations@[k];
                &&& final(accounts).users@.len() == old(accounts).users@.len() + 1
                &&& final(accounts).users@.drop_last() == old(accounts).users@
                &&& digest::uuid_text(user.id@) && user.tenant_id@ == tenant.id@
                &&& user.username@ == name && user.role@ == "tenant"@ && user.password_hash@ == hash@
                &&& user.enabled && user.created_at == now
                &&& final(accounts).tenants@.len() == old(accounts).tenants@.len() + 1
                &&& final(accounts).tenants@.drop_last() == old(accounts).tenants@
                &&& digest::uuid_text(tenant.id@) && tenant.name@ == workspace_name(name)
                &&& tenant.enabled && tenant.created_at == now
                &&& final(accounts).sessions@.len() == old(accounts).sessions@.len() + 1
                &&& final(accounts).sessions@.drop_last() == old(accounts).sessions@
                &&& auth::is_new_session(
                    final(accounts).sessions@.last(),
                    user.id@,
                    tenant.id@,
                    done.0.session@,
                    done.0.csrf@,
                    now,
                )
                &&& digest::secret_code(done.0.session@) && digest::secret_code(done.0.csrf@)
                &&& final(accounts).invitations@ == old(accounts).invitations@.update(
                    k,
                    InvitationRow { used_by: final(accounts).invitations@[k].used_by, ..row },
                )
                &&& text::opt(final(accounts).invitations@[k].used_by) == Some(user.id@)
                &&& auth::is_audit(
                    done.1,
                    tenant.id@,
                    Some(user.id@),
                    "account_created"@,
                    "invitation"@,
                    row.id@,
                    now,
                )
            }),
        },
{
    let k: usize = match valid_invitation(&accounts.invitations, token, now) {
        Ok(k) => k,
        Err(e) => {
            return Err(e);
        },
    };
    let name: String = trim(username);
    let mut i: usize = 0;
    while i < accounts.users.len()
        invariant
            i <= accounts.users@.len(),
            *accounts == *old(accounts),
            name@ == text::trimmed(username@),
            invitation_refusal(old(accounts).invitations@, token@, now) is None,
            forall|j: int| 0 <= j < i ==> (#[trigger] accounts.users@[j]).username@ != name@,
        decreases accounts.users@.len() - i,
    {
        if same(accounts.users[i].username.as_str(), name.as_str()) {
            return Err(ApiError::new(CONFLICT, "用户名已被使用"));
        }
        i = i + 1;
    }
    let user_id: String = new_uuid();
    let tenant_id: String = new_uuid();
    accounts.tenants.push(
        Tenant {
            id: tenant_id.clone(),
            name: join2(name.as_str(), "的工作空间"),
            enabled: true,
            created_at: now,
        },
    );
    assert(accounts.tenants@.drop_last() =~= old(accounts).tenants@);
    accounts.users.push(
        User {
            id: user_id.clone(),
            tenant_id: tenant_id.clone(),
            username: name,
            role: "tenant".to_owned(),
            password_hash: hash,
            enabled: true,
            created_at: now,
        },
    );
    assert(accounts.users@.drop_last() =~= old(accounts).users@);
    let mut row: InvitationRow = copy_invitation(&accounts.invitations[k]);
    let invitation: String = row.id.clone();
    row.used_by = Some(user_id.clone());
    accounts.invitations.set(k, row);
    let secrets: SessionSecrets = create_session(
        &mut accounts.sessions,
        user_id.as_str(),
        tenant_id.as_str(),
        now,
    );
    let session = Session { user_id, tenant_id, csrf: String::new() };
    let event: AuditEvent = audit(
        &session,
        "account_created",
        "invitation",
        invitation.as_str(),
        now,
    );
    Ok((secrets, event))
}

proof fn lemma_no_invitation(list: Seq<InvitationRow>, token: Seq<char>, now: i64, i: int)
    requires
        0 <= i,
        forall|j: int| i <= j < list.len() ==> !invitation_usable(#[trigger] list[j], token, now),
    ensures
        invitation_from(list, token, now, i) is None,
    decreases list.len() - i,
{
    if i < list.len() {
        lemma_no_invitation(list, token, now, i + 1);
    }
}

/// An invitation works once: after it was used, its secret is refused at any time. No other
/// invitation has the digest of its secret.
pub proof fn invitations_work_once(
    list: Seq<InvitationRow>,
    token: Seq<char>,
    k: int,
    user: String,
    later: i64,
)
    requires
        0 <= k < list.len(),
        forall|j: int|
            0 <= j < list.len() && j != k ==> (#[trigger] list[j]).token_digest@
                != digest::digest_of(token),
    ensures
        invitation_refusal(
            list.update(k, InvitationRow { used_by: Some(user), ..list[k] }),
            token,
            later,
        ) is Some,
{
    let after = list.update(k, InvitationRow { used_by: Some(user), ..list[k] });
    assert forall|j: int| 0 <= j < after.len() implies !invitation_usable(
        #[trigger] after[j],
        token,
        later,
    ) by {
        if j != k {
            assert(after[j] == list[j]);
        }
    }
    lemma_no_invitation(after, token, later, 0);
}

/// A withdrawn invitation is refused at any time. No other invitation has the digest of its secret.
pub proof fn withdrawn_invitations_are_refused(
    list: Seq<InvitationRow>,
    token: Seq<char>,
    id: Seq<char>,
    now: i64,
    later: i64,
)
    requires
        forall|j: int|
            0 <= j < list.len() && (#[trigger] list[j]).token_digest@ == digest::digest_of(token)
                ==> list[j].id@ == id,
    ensures
        invitation_refusal(withdrawn(list, id, now), token, later) is Some,
{
    let after = withdrawn(list, id, now);
    assert forall|j: int| 0 <= j < after.len() implies !invitation_usable(
        #[trigger] after[j],
        token,
        later,
    ) by {
        assert(after[j].token_digest@ == list[j].token_digest@);
    }
    lemma_no_invitation(after, token, later, 0);
}

/// A user as it is shown to the administrator, with how much there is in the workspace.
#[derive(Debug, Clone)]
pub struct UserSummary {
    pub id: String,
    pub username: String,
    pub role: String,
    pub workspace_id: String,
    pub workspace_name: String,
    pub enabled: bool,
    pub created_at: i64,
    pub devices: u64,
    pub services: u64,
    pub domains: u64,
}

/// A user as it is shown to the administrator.
pub ghost struct SummaryView {
    pub id: Seq<char>,
    pub username: Seq<char>,
    pub role: Seq<char>,
    pub workspace_id: Seq<char>,
    pub workspace_name: Seq<char>,
    pub enabled: bool,
    pub created_at: i64,
    pub devices: int,
    pub services: int,
    pub domains: int,
}

impl View for UserSummary {
    type V = SummaryView;

    open spec fn view(&self) -> SummaryView {
        SummaryView {
            id: self.id@,
            username: self.username@,
            role: self.role@,
            workspace_id: self.workspace_id@,
            workspace_name: self.workspace_name@,
            enabled: self.enabled,
            created_at: self.created_at,
            devices: self.devices as int,
            services: self.services as int,
            domains: self.domains as int,
        }
    }
}

/// How many of the first `n` belong to a workspace.
pub open spec fn owned_in(list: Seq<Owned>, tenant: Seq<char>, n: int) -> int
    decreases n,
{
    if n <= 0 {
        0
    } else {
        owned_in(list, tenant, n - 1) + (if list[n - 1].tenant_id@ == tenant {
            1int
        } else {
            0
        })
    }
}

fn count_owned(list: &Vec<Owned>, tenant: &str) -> (r: u64)
    ensures
        r == owned_in(list@, tenant@, list@.len() as int),
{
    let mut count: u64 = 0;
    let mut i: usize = 0;
    while i < list.len()
        invariant
            i <= list@.len(),
            count <= i,
            count == owned_in(list@, tenant@, i as int),
        decreases list@.len() - i,
    {
        if same(list[i].tenant_id.as_str(), tenant) {
            count = count + 1;
        }
        i = i + 1;
    }
    count
}

/// How many of the first `n` services belong to a workspace; deleted ones do not count.
pub open spec fn services_in(list: Seq<TunnelKey>, tenant: Seq<char>, n: int) -> int
    decreases n,
{
    if n <= 0 {
        0
    } else {
        services_in(list, tenant, n - 1) + (if list[n - 1].tenant_id@ == tenant && !list[n
            - 1].deleted {
            1int
        } else {
            0
        })
    }
}

fn count_services(list: &Vec<TunnelKey>, tenant: &str) -> (r: u64)
    ensures
        r == services_in(list@, tenant@, list@.len() as int),
{
    let mut count: u64 = 0;
    let mut i: usize = 0;
    while i < list.len()
        invariant
            i <= list@.len(),
            count <= i,
            count == services_in(list@, tenant@, i as int),
        decreases list@.len() - i,
    {
        if same(list[i].tenant_id.as_str(), tenant) && !list[i].deleted {
            count = count + 1;
        }
        i = i + 1;
    }
    count
}

/// The name of the first workspace from position `i` on with an identifier.
pub open spec fn stored_name(tenants: Seq<Tenant>, id: Seq<char>, i: int) -> Option<Seq<char>>
    decreases tenants.len() - i,
{
    if i < 0 || i >= tenants.len() {
        None
    } else if tenants[i].id@ == id {
        Some(tenants[i].name@)
    } else {
        stored_name(tenants, id, i + 1)
    }
}

fn find_name(tenants: &Vec<Tenant>, id: &str) -> (r: Option<String>)
    ensures
        text::opt(r) == stored_name(tenants@, id@, 0),
{
    let mut i: usize = 0;
    while i < tenants.len()
        invariant
            i <= tenants@.len(),
            stored_name(tenants@, id@, 0) == stored_name(tenants@, id@, i as int),
        decreases tenants@.len() - i,
    {
        if same(tenants[i].id.as_str(), id) {
            return Some(tenants[i].name.clone());
        }
        i = i + 1;
    }
    None
}

/// A user as it is shown, with the name of the workspace and how much there is in it.
pub open spec fn summary_of(
    user: User,
    workspace: Seq<char>,
    devices: Seq<Owned>,
    services: Seq<TunnelKey>,
    domains: Seq<Owned>,
) -> SummaryView {
    SummaryView {
        id: user.id@,
        username: user.username@,
        role: user.role@,
        workspace_id: user.tenant_id@,
        workspace_name: workspace,
        enabled: user.enabled,
        created_at: user.created_at,
        devices: owned_in(devices, user.tenant_id@, devices.len() as int),
        services: services_in(services, user.tenant_id@, services.len() as int),
        domains: owned_in(domains, user.tenant_id@, domains.len() as int),
    }
}

/// Those of the first `n` users whose workspace is there, as they are shown.
pub open spec fn summaries(
    users: Seq<User>,
    tenants: Seq<Tenant>,
    devices: Seq<Owned>,
    services: Seq<TunnelKey>,
    domains: Seq<Owned>,
    n: int,
) -> Seq<SummaryView>
    decreases n,
{
    if n <= 0 {
        Seq::empty()
    } else {
        let before = summaries(users, tenants, devices, services, domains, n - 1);
        match stored_name(tenants, users[n - 1].tenant_id@, 0) {
            Some(name) => before.push(
                summary_of(users[n - 1], name, devices, services, domains),
            ),
            None => before,
        }
    }
}

/// The users as they are shown to the administrator, in the order in which they are stored.
pub fn list_users(
    accounts: &Accounts,
    devices: &Vec<Owned>,
    services: &Vec<TunnelKey>,
    domains: &Vec<Owned>,
) -> (r: Vec<UserSummary>)
    ensures
        Seq::new(r@.len(), |i: int| r@[i]@) == summaries(
            accounts.users@,
            accounts.tenants@,
            devices@,
            services@,
            domains@,
            accounts.users@.len() as int,
        ),
{
    let mut list: Vec<UserSummary> = Vec::new();
    let mut i: usize = 0;
    while i < accounts.users.len()
        invariant
            i <= accounts.users@.len(),
            Seq::new(list@.len(), |j: int| list@[j]@) == summaries(
                accounts.users@,
                accounts.tenants@,
                devices@,
                services@,
                domains@,
                i as int,
            ),
        decreases accounts.users@.len() - i,
    {
        let user: &User = &accounts.users[i];
        let tenant: &str = user.tenant_id.as_str();
        if let Some(name) = find_name(&accounts.tenants, tenant) {
            let ghost before = Seq::new(list@.len(), |j: int| list@[j]@);
            let one = UserSummary {
                id: user.id.clone(),
                username: user.username.clone(),
                role: user.role.clone(),
                workspace_id: user.tenant_id.clone(),
                workspace_name: name,
                enabled: user.enabled,
                created_at: user.created_at,
                devices: count_owned(devices, tenant),
                services: count_services(services, tenant),
                domains: count_owned(domains, tenant),
            };
            list.push(one);
            assert(Seq::new(list@.len(), |j: int| list@[j]@) =~= before.push(one@));
        }
        i = i + 1;
    }
    list
}

/// How many invitations are listed at most.
pub const MAX_LISTED: usize = 100;

/// The invitations as they are shown, the first of those that are stored.
pub fn list_invitations(rows: &Vec<InvitationRow>, users: &Vec<User>, now: i64) -> (r: Vec<
    Invitation,
>)
    ensures
        r@.len() == (if rows@.len() < MAX_LISTED {
            rows@.len()
        } else {
            MAX_LISTED as nat
        }),
        forall|i: int| 0 <= i < r@.len() ==> is_shown(#[trigger] r@[i], rows@[i], users@, now),
{
    let mut list: Vec<Invitation> = Vec::new();
    while list.len() < rows.len() && list.len() < MAX_LISTED
        invariant
            list@.len() <= rows@.len(),
            list@.len() <= MAX_LISTED,
            forall|i: int|
                0 <= i < list@.len() ==> is_shown(#[trigger] list@[i], rows@[i], users@, now),
        decreases rows@.len() - list@.len(),
    {
        let one: Invitation = show_invitation(&rows[list.len()], users, now);
        list.push(one);
    }
    list
}

/// What is asked to look at an invitation.
pub struct InspectInvitation {
    pub token: String,
}

/// The end of the invitation that a secret is for.
pub fn inspect_invitation(list: &Vec<InvitationRow>, input: &InspectInvitation, now: i64) -> (r:
    Result<i64, ApiError>)
    ensures
        match r {
            Ok(end) => invitation_refusal(list@, input.token@, now) is None && (invitation_from(
                list@,
                input.token@,
                now,
                0,
            ) matches Some(k) && end == list@[k].expires_at),
            Err(e) => invitation_refusal(list@, input.token@, now) == error::told(e),
        },
{
    match valid_invitation(list, input.token.as_str(), now) {
        Ok(k) => Ok(list[k].expires_at),
        Err(e) => Err(e),
    }
}

proof fn lemma_picks_users(list: Seq<User>, tenant: Seq<char>, n: int, keep: spec_fn(int) -> bool, value: spec_fn(int) -> User)
    requires
        forall|i: int|
            0 <= i < n ==> #[trigger] keep(i) == (list[i].tenant_id@ != tenant) && value(i) == (list[i]),
    ensures
        users_outside(list, tenant, n) == picked::picked(keep, value, n),
    decreases n,
{
    if n > 0 {
        assert(keep(n - 1) || !keep(n - 1));
        lemma_picks_users(list, tenant, n - 1, keep, value);
    }
}

/// Deleting a workspace deletes the users of that workspace, and no other.
pub proof fn users_of_other_workspaces_stay(list: Seq<User>, tenant: Seq<char>)
    ensures
        forall|row: User| #[trigger]
            users_outside(list, tenant, list.len() as int).contains(row) <==> exists|i: int|
                0 <= i < list.len() && #[trigger] list[i] == row && row.tenant_id@ != tenant,
{
    let n = list.len() as int;
    let keep = |i: int| list[i].tenant_id@ != tenant;
    let value = |i: int| list[i];
    lemma_picks_users(list, tenant, n, keep, value);
    assert forall|row: User| #[trigger] users_outside(list, tenant, n).contains(row) <==> exists|i: int|
        0 <= i < list.len() && #[trigger] list[i] == row && row.tenant_id@ != tenant by {
        picked::lemma_picked_contains(keep, value, n, row);
        if users_outside(list, tenant, n).contains(row) {
            let i = choose|i: int| 0 <= i < n && #[trigger] keep(i) && value(i) == row;
            assert(list[i] == list[i]);
        }
        if exists|i: int| 0 <= i < list.len() && #[trigger] list[i] == row && row.tenant_id@ != tenant {
            let i = choose|i: int| 0 <= i < list.len() && #[trigger] list[i] == row && row.tenant_id@ != tenant;
            assert(keep(i) && value(i) == row);
        }
    }
}

proof fn lemma_tenants_without(list: Seq<Tenant>, tenant: Seq<char>, n: int, keep: spec_fn(int) -> bool, value: spec_fn(int) -> Tenant)
    requires
        forall|i: int|
            0 <= i < n ==> #[trigger] keep(i) == (list[i].id@ != tenant) && value(i) == (list[i]),
    ensures
        tenants_without(list, tenant, n) == picked::picked(keep, value, n),
    decreases n,
{
    if n > 0 {
        assert(keep(n - 1) || !keep(n - 1));
        lemma_tenants_without(list, tenant, n - 1, keep, value);
    }
}

/// Deleting a workspace leaves every other workspace.
pub proof fn other_workspaces_stay(list: Seq<Tenant>, tenant: Seq<char>)
    ensures
        forall|row: Tenant| #[trigger]
            tenants_without(list, tenant, list.len() as int).contains(row) <==> exists|i: int|
                0 <= i < list.len() && #[trigger] list[i] == row && row.id@ != tenant,
{
    let n = list.len() as int;
    let keep = |i: int| list[i].id@ != tenant;
    let value = |i: int| list[i];
    lemma_tenants_without(list, tenant, n, keep, value);
    assert forall|row: Tenant| #[trigger] tenants_without(list, tenant, n).contains(row) <==> exists|i: int|
        0 <= i < list.len() && #[trigger] list[i] == row && row.id@ != tenant by {
        picked::lemma_picked_contains(keep, value, n, row);
        if tenants_without(list, tenant, n).contains(row) {
            let i = choose|i: int| 0 <= i < n && #[trigger] keep(i) && value(i) == row;
            assert(list[i] == list[i]);
        }
        if exists|i: int| 0 <= i < list.len() && #[trigger] list[i] == row && row.id@ != tenant {
            let i = choose|i: int| 0 <= i < list.len() && #[trigger] list[i] == row && row.id@ != tenant;
            assert(keep(i) && value(i) == row);
        }
    }
}

proof fn lemma_invitations_without(list: Seq<InvitationRow>, user: Seq<char>, n: int, keep: spec_fn(int) -> bool, value: spec_fn(int) -> InvitationRow)
    requires
        forall|i: int|
            0 <= i < n ==> #[trigger] keep(i) == (list[i].created_by@ != user && text::opt(list[i].used_by) != Some(user)) && value(i) == (list[i]),
    ensures
        invitations_without(list, user, n) == picked::picked(keep, value, n),
    decreases n,
{
    if n > 0 {
        assert(keep(n - 1) || !keep(n - 1));
        lemma_invitations_without(list, user, n - 1, keep, value);
    }
}

/// With a user go the invitations that the user made or used, and no other.
pub proof fn invitations_of_others_stay(list: Seq<InvitationRow>, user: Seq<char>)
    ensures
        forall|row: InvitationRow| #[trigger]
            invitations_without(list, user, list.len() as int).contains(row) <==> exists|i: int|
                0 <= i < list.len() && #[trigger] list[i] == row && row.created_by@ != user && text::opt(row.used_by) != Some(user),
{
    let n = list.len() as int;
    let keep = |i: int| list[i].created_by@ != user && text::opt(list[i].used_by) != Some(user);
    let value = |i: int| list[i];
    lemma_invitations_without(list, user, n, keep, value);
    assert forall|row: InvitationRow| #[trigger] invitations_without(list, user, n).contains(row) <==> exists|i: int|
        0 <= i < list.len() && #[trigger] list[i] == row && row.created_by@ != user && text::opt(row.used_by) != Some(user) by {
        picked::lemma_picked_contains(keep, value, n, row);
        if invitations_without(list, user, n).contains(row) {
            let i = choose|i: int| 0 <= i < n && #[trigger] keep(i) && value(i) == row;
            assert(list[i] == list[i]);
        }
        if exists|i: int| 0 <= i < list.len() && #[trigger] list[i] == row && row.created_by@ != user && text::opt(row.used_by) != Some(user) {
            let i = choose|i: int| 0 <= i < list.len() && #[trigger] list[i] == row && row.created_by@ != user && text::opt(row.used_by) != Some(user);
            assert(keep(i) && value(i) == row);
        }
    }
}

proof fn lemma_usable_from(list: Seq<InvitationRow>, token: Seq<char>, now: i64, i: int)
    requires
        0 <= i,
    ensures
        invitation_from(list, token, now, i) matches Some(k) ==> i <= k < list.len()
            && invitation_usable(list[k], token, now),
        invitation_from(list, token, now, i) is None ==> forall|k: int|
            i <= k < list.len() ==> !invitation_usable(#[trigger] list[k], token, now),
    decreases list.len() - i,
{
    if i < list.len() && !invitation_usable(list[i], token, now) {
        lemma_usable_from(list, token, now, i + 1);
    }
}

/// An invitation is accepted exactly where the secret is that of one which was not used, was not
/// withdrawn and has not ended.
pub proof fn invitations_need_their_secret(list: Seq<InvitationRow>, token: Seq<char>, now: i64)
    ensures
        invitation_refusal(list, token, now) is None <==> text::byte_len(token) <= 256
            && exists|k: int|
            0 <= k < list.len() && (#[trigger] list[k]).token_digest@ == digest::digest_of(token)
                && list[k].used_by is None && list[k].revoked_at is None && list[k].expires_at
                > now,
        invitation_from(list, token, now, 0) matches Some(k) ==> 0 <= k < list.len()
            && list[k].token_digest@ == digest::digest_of(token) && list[k].used_by is None
            && list[k].revoked_at is None && list[k].expires_at > now,
{
    lemma_usable_from(list, token, now, 0);
    if let Some(k) = invitation_from(list, token, now, 0) {
        assert(list[k].token_digest@ == digest::digest_of(token));
    }
    assert forall|k: int|
        0 <= k < list.len() && (#[trigger] list[k]).token_digest@ == digest::digest_of(token)
            && list[k].used_by is None && list[k].revoked_at is None && list[k].expires_at
            > now implies invitation_usable(list[k], token, now) by {}
}

/// An invitation is shown as used once somebody has used it, else as revoked once it was withdrawn,
/// else as expired once its time has passed, and as pending before.
pub proof fn states_of_an_invitation(row: InvitationRow, now: i64)
    ensures
        invitation_state(row, now) == "used"@ <==> row.used_by is Some,
        invitation_state(row, now) == "revoked"@ <==> row.used_by is None && row.revoked_at is Some,
        invitation_state(row, now) == "expired"@ <==> row.used_by is None && row.revoked_at is None
            && row.expires_at <= now,
        invitation_state(row, now) == "pending"@ <==> row.used_by is None && row.revoked_at is None
            && row.expires_at > now,
{
    reveal_strlit("used");
    reveal_strlit("revoked");
    reveal_strlit("expired");
    reveal_strlit("pending");
    assert("used"@.len() == 4 && "revoked"@[0] == 'r' && "expired"@[0] == 'e' && "pending"@[0]
        == 'p' && "revoked"@.len() == 7 && "expired"@.len() == 7 && "pending"@.len() == 7);
}

/// What is shown of an invitation is what is stored of it; a name is shown only where it was used, and
/// is that of the user who used it.
pub proof fn invitations_are_shown_as_they_are_stored(
    shown: Invitation,
    row: InvitationRow,
    users: Seq<User>,
    now: i64,
)
    requires
        is_shown(shown, row, users, now),
    ensures
        shown.id@ == row.id@,
        shown.created_at == row.created_at,
        shown.expires_at == row.expires_at,
        row.used_by is None ==> shown.username is None,
        shown.username is Some ==> exists|k: int|
            0 <= k < users.len() && (#[trigger] users[k]).id@ == row.used_by->0@
                && users[k].username@ == shown.username->0@,
{
    if let Some(user) = row.used_by {
        auth::users_are_found_by_their_identifier(users, user@);
        if let Some(k) = auth::user_at(users, user@) {
            assert(users[k].id@ == user@);
        }
    }
}

/// Withdrawing an invitation marks it as withdrawn, unless it was used; nothing else changes.
pub proof fn withdrawing_marks_one_invitation(
    list: Seq<InvitationRow>,
    id: Seq<char>,
    now: i64,
    i: int,
)
    requires
        0 <= i < list.len(),
    ensures
        withdrawn(list, id, now).len() == list.len(),
        list[i].id@ == id && list[i].used_by is None ==> withdrawn(list, id, now)[i].revoked_at
            == Some(now),
        list[i].id@ != id || list[i].used_by is Some ==> withdrawn(list, id, now)[i] == list[i],
        withdrawn(list, id, now)[i].id == list[i].id,
        withdrawn(list, id, now)[i].token_digest == list[i].token_digest,
        withdrawn(list, id, now)[i].used_by == list[i].used_by,
        withdrawn(list, id, now)[i].expires_at == list[i].expires_at,
{
}

/// Only an enabled user with the role of a system administrator administers.
pub proof fn administrators_have_the_role(users: Seq<User>, id: Seq<char>)
    ensures
        is_admin(users, id) ==> exists|k: int|
            0 <= k < users.len() && (#[trigger] users[k]).id@ == id && users[k].role@
                == "system_admin"@ && users[k].enabled,
        is_admin(users, id) <== exists|k: int|
            0 <= k < users.len() && auth::user_at(users, id) == Some(k) && (
            #[trigger] users[k]).role@ == "system_admin"@ && users[k].enabled,
{
    auth::users_are_found_by_their_identifier(users, id);
    if let Some(k) = auth::user_at(users, id) {
        assert(users[k].id@ == id);
    }
}

/// A change of a user is accepted only where it leaves the role, gives a name of 2 to 64 bytes that
/// nobody else has, and concerns a user who is there. What is not asked for stays as it is.
pub proof fn changes_of_a_user_are_checked(
    users: Seq<User>,
    actor: Seq<char>,
    id: Seq<char>,
    input: UserUpdate,
)
    requires
        update_refusal(users, actor, id, input) is None,
    ensures
        input.role is None,
        exists|k: int|
            0 <= k < users.len() && auth::user_at(users, id) == Some(k) && (
            #[trigger] users[k]).id@ == id && ({
                &&& input.username is None ==> next_name(users[k], input) == users[k].username@
                &&& input.username matches Some(name) ==> next_name(users[k], input)
                    == text::trimmed(name@) && 2 <= text::byte_len(text::trimmed(name@)) <= 64
                &&& input.enabled is None ==> next_enabled(users[k], input) == users[k].enabled
                &&& input.enabled matches Some(flag) ==> next_enabled(users[k], input) == flag
                    && users[k].role@ != "system_admin"@
                &&& users[k].role@ == "system_admin"@ ==> actor == id
                &&& next_name(users[k], input) != users[k].username@ ==> forall|i: int|
                    0 <= i < users.len() && (#[trigger] users[i]).id@ != id ==> users[i].username@
                        != next_name(users[k], input)
            }),
{
    auth::users_are_found_by_their_identifier(users, id);
    let k = auth::user_at(users, id)->0;
    assert(users[k].id@ == id);
    if next_name(users[k], input) != users[k].username@ {
        assert(!name_taken(users, next_name(users[k], input), id));
    }
}

/// A change of a user reaches the workspace of that user alone: it is switched on and off with the
/// user, and a workspace that bears the name of the user is renamed with it.
pub proof fn workspaces_follow_their_user(
    before: Tenant,
    after: Tenant,
    user: User,
    name: Seq<char>,
    enabled: bool,
)
    requires
        tenant_changed(before, after, user, name, enabled),
    ensures
        after.id@ == before.id@,
        after.created_at == before.created_at,
        before.id@ != user.tenant_id@ ==> after.name@ == before.name@ && after.enabled
            == before.enabled,
        before.id@ == user.tenant_id@ && enabled != user.enabled ==> after.enabled == enabled,
        before.id@ == user.tenant_id@ && before.enabled == user.enabled ==> after.enabled == enabled,
        after.name@ != before.name@ ==> user.role@ == "tenant"@ && before.name@ == user.username@
            + "的工作空间"@ && after.name@ == name + "的工作空间"@,
        before.id@ == user.tenant_id@ && user.role@ == "tenant"@ && before.name@ == user.username@
            + "的工作空间"@ ==> after.name@ == name + "的工作空间"@,
{
}

/// A user is deleted only where it is there, is no administrator and not the one who asks, its name was
/// given to confirm it, and nobody else is in its workspace.
pub proof fn deletions_are_checked(
    users: Seq<User>,
    actor: Seq<char>,
    id: Seq<char>,
    confirmed: Seq<char>,
)
    ensures
        delete_refusal(users, actor, id, confirmed) is None <==> exists|k: int|
            0 <= k < users.len() && auth::user_at(users, id) == Some(k) && (
            #[trigger] users[k]).role@ != "system_admin"@ && actor != id && confirmed
                == users[k].username@ && forall|i: int|
                0 <= i < users.len() && (#[trigger] users[i]).id@ != id ==> users[i].tenant_id@
                    != users[k].tenant_id@,
{
    auth::users_are_found_by_their_identifier(users, id);
    if let Some(k) = auth::user_at(users, id) {
        assert(users[k].id@ == id);
    }
}

/// A link to recover is made for an enabled user of a workspace alone, never for an administrator.
pub proof fn links_are_for_enabled_users(users: Seq<User>, id: Seq<char>)
    ensures
        link_allowed(users, id) <==> exists|k: int|
            0 <= k < users.len() && auth::user_at(users, id) == Some(k) && (
            #[trigger] users[k]).role@ == "tenant"@ && users[k].enabled,
{
    auth::users_are_found_by_their_identifier(users, id);
    if let Some(k) = auth::user_at(users, id) {
        assert(users[k].id@ == id);
    }
}

/// Somebody who accepts an invitation is signed in as nobody, gives a name and a password that are
/// accepted, and takes a name that nobody has.
pub proof fn new_users_are_checked(
    accounts: Accounts,
    signed_in: bool,
    input: AcceptInvitation,
    now: i64,
)
    ensures
        accept_refusal(accounts.invitations@, signed_in, input, now) is None ==> !signed_in && 2
            <= text::byte_len(text::trimmed(input.username@)) <= 64 && input.password@.len() >= 12
            && text::byte_len(input.password@) <= 1024 && invitation_from(
            accounts.invitations@,
            input.token@,
            now,
            0,
        ) is Some,
        create_refusal(accounts, input.token@, input.username@, now) is None ==> invitation_from(
            accounts.invitations@,
            input.token@,
            now,
            0,
        ) is Some && forall|i: int|
            0 <= i < accounts.users@.len() ==> (#[trigger] accounts.users@[i]).username@
                != text::trimmed(input.username@),
{
}

/// The resources of another workspace are named by a path of the workspace and one of the kinds of
/// resource that administrators may see there; every other path under that prefix is refused.
pub proof fn workspace_paths_name_their_resource(path: Seq<char>)
    ensures
        workspace_path_of(path) matches Ok(Some(named)) ==> {
            &&& path == "/api/v1/admin/workspaces/"@ + named.0 + "/"@ + named.1
            &&& !named.0.contains('/')
            &&& {
                let kind = text::split(named.1, '/')[0];
                kind == "devices"@ || kind == "enrollments"@ || kind == "tunnels"@ || kind
                    == "public-domains"@ || kind == "public-domain-runtime-events"@
            }
        },
        workspace_path_of(path) matches Ok(None) ==> !text::has_prefix(
            path,
            "/api/v1/admin/workspaces/"@,
        ),
        text::has_prefix(path, "/api/v1/admin/workspaces/"@) ==> workspace_path_of(path)
            != Ok::<Option<(Seq<char>, Seq<char>)>, Option<error::Refusal>>(None),
{
    let prefix = "/api/v1/admin/workspaces/"@;
    if let Some(rest) = text::after_prefix(path, prefix) {
        assert(path =~= prefix + rest);
        if rest.contains('/') {
            text::lemma_cut(rest, '/');
            text::lemma_first_position(rest, '/');
            let cut = text::cut_at(rest, '/')->0;
            reveal_strlit("/");
            assert(path =~= prefix + cut.0 + "/"@ + cut.1);
            assert forall|j: int| 0 <= j < cut.0.len() implies cut.0[j] != '/' by {
                assert(cut.0[j] == rest[j]);
            }
        }
    }
}

proof fn lemma_owned_same(list: Seq<Owned>, one: Owned, tenant: Seq<char>, n: int)
    requires
        n <= list.len(),
    ensures
        owned_in(list.push(one), tenant, n) == owned_in(list, tenant, n),
    decreases n,
{
    if n > 0 {
        lemma_owned_same(list, one, tenant, n - 1);
    }
}

proof fn lemma_services_same(list: Seq<TunnelKey>, one: TunnelKey, tenant: Seq<char>, n: int)
    requires
        n <= list.len(),
    ensures
        services_in(list.push(one), tenant, n) == services_in(list, tenant, n),
    decreases n,
{
    if n > 0 {
        lemma_services_same(list, one, tenant, n - 1);
    }
}

/// Devices and domains are counted for their own workspace, and services for theirs as long as they
/// are not deleted: one more with each of them, and no more with any other.
pub proof fn resources_are_counted_for_their_workspace(
    owned: Seq<Owned>,
    one: Owned,
    services: Seq<TunnelKey>,
    service: TunnelKey,
    tenant: Seq<char>,
)
    ensures
        owned_in(owned.push(one), tenant, owned.len() as int + 1) == owned_in(
            owned,
            tenant,
            owned.len() as int,
        ) + (if one.tenant_id@ == tenant {
            1int
        } else {
            0
        }),
        services_in(services.push(service), tenant, services.len() as int + 1) == services_in(
            services,
            tenant,
            services.len() as int,
        ) + (if service.tenant_id@ == tenant && !service.deleted {
            1int
        } else {
            0
        }),
        owned_in(Seq::empty(), tenant, 0) == 0,
        services_in(Seq::empty(), tenant, 0) == 0,
{
    lemma_owned_same(owned, one, tenant, owned.len() as int);
    lemma_services_same(services, service, tenant, services.len() as int);
}

/// What is shown of a user is what is stored of the user, with the counts of its own workspace.
pub proof fn users_are_shown_as_they_are_stored(
    user: User,
    workspace: Seq<char>,
    devices: Seq<Owned>,
    services: Seq<TunnelKey>,
    domains: Seq<Owned>,
)
    ensures
        ({
            let shown = summary_of(user, workspace, devices, services, domains);
            &&& shown.id == user.id@ && shown.username == user.username@ && shown.role
                == user.role@
            &&& shown.workspace_id == user.tenant_id@ && shown.workspace_name == workspace
            &&& shown.enabled == user.enabled && shown.created_at == user.created_at
            &&& shown.devices == owned_in(devices, user.tenant_id@, devices.len() as int)
            &&& shown.services == services_in(services, user.tenant_id@, services.len() as int)
            &&& shown.domains == owned_in(domains, user.tenant_id@, domains.len() as int)
        }),
{
}

/// A session acts in another workspace for an administrator alone; in its own it stays as it is.
pub proof fn administrators_act_in_other_workspaces(
    users: &Vec<User>,
    session: Session,
    workspace: Option<&str>,
    r: Result<Session, ApiError>,
)
    requires
        call_ensures(resource_session, (users, session, workspace), r),
    ensures
        workspace is None ==> r == Ok::<Session, ApiError>(session),
        workspace is Some ==> (r is Ok <==> is_admin(users@, session.user_id@)),
        workspace is Some && r is Ok ==> r->Ok_0.tenant_id@ == workspace->0@ && r->Ok_0.user_id@
            == session.user_id@ && r->Ok_0.csrf@ == session.csrf@,
        r matches Err(e) ==> e.status == 403,
{
}

/// A changed user has the new name and state and is otherwise as before; no other user changes. A new
/// name, or being switched off, ends the sessions of that user, and nothing else does.
pub proof fn users_are_changed_as_asked(
    accounts: &mut Accounts,
    actor: &Session,
    id: &str,
    input: &UserUpdate,
    now: i64,
    r: Result<UserChange, ApiError>,
)
    requires
        call_ensures(update_user, (accounts, actor, id, input, now), r),
    ensures
        r is Err ==> *final(accounts) == *old(accounts),
        r is Ok ==> {
            let k = auth::user_at(old(accounts).users@, id@)->0;
            let before = old(accounts).users@[k];
            let after = final(accounts).users@[k];
            &&& auth::user_at(old(accounts).users@, id@) is Some
            &&& final(accounts).users@.len() == old(accounts).users@.len()
            &&& after.username@ == next_name(before, *input)
            &&& after.enabled == next_enabled(before, *input)
            &&& after.id == before.id && after.tenant_id == before.tenant_id && after.role
                == before.role && after.password_hash == before.password_hash
            &&& forall|i: int|
                0 <= i < old(accounts).users@.len() && i != k
                    ==> #[trigger] final(accounts).users@[i] == old(accounts).users@[i]
            &&& after.username@ != before.username@ || (before.enabled && !after.enabled)
                ==> final(accounts).sessions@ == auth::sessions_without(
                old(accounts).sessions@,
                id@,
                old(accounts).sessions@.len() as int,
            )
            &&& after.username@ == before.username@ && (before.enabled ==> after.enabled)
                ==> final(accounts).sessions@ == old(accounts).sessions@
            &&& r->Ok_0.withdraw_devices <==> before.enabled && !after.enabled
            &&& r->Ok_0.renamed <==> after.username@ != before.username@
        },
        final(accounts).invitations == old(accounts).invitations,
{
    auth::users_are_found_by_their_identifier(old(accounts).users@, id@);
}

/// Deleting a user takes the users and the workspace of that one away, with the sessions and codes of
/// the user; a refused request changes nothing.
pub proof fn deleting_takes_the_workspace_away(
    accounts: &mut Accounts,
    actor: &Session,
    id: &str,
    confirm_username: &str,
    now: i64,
    r: Result<(String, AuditEvent), ApiError>,
)
    requires
        call_ensures(delete_user, (accounts, actor, id, confirm_username, now), r),
    ensures
        r is Err ==> *final(accounts) == *old(accounts),
        r matches Ok(done) ==> {
            &&& forall|user: User| #[trigger]
                final(accounts).users@.contains(user) <==> exists|i: int|
                    0 <= i < old(accounts).users@.len() && #[trigger] old(accounts).users@[i] == user
                        && user.tenant_id@ != done.0@
            &&& forall|i: int|
                0 <= i < final(accounts).sessions@.len() ==> (#[trigger] final(accounts).sessions@[i]).user_id@ != id@
        },
{
    if r is Ok {
        users_of_other_workspaces_stay(old(accounts).users@, r->Ok_0.0@);
        auth::ended_sessions_are_gone(
            old(accounts).sessions@,
            id@,
            old(accounts).sessions@.len() as int,
        );
    }
}

/// A link for a recovery is for the user it names, lasts as long as links do, and opens with its secret
/// alone; the earlier ones of that user end.
pub proof fn links_are_for_the_user_they_name(
    accounts: &mut Accounts,
    actor: &Session,
    id: &str,
    now: i64,
    r: Result<(RecoveryLink, AuditEvent), ApiError>,
)
    requires
        call_ensures(create_recovery, (accounts, actor, id, now), r),
    ensures
        r is Ok <==> link_allowed(old(accounts).users@, id@),
        r is Err ==> *final(accounts) == *old(accounts) && r->Err_0.status == 400,
        r matches Ok(made) ==> {
            let row = final(accounts).recoveries@.last();
            &&& final(accounts).recoveries@.len() > 0
            &&& row.id@ == id@ && !row.used
            &&& row.recovery_digest@ == digest::digest_of(made.0.token@)
            &&& row.expires_at == made.0.expires_at
        },
        final(accounts).users == old(accounts).users,
        final(accounts).sessions == old(accounts).sessions,
{
}

/// A new invitation opens with its secret alone and belongs to the one who made it; the others stay.
pub proof fn invitations_belong_to_their_maker(
    accounts: &mut Accounts,
    actor: &Session,
    now: i64,
    r: (NewInvitation, AuditEvent),
)
    requires
        call_ensures(create_invitation, (accounts, actor, now), r),
    ensures
        final(accounts).invitations@.len() == old(accounts).invitations@.len() + 1,
        final(accounts).invitations@.drop_last() == old(accounts).invitations@,
        final(accounts).invitations@.last().token_digest@ == digest::digest_of(r.0.token@),
        final(accounts).invitations@.last().created_by@ == actor.user_id@,
        final(accounts).invitations@.last().used_by is None,
        final(accounts).invitations@.last().revoked_at is None,
        final(accounts).invitations@.last().expires_at == r.0.expires_at,
        final(accounts).users == old(accounts).users,
{
}

/// One who accepts an invitation gets an account of the lower role in a workspace of its own, is signed
/// in, and uses the invitation up; nobody else changes.
pub proof fn invitations_make_an_account_of_their_own(
    accounts: &mut Accounts,
    token: &str,
    username: &str,
    hash: String,
    now: i64,
    r: Result<(SessionSecrets, AuditEvent), ApiError>,
)
    requires
        call_ensures(accept_invitation, (accounts, token, username, hash, now), r),
    ensures
        r is Err ==> *final(accounts) == *old(accounts),
        r matches Ok(done) ==> {
            let user = final(accounts).users@.last();
            let tenant = final(accounts).tenants@.last();
            let session = final(accounts).sessions@.last();
            &&& final(accounts).users@.drop_last() == old(accounts).users@
            &&& final(accounts).tenants@.drop_last() == old(accounts).tenants@
            &&& final(accounts).sessions@.drop_last() == old(accounts).sessions@
            &&& user.role@ == "tenant"@ && user.enabled
            &&& user.username@ == text::trimmed(username@)
            &&& user.password_hash@ == hash@
            &&& user.tenant_id@ == tenant.id@ && tenant.enabled
            &&& session.user_id@ == user.id@ && session.tenant_id@ == tenant.id@
            &&& session.session_digest@ == digest::digest_of(done.0.session@)
            &&& exists|k: int|
                0 <= k < final(accounts).invitations@.len() && text::opt(
                    (#[trigger] final(accounts).invitations@[k]).used_by,
                ) == Some(user.id@)
        },
{
    if r is Ok {
        let k = invitation_from(old(accounts).invitations@, token@, now, 0)->0;
        lemma_invitation_place(old(accounts).invitations@, token@, now, 0);
        assert(text::opt(final(accounts).invitations@[k].used_by) == Some(
            final(accounts).users@.last().id@,
        ));
    }
}

proof fn lemma_invitation_place(list: Seq<InvitationRow>, token: Seq<char>, now: i64, i: int)
    requires
        0 <= i <= list.len(),
    ensures
        invitation_from(list, token, now, i) is Some ==> i <= invitation_from(
            list,
            token,
            now,
            i,
        )->0 < list.len(),
    decreases list.len() - i,
{
    if i < list.len() {
        lemma_invitation_place(list, token, now, i + 1);
    }
}

} // verus!
