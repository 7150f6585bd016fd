//! Accounts and sessions: who may sign in, and how a forgotten password is replaced.
use vstd::prelude::*;

use crate::digest;
use crate::digest::{argon2_hash, argon2_verify, digest, lowercase, new_uuid, random_hex};
use crate::error;
use crate::error::{
    ApiError, BAD_REQUEST, CONFLICT, FORBIDDEN, INTERNAL_SERVER_ERROR, SERVICE_UNAVAILABLE,
    UNAUTHORIZED,
};
use crate::picked;
use crate::text;
use crate::text::{bytes_of, chars_of, join2, join3, same, split_on, strip_prefix, trim};

verus! {

/// The life of a session: seven days.
pub const SESSION_SECONDS: i64 = 604800;

/// The life of a recovery code: fifteen minutes.
pub const RECOVERY_SECONDS: i64 = 900;

/// The name of the file with the code for the first administrator.
pub const BOOTSTRAP_FILE: &'static str = "bootstrap.code";

/// A user as it is stored.
#[derive(Debug, Clone)]
pub struct User {
    pub id: String,
    pub tenant_id: String,
    pub username: String,
    pub role: String,
    pub password_hash: String,
    pub enabled: bool,
    pub created_at: i64,
}

/// A workspace as it is stored.
#[derive(Debug, Clone)]
pub struct Tenant {
    pub id: String,
    pub name: String,
    pub enabled: bool,
    pub created_at: i64,
}

/// A session as it is stored.
#[derive(Debug, Clone)]
pub struct SessionRow {
    pub id: String,
    pub user_id: String,
    pub tenant_id: String,
    pub session_digest: String,
    pub csrf_digest: String,
    pub created_at: i64,
    pub last_seen_at: i64,
    pub expires_at: i64,
}

/// A recovery code as it is stored, at most one for each user.
#[derive(Debug, Clone)]
pub struct Recovery {
    pub id: String,
    pub recovery_digest: String,
    pub expires_at: i64,
    pub used: bool,
}

/// An invitation as it is stored.
#[derive(Debug, Clone)]
pub struct InvitationRow {
    pub id: String,
    pub token_digest: String,
    pub created_by: String,
    pub created_at: i64,
    pub expires_at: i64,
    pub used_by: Option<String>,
    pub revoked_at: Option<i64>,
}

/// All that is stored of accounts.
pub struct Accounts {
    pub users: Vec<User>,
    pub tenants: Vec<Tenant>,
    pub sessions: Vec<SessionRow>,
    pub recoveries: Vec<Recovery>,
    pub invitations: Vec<InvitationRow>,
}

/// A session that a request belongs to.
#[derive(Debug, Clone)]
pub struct Session {
    pub user_id: String,
    pub tenant_id: String,
    pub csrf: String,
}

/// What is kept of an action of a user.
#[derive(Debug, Clone)]
pub struct AuditEvent {
    pub tenant_id: String,
    pub actor_user_id: Option<String>,
    pub event_type: String,
    pub resource_type: String,
    pub resource_id: String,
    pub created_at: i64,
}

/// Whether an event is kept of an action.
pub open spec fn is_audit(
    event: AuditEvent,
    tenant: Seq<char>,
    actor: Option<Seq<char>>,
    what: Seq<char>,
    kind: Seq<char>,
    id: Seq<char>,
    now: i64,
) -> bool {
    event.tenant_id@ == tenant && text::opt(event.actor_user_id) == actor && event.event_type@
        == what && event.resource_type@ == kind && event.resource_id@ == id && event.created_at
        == now
}

/// What is asked for the first administrator.
pub struct InitializeRequest {
    pub bootstrap_code: String,
    pub username: String,
    pub password: String,
}

/// What a user signs in with.
pub struct LoginRequest {
    pub username: String,
    pub password: String,
}

/// What a user changes the password with.
pub struct ChangePasswordRequest {
    pub current_password: String,
    pub new_password: String,
}

/// What a user replaces a forgotten password with.
pub struct RecoverRequest {
    pub recovery_code: String,
    pub new_password: String,
}

/// A session as it is shown.
#[derive(Debug, Clone)]
pub struct SessionResponse {
    pub id: String,
    pub created_at: i64,
    pub last_seen_at: i64,
    pub expires_at: i64,
}

/// An answer with a message alone.
#[derive(Debug, Clone)]
pub struct RecoveryResponse {
    pub message: String,
}

/// The state of a browser as it is shown.
#[derive(Debug, Clone)]
pub struct AuthStatusResponse {
    pub initialized: bool,
    pub authenticated: bool,
    pub user_id: Option<String>,
    pub username: Option<String>,
    pub role: Option<String>,
    pub workspace_id: Option<String>,
    pub channel: Option<String>,
    pub csrf_token: Option<String>,
    pub local_http_warning: bool,
}

/// Why a user name is refused, if it is.
pub open spec fn username_refusal(value: Seq<char>) -> Option<error::Refusal> {
    let size = text::byte_len(text::trimmed(value));
    if size < 2 || size > 64 {
        error::refusal(BAD_REQUEST, "用户名长度必须为 2-64 个字符")
    } else {
        None
    }
}

/// Checks a user name.
pub fn validate_username(value: &str) -> (r: Result<(), ApiError>)
    ensures
        match r {
            Ok(_) => username_refusal(value@) is None,
            Err(e) => username_refusal(value@) == error::told(e),
        },
{
    let name: String = trim(value);
    let size: usize = bytes_of(name.as_str());
    if size < 2 || size > 64 {
        return Err(ApiError::new(BAD_REQUEST, "用户名长度必须为 2-64 个字符"));
    }
    Ok(())
}

/// Why a new password is refused, if it is.
pub open spec fn password_refusal(value: Seq<char>) -> Option<error::Refusal> {
    if value.len() < 12 || text::byte_len(value) > 1024 {
        error::refusal(BAD_REQUEST, "密码至少需要 12 个字符，且不超过 1024 字节")
    } else {
        None
    }
}

/// Checks a new password.
pub fn validate_password(value: &str) -> (r: Result<(), ApiError>)
    ensures
        match r {
            Ok(_) => password_refusal(value@) is None,
            Err(e) => password_refusal(value@) == error::told(e),
        },
{
    if chars_of(value).len() < 12 || bytes_of(value) > 1024 {
        return Err(
            ApiError::new(
                BAD_REQUEST,
                "密码至少需要 12 个字符，且不超过 1024 字节",
            ),
        );
    }
    Ok(())
}

/// The hash of a password that is stored.
pub fn hash_password(value: &str) -> (r: Result<String, ApiError>)
    ensures
        match r {
            Ok(hash) => text::byte_len(value@) <= digest::MAX_PASSWORD && digest::password_matches(
                value@,
                hash@,
            ),
            Err(e) => text::byte_len(value@) > digest::MAX_PASSWORD && error::told(e)
                == error::refusal(INTERNAL_SERVER_ERROR, "无法处理密码"),
        },
{
    match argon2_hash(value) {
        Some(hash) => Ok(hash),
        None => Err(ApiError::new(INTERNAL_SERVER_ERROR, "无法处理密码")),
    }
}

/// A password that is accepted can be hashed.
pub proof fn accepted_passwords_can_be_hashed(value: Seq<char>)
    requires
        password_refusal(value) is None,
    ensures
        text::byte_len(value) <= digest::MAX_PASSWORD,
{
}

/// Whether a password is the one that a stored hash was made from.
pub fn verify_password(value: &str, hash: &str) -> (r: bool)
    ensures
        r == digest::password_matches(value@, hash@),
{
    argon2_verify(value, hash)
}

/// The value of a cookie among the first parts from position `i` on.
pub open spec fn cookie_from(parts: Seq<Seq<char>>, name: Seq<char>, i: int) -> Option<Seq<char>>
    decreases parts.len() - i,
{
    if i < 0 || i >= parts.len() {
        None
    } else {
        match text::after_prefix(text::trimmed(parts[i]), name + "="@) {
            Some(value) => Some(value),
            None => cookie_from(parts, name, i + 1),
        }
    }
}

/// The value of a cookie in a header.
pub open spec fn cookie_in(header: Seq<char>, name: Seq<char>) -> Option<Seq<char>> {
    cookie_from(text::split(header, ';'), name, 0)
}

/// The value of a cookie in a header.
pub fn cookie(header: &str, name: &str) -> (r: Option<String>)
    ensures
        text::opt(r) == cookie_in(header@, name@),
{
    let parts: Vec<String> = split_on(header, ';');
    let ghost all = text::split(header@, ';');
    let key: String = join2(name, "=");
    let mut i: usize = 0;
    while i < parts.len()
        invariant
            i <= parts@.len(),
            all == text::views(parts@),
            all == text::split(header@, ';'),
            key@ == name@ + "="@,
            cookie_in(header@, name@) == cookie_from(all, name@, i as int),
        decreases parts@.len() - i,
    {
        assert(all[i as int] == parts@[i as int]@);
        let part: String = trim(parts[i].as_str());
        if let Some(value) = strip_prefix(part.as_str(), key.as_str()) {
            return Some(value);
        }
        i = i + 1;
    }
    None
}

/// The position of the first user from position `i` on with an identifier.
pub open spec fn user_from(users: Seq<User>, id: Seq<char>, i: int) -> Option<int>
    decreases users.len() - i,
{
    if i < 0 || i >= users.len() {
        None
    } else if users[i].id@ == id {
        Some(i)
    } else {
        user_from(users, id, i + 1)
    }
}

/// The position of the user with an identifier.
pub open spec fn user_at(users: Seq<User>, id: Seq<char>) -> Option<int> {
    user_from(users, id, 0)
}

/// The position of the first user from position `i` on with a name.
pub open spec fn named_from(users: Seq<User>, name: Seq<char>, i: int) -> Option<int>
    decreases users.len() - i,
{
    if i < 0 || i >= users.len() {
        None
    } else if users[i].username@ == name {
        Some(i)
    } else {
        named_from(users, name, i + 1)
    }
}

/// The position of the user with an identifier.
pub fn find_user(users: &Vec<User>, id: &str) -> (r: Option<usize>)
    ensures
        match r {
            Some(k) => k < users@.len() && user_at(users@, id@) == Some(k as int)
                && users@[k as int].id@ == id@,
            None => user_at(users@, id@) is None,
        },
{
    let mut i: usize = 0;
    while i < users.len()
        invariant
            i <= users@.len(),
            user_at(users@, id@) == user_from(users@, id@, i as int),
        decreases users@.len() - i,
    {
        if same(users[i].id.as_str(), id) {
            return Some(i);
        }
        i = i + 1;
    }
    None
}

fn find_named(users: &Vec<User>, name: &str) -> (r: Option<usize>)
    ensures
        match r {
            Some(k) => k < users@.len() && named_from(users@, name@, 0) == Some(k as int)
                && users@[k as int].username@ == name@,
            None => named_from(users@, name@, 0) is None,
        },
{
    let mut i: usize = 0;
    while i < users.len()
        invariant
            i <= users@.len(),
            named_from(users@, name@, 0) == named_from(users@, name@, i as int),
        decreases users@.len() - i,
    {
        if same(users[i].username.as_str(), name) {
            return Some(i);
        }
        i = i + 1;
    }
    None
}

/// Whether the user of a session is there and enabled.
pub open spec fn user_enabled(users: Seq<User>, id: Seq<char>) -> bool {
    user_at(users, id) matches Some(k) && users[k].enabled
}

/// Whether a stored session is the one with a digest, not expired, of an enabled user.
pub open spec fn session_live(
    accounts: Accounts,
    row: SessionRow,
    digest: Seq<char>,
    now: i64,
) -> bool {
    row.session_digest@ == digest && row.expires_at > now && user_enabled(
        accounts.users@,
        row.user_id@,
    )
}

/// The position of the first live session from position `i` on with a digest.
pub open spec fn session_from(accounts: Accounts, digest: Seq<char>, now: i64, i: int) -> Option<int>
    decreases accounts.sessions@.len() - i,
{
    if i < 0 || i >= accounts.sessions@.len() {
        None
    } else if session_live(accounts, accounts.sessions@[i], digest, now) {
        Some(i)
    } else {
        session_from(accounts, digest, now, i + 1)
    }
}

/// The stored session that the cookies of a request belong to.
pub open spec fn session_of(accounts: Accounts, cookies: Option<Seq<char>>, now: i64) -> Option<
    int,
> {
    match cookies {
        None => None,
        Some(header) => match cookie_in(header, "nexo_session"@) {
            None => None,
            Some(raw) => session_from(accounts, digest::digest_of(raw), now, 0),
        },
    }
}

/// Whether a session is that of a stored one.
pub open spec fn is_session(session: Session, row: SessionRow) -> bool {
    session.user_id@ == row.user_id@ && session.tenant_id@ == row.tenant_id@ && session.csrf@
        == row.csrf_digest@
}

fn find_session(accounts: &Accounts, cookies: Option<&str>, now: i64) -> (r: Option<usize>)
    ensures
        match r {
            Some(k) => session_of(*accounts, text::opt_str(cookies), now) == Some(k as int) && k
                < accounts.sessions@.len(),
            None => session_of(*accounts, text::opt_str(cookies), now) is None,
        },
{
    let header: &str = match cookies {
        Some(header) => header,
        None => {
            return None;
        },
    };
    let raw: String = match cookie(header, "nexo_session") {
        Some(raw) => raw,
        None => {
            return None;
        },
    };
    let wanted: String = digest(raw.as_str());
    let mut i: usize = 0;
    while i < accounts.sessions.len()
        invariant
            i <= accounts.sessions@.len(),
            session_of(*accounts, text::opt_str(cookies), now) == session_from(
                *accounts,
                wanted@,
                now,
                i as int,
            ),
        decreases accounts.sessions@.len() - i,
    {
        let row: &SessionRow = &accounts.sessions[i];
        if same(row.session_digest.as_str(), wanted.as_str()) && row.expires_at > now {
            let enabled: bool = match find_user(&accounts.users, row.user_id.as_str()) {
                Some(k) => accounts.users[k].enabled,
                None => false,
            };
            if enabled {
                return Some(i);
            }
        }
        i = i + 1;
    }
    None
}

/// The session that the cookies of a request belong to.
pub fn load_session(accounts: &Accounts, cookies: Option<&str>, now: i64) -> (r: Option<Session>)
    ensures
        match r {
            Some(session) => (session_of(*accounts, text::opt_str(cookies), now) matches Some(k)
                && 0 <= k < accounts.sessions@.len() && is_session(
                session,
                accounts.sessions@[k],
            )),
            None => session_of(*accounts, text::opt_str(cookies), now) is None,
        },
{
    match find_session(accounts, cookies, now) {
        Some(k) => {
            let row: &SessionRow = &accounts.sessions[k];
            Some(
                Session {
                    user_id: row.user_id.clone(),
                    tenant_id: row.tenant_id.clone(),
                    csrf: row.csrf_digest.clone(),
                },
            )
        },
        None => None,
    }
}

/// The session of a request, or the refusal of one without.
pub fn require_session(accounts: &Accounts, cookies: Option<&str>, now: i64) -> (r: Result<
    Session,
    ApiError,
>)
    ensures
        match r {
            Ok(session) => (session_of(*accounts, text::opt_str(cookies), now) matches Some(k)
                && 0 <= k < accounts.sessions@.len() && is_session(
                session,
                accounts.sessions@[k],
            )),
            Err(e) => session_of(*accounts, text::opt_str(cookies), now) is None && error::told(e)
                == error::no_session(),
        },
{
    match load_session(accounts, cookies, now) {
        Some(session) => Ok(session),
        None => Err(ApiError::session_expired()),
    }
}

/// Refuses a change that does not come with the value that belongs to its session.
pub fn require_csrf(session: &Session, provided: Option<&str>) -> (r: Result<(), ApiError>)
    ensures
        ({
            let value = match provided {
                Some(value) => value@,
                None => Seq::empty(),
            };
            match r {
                Ok(_) => digest::digest_of(value) == session.csrf@,
                Err(e) => digest::digest_of(value) != session.csrf@ && error::told(e)
                    == error::refusal(FORBIDDEN, "缺少安全校验，请刷新页面后重试"),
            }
        }),
{
    let value: String = match provided {
        Some(value) => value.to_owned(),
        None => String::new(),
    };
    if !same(digest(value.as_str()).as_str(), session.csrf.as_str()) {
        return Err(ApiError::new(FORBIDDEN, "缺少安全校验，请刷新页面后重试"));
    }
    Ok(())
}

/// The stored session for two secrets of a user.
pub open spec fn is_new_session(
    row: SessionRow,
    user: Seq<char>,
    tenant: Seq<char>,
    raw: Seq<char>,
    csrf: Seq<char>,
    now: i64,
) -> bool {
    row.user_id@ == user && row.tenant_id@ == tenant && row.session_digest@ == digest::digest_of(raw)
        && row.csrf_digest@ == digest::digest_of(csrf) && row.created_at == now && row.last_seen_at
        == now && row.expires_at == now + SESSION_SECONDS && digest::uuid_text(row.id@)
}

/// The two secrets that a browser gets for a session.
#[derive(Debug, Clone)]
pub struct SessionSecrets {
    pub session: String,
    pub csrf: String,
}

/// Opens a session: the browser gets two secrets, and their digests are stored.
pub fn create_session(
    sessions: &mut Vec<SessionRow>,
    user_id: &str,
    tenant_id: &str,
    now: i64,
) -> (r: SessionSecrets)
    requires
        now + SESSION_SECONDS <= i64::MAX,
    ensures
        final(sessions)@.len() == old(sessions)@.len() + 1,
        final(sessions)@.drop_last() == old(sessions)@,
        is_new_session(
            final(sessions)@.last(),
            user_id@,
            tenant_id@,
            r.session@,
            r.csrf@,
            now,
        ),
        digest::secret_code(r.session@),
        digest::secret_code(r.csrf@),
{
    let session: String = random_hex();
    let csrf: String = random_hex();
    let row = SessionRow {
        id: new_uuid(),
        user_id: user_id.to_owned(),
        tenant_id: tenant_id.to_owned(),
        session_digest: digest(session.as_str()),
        csrf_digest: digest(csrf.as_str()),
        created_at: now,
        last_seen_at: now,
        expires_at: now + SESSION_SECONDS,
    };
    sessions.push(row);
    assert(sessions@.drop_last() =~= old(sessions)@);
    SessionSecrets { session, csrf }
}

proof fn lemma_session_from(accounts: Accounts, digest: Seq<char>, now: i64, i: int, k: int)
    requires
        0 <= i <= k < accounts.sessions@.len(),
        session_live(accounts, accounts.sessions@[k], digest, now),
        forall|j: int| i <= j < k ==> !session_live(accounts, #[trigger] accounts.sessions@[j], digest, now),
    ensures
        session_from(accounts, digest, now, i) == Some(k),
    decreases k - i,
{
    if i < k {
        lemma_session_from(accounts, digest, now, i + 1, k);
    }
}

/// A new session is found again by its secret for seven days, and never after; no other stored
/// session has the digest of its secret.
pub proof fn new_sessions_last_seven_days(
    accounts: Accounts,
    raw: Seq<char>,
    csrf: Seq<char>,
    user: Seq<char>,
    tenant: Seq<char>,
    created: i64,
    now: i64,
)
    requires
        accounts.sessions@.len() > 0,
        is_new_session(accounts.sessions@.last(), user, tenant, raw, csrf, created),
        user_enabled(accounts.users@, user),
        forall|i: int|
            0 <= i < accounts.sessions@.len() - 1 ==> (
            #[trigger] accounts.sessions@[i]).session_digest@ != digest::digest_of(raw),
    ensures
        session_from(accounts, digest::digest_of(raw), now, 0) == (if now < created
            + SESSION_SECONDS {
            Some(accounts.sessions@.len() - 1)
        } else {
            None
        }),
{
    let n = accounts.sessions@.len() as int;
    if now < created + SESSION_SECONDS {
        lemma_session_from(accounts, digest::digest_of(raw), now, 0, n - 1);
    } else {
        lemma_no_session(accounts, digest::digest_of(raw), now, 0);
    }
}

proof fn lemma_no_session(accounts: Accounts, digest: Seq<char>, now: i64, i: int)
    requires
        0 <= i,
        forall|j: int|
            i <= j < accounts.sessions@.len() ==> !session_live(
                accounts,
                #[trigger] accounts.sessions@[j],
                digest,
                now,
            ),
    ensures
        session_from(accounts, digest, now, i) is None,
    decreases accounts.sessions@.len() - i,
{
    if i < accounts.sessions@.len() {
        lemma_no_session(accounts, digest, now, i + 1);
    }
}

/// The cookies of an opened session: over HTTPS they are marked as such.
pub open spec fn session_cookie(raw: Seq<char>, secure: bool) -> Seq<char> {
    "nexo_session="@ + raw + "; HttpOnly; SameSite=Lax; Path=/; Max-Age=604800"@ + (if secure {
        "; Secure"@
    } else {
        Seq::empty()
    })
}

/// The cookie with the value for changes.
pub open spec fn csrf_cookie(csrf: Seq<char>, secure: bool) -> Seq<char> {
    "nexo_csrf="@ + csrf + "; SameSite=Lax; Path=/; Max-Age=604800"@ + (if secure {
        "; Secure"@
    } else {
        Seq::empty()
    })
}

/// The two cookies of an opened session.
pub fn session_cookies(secrets: &SessionSecrets, secure: bool) -> (r: (String, String))
    ensures
        r.0@ == session_cookie(secrets.session@, secure),
        r.1@ == csrf_cookie(secrets.csrf@, secure),
{
    let flag: String = if secure {
        "; Secure".to_owned()
    } else {
        String::new()
    };
    let session: String = join3(
        "nexo_session=",
        secrets.session.as_str(),
        "; HttpOnly; SameSite=Lax; Path=/; Max-Age=604800",
    );
    let csrf: String = join3(
        "nexo_csrf=",
        secrets.csrf.as_str(),
        "; SameSite=Lax; Path=/; Max-Age=604800",
    );
    (join2(session.as_str(), flag.as_str()), join2(csrf.as_str(), flag.as_str()))
}

/// The two cookies that end a session in the browser.
pub fn cleared_cookies() -> (r: (String, String))
    ensures
        r.0@ == "nexo_session=; HttpOnly; SameSite=Lax; Path=/; Max-Age=0"@,
        r.1@ == "nexo_csrf=; SameSite=Lax; Path=/; Max-Age=0"@,
{
    (
        "nexo_session=; HttpOnly; SameSite=Lax; Path=/; Max-Age=0".to_owned(),
        "nexo_csrf=; SameSite=Lax; Path=/; Max-Age=0".to_owned(),
    )
}

/// The way by which a browser is connected.
pub fn channel(secure: bool) -> (r: &'static str)
    ensures
        r@ == (if secure {
            "https"@
        } else {
            "local_http"@
        }),
{
    if secure {
        "https"
    } else {
        "local_http"
    }
}

/// Those of the first `n` sessions that are not of a user.
pub open spec fn sessions_without(list: Seq<SessionRow>, user: Seq<char>, n: int) -> Seq<SessionRow>
    decreases n,
{
    if n <= 0 {
        Seq::empty()
    } else if list[n - 1].user_id@ == user {
        sessions_without(list, user, n - 1)
    } else {
        sessions_without(list, user, n - 1).push(list[n - 1])
    }
}

/// Those of the first `n` recovery codes that are not of a user.
pub open spec fn recoveries_without(list: Seq<Recovery>, user: Seq<char>, n: int) -> Seq<Recovery>
    decreases n,
{
    if n <= 0 {
        Seq::empty()
    } else if list[n - 1].id@ == user {
        recoveries_without(list, user, n - 1)
    } else {
        recoveries_without(list, user, n - 1).push(list[n - 1])
    }
}

fn copy_session(row: &SessionRow) -> (r: SessionRow)
    ensures
        r == *row,
{
    SessionRow {
        id: row.id.clone(),
        user_id: row.user_id.clone(),
        tenant_id: row.tenant_id.clone(),
        session_digest: row.session_digest.clone(),
        csrf_digest: row.csrf_digest.clone(),
        created_at: row.created_at,
        last_seen_at: row.last_seen_at,
        expires_at: row.expires_at,
    }
}

fn copy_recovery(row: &Recovery) -> (r: Recovery)
    ensures
        r == *row,
{
    Recovery {
        id: row.id.clone(),
        recovery_digest: row.recovery_digest.clone(),
        expires_at: row.expires_at,
        used: row.used,
    }
}

/// A copy of a user.
pub fn copy_user(row: &User) -> (r: User)
    ensures
        r == *row,
{
    User {
        id: row.id.clone(),
        tenant_id: row.tenant_id.clone(),
        username: row.username.clone(),
        role: row.role.clone(),
        password_hash: row.password_hash.clone(),
        enabled: row.enabled,
        created_at: row.created_at,
    }
}

/// Ends all sessions of a user.
pub fn remove_sessions(list: &mut Vec<SessionRow>, user: &str)
    ensures
        final(list)@ == sessions_without(old(list)@, user@, old(list)@.len() as int),
{
    let mut kept: Vec<SessionRow> = Vec::new();
    let ghost all = list@;
    let mut i: usize = 0;
    while i < list.len()
        invariant
            i <= list@.len(),
            all == list@,
            all == old(list)@,
            kept@ == sessions_without(all, user@, i as int),
        decreases list@.len() - i,
    {
        if !same(list[i].user_id.as_str(), user) {
            kept.push(copy_session(&list[i]));
        }
        i = i + 1;
    }
    *list = kept;
}

/// Withdraws the recovery code of a user.
pub fn remove_recoveries(list: &mut Vec<Recovery>, user: &str)
    ensures
        final(list)@ == recoveries_without(old(list)@, user@, old(list)@.len() as int),
{
    let mut kept: Vec<Recovery> = Vec::new();
    let ghost all = list@;
    let mut i: usize = 0;
    while i < list.len()
        invariant
            i <= list@.len(),
            all == list@,
            all == old(list)@,
            kept@ == recoveries_without(all, user@, i as int),
        decreases list@.len() - i,
    {
        if !same(list[i].id.as_str(), user) {
            kept.push(copy_recovery(&list[i]));
        }
        i = i + 1;
    }
    *list = kept;
}

/// No session of a user is left once its sessions were ended, and none of another is touched.
pub proof fn ended_sessions_are_gone(list: Seq<SessionRow>, user: Seq<char>, n: int)
    requires
        0 <= n <= list.len(),
    ensures
        forall|i: int|
            0 <= i < sessions_without(list, user, n).len() ==> (#[trigger] sessions_without(
                list,
                user,
                n,
            )[i]).user_id@ != user,
        forall|i: int|
            0 <= i < n && (#[trigger] list[i]).user_id@ != user ==> sessions_without(
                list,
                user,
                n,
            ).contains(list[i]),
    decreases n,
{
    if n > 0 {
        ended_sessions_are_gone(list, user, n - 1);
        let before = sessions_without(list, user, n - 1);
        let after = sessions_without(list, user, n);
        assert forall|i: int| 0 <= i < n && (#[trigger] list[i]).user_id@ != user implies after.contains(
            list[i],
        ) by {
            if i < n - 1 {
                assert(before.contains(list[i]));
                let k = choose|k: int| 0 <= k < before.len() && before[k] == list[i];
                assert(after[k] == list[i]);
            } else {
                assert(after[after.len() - 1] == list[i]);
            }
        }
    }
}

/// After the sessions of a user were ended, no cookie leads to one of them.
pub proof fn ended_sessions_cannot_be_used(
    accounts: Accounts,
    user: Seq<char>,
    list: Seq<SessionRow>,
    cookies: Option<Seq<char>>,
    now: i64,
)
    requires
        accounts.sessions@ == sessions_without(list, user, list.len() as int),
    ensures
        session_of(accounts, cookies, now) matches Some(k) ==> 0 <= k < accounts.sessions@.len()
            && accounts.sessions@[k].user_id@ != user,
{
    ended_sessions_are_gone(list, user, list.len() as int);
    if let Some(header) = cookies {
        if let Some(raw) = cookie_in(header, "nexo_session"@) {
            lemma_session_range(accounts, digest::digest_of(raw), now, 0);
        }
    }
}

proof fn lemma_session_range(accounts: Accounts, digest: Seq<char>, now: i64, i: int)
    requires
        0 <= i,
    ensures
        session_from(accounts, digest, now, i) matches Some(k) ==> i <= k
            < accounts.sessions@.len(),
    decreases accounts.sessions@.len() - i,
{
    if i < accounts.sessions@.len() && !session_live(accounts, accounts.sessions@[i], digest, now) {
        lemma_session_range(accounts, digest, now, i + 1);
    }
}

/// The code for the first administrator, as it is read from its file.
pub open spec fn bootstrap_code(contents: Seq<char>) -> Option<Seq<char>> {
    if text::trimmed(contents).len() == 0 {
        None
    } else {
        Some(text::trimmed(contents))
    }
}

/// The code for the first administrator, as it is read from its file; `None` for an empty one.
pub fn read_bootstrap_code(contents: &str) -> (r: Option<String>)
    ensures
        text::opt(r) == bootstrap_code(contents@),
{
    let code: String = trim(contents);
    if code.as_str().is_empty() {
        None
    } else {
        Some(code)
    }
}

/// What is done about the code for the first administrator at the start.
#[derive(Debug, Clone)]
pub enum BootstrapStep {
    /// There are users: the code is destroyed.
    Destroy,
    /// The code stays.
    Keep,
    /// A new code is stored.
    Create { code: String },
}

/// What is done about the code for the first administrator at the start: it is there exactly as
/// long as there is no user.
pub fn ensure_bootstrap_code(users: usize, exists: bool) -> (r: BootstrapStep)
    ensures
        users > 0 && exists ==> r is Destroy,
        users > 0 && !exists ==> r is Keep,
        users == 0 && exists ==> r is Keep,
        users == 0 && !exists ==> (r matches BootstrapStep::Create { code } && digest::secret_code(
            code@,
        )),
{
    if users > 0 {
        if exists {
            BootstrapStep::Destroy
        } else {
            BootstrapStep::Keep
        }
    } else if exists {
        BootstrapStep::Keep
    } else {
        BootstrapStep::Create { code: random_hex() }
    }
}

/// Why the first administrator cannot be created, if it cannot, before a password is hashed.
pub open spec fn initialize_refusal(
    contents: Option<Seq<char>>,
    code: Seq<char>,
    username: Seq<char>,
    password: Seq<char>,
) -> Option<error::Refusal> {
    let expected = match contents {
        Some(contents) => bootstrap_code(contents),
        None => None,
    };
    match expected {
        None => error::refusal(SERVICE_UNAVAILABLE, "Bootstrap Code 为空"),
        Some(expected) => if text::trimmed(code) != expected {
            error::refusal(UNAUTHORIZED, "初始化口令不正确")
        } else if username_refusal(username) is Some {
            username_refusal(username)
        } else {
            password_refusal(password)
        },
    }
}

/// Checks the request for the first administrator, given what the file of the code holds.
pub fn check_initialize(contents: Option<&str>, input: &InitializeRequest) -> (r: Result<
    (),
    ApiError,
>)
    ensures
        ({
            let refused = initialize_refusal(
                text::opt_str(contents),
                input.bootstrap_code@,
                input.username@,
                input.password@,
            );
            match r {
                Ok(_) => refused is None,
                Err(e) => refused == error::told(e),
            }
        }),
{
    let expected: Option<String> = match contents {
        Some(contents) => read_bootstrap_code(contents),
        None => None,
    };
    let expected: String = match expected {
        Some(expected) => expected,
        None => {
            return Err(ApiError::new(SERVICE_UNAVAILABLE, "Bootstrap Code 为空"));
        },
    };
    if !same(trim(input.bootstrap_code.as_str()).as_str(), expected.as_str()) {
        return Err(ApiError::new(UNAUTHORIZED, "初始化口令不正确"));
    }
    if let Err(e) = validate_username(input.username.as_str()) {
        return Err(e);
    }
    validate_password(input.password.as_str())
}

/// Whether a user is the first administrator.
pub open spec fn is_first_admin(user: User, username: Seq<char>, hash: Seq<char>, now: i64) -> bool {
    user.tenant_id@ == "default"@ && user.username@ == text::trimmed(username) && user.role@
        == "system_admin"@ && user.password_hash@ == hash && user.enabled && user.created_at == now
        && digest::uuid_text(user.id@)
}

/// Creates the first administrator and a session, where there is no user yet. The code for it is
/// destroyed by the caller.
pub fn initialize(accounts: &mut Accounts, username: &str, hash: String, now: i64) -> (r: Result<
    SessionSecrets,
    ApiError,
>)
    requires
        now + SESSION_SECONDS <= i64::MAX,
    ensures
        final(accounts).tenants == old(accounts).tenants,
        final(accounts).recoveries == old(accounts).recoveries,
        final(accounts).invitations == old(accounts).invitations,
        match r {
            Ok(secrets) => old(accounts).users@.len() == 0 && final(accounts).users@.len() == 1
                && is_first_admin(final(accounts).users@[0], username@, hash@, now)
                && final(accounts).sessions@.len() == old(accounts).sessions@.len() + 1
                && final(accounts).sessions@.drop_last() == old(accounts).sessions@
                && is_new_session(
                final(accounts).sessions@.last(),
                final(accounts).users@[0].id@,
                "default"@,
                secrets.session@,
                secrets.csrf@,
                now,
            ) && digest::secret_code(secrets.session@) && digest::secret_code(secrets.csrf@),
            Err(e) => old(accounts).users@.len() > 0 && *final(accounts) == *old(accounts)
                && error::told(e) == error::refusal(CONFLICT, "Nexo 已经完成初始化"),
        },
{
    if accounts.users.len() != 0 {
        return Err(ApiError::new(CONFLICT, "Nexo 已经完成初始化"));
    }
    let user = User {
        id: new_uuid(),
        tenant_id: "default".to_owned(),
        username: trim(username),
        role: "system_admin".to_owned(),
        password_hash: hash,
        enabled: true,
        created_at: now,
    };
    let id: String = user.id.clone();
    accounts.users.push(user);
    let secrets: SessionSecrets = create_session(
        &mut accounts.sessions,
        id.as_str(),
        "default",
        now,
    );
    Ok(secrets)
}

/// The name under which attempts to sign in are counted.
pub fn login_key(username: &str) -> (r: String)
    ensures
        r@ == "account:"@ + digest::lowercase_of(text::trimmed(username@)),
{
    join2("account:", lowercase(trim(username).as_str()).as_str())
}

/// Why an attempt to sign in is refused for its size, if it is.
pub fn check_login_size(input: &LoginRequest) -> (r: Result<(), ApiError>)
    ensures
        match r {
            Ok(_) => text::byte_len(input.username@) <= 256 && text::byte_len(input.password@)
                <= 1024,
            Err(e) => (text::byte_len(input.username@) > 256 || text::byte_len(input.password@)
                > 1024) && error::told(e) == error::refusal(BAD_REQUEST, "用户名或密码过长"),
        },
{
    if bytes_of(input.username.as_str()) > 256 || bytes_of(input.password.as_str()) > 1024 {
        return Err(ApiError::new(BAD_REQUEST, "用户名或密码过长"));
    }
    Ok(())
}

/// The user whose password is checked: the enabled one with the name. A name that is unknown and
/// one that is not enabled are refused alike.
pub fn login_candidate(accounts: &Accounts, username: &str) -> (r: Result<User, ApiError>)
    ensures
        ({
            let found = named_from(accounts.users@, text::trimmed(username@), 0);
            match r {
                Ok(user) => found matches Some(k) && user == accounts.users@[k] && user.enabled,
                Err(e) => (found matches Some(k) ==> !accounts.users@[k].enabled) && error::told(e)
                    == error::refusal(UNAUTHORIZED, "用户名或密码错误"),
            }
        }),
{
    match find_named(&accounts.users, trim(username).as_str()) {
        Some(k) => {
            if accounts.users[k].enabled {
                return Ok(copy_user(&accounts.users[k]));
            }
            Err(ApiError::new(UNAUTHORIZED, "用户名或密码错误"))
        },
        None => Err(ApiError::new(UNAUTHORIZED, "用户名或密码错误")),
    }
}

/// Refuses a wrong password.
pub fn check_login_password(user: &User, password: &str) -> (r: Result<(), ApiError>)
    ensures
        match r {
            Ok(_) => digest::password_matches(password@, user.password_hash@),
            Err(e) => !digest::password_matches(password@, user.password_hash@) && error::told(e)
                == error::refusal(UNAUTHORIZED, "用户名或密码错误"),
        },
{
    if verify_password(password, user.password_hash.as_str()) {
        Ok(())
    } else {
        Err(ApiError::new(UNAUTHORIZED, "用户名或密码错误"))
    }
}

/// Whether a user is still the one whose password was checked.
pub open spec fn still_current(users: Seq<User>, user: User, username: Seq<char>) -> bool {
    exists|i: int|
        0 <= i < users.len() && (#[trigger] users[i]).id@ == user.id@ && users[i].password_hash@
            == user.password_hash@ && users[i].enabled && users[i].username@ == text::trimmed(
            username,
        )
}

/// Opens a session for a user whose password was checked, unless the user has changed meanwhile.
pub fn login(accounts: &mut Accounts, user: &User, username: &str, now: i64) -> (r: Result<
    SessionSecrets,
    ApiError,
>)
    requires
        now + SESSION_SECONDS <= i64::MAX,
    ensures
        final(accounts).users == old(accounts).users,
        final(accounts).tenants == old(accounts).tenants,
        final(accounts).recoveries == old(accounts).recoveries,
        final(accounts).invitations == old(accounts).invitations,
        match r {
            Ok(secrets) => still_current(old(accounts).users@, *user, username@)
                && final(accounts).sessions@.len() == old(accounts).sessions@.len() + 1
                && final(accounts).sessions@.drop_last() == old(accounts).sessions@
                && is_new_session(
                final(accounts).sessions@.last(),
                user.id@,
                user.tenant_id@,
                secrets.session@,
                secrets.csrf@,
                now,
            ) && digest::secret_code(secrets.session@) && digest::secret_code(secrets.csrf@),
            Err(e) => !still_current(old(accounts).users@, *user, username@) && *final(accounts)
                == *old(accounts) && error::told(e) == error::refusal(
                UNAUTHORIZED,
                "账号凭据已更新，请重新登录",
            ),
        },
{
    let name: String = trim(username);
    let mut current: bool = false;
    let mut i: usize = 0;
    while i < accounts.users.len() && !current
        invariant
            i <= accounts.users@.len(),
            *accounts == *old(accounts),
            name@ == text::trimmed(username@),
            current ==> still_current(accounts.users@, *user, username@),
            !current ==> forall|j: int|
                0 <= j < i ==> !((#[trigger] accounts.users@[j]).id@ == user.id@
                    && accounts.users@[j].password_hash@ == user.password_hash@
                    && accounts.users@[j].enabled && accounts.users@[j].username@ == name@),
        decreases accounts.users@.len() - i,
    {
        let row: &User = &accounts.users[i];
        if same(row.id.as_str(), user.id.as_str()) && same(
            row.password_hash.as_str(),
            user.password_hash.as_str(),
        ) && row.enabled && same(row.username.as_str(), name.as_str()) {
            current = true;
        }
        i = i + 1;
    }
    if !current {
        return Err(ApiError::new(UNAUTHORIZED, "账号凭据已更新，请重新登录"));
    }
    let secrets: SessionSecrets = create_session(
        &mut accounts.sessions,
        user.id.as_str(),
        user.tenant_id.as_str(),
        now,
    );
    Ok(secrets)
}

/// Whether a state is the one that a browser is shown.
pub open spec fn is_status(
    accounts: Accounts,
    cookies: Option<Seq<char>>,
    secure: bool,
    now: i64,
    r: AuthStatusResponse,
) -> bool {
    let user = match session_of(accounts, cookies, now) {
        Some(k) => user_at(accounts.users@, accounts.sessions@[k].user_id@),
        None => None,
    };
    &&& r.local_http_warning == !secure
    &&& match (session_of(accounts, cookies, now), user) {
        (Some(k), Some(u)) => r.initialized && r.authenticated && text::opt(r.user_id) == Some(
            accounts.sessions@[k].user_id@,
        ) && text::opt(r.username) == Some(accounts.users@[u].username@) && text::opt(r.role)
            == Some(accounts.users@[u].role@) && text::opt(r.workspace_id) == Some(
            accounts.sessions@[k].tenant_id@,
        ) && text::opt(r.channel) == Some(
            if secure {
                "https"@
            } else {
                "local_http"@
            },
        ) && text::opt(r.csrf_token) == cookie_in(cookies->0, "nexo_csrf"@),
        _ => r.initialized == (accounts.users@.len() > 0) && !r.authenticated && r.user_id is None
            && r.username is None && r.role is None && r.workspace_id is None && r.channel is None
            && r.csrf_token is None,
    }
}

/// The state of a browser as it is shown.
pub fn status(accounts: &Accounts, cookies: Option<&str>, secure: bool, now: i64) -> (r:
    AuthStatusResponse)
    ensures
        is_status(*accounts, text::opt_str(cookies), secure, now, r),
{
    if let Some(session) = load_session(accounts, cookies, now) {
        if let Some(k) = find_user(&accounts.users, session.user_id.as_str()) {
            let csrf: Option<String> = match cookies {
                Some(header) => cookie(header, "nexo_csrf"),
                None => None,
            };
            return AuthStatusResponse {
                initialized: true,
                authenticated: true,
                user_id: Some(session.user_id),
                username: Some(accounts.users[k].username.clone()),
                role: Some(accounts.users[k].role.clone()),
                workspace_id: Some(session.tenant_id),
                channel: Some(channel(secure).to_owned()),
                csrf_token: csrf,
                local_http_warning: !secure,
            };
        }
    }
    AuthStatusResponse {
        initialized: accounts.users.len() > 0,
        authenticated: false,
        user_id: None,
        username: None,
        role: None,
        workspace_id: None,
        channel: None,
        csrf_token: None,
        local_http_warning: !secure,
    }
}

/// Those of the first `n` sessions that have another digest.
pub open spec fn sessions_beside(list: Seq<SessionRow>, digest: Seq<char>, n: int) -> Seq<SessionRow>
    decreases n,
{
    if n <= 0 {
        Seq::empty()
    } else if list[n - 1].session_digest@ == digest {
        sessions_beside(list, digest, n - 1)
    } else {
        sessions_beside(list, digest, n - 1).push(list[n - 1])
    }
}

/// Ends the session that the cookies of a request belong to.
pub fn logout(list: &mut Vec<SessionRow>, cookies: Option<&str>)
    ensures
        final(list)@ == (match cookies {
            Some(header) => match cookie_in(header@, "nexo_session"@) {
                Some(raw) => sessions_beside(
                    old(list)@,
                    digest::digest_of(raw),
                    old(list)@.len() as int,
                ),
                None => old(list)@,
            },
            None => old(list)@,
        }),
{
    let raw: Option<String> = match cookies {
        Some(header) => cookie(header, "nexo_session"),
        None => None,
    };
    if let Some(raw) = raw {
        let wanted: String = digest(raw.as_str());
        let mut kept: Vec<SessionRow> = Vec::new();
        let ghost all = list@;
        let mut i: usize = 0;
        while i < list.len()
            invariant
                i <= list@.len(),
                all == list@,
                all == old(list)@,
                wanted@ == digest::digest_of(raw@),
                kept@ == sessions_beside(all, wanted@, i as int),
            decreases list@.len() - i,
        {
            if !same(list[i].session_digest.as_str(), wanted.as_str()) {
                kept.push(copy_session(&list[i]));
            }
            i = i + 1;
        }
        *list = kept;
    }
}

/// Those of the first `n` sessions that are not the one with an identifier of a user.
pub open spec fn sessions_except(
    list: Seq<SessionRow>,
    id: Seq<char>,
    user: Seq<char>,
    n: int,
) -> Seq<SessionRow>
    decreases n,
{
    if n <= 0 {
        Seq::empty()
    } else if list[n - 1].id@ == id && list[n - 1].user_id@ == user {
        sessions_except(list, id, user, n - 1)
    } else {
        sessions_except(list, id, user, n - 1).push(list[n - 1])
    }
}

/// Ends one session of a user.
pub fn revoke_session(list: &mut Vec<SessionRow>, id: &str, user: &str) -> (r: RecoveryResponse)
    ensures
        final(list)@ == sessions_except(old(list)@, id@, user@, old(list)@.len() as int),
        r.message@ == "会话已吊销"@,
{
    let mut kept: Vec<SessionRow> = Vec::new();
    let ghost all = list@;
    let mut i: usize = 0;
    while i < list.len()
        invariant
            i <= list@.len(),
            all == list@,
            all == old(list)@,
            kept@ == sessions_except(all, id@, user@, i as int),
        decreases list@.len() - i,
    {
        if !(same(list[i].id.as_str(), id) && same(list[i].user_id.as_str(), user)) {
            kept.push(copy_session(&list[i]));
        }
        i = i + 1;
    }
    *list = kept;
    RecoveryResponse { message: "会话已吊销".to_owned() }
}

/// The hash of a new password, where the current one is right.
pub fn new_password_hash(input: &ChangePasswordRequest, current_hash: &str) -> (r: Result<
    String,
    ApiError,
>)
    ensures
        ({
            let right = text::byte_len(input.current_password@) <= 1024
                && digest::password_matches(input.current_password@, current_hash@);
            match r {
                Ok(hash) => right && text::byte_len(input.new_password@) <= digest::MAX_PASSWORD
                    && digest::password_matches(input.new_password@, hash@),
                Err(e) => if right {
                    text::byte_len(input.new_password@) > digest::MAX_PASSWORD && error::told(e)
                        == error::refusal(INTERNAL_SERVER_ERROR, "无法处理密码")
                } else {
                    error::told(e) == error::refusal(UNAUTHORIZED, "当前密码错误")
                },
            }
        }),
{
    if bytes_of(input.current_password.as_str()) > 1024 || !verify_password(
        input.current_password.as_str(),
        current_hash,
    ) {
        return Err(ApiError::new(UNAUTHORIZED, "当前密码错误"));
    }
    hash_password(input.new_password.as_str())
}

/// Stores a new password in place of the one that was checked: all sessions and the recovery code of
/// the user end with it. Where the stored password has changed meanwhile, nothing is done.
pub fn change_password(
    accounts: &mut Accounts,
    user_id: &str,
    checked_hash: &str,
    hash: String,
) -> (r: Result<(), ApiError>)
    ensures
        final(accounts).tenants == old(accounts).tenants,
        final(accounts).invitations == old(accounts).invitations,
        ({
            let found = user_at(old(accounts).users@, user_id@);
            let fits = found matches Some(k) && old(accounts).users@[k].password_hash@
                == checked_hash@;
            match r {
                Ok(_) => fits && final(accounts).users@ == old(accounts).users@.update(
                    found->0,
                    User { password_hash: hash, ..old(accounts).users@[found->0] },
                ) && final(accounts).sessions@ == sessions_without(
                    old(accounts).sessions@,
                    user_id@,
                    old(accounts).sessions@.len() as int,
                ) && final(accounts).recoveries@ == recoveries_without(
                    old(accounts).recoveries@,
                    user_id@,
                    old(accounts).recoveries@.len() as int,
                ),
                Err(e) => !fits && *final(accounts) == *old(accounts) && error::told(e)
                    == error::refusal(CONFLICT, "账号凭据已更新，请重新登录"),
            }
        }),
{
    if let Some(k) = find_user(&accounts.users, user_id) {
        if same(accounts.users[k].password_hash.as_str(), checked_hash) {
            let mut user: User = copy_user(&accounts.users[k]);
            user.password_hash = hash;
            accounts.users.set(k, user);
            remove_sessions(&mut accounts.sessions, user_id);
            remove_recoveries(&mut accounts.recoveries, user_id);
            return Ok(());
        }
    }
    Err(ApiError::new(CONFLICT, "账号凭据已更新，请重新登录"))
}

/// Whether a user is an enabled administrator with a name, where one is given.
pub open spec fn recoverable(user: User, username: Option<Seq<char>>) -> bool {
    user.role@ == "system_admin"@ && user.enabled && (username matches Some(name) ==> user.username@
        == name)
}

/// The number of the first `n` users that can be recovered.
pub open spec fn recoverable_count(users: Seq<User>, username: Option<Seq<char>>, n: int) -> int
    decreases n,
{
    if n <= 0 {
        0
    } else {
        recoverable_count(users, username, n - 1) + (if recoverable(users[n - 1], username) {
            1int
        } else {
            0
        })
    }
}

/// A recovery code for an administrator.
#[derive(Debug, Clone)]
pub struct RecoveryCode {
    pub code: String,
    pub username: String,
    pub expires_at: i64,
}

/// Makes a recovery code for the one administrator that is meant, in place of an earlier one.
/// `None` where no or more than one administrator is meant.
pub fn create_recovery_code(accounts: &mut Accounts, username: Option<&str>, now: i64) -> (r:
    Option<RecoveryCode>)
    requires
        now + RECOVERY_SECONDS <= i64::MAX,
    ensures
        final(accounts).users == old(accounts).users,
        final(accounts).tenants == old(accounts).tenants,
        final(accounts).sessions == old(accounts).sessions,
        final(accounts).invitations == old(accounts).invitations,
        r is Some <==> recoverable_count(
            old(accounts).users@,
            text::opt_str(username),
            old(accounts).users@.len() as int,
        ) == 1,
        match r {
            None => *final(accounts) == *old(accounts),
            Some(made) => digest::secret_code(made.code@) && made.expires_at == now + RECOVERY_SECONDS
                && exists|k: int|
                #![trigger old(accounts).users@[k]]
                0 <= k < old(accounts).users@.len() && recoverable(
                    old(accounts).users@[k],
                    text::opt_str(username),
                ) && made.username@ == old(accounts).users@[k].username@ && ({
                    let id = old(accounts).users@[k].id@;
                    let kept = recoveries_without(
                        old(accounts).recoveries@,
                        id,
                        old(accounts).recoveries@.len() as int,
                    );
                    &&& final(accounts).recoveries@.len() == kept.len() + 1
                    &&& final(accounts).recoveries@.drop_last() == kept
                    &&& final(accounts).recoveries@.last().id@ == id
                    &&& final(accounts).recoveries@.last().recovery_digest@ == digest::digest_of(
                        made.code@,
                    )
                    &&& final(accounts).recoveries@.last().expires_at == made.expires_at
                    &&& !final(accounts).recoveries@.last().used
                }),
        },
{
    let ghost users = accounts.users@;
    let ghost wanted = text::opt_str(username);
    let mut found: Option<usize> = None;
    let mut count: usize = 0;
    let mut i: usize = 0;
    while i < accounts.users.len()
        invariant
            i <= accounts.users@.len(),
            *accounts == *old(accounts),
            users == accounts.users@,
            wanted == text::opt_str(username),
            count <= i,
            count == recoverable_count(users, wanted, i as int),
            count > 0 ==> found is Some,
            found matches Some(k) ==> k < i && recoverable(users[k as int], wanted),
        decreases accounts.users@.len() - i,
    {
        let row: &User = &accounts.users[i];
        let named: bool = match username {
            Some(name) => same(row.username.as_str(), name),
            None => true,
        };
        if same(row.role.as_str(), "system_admin") && row.enabled && named {
            count = count + 1;
            found = Some(i);
        }
        i = i + 1;
    }
    if count != 1 {
        return None;
    }
    match found {
        None => None,
        Some(k) => {
            let id: String = accounts.users[k].id.clone();
            let name: String = accounts.users[k].username.clone();
            let code: String = random_hex();
            let expires_at: i64 = now + RECOVERY_SECONDS;
            remove_recoveries(&mut accounts.recoveries, id.as_str());
            let ghost kept = accounts.recoveries@;
            accounts.recoveries.push(
                Recovery {
                    id,
                    recovery_digest: digest(code.as_str()),
                    expires_at,
                    used: false,
                },
            );
            assert(accounts.recoveries@.drop_last() =~= kept);
            assert(recoverable(users[k as int], wanted));
            Some(RecoveryCode { code, username: name, expires_at })
        },
    }
}

/// Whether a stored recovery code can be used: it has the digest, it is neither expired nor used, and
/// its user is enabled.
pub open spec fn recovery_usable(accounts: Accounts, row: Recovery, digest: Seq<char>, now: i64) -> bool {
    row.recovery_digest@ == digest && row.expires_at > now && !row.used && user_enabled(
        accounts.users@,
        row.id@,
    )
}

/// The position of the first usable recovery code from position `i` on.
pub open spec fn recovery_from(accounts: Accounts, digest: Seq<char>, now: i64, i: int) -> Option<int>
    decreases accounts.recoveries@.len() - i,
{
    if i < 0 || i >= accounts.recoveries@.len() {
        None
    } else if recovery_usable(accounts, accounts.recoveries@[i], digest, now) {
        Some(i)
    } else {
        recovery_from(accounts, digest, now, i + 1)
    }
}

fn find_recovery(accounts: &Accounts, wanted: &str, now: i64) -> (r: Option<usize>)
    ensures
        match r {
            Some(k) => k < accounts.recoveries@.len() && recovery_from(*accounts, wanted@, now, 0)
                == Some(k as int) && recovery_usable(
                *accounts,
                accounts.recoveries@[k as int],
                wanted@,
                now,
            ),
            None => recovery_from(*accounts, wanted@, now, 0) is None,
        },
{
    let mut i: usize = 0;
    while i < accounts.recoveries.len()
        invariant
            i <= accounts.recoveries@.len(),
            recovery_from(*accounts, wanted@, now, 0) == recovery_from(
                *accounts,
                wanted@,
                now,
                i as int,
            ),
        decreases accounts.recoveries@.len() - i,
    {
        let row: &Recovery = &accounts.recoveries[i];
        if same(row.recovery_digest.as_str(), wanted) && row.expires_at > now && !row.used {
            let enabled: bool = match find_user(&accounts.users, row.id.as_str()) {
                Some(k) => accounts.users[k].enabled,
                None => false,
            };
            if enabled {
                return Some(i);
            }
        }
        i = i + 1;
    }
    None
}

/// Why a recovery is refused, if it is.
pub open spec fn recover_refusal(
    accounts: Accounts,
    code: Seq<char>,
    password: Seq<char>,
    now: i64,
) -> Option<error::Refusal> {
    if password_refusal(password) is Some {
        password_refusal(password)
    } else if recovery_from(accounts, digest::digest_of(text::trimmed(code)), now, 0) is None {
        error::refusal(UNAUTHORIZED, "恢复码无效、已使用或已过期")
    } else {
        None
    }
}

/// The user that a recovery code is for, before the new password is hashed.
pub fn recovery_user(accounts: &Accounts, input: &RecoverRequest, now: i64) -> (r: Result<
    String,
    ApiError,
>)
    ensures
        match r {
            Ok(user) => recover_refusal(
                *accounts,
                input.recovery_code@,
                input.new_password@,
                now,
            ) is None && (recovery_from(
                *accounts,
                digest::digest_of(text::trimmed(input.recovery_code@)),
                now,
                0,
            ) matches Some(k) && user@ == accounts.recoveries@[k].id@),
            Err(e) => recover_refusal(
                *accounts,
                input.recovery_code@,
                input.new_password@,
                now,
            ) == error::told(e),
        },
{
    if let Err(e) = validate_password(input.new_password.as_str()) {
        return Err(e);
    }
    let wanted: String = digest(trim(input.recovery_code.as_str()).as_str());
    match find_recovery(accounts, wanted.as_str(), now) {
        Some(k) => Ok(accounts.recoveries[k].id.clone()),
        None => Err(ApiError::new(UNAUTHORIZED, "恢复码无效、已使用或已过期")),
    }
}

/// The stored recovery codes after that of a user was used.
pub open spec fn used_by(list: Seq<Recovery>, user: Seq<char>) -> Seq<Recovery> {
    Seq::new(
        list.len(),
        |i: int|
            if list[i].id@ == user {
                Recovery { used: true, ..list[i] }
            } else {
                list[i]
            },
    )
}

fn mark_used(list: &mut Vec<Recovery>, user: &str)
    ensures
        final(list)@ == used_by(old(list)@, user@),
{
    let mut next: Vec<Recovery> = Vec::new();
    let ghost all = list@;
    let mut i: usize = 0;
    while i < list.len()
        invariant
            i <= list@.len(),
            all == list@,
            all == old(list)@,
            next@ == used_by(all, user@).take(i as int),
        decreases list@.len() - i,
    {
        let mut row: Recovery = copy_recovery(&list[i]);
        if same(row.id.as_str(), user) {
            row.used = true;
        }
        next.push(row);
        assert(next@ =~= used_by(all, user@).take(i + 1));
        i = i + 1;
    }
    assert(used_by(all, user@).take(all.len() as int) =~= used_by(all, user@));
    *list = next;
}

/// Replaces a forgotten password: the code is checked again and used up, and all sessions of its
/// user end. Gives the name of the user and what is kept of the action.
pub fn recover(
    accounts: &mut Accounts,
    code: &str,
    checked_user: &str,
    hash: String,
    now: i64,
) -> (r: Result<(String, AuditEvent), ApiError>)
    ensures
        final(accounts).tenants == old(accounts).tenants,
        final(accounts).invitations == old(accounts).invitations,
        ({
            let found = recovery_from(
                *old(accounts),
                digest::digest_of(text::trimmed(code@)),
                now,
                0,
            );
            let fits = found matches Some(k) && old(accounts).recoveries@[k].id@ == checked_user@;
            match r {
                Ok(done) => fits && (user_at(old(accounts).users@, checked_user@) matches Some(u)
                    && final(accounts).users@ == old(accounts).users@.update(
                    u,
                    User { password_hash: hash, ..old(accounts).users@[u] },
                ) && done.0@ == old(accounts).users@[u].username@ && is_audit(
                    done.1,
                    old(accounts).users@[u].tenant_id@,
                    None,
                    "account_recovered"@,
                    "user"@,
                    checked_user@,
                    now,
                )) && final(accounts).sessions@ == sessions_without(
                    old(accounts).sessions@,
                    checked_user@,
                    old(accounts).sessions@.len() as int,
                ) && final(accounts).recoveries@ == used_by(
                    old(accounts).recoveries@,
                    checked_user@,
                ),
                Err(e) => !fits && *final(accounts) == *old(accounts) && error::told(e)
                    == error::refusal(UNAUTHORIZED, "恢复码无效、已使用或已过期"),
            }
        }),
{
    let wanted: String = digest(trim(code).as_str());
    if let Some(k) = find_recovery(accounts, wanted.as_str(), now) {
        if same(accounts.recoveries[k].id.as_str(), checked_user) {
            if let Some(u) = find_user(&accounts.users, checked_user) {
                let mut user: User = copy_user(&accounts.users[u]);
                let name: String = user.username.clone();
                let event = AuditEvent {
                    tenant_id: user.tenant_id.clone(),
                    actor_user_id: None,
                    event_type: "account_recovered".to_owned(),
                    resource_type: "user".to_owned(),
                    resource_id: checked_user.to_owned(),
                    created_at: now,
                };
                user.password_hash = hash;
                accounts.users.set(u, user);
                mark_used(&mut accounts.recoveries, checked_user);
                remove_sessions(&mut accounts.sessions, checked_user);
                return Ok((name, event));
            }
        }
    }
    Err(ApiError::new(UNAUTHORIZED, "恢复码无效、已使用或已过期"))
}

proof fn lemma_used_unusable(
    accounts: Accounts,
    list: Seq<Recovery>,
    user: Seq<char>,
    digest: Seq<char>,
    now: i64,
    i: int,
)
    requires
        0 <= i,
        accounts.recoveries@ == used_by(list, user),
        forall|j: int|
            0 <= j < list.len() && (#[trigger] list[j]).recovery_digest@ == digest ==> list[j].id@
                == user,
    ensures
        recovery_from(accounts, digest, now, i) is None,
    decreases accounts.recoveries@.len() - i,
{
    if i < accounts.recoveries@.len() {
        let row = accounts.recoveries@[i];
        assert(row.recovery_digest@ == list[i].recovery_digest@);
        lemma_used_unusable(accounts, list, user, digest, now, i + 1);
    }
}

/// A recovery code works once: after it was used, it is refused at any time. No other user has a
/// code with its digest.
pub proof fn recovery_codes_work_once(
    before: Accounts,
    after: Accounts,
    code: Seq<char>,
    user: Seq<char>,
    now: i64,
    later: i64,
)
    requires
        after.recoveries@ == used_by(before.recoveries@, user),
        forall|j: int|
            0 <= j < before.recoveries@.len() && (#[trigger] before.recoveries@[j]).recovery_digest@
                == digest::digest_of(text::trimmed(code)) ==> before.recoveries@[j].id@ == user,
    ensures
        recovery_from(after, digest::digest_of(text::trimmed(code)), later, 0) is None,
{
    lemma_used_unusable(
        after,
        before.recoveries@,
        user,
        digest::digest_of(text::trimmed(code)),
        later,
        0,
    );
}

/// Those of the first `n` sessions that are of a user, as they are shown.
pub open spec fn sessions_of(list: Seq<SessionRow>, user: Seq<char>, n: int) -> Seq<
    (Seq<char>, i64, i64, i64),
>
    decreases n,
{
    if n <= 0 {
        Seq::empty()
    } else {
        let row = list[n - 1];
        if row.user_id@ == user {
            sessions_of(list, user, n - 1).push(
                (row.id@, row.created_at, row.last_seen_at, row.expires_at),
            )
        } else {
            sessions_of(list, user, n - 1)
        }
    }
}

/// The session that a request is made with, as it is shown.
pub fn current_session_info(accounts: &Accounts, cookies: Option<&str>, now: i64) -> (r: Result<
    SessionResponse,
    ApiError,
>)
    ensures
        match r {
            Ok(shown) => session_of(*accounts, text::opt_str(cookies), now) matches Some(k) && 0 <= k
                < accounts.sessions@.len() && shown.id@ == accounts.sessions@[k].id@
                && shown.created_at == accounts.sessions@[k].created_at && shown.last_seen_at
                == accounts.sessions@[k].last_seen_at && shown.expires_at
                == accounts.sessions@[k].expires_at,
            Err(e) => session_of(*accounts, text::opt_str(cookies), now) is None && error::told(e)
                == error::no_session(),
        },
{
    match find_session(accounts, cookies, now) {
        Some(k) => {
            let row: &SessionRow = &accounts.sessions[k];
            Ok(
                SessionResponse {
                    id: row.id.clone(),
                    created_at: row.created_at,
                    last_seen_at: row.last_seen_at,
                    expires_at: row.expires_at,
                },
            )
        },
        None => Err(ApiError::session_expired()),
    }
}

/// The sessions of a user as they are shown, in the order of the list.
pub fn list_sessions(list: &Vec<SessionRow>, user: &str) -> (r: Vec<SessionResponse>)
    ensures
        Seq::new(
            r@.len(),
            |i: int| (r@[i].id@, r@[i].created_at, r@[i].last_seen_at, r@[i].expires_at),
        ) == sessions_of(list@, user@, list@.len() as int),
{
    let mut r: Vec<SessionResponse> = Vec::new();
    let mut i: usize = 0;
    while i < list.len()
        invariant
            i <= list@.len(),
            Seq::new(
                r@.len(),
                |j: int| (r@[j].id@, r@[j].created_at, r@[j].last_seen_at, r@[j].expires_at),
            ) == sessions_of(list@, user@, i as int),
        decreases list@.len() - i,
    {
        let row: &SessionRow = &list[i];
        if same(row.user_id.as_str(), user) {
            let ghost before = Seq::new(
                r@.len(),
                |j: int| (r@[j].id@, r@[j].created_at, r@[j].last_seen_at, r@[j].expires_at),
            );
            let shown = SessionResponse {
                id: row.id.clone(),
                created_at: row.created_at,
                last_seen_at: row.last_seen_at,
                expires_at: row.expires_at,
            };
            r.push(shown);
            assert(Seq::new(
                r@.len(),
                |j: int| (r@[j].id@, r@[j].created_at, r@[j].last_seen_at, r@[j].expires_at),
            ) =~= before.push((shown.id@, shown.created_at, shown.last_seen_at, shown.expires_at)));
        }
        i = i + 1;
    }
    r
}

proof fn lemma_sessions_beside(list: Seq<SessionRow>, digest: Seq<char>, n: int, keep: spec_fn(int) -> bool, value: spec_fn(int) -> SessionRow)
    requires
        forall|i: int|
            0 <= i < n ==> #[trigger] keep(i) == (list[i].session_digest@ != digest) && value(i) == (list[i]),
    ensures
        sessions_beside(list, digest, n) == picked::picked(keep, value, n),
    decreases n,
{
    if n > 0 {
        assert(keep(n - 1) || !keep(n - 1));
        lemma_sessions_beside(list, digest, n - 1, keep, value);
    }
}

/// Signing out ends the sessions that were opened with the secret of the cookie, and no other.
pub proof fn signing_out_ends_that_session(list: Seq<SessionRow>, digest: Seq<char>)
    ensures
        forall|row: SessionRow| #[trigger]
            sessions_beside(list, digest, list.len() as int).contains(row) <==> exists|i: int|
                0 <= i < list.len() && #[trigger] list[i] == row && row.session_digest@ != digest,
{
    let n = list.len() as int;
    let keep = |i: int| list[i].session_digest@ != digest;
    let value = |i: int| list[i];
    lemma_sessions_beside(list, digest, n, keep, value);
    assert forall|row: SessionRow| #[trigger] sessions_beside(list, digest, n).contains(row) <==> exists|i: int|
        0 <= i < list.len() && #[trigger] list[i] == row && row.session_digest@ != digest by {
        picked::lemma_picked_contains(keep, value, n, row);
        if sessions_beside(list, digest, n).contains(row) {
            let i = choose|i: int| 0 <= i < n && #[trigger] keep(i) && value(i) == row;
            assert(list[i] == list[i]);
        }
        if exists|i: int| 0 <= i < list.len() && #[trigger] list[i] == row && row.session_digest@ != digest {
            let i = choose|i: int| 0 <= i < list.len() && #[trigger] list[i] == row && row.session_digest@ != digest;
            assert(keep(i) && value(i) == row);
        }
    }
}

proof fn lemma_sessions_except(list: Seq<SessionRow>, id: Seq<char>, user: Seq<char>, n: int, keep: spec_fn(int) -> bool, value: spec_fn(int) -> SessionRow)
    requires
        forall|i: int|
            0 <= i < n ==> #[trigger] keep(i) == (!(list[i].id@ == id && list[i].user_id@ == user)) && value(i) == (list[i]),
    ensures
        sessions_except(list, id, user, n) == picked::picked(keep, value, n),
    decreases n,
{
    if n > 0 {
        assert(keep(n - 1) || !keep(n - 1));
        lemma_sessions_except(list, id, user, n - 1, keep, value);
    }
}

/// Revoking a session ends the one of the user under that identifier; every other session stays, those
/// of other users with it.
pub proof fn revoking_ends_one_session(list: Seq<SessionRow>, id: Seq<char>, user: Seq<char>)
    ensures
        forall|row: SessionRow| #[trigger]
            sessions_except(list, id, user, list.len() as int).contains(row) <==> exists|i: int|
                0 <= i < list.len() && #[trigger] list[i] == row && !(row.id@ == id && row.user_id@ == user),
{
    let n = list.len() as int;
    let keep = |i: int| !(list[i].id@ == id && list[i].user_id@ == user);
    let value = |i: int| list[i];
    lemma_sessions_except(list, id, user, n, keep, value);
    assert forall|row: SessionRow| #[trigger] sessions_except(list, id, user, n).contains(row) <==> exists|i: int|
        0 <= i < list.len() && #[trigger] list[i] == row && !(row.id@ == id && row.user_id@ == user) by {
        picked::lemma_picked_contains(keep, value, n, row);
        if sessions_except(list, id, user, n).contains(row) {
            let i = choose|i: int| 0 <= i < n && #[trigger] keep(i) && value(i) == row;
            assert(list[i] == list[i]);
        }
        if exists|i: int| 0 <= i < list.len() && #[trigger] list[i] == row && !(row.id@ == id && row.user_id@ == user) {
            let i = choose|i: int| 0 <= i < list.len() && #[trigger] list[i] == row && !(row.id@ == id && row.user_id@ == user);
            assert(keep(i) && value(i) == row);
        }
    }
}

proof fn lemma_recoveries_without(list: Seq<Recovery>, user: Seq<char>, n: int, keep: spec_fn(int) -> bool, value: spec_fn(int) -> Recovery)
    requires
        forall|i: int|
            0 <= i < n ==> #[trigger] keep(i) == (list[i].id@ != user) && value(i) == (list[i]),
    ensures
        recoveries_without(list, user, n) == picked::picked(keep, value, n),
    decreases n,
{
    if n > 0 {
        assert(keep(n - 1) || !keep(n - 1));
        lemma_recoveries_without(list, user, n - 1, keep, value);
    }
}

/// The recovery codes of a user go, and those of everybody else stay.
pub proof fn other_recovery_codes_stay(list: Seq<Recovery>, user: Seq<char>)
    ensures
        forall|row: Recovery| #[trigger]
            recoveries_without(list, user, list.len() as int).contains(row) <==> exists|i: int|
                0 <= i < list.len() && #[trigger] list[i] == row && row.id@ != user,
{
    let n = list.len() as int;
    let keep = |i: int| list[i].id@ != user;
    let value = |i: int| list[i];
    lemma_recoveries_without(list, user, n, keep, value);
    assert forall|row: Recovery| #[trigger] recoveries_without(list, user, n).contains(row) <==> exists|i: int|
        0 <= i < list.len() && #[trigger] list[i] == row && row.id@ != user by {
        picked::lemma_picked_contains(keep, value, n, row);
        if recoveries_without(list, user, n).contains(row) {
            let i = choose|i: int| 0 <= i < n && #[trigger] keep(i) && value(i) == row;
            assert(list[i] == list[i]);
        }
        if exists|i: int| 0 <= i < list.len() && #[trigger] list[i] == row && row.id@ != user {
            let i = choose|i: int| 0 <= i < list.len() && #[trigger] list[i] == row && row.id@ != user;
            assert(keep(i) && value(i) == row);
        }
    }
}

proof fn lemma_sessions_of(list: Seq<SessionRow>, user: Seq<char>, n: int, keep: spec_fn(int) -> bool, value: spec_fn(int) -> (Seq<char>, i64, i64, i64))
    requires
        forall|i: int|
            0 <= i < n ==> #[trigger] keep(i) == (list[i].user_id@ == user) && value(i) == ((list[i].id@, list[i].created_at, list[i].last_seen_at, list[i].expires_at)),
    ensures
        sessions_of(list, user, n) == picked::picked(keep, value, n),
    decreases n,
{
    if n > 0 {
        assert(keep(n - 1) || !keep(n - 1));
        lemma_sessions_of(list, user, n - 1, keep, value);
    }
}

/// A user sees the sessions of the user, and no other: each with its identifier and its times.
pub proof fn users_see_their_own_sessions(list: Seq<SessionRow>, user: Seq<char>)
    ensures
        forall|shown: (Seq<char>, i64, i64, i64)| #[trigger]
            sessions_of(list, user, list.len() as int).contains(shown) <==> exists|i: int|
                0 <= i < list.len() && (#[trigger] list[i]).user_id@ == user && shown == (list[i].id@, list[i].created_at, list[i].last_seen_at, list[i].expires_at),
{
    let n = list.len() as int;
    let keep = |i: int| list[i].user_id@ == user;
    let value = |i: int| (list[i].id@, list[i].created_at, list[i].last_seen_at, list[i].expires_at);
    lemma_sessions_of(list, user, n, keep, value);
    assert forall|shown: (Seq<char>, i64, i64, i64)| #[trigger] sessions_of(list, user, n).contains(shown) <==> exists|i: int|
        0 <= i < list.len() && (#[trigger] list[i]).user_id@ == user && shown == (list[i].id@, list[i].created_at, list[i].last_seen_at, list[i].expires_at) by {
        picked::lemma_picked_contains(keep, value, n, shown);
        if sessions_of(list, user, n).contains(shown) {
            let i = choose|i: int| 0 <= i < n && #[trigger] keep(i) && value(i) == shown;
            assert(list[i] == list[i]);
        }
        if exists|i: int| 0 <= i < list.len() && (#[trigger] list[i]).user_id@ == user && shown == (list[i].id@, list[i].created_at, list[i].last_seen_at, list[i].expires_at) {
            let i = choose|i: int| 0 <= i < list.len() && (#[trigger] list[i]).user_id@ == user && shown == (list[i].id@, list[i].created_at, list[i].last_seen_at, list[i].expires_at);
            assert(keep(i) && value(i) == shown);
        }
    }
}

proof fn lemma_user_from(users: Seq<User>, id: Seq<char>, i: int)
    requires
        0 <= i,
    ensures
        user_from(users, id, i) matches Some(k) ==> i <= k < users.len() && users[k].id@ == id,
        user_from(users, id, i) is None ==> forall|k: int|
            i <= k < users.len() ==> (#[trigger] users[k]).id@ != id,
    decreases users.len() - i,
{
    if i < users.len() && users[i].id@ != id {
        lemma_user_from(users, id, i + 1);
    }
}

/// A user is found under its identifier wherever there is one with it.
pub proof fn users_are_found_by_their_identifier(users: Seq<User>, id: Seq<char>)
    ensures
        user_at(users, id) matches Some(k) ==> 0 <= k < users.len() && users[k].id@ == id,
        user_at(users, id) is None <==> forall|k: int|
            0 <= k < users.len() ==> (#[trigger] users[k]).id@ != id,
{
    lemma_user_from(users, id, 0);
}

proof fn lemma_named_from(users: Seq<User>, name: Seq<char>, i: int)
    requires
        0 <= i,
    ensures
        named_from(users, name, i) matches Some(k) ==> i <= k < users.len() && users[k].username@
            == name,
        named_from(users, name, i) is None ==> forall|k: int|
            i <= k < users.len() ==> (#[trigger] users[k]).username@ != name,
    decreases users.len() - i,
{
    if i < users.len() && users[i].username@ != name {
        lemma_named_from(users, name, i + 1);
    }
}

/// A user is found under its name wherever there is one with it.
pub proof fn users_are_found_by_their_name(users: Seq<User>, name: Seq<char>)
    ensures
        named_from(users, name, 0) matches Some(k) ==> 0 <= k < users.len() && users[k].username@
            == name,
        named_from(users, name, 0) is None <==> forall|k: int|
            0 <= k < users.len() ==> (#[trigger] users[k]).username@ != name,
{
    lemma_named_from(users, name, 0);
}

proof fn lemma_cookie_from(parts: Seq<Seq<char>>, name: Seq<char>, i: int)
    requires
        0 <= i,
    ensures
        cookie_from(parts, name, i) matches Some(value) ==> exists|k: int|
            i <= k < parts.len() && text::trimmed(#[trigger] parts[k]) == name + "="@ + value,
        cookie_from(parts, name, i) is None ==> forall|k: int|
            i <= k < parts.len() ==> !text::has_prefix(
                text::trimmed(#[trigger] parts[k]),
                name + "="@,
            ),
    decreases parts.len() - i,
{
    if i < parts.len() {
        let part = text::trimmed(parts[i]);
        match text::after_prefix(part, name + "="@) {
            Some(value) => {
                assert(part =~= name + "="@ + value);
            },
            None => {
                lemma_cookie_from(parts, name, i + 1);
            },
        }
    }
}

/// The value of a cookie is what stands behind its name and an equals sign in one of the parts between
/// semicolons; where no part has that name, there is none.
pub proof fn cookies_are_read_by_their_name(header: Seq<char>, name: Seq<char>)
    ensures
        cookie_in(header, name) matches Some(value) ==> exists|k: int|
            0 <= k < text::split(header, ';').len() && text::trimmed(
                #[trigger] text::split(header, ';')[k],
            ) == name + "="@ + value,
        cookie_in(header, name) is None ==> forall|k: int|
            0 <= k < text::split(header, ';').len() ==> !text::has_prefix(
                text::trimmed(#[trigger] text::split(header, ';')[k]),
                name + "="@,
            ),
{
    lemma_cookie_from(text::split(header, ';'), name, 0);
}

proof fn lemma_first_session(accounts: Accounts, digest: Seq<char>, now: i64, i: int)
    requires
        0 <= i,
    ensures
        session_from(accounts, digest, now, i) matches Some(k) ==> i <= k
            < accounts.sessions@.len() && session_live(
            accounts,
            accounts.sessions@[k],
            digest,
            now,
        ),
        session_from(accounts, digest, now, i) is None ==> forall|k: int|
            i <= k < accounts.sessions@.len() ==> !session_live(
                accounts,
                #[trigger] accounts.sessions@[k],
                digest,
                now,
            ),
    decreases accounts.sessions@.len() - i,
{
    if i < accounts.sessions@.len() && !session_live(accounts, accounts.sessions@[i], digest, now) {
        lemma_first_session(accounts, digest, now, i + 1);
    }
}

/// A request belongs to a session only where its cookie holds the secret of that session, the session
/// has not ended, and its user is there and enabled. Without the cookie there is no session.
pub proof fn sessions_open_with_their_secret_alone(
    accounts: Accounts,
    cookies: Option<Seq<char>>,
    now: i64,
)
    ensures
        session_of(accounts, cookies, now) matches Some(k) ==> {
            &&& 0 <= k < accounts.sessions@.len()
            &&& cookies is Some && cookie_in(cookies->0, "nexo_session"@) is Some
            &&& accounts.sessions@[k].session_digest@ == digest::digest_of(
                cookie_in(cookies->0, "nexo_session"@)->0,
            )
            &&& now < accounts.sessions@[k].expires_at
            &&& exists|u: int|
                0 <= u < accounts.users@.len() && (#[trigger] accounts.users@[u]).id@
                    == accounts.sessions@[k].user_id@ && accounts.users@[u].enabled
        },
        cookies is None ==> session_of(accounts, cookies, now) is None,
{
    if let Some(header) = cookies {
        if let Some(raw) = cookie_in(header, "nexo_session"@) {
            lemma_first_session(accounts, digest::digest_of(raw), now, 0);
            if let Some(k) = session_from(accounts, digest::digest_of(raw), now, 0) {
                lemma_user_from(accounts.users@, accounts.sessions@[k].user_id@, 0);
                let u = user_at(accounts.users@, accounts.sessions@[k].user_id@)->0;
                assert(accounts.users@[u].enabled);
            }
        }
    }
}

/// Whoever holds the secret of a session that has not ended, and whose user is enabled, is let in.
pub proof fn live_sessions_are_found(
    accounts: Accounts,
    header: Seq<char>,
    raw: Seq<char>,
    now: i64,
    k: int,
    u: int,
)
    requires
        cookie_in(header, "nexo_session"@) == Some(raw),
        0 <= k < accounts.sessions@.len(),
        accounts.sessions@[k].session_digest@ == digest::digest_of(raw),
        now < accounts.sessions@[k].expires_at,
        user_at(accounts.users@, accounts.sessions@[k].user_id@) == Some(u),
        accounts.users@[u].enabled,
    ensures
        session_of(accounts, Some(header), now) is Some,
{
    lemma_first_session(accounts, digest::digest_of(raw), now, 0);
    assert(session_live(accounts, accounts.sessions@[k], digest::digest_of(raw), now));
}

/// A session that is made now begins now and lasts seven days; only digests of its secrets are stored.
pub proof fn new_sessions_store_digests_alone(
    row: SessionRow,
    user: Seq<char>,
    tenant: Seq<char>,
    raw: Seq<char>,
    csrf: Seq<char>,
    now: i64,
)
    requires
        is_new_session(row, user, tenant, raw, csrf, now),
    ensures
        row.user_id@ == user,
        row.tenant_id@ == tenant,
        row.session_digest@ == digest::digest_of(raw),
        row.csrf_digest@ == digest::digest_of(csrf),
        row.created_at == now && row.last_seen_at == now,
        row.expires_at == now + 7 * 24 * 3600,
{
}

/// What is known of a request is taken from its session: the user, the workspace, and the digest of
/// the token with which its changes are confirmed.
pub proof fn requests_act_for_their_session(session: Session, row: SessionRow)
    requires
        is_session(session, row),
    ensures
        session.user_id@ == row.user_id@,
        session.tenant_id@ == row.tenant_id@,
        session.csrf@ == row.csrf_digest@,
{
}

/// The cookie of a session holds its secret, cannot be read by scripts, lasts as long as the session,
/// and over HTTPS goes over HTTPS alone. The one with the token can be read by scripts.
pub proof fn session_cookies_are_kept_from_scripts(raw: Seq<char>, secure: bool)
    ensures
        text::has_prefix(session_cookie(raw, secure), "nexo_session="@ + raw + "; HttpOnly;"@),
        text::has_prefix(csrf_cookie(raw, secure), "nexo_csrf="@ + raw + "; SameSite=Lax;"@),
        secure ==> text::has_suffix(session_cookie(raw, secure), "; Max-Age=604800; Secure"@)
            && text::has_suffix(csrf_cookie(raw, secure), "; Max-Age=604800; Secure"@),
        !secure ==> text::has_suffix(session_cookie(raw, secure), "; Max-Age=604800"@)
            && text::has_suffix(csrf_cookie(raw, secure), "; Max-Age=604800"@),
{
    reveal_strlit("; HttpOnly; SameSite=Lax; Path=/; Max-Age=604800");
    reveal_strlit("; HttpOnly;");
    reveal_strlit("; SameSite=Lax; Path=/; Max-Age=604800");
    reveal_strlit("; SameSite=Lax;");
    reveal_strlit("; Max-Age=604800; Secure");
    reveal_strlit("; Max-Age=604800");
    reveal_strlit("; Secure");
    let session = session_cookie(raw, secure);
    let csrf = csrf_cookie(raw, secure);
    let a = "nexo_session="@ + raw + "; HttpOnly;"@;
    let b = "nexo_csrf="@ + raw + "; SameSite=Lax;"@;
    assert(session.take(a.len() as int) =~= a);
    assert(csrf.take(b.len() as int) =~= b);
    let tail = if secure {
        "; Max-Age=604800; Secure"@
    } else {
        "; Max-Age=604800"@
    };
    assert(session.skip(session.len() - tail.len()) =~= tail);
    assert(csrf.skip(csrf.len() - tail.len()) =~= tail);
}

/// The first administrator is made only by someone who gives the code that is stored, with a name of 2
/// to 64 bytes and a password of at least twelve characters and at most 1024 bytes.
pub proof fn the_first_administrator_knows_the_code(
    contents: Option<Seq<char>>,
    code: Seq<char>,
    username: Seq<char>,
    password: Seq<char>,
)
    ensures
        initialize_refusal(contents, code, username, password) is None <==> {
            &&& contents is Some && text::trimmed(contents->0).len() > 0
            &&& text::trimmed(code) == text::trimmed(contents->0)
            &&& 2 <= text::byte_len(text::trimmed(username)) <= 64
            &&& password.len() >= 12 && text::byte_len(password) <= 1024
        },
{
}

/// The first administrator belongs to the default workspace, has the role of a system administrator
/// and is enabled.
pub proof fn the_first_user_administers_the_system(
    user: User,
    username: Seq<char>,
    hash: Seq<char>,
    now: i64,
)
    requires
        is_first_admin(user, username, hash, now),
    ensures
        user.role@ == "system_admin"@,
        user.tenant_id@ == "default"@,
        user.enabled,
        user.username@ == text::trimmed(username),
        user.password_hash@ == hash,
        user.created_at == now,
{
}

/// A recovery code is made for an enabled system administrator alone, for the one that is named where
/// one is.
pub proof fn only_administrators_recover(user: User, username: Option<Seq<char>>)
    ensures
        recoverable(user, username) <==> user.role@ == "system_admin"@ && user.enabled && (username
            is None || username == Some(user.username@)),
{
}

proof fn lemma_recovery_from(accounts: Accounts, digest: Seq<char>, now: i64, i: int)
    requires
        0 <= i,
    ensures
        recovery_from(accounts, digest, now, i) matches Some(k) ==> i <= k
            < accounts.recoveries@.len() && recovery_usable(
            accounts,
            accounts.recoveries@[k],
            digest,
            now,
        ),
        recovery_from(accounts, digest, now, i) is None ==> forall|k: int|
            i <= k < accounts.recoveries@.len() ==> !recovery_usable(
                accounts,
                #[trigger] accounts.recoveries@[k],
                digest,
                now,
            ),
    decreases accounts.recoveries@.len() - i,
{
    if i < accounts.recoveries@.len() && !recovery_usable(
        accounts,
        accounts.recoveries@[i],
        digest,
        now,
    ) {
        lemma_recovery_from(accounts, digest, now, i + 1);
    }
}

/// A recovery is accepted exactly where the code is that of a recovery which has not ended and was not
/// used, its user is there and enabled, and the new password is long enough.
pub proof fn recoveries_need_a_code_in_force(
    accounts: Accounts,
    code: Seq<char>,
    password: Seq<char>,
    now: i64,
)
    ensures
        recover_refusal(accounts, code, password, now) is None <==> password.len() >= 12
            && text::byte_len(password) <= 1024 && exists|k: int|
            0 <= k < accounts.recoveries@.len() && (
            #[trigger] accounts.recoveries@[k]).recovery_digest@ == digest::digest_of(
                text::trimmed(code),
            ) && accounts.recoveries@[k].expires_at > now && !accounts.recoveries@[k].used
                && user_at(accounts.users@, accounts.recoveries@[k].id@) is Some
                && accounts.users@[user_at(accounts.users@, accounts.recoveries@[k].id@)->0].enabled,
        recovery_from(accounts, digest::digest_of(text::trimmed(code)), now, 0) matches Some(k)
            ==> 0 <= k < accounts.recoveries@.len() && accounts.recoveries@[k].recovery_digest@
            == digest::digest_of(text::trimmed(code)) && accounts.recoveries@[k].expires_at > now
            && !accounts.recoveries@[k].used,
{
    let digest = digest::digest_of(text::trimmed(code));
    lemma_recovery_from(accounts, digest, now, 0);
    if let Some(k) = recovery_from(accounts, digest, now, 0) {
        assert(accounts.recoveries@[k].recovery_digest@ == digest);
    }
    assert forall|k: int|
        0 <= k < accounts.recoveries@.len() && (
        #[trigger] accounts.recoveries@[k]).recovery_digest@ == digest
            && accounts.recoveries@[k].expires_at > now && !accounts.recoveries@[k].used
            && user_at(accounts.users@, accounts.recoveries@[k].id@) is Some
            && accounts.users@[user_at(accounts.users@, accounts.recoveries@[k].id@)->0].enabled
        implies recovery_usable(accounts, accounts.recoveries@[k], digest, now) by {}
}

/// A recovery uses up every code of the user, and no code of anybody else.
pub proof fn recoveries_use_up_the_codes_of_the_user(list: Seq<Recovery>, user: Seq<char>, i: int)
    requires
        0 <= i < list.len(),
    ensures
        used_by(list, user).len() == list.len(),
        list[i].id@ == user ==> used_by(list, user)[i].used,
        list[i].id@ != user ==> used_by(list, user)[i] == list[i],
        used_by(list, user)[i].id == list[i].id,
        used_by(list, user)[i].recovery_digest == list[i].recovery_digest,
{
}

/// The state that a visitor is told names a user only where the visitor has a session, and that user
/// is the one of the session; whether the system is set up is told to everybody.
pub proof fn visitors_are_told_of_their_own_session(
    accounts: Accounts,
    cookies: Option<Seq<char>>,
    secure: bool,
    now: i64,
    r: AuthStatusResponse,
)
    requires
        is_status(accounts, cookies, secure, now, r),
    ensures
        r.local_http_warning <==> !secure,
        r.authenticated ==> (session_of(accounts, cookies, now) matches Some(k) && text::opt(
            r.user_id,
        ) == Some(accounts.sessions@[k].user_id@) && text::opt(r.workspace_id) == Some(
            accounts.sessions@[k].tenant_id@,
        )),
        session_of(accounts, cookies, now) is Some ==> r.authenticated,
        r.authenticated ==> exists|u: int|
            0 <= u < accounts.users@.len() && text::opt(r.user_id) == Some(
                (#[trigger] accounts.users@[u]).id@,
            ) && text::opt(r.username) == Some(accounts.users@[u].username@) && text::opt(r.role)
                == Some(accounts.users@[u].role@),
        r.authenticated ==> text::opt(r.channel) == Some(
            if secure {
                "https"@
            } else {
                "local_http"@
            },
        ),
        !r.authenticated ==> r.user_id is None && r.username is None && r.role is None
            && r.workspace_id is None && r.csrf_token is None && (r.initialized
            <==> accounts.users@.len() > 0),
{
    sessions_open_with_their_secret_alone(accounts, cookies, now);
    if let Some(k) = session_of(accounts, cookies, now) {
        lemma_user_from(accounts.users@, accounts.sessions@[k].user_id@, 0);
        let u = user_at(accounts.users@, accounts.sessions@[k].user_id@)->0;
        assert(accounts.users@[u].id@ == accounts.sessions@[k].user_id@);
    }
}

/// A request changes something with the secret of its own session alone.
pub proof fn changes_need_the_secret_of_the_session(
    session: &Session,
    provided: Option<&str>,
    r: Result<(), ApiError>,
)
    requires
        call_ensures(require_csrf, (session, provided), r),
    ensures
        provided is Some ==> (r is Ok <==> digest::digest_of(provided->0@) == session.csrf@),
        r matches Err(e) ==> e.status == 403,
{
}

/// A user who signs in is an enabled one of that name.
pub proof fn enabled_users_sign_in(
    accounts: &Accounts,
    username: &str,
    r: Result<User, ApiError>,
)
    requires
        call_ensures(login_candidate, (accounts, username), r),
    ensures
        r matches Ok(user) ==> user.enabled && user.username@ == text::trimmed(username@)
            && exists|k: int| 0 <= k < accounts.users@.len() && #[trigger] accounts.users@[k] == user,
        (forall|k: int|
            0 <= k < accounts.users@.len() ==> (#[trigger] accounts.users@[k]).username@
                != text::trimmed(username@)) ==> r is Err,
        r matches Err(e) ==> e.status == 401,
{
    users_are_found_by_their_name(accounts.users@, text::trimmed(username@));
}

/// A password is changed by one who knows the current one, and the new one opens from then on.
pub proof fn passwords_are_changed_with_the_current_one(
    input: &ChangePasswordRequest,
    current_hash: &str,
    r: Result<String, ApiError>,
)
    requires
        call_ensures(new_password_hash, (input, current_hash), r),
    ensures
        r matches Ok(hash) ==> digest::password_matches(input.current_password@, current_hash@)
            && digest::password_matches(input.new_password@, hash@),
        !digest::password_matches(input.current_password@, current_hash@) ==> r is Err && r->Err_0.status
            == 401,
{
}

/// A session is added for its user and workspace and lasts as long as sessions do; the others stay.
pub proof fn sessions_are_added_for_their_user(
    sessions: &mut Vec<SessionRow>,
    user_id: &str,
    tenant_id: &str,
    now: i64,
    r: SessionSecrets,
)
    requires
        call_ensures(create_session, (sessions, user_id, tenant_id, now), r),
    ensures
        final(sessions)@.len() == old(sessions)@.len() + 1,
        final(sessions)@.drop_last() == old(sessions)@,
        final(sessions)@.last().user_id@ == user_id@,
        final(sessions)@.last().tenant_id@ == tenant_id@,
        final(sessions)@.last().session_digest@ == digest::digest_of(r.session@),
        final(sessions)@.last().csrf_digest@ == digest::digest_of(r.csrf@),
        now + SESSION_SECONDS <= i64::MAX ==> final(sessions)@.last().expires_at == now
            + SESSION_SECONDS,
{
}

/// The first user is made once: while there is one, nothing is.
pub proof fn the_first_user_is_made_once(
    accounts: &mut Accounts,
    username: &str,
    hash: String,
    now: i64,
    r: Result<SessionSecrets, ApiError>,
)
    requires
        call_ensures(initialize, (accounts, username, hash, now), r),
    ensures
        r is Ok <==> old(accounts).users@.len() == 0,
        r is Err ==> *final(accounts) == *old(accounts) && r->Err_0.status == 409,
        r is Ok ==> final(accounts).users@.len() == 1 && final(accounts).users@[0].password_hash@
            == hash@ && final(accounts).users@[0].enabled && final(accounts).sessions@.last().user_id@
            == final(accounts).users@[0].id@,
{
}

/// Signing in opens a session for the user and changes nothing else; where the user was changed in
/// between, none is opened.
pub proof fn signing_in_opens_a_session(
    accounts: &mut Accounts,
    user: &User,
    username: &str,
    now: i64,
    r: Result<SessionSecrets, ApiError>,
)
    requires
        call_ensures(login, (accounts, user, username, now), r),
    ensures
        final(accounts).users == old(accounts).users,
        final(accounts).tenants == old(accounts).tenants,
        r is Ok ==> final(accounts).sessions@.len() == old(accounts).sessions@.len() + 1
            && final(accounts).sessions@.drop_last() == old(accounts).sessions@
            && final(accounts).sessions@.last().user_id@ == user.id@
            && final(accounts).sessions@.last().tenant_id@ == user.tenant_id@
            && final(accounts).sessions@.last().session_digest@ == digest::digest_of(
            r->Ok_0.session@,
        ),
        r is Err ==> *final(accounts) == *old(accounts) && r->Err_0.status == 401,
{
}

/// A changed password ends the sessions and the codes of its user, changes no other user, and is
/// refused where the password was changed in between.
pub proof fn changed_passwords_end_the_sessions(
    accounts: &mut Accounts,
    user_id: &str,
    checked_hash: &str,
    hash: String,
    r: Result<(), ApiError>,
)
    requires
        call_ensures(change_password, (accounts, user_id, checked_hash, hash), r),
    ensures
        r is Ok ==> {
            let k = user_at(old(accounts).users@, user_id@);
            &&& k is Some
            &&& old(accounts).users@[k->0].password_hash@ == checked_hash@
            &&& final(accounts).users@.len() == old(accounts).users@.len()
            &&& final(accounts).users@[k->0].password_hash == hash
            &&& final(accounts).users@[k->0].id == old(accounts).users@[k->0].id
            &&& final(accounts).users@[k->0].role == old(accounts).users@[k->0].role
            &&& forall|i: int|
                0 <= i < old(accounts).users@.len() && i != k->0
                    ==> #[trigger] final(accounts).users@[i] == old(accounts).users@[i]
            &&& final(accounts).sessions@ == sessions_without(
                old(accounts).sessions@,
                user_id@,
                old(accounts).sessions@.len() as int,
            )
        },
        r is Err ==> *final(accounts) == *old(accounts) && r->Err_0.status == 409,
{
    users_are_found_by_their_identifier(old(accounts).users@, user_id@);
}

/// A recovery sets the password of the user that the code is for, and of no other; a code that does not
/// fit changes nothing.
pub proof fn recoveries_set_one_password(
    accounts: &mut Accounts,
    code: &str,
    checked_user: &str,
    hash: String,
    now: i64,
    r: Result<(String, AuditEvent), ApiError>,
)
    requires
        call_ensures(recover, (accounts, code, checked_user, hash, now), r),
    ensures
        r is Ok ==> {
            let k = user_at(old(accounts).users@, checked_user@);
            &&& k is Some
            &&& final(accounts).users@.len() == old(accounts).users@.len()
            &&& final(accounts).users@[k->0].password_hash == hash
            &&& forall|i: int|
                0 <= i < old(accounts).users@.len() && i != k->0
                    ==> #[trigger] final(accounts).users@[i] == old(accounts).users@[i]
            &&& final(accounts).sessions@ == sessions_without(
                old(accounts).sessions@,
                checked_user@,
                old(accounts).sessions@.len() as int,
            )
        },
        r is Err ==> *final(accounts) == *old(accounts) && r->Err_0.status == 401,
{
    users_are_found_by_their_identifier(old(accounts).users@, checked_user@);
}

} // verus!
