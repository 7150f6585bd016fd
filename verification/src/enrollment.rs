//! How devices join a workspace: an invitation is claimed with a certificate request, a user of the
//! workspace approves it, and the device fetches the certificate. The private key stays with the
//! device, and one invitation serves one key alone.
use vstd::prelude::*;

use crate::accounts;
use crate::accounts::{audit, ensure_workspace_enabled};
use crate::auth;
use crate::auth::{AuditEvent, Session, Tenant};
use crate::digest;
use crate::digest::new_uuid;
use crate::enrollment_token;
use crate::enrollment_token::{EnrollmentError, EnrollmentStatus, EnrollmentToken};
use crate::error;
use crate::error::{
    ApiError, BAD_REQUEST, CONFLICT, INTERNAL_SERVER_ERROR, NOT_FOUND, UNAUTHORIZED,
};
use crate::identity;
use crate::identity::{Authority, DeviceCertificate, DeviceCertificateView};
use crate::picked;
use crate::protocol::{
    AgentEnrollmentPollResponse, AgentEnrollmentRequest, AgentEnrollmentResponse,
};
use crate::text;
use crate::text::{copy_opt, is_text, same, trim};
use crate::x509;
use crate::x509::{fingerprint, validate_csr, IdentityError};

verus! {

/// The life of an invitation when none is asked for: one hour.
pub const DEFAULT_TTL: i64 = 3600;

/// What a device has handed in with an invitation.
#[derive(Debug)]
pub struct RequestRow {
    pub csr_pem: String,
    pub device_name: String,
    pub os: Option<String>,
    pub architecture: Option<String>,
    pub agent_version: String,
    pub certificate_pem: Option<String>,
}

/// What a device has handed in with an invitation.
pub ghost struct RequestView {
    pub csr_pem: Seq<char>,
    pub device_name: Seq<char>,
    pub os: Option<Seq<char>>,
    pub architecture: Option<Seq<char>>,
    pub agent_version: Seq<char>,
    pub certificate_pem: Option<Seq<char>>,
}

impl View for RequestRow {
    type V = RequestView;

    open spec fn view(&self) -> RequestView {
        RequestView {
            csr_pem: self.csr_pem@,
            device_name: self.device_name@,
            os: text::opt(self.os),
            architecture: text::opt(self.architecture),
            agent_version: self.agent_version@,
            certificate_pem: text::opt(self.certificate_pem),
        }
    }
}

/// A stored invitation.
#[derive(Debug)]
pub struct EnrollmentRow {
    pub id: String,
    pub tenant_id: String,
    pub token_digest: String,
    pub status: String,
    pub expires_at: i64,
    pub device_id: Option<String>,
    pub created_at: i64,
    pub kind: String,
    pub request: Option<RequestRow>,
}

/// A stored invitation.
pub ghost struct EnrollmentView {
    pub id: Seq<char>,
    pub tenant_id: Seq<char>,
    pub token_digest: Seq<char>,
    pub status: Seq<char>,
    pub expires_at: i64,
    pub device_id: Option<Seq<char>>,
    pub created_at: i64,
    pub kind: Seq<char>,
    pub request: Option<RequestView>,
}

impl View for EnrollmentRow {
    type V = EnrollmentView;

    open spec fn view(&self) -> EnrollmentView {
        EnrollmentView {
            id: self.id@,
            tenant_id: self.tenant_id@,
            token_digest: self.token_digest@,
            status: self.status@,
            expires_at: self.expires_at,
            device_id: text::opt(self.device_id),
            created_at: self.created_at,
            kind: self.kind@,
            request: match self.request {
                Some(request) => Some(request@),
                None => None,
            },
        }
    }
}

/// Stored invitations.
pub open spec fn rows_of(list: Seq<EnrollmentRow>) -> Seq<EnrollmentView> {
    Seq::new(list.len(), |i: int| list[i]@)
}

/// A stored device.
#[derive(Debug)]
pub struct DeviceRow {
    pub id: String,
    pub tenant_id: String,
    pub name: String,
    pub os: Option<String>,
    pub architecture: Option<String>,
    pub agent_version: String,
    pub status: String,
    pub enrolled_at: i64,
    pub updated_at: i64,
}

/// A stored device.
pub ghost struct DeviceView {
    pub id: Seq<char>,
    pub tenant_id: Seq<char>,
    pub name: Seq<char>,
    pub os: Option<Seq<char>>,
    pub architecture: Option<Seq<char>>,
    pub agent_version: Seq<char>,
    pub status: Seq<char>,
    pub enrolled_at: i64,
    pub updated_at: i64,
}

impl View for DeviceRow {
    type V = DeviceView;

    open spec fn view(&self) -> DeviceView {
        DeviceView {
            id: self.id@,
            tenant_id: self.tenant_id@,
            name: self.name@,
            os: text::opt(self.os),
            architecture: text::opt(self.architecture),
            agent_version: self.agent_version@,
            status: self.status@,
            enrolled_at: self.enrolled_at,
            updated_at: self.updated_at,
        }
    }
}

/// Stored devices.
pub open spec fn devices_of(list: Seq<DeviceRow>) -> Seq<DeviceView> {
    Seq::new(list.len(), |i: int| list[i]@)
}

/// The stored identity of a device.
pub struct IdentityRow {
    pub device_id: String,
    pub identity: DeviceCertificate,
}

/// Stored identities, each with its device.
pub open spec fn identities_of(list: Seq<IdentityRow>) -> Seq<(Seq<char>, DeviceCertificateView)> {
    Seq::new(list.len(), |i: int| (list[i].device_id@, list[i].identity@))
}

/// The invitations, devices and identities of all workspaces.
pub struct Registry {
    pub rows: Vec<EnrollmentRow>,
    pub devices: Vec<DeviceRow>,
    pub identities: Vec<IdentityRow>,
}

/// An invitation as it is shown. The secret is there once, when the invitation was made.
#[derive(Debug, Clone)]
pub struct Enrollment {
    pub id: String,
    pub kind: String,
    pub tenant_id: String,
    pub status: String,
    pub expires_at: i64,
    pub device_id: Option<String>,
    pub token: Option<String>,
}

/// What is asked of a new invitation.
pub struct CreateEnrollment {
    pub ttl_seconds: Option<i64>,
}

/// What an approval may change.
pub struct ApproveEnrollment {
    pub device_name: Option<String>,
}

/// The statements that add the tables of this module to a database. The kind of an invitation came
/// later than the invitations, so it is added where it is missing.
pub open spec fn schema(has_kind: bool) -> Seq<Seq<char>> {
    let table =
        "CREATE TABLE IF NOT EXISTS enrollment_requests (enrollment_id TEXT PRIMARY KEY REFERENCES pending_enrollments(id) ON DELETE CASCADE,csr_pem TEXT NOT NULL,device_name TEXT NOT NULL,os TEXT,architecture TEXT,agent_version TEXT NOT NULL,certificate_pem TEXT);"@;
    if has_kind {
        seq![table]
    } else {
        seq![
            "ALTER TABLE pending_enrollments ADD COLUMN kind TEXT NOT NULL DEFAULT 'enroll';"@,
            table,
        ]
    }
}

/// The statements that add the tables of this module to a database.
pub fn initialize_schema(has_kind: bool) -> (r: Vec<String>)
    ensures
        text::views(r@) == schema(has_kind),
{
    let mut statements: Vec<String> = Vec::new();
    if !has_kind {
        statements.push(
            "ALTER TABLE pending_enrollments ADD COLUMN kind TEXT NOT NULL DEFAULT 'enroll';".to_owned(),
        );
    }
    statements.push(
        "CREATE TABLE IF NOT EXISTS enrollment_requests (enrollment_id TEXT PRIMARY KEY REFERENCES pending_enrollments(id) ON DELETE CASCADE,csr_pem TEXT NOT NULL,device_name TEXT NOT NULL,os TEXT,architecture TEXT,agent_version TEXT NOT NULL,certificate_pem TEXT);".to_owned(),
    );
    assert(text::views(statements@) =~= schema(has_kind));
    statements
}

fn token_refusal(e: EnrollmentError) -> (r: ApiError)
    ensures
        error::told(r) == error::refusal_of(INTERNAL_SERVER_ERROR, e.text()),
{
    let message: String = e.message();
    ApiError::new(INTERNAL_SERVER_ERROR, message.as_str())
}

/// Why no invitation is made, if that is so.
pub open spec fn invite_refusal(tenants: Seq<Tenant>, tenant: Seq<char>, ttl: int) -> Option<error::Refusal> {
    if ttl <= 0 {
        error::refusal_of(INTERNAL_SERVER_ERROR, EnrollmentError::InvalidTtl.text())
    } else if !accounts::workspace_on(tenants, tenant) {
        error::refusal(CONFLICT, "用户已停用，请先启用再办理设备入网")
    } else {
        None
    }
}

/// Makes an invitation for a new device. Only the digest of its secret is stored.
pub fn create_enrollment(
    registry: &mut Registry,
    tenants: &Vec<Tenant>,
    session: &Session,
    input: &CreateEnrollment,
    now: i64,
) -> (r: Result<(Enrollment, AuditEvent), ApiError>)
    ensures
        devices_of(final(registry).devices@) == devices_of(old(registry).devices@),
        identities_of(final(registry).identities@) == identities_of(old(registry).identities@),
        ({
            let ttl = match input.ttl_seconds {
                Some(ttl) => ttl,
                None => DEFAULT_TTL,
            };
            match r {
                Err(e) => invite_refusal(tenants@, session.tenant_id@, ttl as int) == error::told(e)
                    && rows_of(final(registry).rows@) == rows_of(old(registry).rows@),
                Ok(made) => invite_refusal(tenants@, session.tenant_id@, ttl as int) is None
                    && digest::uuid_text(made.0.id@) && made.0.kind@ == "enroll"@
                    && made.0.tenant_id@ == session.tenant_id@ && made.0.status@
                    == "awaiting_agent"@ && made.0.expires_at == enrollment_token::later(now, ttl)
                    && made.0.device_id is None && (made.0.token matches Some(token) && digest::secret_token(
                    token@,
                ) && rows_of(
                    final(registry).rows@,
                ) == rows_of(old(registry).rows@).push(
                    EnrollmentView {
                        id: made.0.id@,
                        tenant_id: session.tenant_id@,
                        token_digest: digest::digest_of(token@),
                        status: "awaiting_agent"@,
                        expires_at: made.0.expires_at,
                        device_id: None,
                        created_at: now,
                        kind: "enroll"@,
                        request: None,
                    },
                )) && auth::is_audit(
                    made.1,
                    session.tenant_id@,
                    Some(session.user_id@),
                    "enrollment_created"@,
                    "enrollment"@,
                    made.0.id@,
                    now,
                ),
            }
        }),
{
    let ttl: i64 = match input.ttl_seconds {
        Some(ttl) => ttl,
        None => DEFAULT_TTL,
    };
    let token: EnrollmentToken = match EnrollmentToken::generate(now, ttl) {
        Ok(token) => token,
        Err(e) => {
            return Err(token_refusal(e));
        },
    };
    if let Err(e) = ensure_workspace_enabled(tenants, session.tenant_id.as_str()) {
        return Err(e);
    }
    let id: String = new_uuid();
    let ghost before = rows_of(registry.rows@);
    let row = EnrollmentRow {
        id: id.clone(),
        tenant_id: session.tenant_id.clone(),
        token_digest: token.digest,
        status: "awaiting_agent".to_owned(),
        expires_at: token.expires_at,
        device_id: None,
        created_at: now,
        kind: "enroll".to_owned(),
        request: None,
    };
    let ghost added = row@;
    registry.rows.push(row);
    assert(rows_of(registry.rows@) =~= before.push(added));
    let event: AuditEvent = audit(session, "enrollment_created", "enrollment", id.as_str(), now);
    Ok(
        (
            Enrollment {
                id,
                kind: "enroll".to_owned(),
                tenant_id: session.tenant_id.clone(),
                status: "awaiting_agent".to_owned(),
                expires_at: token.expires_at,
                device_id: None,
                token: Some(token.secret),
            },
            event,
        ),
    )
}

/// Whether an invitation is listed: one of the workspace that is still open.
pub open spec fn listed(row: EnrollmentView, tenant: Seq<char>, now: i64) -> bool {
    row.tenant_id == tenant && (row.status == "awaiting_agent"@ || row.status
        == "awaiting_approval"@ || row.status == "approved"@) && row.expires_at > now
}

/// What is shown of an invitation.
pub ghost struct ShownView {
    pub id: Seq<char>,
    pub kind: Seq<char>,
    pub tenant_id: Seq<char>,
    pub status: Seq<char>,
    pub expires_at: i64,
    pub device_id: Option<Seq<char>>,
    pub token: Option<Seq<char>>,
}

impl View for Enrollment {
    type V = ShownView;

    open spec fn view(&self) -> ShownView {
        ShownView {
            id: self.id@,
            kind: self.kind@,
            tenant_id: self.tenant_id@,
            status: self.status@,
            expires_at: self.expires_at,
            device_id: text::opt(self.device_id),
            token: text::opt(self.token),
        }
    }
}

/// What is shown of a stored invitation: never its secret.
pub open spec fn shown(row: EnrollmentView) -> ShownView {
    ShownView {
        id: row.id,
        kind: row.kind,
        tenant_id: row.tenant_id,
        status: row.status,
        expires_at: row.expires_at,
        device_id: row.device_id,
        token: None,
    }
}

/// What is shown of the first `n` invitations.
pub open spec fn shown_list(rows: Seq<EnrollmentView>, tenant: Seq<char>, now: i64, n: int) -> Seq<
    ShownView,
>
    decreases n,
{
    if n <= 0 {
        Seq::empty()
    } else if listed(rows[n - 1], tenant, now) {
        shown_list(rows, tenant, now, n - 1).push(shown(rows[n - 1]))
    } else {
        shown_list(rows, tenant, now, n - 1)
    }
}

/// The open invitations of a workspace, in the order of the list.
pub fn list_enrollments(rows: &Vec<EnrollmentRow>, tenant: &str, now: i64) -> (r: Vec<Enrollment>)
    ensures
        Seq::new(r@.len(), |i: int| r@[i]@) == shown_list(
            rows_of(rows@),
            tenant@,
            now,
            rows@.len() as int,
        ),
{
    let mut list: Vec<Enrollment> = Vec::new();
    let ghost all = rows_of(rows@);
    let mut i: usize = 0;
    assert(Seq::new(list@.len(), |i: int| list@[i]@) =~= shown_list(all, tenant@, now, 0));
    while i < rows.len()
        invariant
            i <= rows@.len(),
            all == rows_of(rows@),
            Seq::new(list@.len(), |i: int| list@[i]@) == shown_list(all, tenant@, now, i as int),
        decreases rows@.len() - i,
    {
        let row: &EnrollmentRow = &rows[i];
        assert(all[i as int] == row@);
        let ghost before = Seq::new(list@.len(), |i: int| list@[i]@);
        if same(row.tenant_id.as_str(), tenant) && (same(row.status.as_str(), "awaiting_agent")
            || same(row.status.as_str(), "awaiting_approval") || same(
            row.status.as_str(),
            "approved",
        )) && row.expires_at > now {
            let one = Enrollment {
                id: row.id.clone(),
                kind: row.kind.clone(),
                tenant_id: row.tenant_id.clone(),
                status: row.status.clone(),
                expires_at: row.expires_at,
                device_id: copy_opt(&row.device_id),
                token: None,
            };
            list.push(one);
            assert(Seq::new(list@.len(), |i: int| list@[i]@) =~= before.push(shown(row@)));
        }
        i = i + 1;
    }
    list
}

/// The state in which an invitation is shown: one that was not answered in time has expired.
pub open spec fn shown_status(row: EnrollmentView, now: i64) -> Seq<char> {
    if row.expires_at <= now && (row.status == "awaiting_agent"@ || row.status
        == "awaiting_approval"@) {
        "expired"@
    } else {
        row.status
    }
}

/// One invitation of a workspace, in whatever state it is.
pub fn get_enrollment(rows: &Vec<EnrollmentRow>, tenant: &str, id: &str, now: i64) -> (r: Result<
    Enrollment,
    ApiError,
>)
    ensures
        match r {
            Ok(one) => {
                let found = row_from(rows_of(rows@), id@, tenant@, 0);
                &&& found is Some
                &&& one@ == (ShownView {
                    status: shown_status(rows_of(rows@)[found->0], now),
                    ..shown(rows_of(rows@)[found->0])
                })
            },
            Err(e) => row_from(rows_of(rows@), id@, tenant@, 0) is None && error::told(e)
                == error::refusal(NOT_FOUND, "入网请求不存在"),
        },
{
    let k: usize = match find_row(rows, id, tenant) {
        Some(k) => k,
        None => {
            return Err(ApiError::new(NOT_FOUND, "入网请求不存在"));
        },
    };
    let row: &EnrollmentRow = &rows[k];
    assert(rows_of(rows@)[k as int] == row@);
    let late: bool = row.expires_at <= now && (same(row.status.as_str(), "awaiting_agent") || same(
        row.status.as_str(),
        "awaiting_approval",
    ));
    Ok(
        Enrollment {
            id: row.id.clone(),
            kind: row.kind.clone(),
            tenant_id: row.tenant_id.clone(),
            status: if late {
                "expired".to_owned()
            } else {
                row.status.clone()
            },
            expires_at: row.expires_at,
            device_id: copy_opt(&row.device_id),
            token: None,
        },
    )
}

/// The position of the first invitation from position `i` on with a digest, of a workspace that is
/// on.
pub open spec fn claim_from(
    rows: Seq<EnrollmentView>,
    tenants: Seq<Tenant>,
    token_digest: Seq<char>,
    i: int,
) -> Option<int>
    decreases rows.len() - i,
{
    if i < 0 || i >= rows.len() {
        None
    } else if rows[i].token_digest == token_digest && accounts::workspace_on(
        tenants,
        rows[i].tenant_id,
    ) {
        Some(i)
    } else {
        claim_from(rows, tenants, token_digest, i + 1)
    }
}

fn find_claim(rows: &Vec<EnrollmentRow>, tenants: &Vec<Tenant>, token_digest: &str) -> (r: Option<
    usize,
>)
    ensures
        match r {
            Some(k) => claim_from(rows_of(rows@), tenants@, token_digest@, 0) == Some(k as int)
                && k < rows@.len(),
            None => claim_from(rows_of(rows@), tenants@, token_digest@, 0) is None,
        },
{
    let ghost all = rows_of(rows@);
    let mut i: usize = 0;
    while i < rows.len()
        invariant
            i <= rows@.len(),
            all == rows_of(rows@),
            claim_from(all, tenants@, token_digest@, 0) == claim_from(
                all,
                tenants@,
                token_digest@,
                i as int,
            ),
        decreases rows@.len() - i,
    {
        assert(all[i as int] == rows@[i as int]@);
        if same(rows[i].token_digest.as_str(), token_digest) {
            if let Ok(_) = ensure_workspace_enabled(tenants, rows[i].tenant_id.as_str()) {
                return Some(i);
            }
        }
        i = i + 1;
    }
    None
}

/// Why a device cannot claim a stored invitation with a certificate request, if it cannot.
pub open spec fn claim_refusal(row: EnrollmentView, csr: Seq<char>, now: i64) -> Option<error::Refusal> {
    if row.expires_at <= now {
        error::refusal(UNAUTHORIZED, "入网凭证已过期")
    } else if row.kind == "recovery"@ && row.device_id is None {
        error::refusal(UNAUTHORIZED, "原设备已删除，恢复凭证已失效")
    } else if !(row.status == "awaiting_agent"@ || row.status == "awaiting_approval"@ || row.status
        == "approved"@ || row.status == "consumed"@) {
        error::refusal(CONFLICT, "入网凭证不可使用")
    } else {
        match row.request {
            Some(previous) => if previous.csr_pem != csr {
                error::refusal(
                    CONFLICT,
                    "入网凭证已由其他 Agent 认领，请生成新凭证",
                )
            } else {
                None
            },
            None => if row.status != "awaiting_agent"@ {
                error::refusal(CONFLICT, "此入网请求缺少设备身份，请重新入网")
            } else {
                None
            },
        }
    }
}

/// Why a device cannot join, if it cannot.
pub open spec fn enroll_refusal(
    rows: Seq<EnrollmentView>,
    tenants: Seq<Tenant>,
    input: AgentEnrollmentRequest,
    now: i64,
) -> Option<error::Refusal> {
    match input.csr_pem {
        None => error::refusal(
            BAD_REQUEST,
            "Agent 必须提供设备 CSR，请升级 Agent 后重试",
        ),
        Some(csr) => match x509::request_refusal(csr@) {
            Some(e) => error::refusal_of(BAD_REQUEST, e.text()),
            None => match claim_from(rows, tenants, digest::digest_of(input.token@), 0) {
                None => error::refusal(UNAUTHORIZED, "入网凭证无效"),
                Some(k) => claim_refusal(rows[k], csr@, now),
            },
        },
    }
}

/// A stored invitation after a device has claimed it: the first claim stores the request, a repeated
/// one changes nothing.
pub open spec fn claimed(row: EnrollmentView, input: AgentEnrollmentRequest) -> EnrollmentView {
    if row.request is Some {
        row
    } else {
        EnrollmentView {
            status: "awaiting_approval"@,
            request: Some(
                RequestView {
                    csr_pem: input.csr_pem->0@,
                    device_name: input.device_name@,
                    os: text::opt(input.os),
                    architecture: text::opt(input.architecture),
                    agent_version: input.agent_version@,
                    certificate_pem: None,
                },
            ),
            ..row
        }
    }
}

/// Lets a device claim an invitation with its certificate request. A repeated call with the same
/// request is answered alike and never makes a second identity.
pub fn agent_enroll(
    rows: &mut Vec<EnrollmentRow>,
    tenants: &Vec<Tenant>,
    input: &AgentEnrollmentRequest,
    now: i64,
) -> (r: Result<AgentEnrollmentResponse, ApiError>)
    ensures
        match r {
            Err(e) => enroll_refusal(rows_of(old(rows)@), tenants@, *input, now) == error::told(e)
                && rows_of(final(rows)@) == rows_of(old(rows)@),
            Ok(reply) => enroll_refusal(rows_of(old(rows)@), tenants@, *input, now) is None && (
            claim_from(rows_of(old(rows)@), tenants@, digest::digest_of(input.token@), 0) matches Some(
                k,
            ) && ({
                let row = rows_of(old(rows)@)[k];
                &&& rows_of(final(rows)@) == rows_of(old(rows)@).update(k, claimed(row, *input))
                &&& reply.enrollment_id@ == row.id
                &&& reply.status == EnrollmentStatus::AwaitingApproval
                &&& text::opt(reply.device_id) == (if row.kind == "recovery"@ {
                    row.device_id
                } else {
                    None
                })
                &&& reply.server_endpoint is None && reply.certificate_pem is None
                    && reply.ca_certificate_pem is None
                &&& reply.message@ == "入网请求已接收，请在所属工作空间批准"@
            })),
        },
{
    let csr: &str = match &input.csr_pem {
        Some(csr) => csr.as_str(),
        None => {
            return Err(
                ApiError::new(
                    BAD_REQUEST,
                    "Agent 必须提供设备 CSR，请升级 Agent 后重试",
                ),
            );
        },
    };
    if let Err(e) = validate_csr(csr) {
        let message: String = e.message();
        return Err(ApiError::new(BAD_REQUEST, message.as_str()));
    }
    let token_digest: String = EnrollmentToken::digest(input.token.as_str());
    let ghost before = rows_of(rows@);
    let k: usize = match find_claim(rows, tenants, token_digest.as_str()) {
        Some(k) => k,
        None => {
            return Err(ApiError::new(UNAUTHORIZED, "入网凭证无效"));
        },
    };
    assert(before[k as int] == rows@[k as int]@);
    if rows[k].expires_at <= now {
        return Err(ApiError::new(UNAUTHORIZED, "入网凭证已过期"));
    }
    let recovery: bool = same(rows[k].kind.as_str(), "recovery");
    if recovery && rows[k].device_id.is_none() {
        return Err(ApiError::new(UNAUTHORIZED, "原设备已删除，恢复凭证已失效"));
    }
    let waiting: bool = same(rows[k].status.as_str(), "awaiting_agent");
    if !(waiting || same(rows[k].status.as_str(), "awaiting_approval") || same(
        rows[k].status.as_str(),
        "approved",
    ) || same(rows[k].status.as_str(), "consumed")) {
        return Err(ApiError::new(CONFLICT, "入网凭证不可使用"));
    }
    let first: bool = match &rows[k].request {
        Some(previous) => {
            if !same(previous.csr_pem.as_str(), csr) {
                return Err(
                    ApiError::new(
                        CONFLICT,
                        "入网凭证已由其他 Agent 认领，请生成新凭证",
                    ),
                );
            }
            false
        },
        None => true,
    };
    if first && !waiting {
        return Err(
            ApiError::new(CONFLICT, "此入网请求缺少设备身份，请重新入网"),
        );
    }
    let enrollment_id: String = rows[k].id.clone();
    let device_id: Option<String> = if recovery {
        copy_opt(&rows[k].device_id)
    } else {
        None
    };
    if first {
        let row = EnrollmentRow {
            id: enrollment_id.clone(),
            tenant_id: rows[k].tenant_id.clone(),
            token_digest: rows[k].token_digest.clone(),
            status: "awaiting_approval".to_owned(),
            expires_at: rows[k].expires_at,
            device_id: copy_opt(&rows[k].device_id),
            created_at: rows[k].created_at,
            kind: rows[k].kind.clone(),
            request: Some(
                RequestRow {
                    csr_pem: csr.to_owned(),
                    device_name: input.device_name.clone(),
                    os: copy_opt(&input.os),
                    architecture: copy_opt(&input.architecture),
                    agent_version: input.agent_version.clone(),
                    certificate_pem: None,
                },
            ),
        };
        assert(row@ == claimed(before[k as int], *input));
        rows.set(k, row);
    }
    assert(rows_of(rows@) =~= before.update(k as int, claimed(before[k as int], *input)));
    Ok(
        AgentEnrollmentResponse {
            enrollment_id,
            status: EnrollmentStatus::AwaitingApproval,
            device_id,
            server_endpoint: None,
            certificate_pem: None,
            ca_certificate_pem: None,
            message: "入网请求已接收，请在所属工作空间批准".to_owned(),
        },
    )
}

/// One invitation serves one key: after a device has claimed it, a claim with another certificate
/// request is refused, and a repeated claim with the same request stores nothing new.
pub proof fn invitations_bind_one_request(
    row: EnrollmentView,
    input: AgentEnrollmentRequest,
    again: AgentEnrollmentRequest,
    now: i64,
    later: i64,
)
    requires
        input.csr_pem is Some,
        again.csr_pem is Some,
        claim_refusal(row, input.csr_pem->0@, now) is None,
    ensures
        again.csr_pem->0@ != input.csr_pem->0@ ==> claim_refusal(
            claimed(row, input),
            again.csr_pem->0@,
            later,
        ) is Some,
        claimed(claimed(row, input), again) == claimed(row, input),
        later < row.expires_at ==> claim_refusal(
            claimed(row, input),
            input.csr_pem->0@,
            later,
        ) is None,
{
}

/// The position of the first invitation from position `i` on with an identifier and a workspace.
pub open spec fn row_from(
    rows: Seq<EnrollmentView>,
    id: Seq<char>,
    tenant: Seq<char>,
    i: int,
) -> Option<int>
    decreases rows.len() - i,
{
    if i < 0 || i >= rows.len() {
        None
    } else if rows[i].id == id && rows[i].tenant_id == tenant {
        Some(i)
    } else {
        row_from(rows, id, tenant, i + 1)
    }
}

fn find_row(rows: &Vec<EnrollmentRow>, id: &str, tenant: &str) -> (r: Option<usize>)
    ensures
        match r {
            Some(k) => row_from(rows_of(rows@), id@, tenant@, 0) == Some(k as int) && k
                < rows@.len() && rows_of(rows@)[k as int].id == id@ && rows_of(
                rows@,
            )[k as int].tenant_id == tenant@,
            None => row_from(rows_of(rows@), id@, tenant@, 0) is None,
        },
{
    let ghost all = rows_of(rows@);
    let mut i: usize = 0;
    while i < rows.len()
        invariant
            i <= rows@.len(),
            all == rows_of(rows@),
            row_from(all, id@, tenant@, 0) == row_from(all, id@, tenant@, i as int),
        decreases rows@.len() - i,
    {
        assert(all[i as int] == rows@[i as int]@);
        if same(rows[i].id.as_str(), id) && same(rows[i].tenant_id.as_str(), tenant) {
            return Some(i);
        }
        i = i + 1;
    }
    None
}

/// Why an invitation cannot be approved, if it cannot.
pub open spec fn approve_refusal(
    rows: Seq<EnrollmentView>,
    tenants: Seq<Tenant>,
    tenant: Seq<char>,
    id: Seq<char>,
    now: i64,
) -> Option<error::Refusal> {
    if !accounts::workspace_on(tenants, tenant) {
        error::refusal(CONFLICT, "用户已停用，请先启用再办理设备入网")
    } else {
        match row_from(rows, id, tenant, 0) {
            None => error::refusal(NOT_FOUND, "入网请求不存在"),
            Some(k) => if rows[k].expires_at <= now {
                error::refusal(CONFLICT, "入网凭证已过期，请重新生成")
            } else if rows[k].status != "awaiting_approval"@ {
                error::refusal(CONFLICT, "请等待 Agent 提交设备身份后再批准")
            } else if rows[k].kind == "recovery"@ && rows[k].device_id is None {
                error::refusal(CONFLICT, "原设备已删除，不能恢复身份")
            } else if rows[k].request is None {
                error::refusal(INTERNAL_SERVER_ERROR, "Query returned no rows")
            } else {
                None
            },
        }
    }
}

/// What is approved: the invitation, the device that it is for and its certificate request.
pub struct Approval {
    pub position: usize,
    pub device: String,
    pub csr: String,
}

/// Whether an approval is the one that is due: a recovery keeps the device, any other invitation
/// brings a new one.
pub open spec fn approval_due(
    approval: Approval,
    rows: Seq<EnrollmentView>,
    id: Seq<char>,
    tenant: Seq<char>,
) -> bool {
    let row = rows[approval.position as int];
    &&& row_from(rows, id, tenant, 0) == Some(approval.position as int)
    &&& approval.position < rows.len()
    &&& row.request matches Some(request)
    &&& approval.csr@ == request.csr_pem
    &&& if row.kind == "recovery"@ {
        row.device_id == Some(approval.device@)
    } else {
        digest::uuid_text(approval.device@)
    }
}

/// Checks whether an invitation can be approved.
pub fn plan_approval(
    rows: &Vec<EnrollmentRow>,
    tenants: &Vec<Tenant>,
    session: &Session,
    id: &str,
    now: i64,
) -> (r: Result<Approval, ApiError>)
    ensures
        match r {
            Err(e) => approve_refusal(rows_of(rows@), tenants@, session.tenant_id@, id@, now)
                == error::told(e),
            Ok(approval) => approve_refusal(
                rows_of(rows@),
                tenants@,
                session.tenant_id@,
                id@,
                now,
            ) is None && approval_due(approval, rows_of(rows@), id@, session.tenant_id@),
        },
{
    if let Err(e) = ensure_workspace_enabled(tenants, session.tenant_id.as_str()) {
        return Err(e);
    }
    let k: usize = match find_row(rows, id, session.tenant_id.as_str()) {
        Some(k) => k,
        None => {
            return Err(ApiError::new(NOT_FOUND, "入网请求不存在"));
        },
    };
    let row: &EnrollmentRow = &rows[k];
    assert(rows_of(rows@)[k as int] == row@);
    if row.expires_at <= now {
        return Err(ApiError::new(CONFLICT, "入网凭证已过期，请重新生成"));
    }
    if !same(row.status.as_str(), "awaiting_approval") {
        return Err(
            ApiError::new(CONFLICT, "请等待 Agent 提交设备身份后再批准"),
        );
    }
    let device: String = if same(row.kind.as_str(), "recovery") {
        match &row.device_id {
            Some(device) => device.clone(),
            None => {
                return Err(ApiError::new(CONFLICT, "原设备已删除，不能恢复身份"));
            },
        }
    } else {
        new_uuid()
    };
    match &row.request {
        Some(request) => Ok(Approval { position: k, device, csr: request.csr_pem.clone() }),
        None => Err(ApiError::new(INTERNAL_SERVER_ERROR, "Query returned no rows")),
    }
}

/// The position of the first device from position `i` on with an identifier and a workspace.
pub open spec fn device_from(
    devices: Seq<DeviceView>,
    id: Seq<char>,
    tenant: Seq<char>,
    i: int,
) -> Option<int>
    decreases devices.len() - i,
{
    if i < 0 || i >= devices.len() {
        None
    } else if devices[i].id == id && devices[i].tenant_id == tenant {
        Some(i)
    } else {
        device_from(devices, id, tenant, i + 1)
    }
}

fn find_device(devices: &Vec<DeviceRow>, id: &str, tenant: &str) -> (r: Option<usize>)
    ensures
        match r {
            Some(k) => device_from(devices_of(devices@), id@, tenant@, 0) == Some(k as int) && k
                < devices@.len(),
            None => device_from(devices_of(devices@), id@, tenant@, 0) is None,
        },
{
    let ghost all = devices_of(devices@);
    let mut i: usize = 0;
    while i < devices.len()
        invariant
            i <= devices@.len(),
            all == devices_of(devices@),
            device_from(all, id@, tenant@, 0) == device_from(all, id@, tenant@, i as int),
        decreases devices@.len() - i,
    {
        assert(all[i as int] == devices@[i as int]@);
        if same(devices[i].id.as_str(), id) && same(devices[i].tenant_id.as_str(), tenant) {
            return Some(i);
        }
        i = i + 1;
    }
    None
}

/// The identity of a device whose certificate was just issued.
pub open spec fn fresh_identity(certificate: Seq<char>, digest: Seq<char>) -> DeviceCertificateView {
    DeviceCertificateView {
        active_digest: digest,
        certificate_pem: Some(certificate),
        pending_csr: None,
        pending_certificate: None,
        retry_failures: 0,
        renewal_error: None,
        next_retry_at: None,
    }
}

/// The position of the first identity from position `i` on of a device.
pub open spec fn identity_from(
    list: Seq<(Seq<char>, DeviceCertificateView)>,
    device: Seq<char>,
    i: int,
) -> Option<int>
    decreases list.len() - i,
{
    if i < 0 || i >= list.len() {
        None
    } else if list[i].0 == device {
        Some(i)
    } else {
        identity_from(list, device, i + 1)
    }
}

/// The identities after one of a device was stored, in place of an earlier one.
pub open spec fn with_identity(
    list: Seq<(Seq<char>, DeviceCertificateView)>,
    device: Seq<char>,
    identity: DeviceCertificateView,
) -> Seq<(Seq<char>, DeviceCertificateView)> {
    match identity_from(list, device, 0) {
        Some(k) => list.update(k, (device, identity)),
        None => list.push((device, identity)),
    }
}

fn store_identity(list: &mut Vec<IdentityRow>, device: &str, certificate: &str, digest: String)
    ensures
        identities_of(final(list)@) == with_identity(
            identities_of(old(list)@),
            device@,
            fresh_identity(certificate@, digest@),
        ),
{
    let ghost all = identities_of(list@);
    let row = IdentityRow {
        device_id: device.to_owned(),
        identity: DeviceCertificate {
            active_digest: digest,
            certificate_pem: Some(certificate.to_owned()),
            pending_csr: None,
            pending_certificate: None,
            retry_failures: 0,
            renewal_error: None,
            next_retry_at: None,
        },
    };
    let ghost new = fresh_identity(certificate@, digest@);
    assert(row.identity@ == new);
    let mut i: usize = 0;
    while i < list.len()
        invariant
            i <= list@.len(),
            list@ == old(list)@,
            all == identities_of(list@),
            row.device_id@ == device@,
            row.identity@ == new,
            new == fresh_identity(certificate@, digest@),
            identity_from(all, device@, 0) == identity_from(all, device@, i as int),
        decreases list@.len() - i,
    {
        assert(all[i as int].0 == list@[i as int].device_id@);
        if same(list[i].device_id.as_str(), device) {
            list.set(i, row);
            assert(identities_of(list@) =~= all.update(i as int, (device@, new)));
            return;
        }
        i = i + 1;
    }
    list.push(row);
    assert(identities_of(list@) =~= all.push((device@, new)));
}

/// The name of a new device: the one that the approval gives, or the one that the device gave.
pub open spec fn device_name(given: Option<String>, own: Seq<char>) -> Seq<char> {
    match given {
        Some(name) if text::trimmed(name@).len() > 0 => name@,
        _ => own,
    }
}

/// The devices after an approval. A recovery changes no more than the status of the device.
pub open spec fn approved_devices(
    devices: Seq<DeviceView>,
    row: EnrollmentView,
    device: Seq<char>,
    given: Option<String>,
    now: i64,
) -> Seq<DeviceView> {
    if row.kind == "recovery"@ {
        let k = device_from(devices, device, row.tenant_id, 0)->0;
        devices.update(
            k,
            DeviceView { status: "offline"@, updated_at: now, ..devices[k] },
        )
    } else {
        let request = row.request->0;
        devices.push(
            DeviceView {
                id: device,
                tenant_id: row.tenant_id,
                name: device_name(given, request.device_name),
                os: request.os,
                architecture: request.architecture,
                agent_version: request.agent_version,
                status: "offline"@,
                enrolled_at: now,
                updated_at: now,
            },
        )
    }
}

/// An invitation after it was approved.
pub open spec fn approved_row(
    row: EnrollmentView,
    device: Seq<char>,
    certificate: Seq<char>,
) -> EnrollmentView {
    EnrollmentView {
        status: "approved"@,
        device_id: Some(device),
        request: Some(RequestView { certificate_pem: Some(certificate), ..row.request->0 }),
        ..row
    }
}

/// Why an approval ends without effect although a certificate was issued, if that is so.
pub open spec fn completion_refusal(
    devices: Seq<DeviceView>,
    row: EnrollmentView,
    device: Seq<char>,
    certificate: Seq<char>,
) -> Option<error::Refusal> {
    match x509::fingerprint_of(certificate) {
        Err(e) => error::refusal_of(INTERNAL_SERVER_ERROR, e.text()),
        Ok(_) => if row.kind == "recovery"@ && device_from(
            devices,
            device,
            row.tenant_id,
            0,
        ) is None {
            error::refusal(NOT_FOUND, "原设备不存在")
        } else {
            None
        },
    }
}

/// Stores what an approval comes to once the certificate is there. A recovery replaces the identity
/// of its device, so that the earlier key is refused from then on; its services stay as they are and
/// are checked anew.
pub fn complete_approval(
    registry: &mut Registry,
    session: &Session,
    id: &str,
    approval: &Approval,
    input: &ApproveEnrollment,
    certificate: &str,
    now: i64,
) -> (r: Result<(Enrollment, AuditEvent), ApiError>)
    requires
        approval_due(*approval, rows_of(old(registry).rows@), id@, session.tenant_id@),
    ensures
        ({
            let row = rows_of(old(registry).rows@)[approval.position as int];
            let devices = devices_of(old(registry).devices@);
            match r {
                Err(e) => completion_refusal(devices, row, approval.device@, certificate@)
                    == error::told(e) && *final(registry) == *old(registry),
                Ok(done) => completion_refusal(devices, row, approval.device@, certificate@) is None
                    && rows_of(final(registry).rows@) == rows_of(old(registry).rows@).update(
                    approval.position as int,
                    approved_row(row, approval.device@, certificate@),
                ) && devices_of(final(registry).devices@) == approved_devices(
                    devices,
                    row,
                    approval.device@,
                    input.device_name,
                    now,
                ) && (x509::fingerprint_of(certificate@) matches Ok(digest) && identities_of(
                    final(registry).identities@,
                ) == with_identity(
                    identities_of(old(registry).identities@),
                    approval.device@,
                    fresh_identity(certificate@, digest),
                )) && done.0@ == (ShownView {
                    id: id@,
                    kind: row.kind,
                    tenant_id: session.tenant_id@,
                    status: "approved"@,
                    expires_at: row.expires_at,
                    device_id: Some(approval.device@),
                    token: None,
                }) && auth::is_audit(
                    done.1,
                    session.tenant_id@,
                    Some(session.user_id@),
                    if row.kind == "recovery"@ {
                        "identity_recovered"@
                    } else {
                        "enrollment_approved"@
                    },
                    "device"@,
                    approval.device@,
                    now,
                ),
            }
        }),
{
    let k: usize = approval.position;
    let ghost rows = rows_of(registry.rows@);
    let ghost devices = devices_of(registry.devices@);
    let ghost row = rows[k as int];
    proof {
        lemma_row_from(rows, id@, session.tenant_id@, 0);
        assert(row == registry.rows@[k as int]@);
    }
    let digest: String = match fingerprint(certificate) {
        Ok(digest) => digest,
        Err(e) => {
            let message: String = e.message();
            return Err(ApiError::new(INTERNAL_SERVER_ERROR, message.as_str()));
        },
    };
    let recovery: bool = same(registry.rows[k].kind.as_str(), "recovery");
    let known: Option<usize> = if recovery {
        match find_device(
            &registry.devices,
            approval.device.as_str(),
            session.tenant_id.as_str(),
        ) {
            Some(d) => Some(d),
            None => {
                return Err(ApiError::new(NOT_FOUND, "原设备不存在"));
            },
        }
    } else {
        None
    };
    let old_row: &EnrollmentRow = &registry.rows[k];
    let old_request: &RequestRow = match &old_row.request {
        Some(request) => request,
        None => {
            return Err(ApiError::new(INTERNAL_SERVER_ERROR, "Query returned no rows"));
        },
    };
    let expires_at: i64 = old_row.expires_at;
    let kind: String = old_row.kind.clone();
    let next_row = EnrollmentRow {
        id: old_row.id.clone(),
        tenant_id: old_row.tenant_id.clone(),
        token_digest: old_row.token_digest.clone(),
        status: "approved".to_owned(),
        expires_at,
        device_id: Some(approval.device.clone()),
        created_at: old_row.created_at,
        kind: kind.clone(),
        request: Some(
            RequestRow {
                csr_pem: old_request.csr_pem.clone(),
                device_name: old_request.device_name.clone(),
                os: copy_opt(&old_request.os),
                architecture: copy_opt(&old_request.architecture),
                agent_version: old_request.agent_version.clone(),
                certificate_pem: Some(certificate.to_owned()),
            },
        ),
    };
    assert(next_row@ == approved_row(row, approval.device@, certificate@));
    match known {
        Some(d) => {
            assert(devices[d as int] == registry.devices@[d as int]@);
            let device: &DeviceRow = &registry.devices[d];
            let next = DeviceRow {
                id: device.id.clone(),
                tenant_id: device.tenant_id.clone(),
                name: device.name.clone(),
                os: copy_opt(&device.os),
                architecture: copy_opt(&device.architecture),
                agent_version: device.agent_version.clone(),
                status: "offline".to_owned(),
                enrolled_at: device.enrolled_at,
                updated_at: now,
            };
            let ghost shown = next@;
            registry.devices.set(d, next);
            assert(devices_of(registry.devices@) =~= devices.update(d as int, shown));
        },
        None => {
            let name: String = match &input.device_name {
                Some(given) => {
                    let trimmed: String = trim(given.as_str());
                    if text::chars_of(trimmed.as_str()).len() > 0 {
                        given.clone()
                    } else {
                        old_request.device_name.clone()
                    }
                },
                None => old_request.device_name.clone(),
            };
            let next = DeviceRow {
                id: approval.device.clone(),
                tenant_id: session.tenant_id.clone(),
                name,
                os: copy_opt(&old_request.os),
                architecture: copy_opt(&old_request.architecture),
                agent_version: old_request.agent_version.clone(),
                status: "offline".to_owned(),
                enrolled_at: now,
                updated_at: now,
            };
            let ghost shown = next@;
            registry.devices.push(next);
            assert(devices_of(registry.devices@) =~= devices.push(shown));
        },
    }
    registry.rows.set(k, next_row);
    assert(rows_of(registry.rows@) =~= rows.update(
        k as int,
        approved_row(row, approval.device@, certificate@),
    ));
    store_identity(&mut registry.identities, approval.device.as_str(), certificate, digest);
    let what: &str = if recovery {
        "identity_recovered"
    } else {
        "enrollment_approved"
    };
    let event: AuditEvent = audit(session, what, "device", approval.device.as_str(), now);
    Ok(
        (
            Enrollment {
                id: id.to_owned(),
                kind,
                tenant_id: session.tenant_id.clone(),
                status: "approved".to_owned(),
                expires_at,
                device_id: Some(approval.device.clone()),
                token: None,
            },
            event,
        ),
    )
}

proof fn lemma_row_from(rows: Seq<EnrollmentView>, id: Seq<char>, tenant: Seq<char>, i: int)
    requires
        0 <= i,
    ensures
        row_from(rows, id, tenant, i) matches Some(k) ==> i <= k < rows.len() && rows[k].id == id
            && rows[k].tenant_id == tenant,
    decreases rows.len() - i,
{
    if i < rows.len() {
        lemma_row_from(rows, id, tenant, i + 1);
    }
}

/// Whether an invitation that can be approved is refused for one of the reasons that are left: the
/// authority issues no certificate, or the device of a recovery is gone.
pub open spec fn issue_refused(
    row: EnrollmentView,
    devices: Seq<DeviceView>,
    authority: Authority,
    now: i64,
    told: Option<error::Refusal>,
) -> bool {
    ||| told == error::refusal_of(
        INTERNAL_SERVER_ERROR,
        identity::issue_failure(authority, row.request->0.csr_pem, now).text(),
    )
    ||| row.kind == "recovery"@ && device_from(devices, row.device_id->0, row.tenant_id, 0) is None
        && told == error::refusal(NOT_FOUND, "原设备不存在")
}

/// Approves an invitation: the authority issues the certificate for the key of the device, and the
/// identity is stored. Nothing changes where the approval is refused or no certificate comes.
pub fn approve(
    registry: &mut Registry,
    tenants: &Vec<Tenant>,
    authority: &Authority,
    session: &Session,
    id: &str,
    input: &ApproveEnrollment,
    now: i64,
) -> (r: Result<(Enrollment, AuditEvent), ApiError>)
    requires
        identity::issuing_time(now, identity::LEAD, identity::DEVICE_LIFETIME),
    ensures
        match r {
            Err(e) => *final(registry) == *old(registry) && (approve_refusal(
                rows_of(old(registry).rows@),
                tenants@,
                session.tenant_id@,
                id@,
                now,
            ) is Some ==> approve_refusal(
                rows_of(old(registry).rows@),
                tenants@,
                session.tenant_id@,
                id@,
                now,
            ) == error::told(e)) && (approve_refusal(
                rows_of(old(registry).rows@),
                tenants@,
                session.tenant_id@,
                id@,
                now,
            ) is None ==> (row_from(rows_of(old(registry).rows@), id@, session.tenant_id@, 0) matches Some(
                k,
            ) && issue_refused(
                rows_of(old(registry).rows@)[k],
                devices_of(old(registry).devices@),
                *authority,
                now,
                error::told(e),
            ))),
            Ok(done) => approve_refusal(
                rows_of(old(registry).rows@),
                tenants@,
                session.tenant_id@,
                id@,
                now,
            ) is None && (row_from(rows_of(old(registry).rows@), id@, session.tenant_id@, 0) matches Some(
                k,
            ) && ({
                let row = rows_of(old(registry).rows@)[k];
                let after = rows_of(final(registry).rows@)[k];
                &&& done.0.device_id matches Some(device)
                &&& row.kind == "recovery"@ ==> row.device_id == Some(device@)
                &&& row.kind != "recovery"@ ==> digest::uuid_text(device@)
                &&& after.request matches Some(request)
                &&& request.certificate_pem matches Some(certificate)
                &&& identity::device_certificate(
                    certificate,
                    *authority,
                    row.request->0.csr_pem,
                    device@,
                    now,
                )
                &&& rows_of(final(registry).rows@) == rows_of(old(registry).rows@).update(
                    k,
                    approved_row(row, device@, certificate),
                )
                &&& devices_of(final(registry).devices@) == approved_devices(
                    devices_of(old(registry).devices@),
                    row,
                    device@,
                    input.device_name,
                    now,
                )
                &&& x509::fingerprint_of(certificate) matches Ok(digest)
                &&& identities_of(final(registry).identities@) == with_identity(
                    identities_of(old(registry).identities@),
                    device@,
                    fresh_identity(certificate, digest),
                )
                &&& done.0@ == (ShownView {
                    id: id@,
                    kind: row.kind,
                    tenant_id: session.tenant_id@,
                    status: "approved"@,
                    expires_at: row.expires_at,
                    device_id: Some(device@),
                    token: None,
                })
                &&& auth::is_audit(
                    done.1,
                    session.tenant_id@,
                    Some(session.user_id@),
                    if row.kind == "recovery"@ {
                        "identity_recovered"@
                    } else {
                        "enrollment_approved"@
                    },
                    "device"@,
                    device@,
                    now,
                )
            })),
        },
{
    let approval: Approval = match plan_approval(&registry.rows, tenants, session, id, now) {
        Ok(approval) => approval,
        Err(e) => {
            return Err(e);
        },
    };
    let certificate: String = match authority.issue_device(
        approval.csr.as_str(),
        approval.device.as_str(),
        now,
    ) {
        Ok(certificate) => certificate,
        Err(e) => {
            let message: String = e.message();
            return Err(ApiError::new(INTERNAL_SERVER_ERROR, message.as_str()));
        },
    };
    complete_approval(registry, session, id, &approval, input, certificate.as_str(), now)
}

/// A recovery brings no new device and keeps what the device is: its name, its workspace and the
/// services that are bound to it by its identifier.
pub proof fn recovery_keeps_the_device(
    devices: Seq<DeviceView>,
    row: EnrollmentView,
    given: Option<String>,
    now: i64,
    k: int,
)
    requires
        row.kind == "recovery"@,
        row.device_id is Some,
        device_from(devices, row.device_id->0, row.tenant_id, 0) == Some(k),
        0 <= k < devices.len(),
    ensures
        ({
            let after = approved_devices(devices, row, row.device_id->0, given, now);
            &&& after.len() == devices.len()
            &&& forall|i: int|
                0 <= i < devices.len() ==> (#[trigger] after[i]).id == devices[i].id
                    && after[i].name == devices[i].name && after[i].tenant_id
                    == devices[i].tenant_id && after[i].enrolled_at == devices[i].enrolled_at
        }),
{
}

/// After a recovery the earlier certificate is refused, unless it is the new one.
pub proof fn recovery_refuses_the_earlier_key(
    list: Seq<(Seq<char>, DeviceCertificateView)>,
    device: Seq<char>,
    certificate: Seq<char>,
    digest: Seq<char>,
    earlier: Seq<char>,
)
    requires
        earlier != digest,
    ensures
        ({
            let after = with_identity(list, device, fresh_identity(certificate, digest));
            &&& identity_from(after, device, 0) matches Some(k)
            &&& 0 <= k < after.len()
            &&& after[k] == (device, fresh_identity(certificate, digest))
            &&& identity::accepted(Some(after[k].1), earlier) is Err
            &&& identity::accepted(Some(after[k].1), digest) == Ok::<_, IdentityError>(after[k].1)
        }),
{
    let new = fresh_identity(certificate, digest);
    match identity_from(list, device, 0) {
        Some(k) => {
            lemma_identity_from(list, device, 0);
            lemma_identity_updated(list, device, new, k, 0);
        },
        None => {
            lemma_identity_pushed(list, device, new, 0);
        },
    }
}

proof fn lemma_identity_from(
    list: Seq<(Seq<char>, DeviceCertificateView)>,
    device: Seq<char>,
    i: int,
)
    requires
        0 <= i,
    ensures
        identity_from(list, device, i) matches Some(k) ==> i <= k < list.len() && list[k].0
            == device,
    decreases list.len() - i,
{
    if i < list.len() {
        lemma_identity_from(list, device, i + 1);
    }
}

proof fn lemma_identity_updated(
    list: Seq<(Seq<char>, DeviceCertificateView)>,
    device: Seq<char>,
    new: DeviceCertificateView,
    k: int,
    i: int,
)
    requires
        0 <= i <= k < list.len(),
        identity_from(list, device, i) == Some(k),
    ensures
        identity_from(list.update(k, (device, new)), device, i) == Some(k),
    decreases k - i,
{
    if i < k {
        lemma_identity_updated(list, device, new, k, i + 1);
    }
}

proof fn lemma_identity_pushed(
    list: Seq<(Seq<char>, DeviceCertificateView)>,
    device: Seq<char>,
    new: DeviceCertificateView,
    i: int,
)
    requires
        0 <= i <= list.len(),
        identity_from(list, device, i) is None,
    ensures
        identity_from(list.push((device, new)), device, i) == Some(list.len() as int),
    decreases list.len() - i,
{
    if i < list.len() {
        lemma_identity_pushed(list, device, new, i + 1);
    }
}

/// Why no recovery is made, if that is so.
pub open spec fn recovery_refusal(
    devices: Seq<DeviceView>,
    tenants: Seq<Tenant>,
    tenant: Seq<char>,
    device: Seq<char>,
) -> Option<error::Refusal> {
    if !accounts::workspace_on(tenants, tenant) {
        error::refusal(CONFLICT, "用户已停用，请先启用再办理设备入网")
    } else if device_from(devices, device, tenant, 0) is None {
        error::refusal(NOT_FOUND, "设备不存在")
    } else {
        None
    }
}

/// The invitations after the earlier recoveries of a device were withdrawn.
pub open spec fn recoveries_withdrawn(rows: Seq<EnrollmentView>, device: Seq<char>) -> Seq<
    EnrollmentView,
> {
    Seq::new(
        rows.len(),
        |i: int|
            if rows[i].device_id == Some(device) && rows[i].kind == "recovery"@ {
                EnrollmentView { status: "revoked"@, ..rows[i] }
            } else {
                rows[i]
            },
    )
}

fn set_status(rows: &mut Vec<EnrollmentRow>, k: usize, status: &str)
    requires
        k < old(rows)@.len(),
    ensures
        rows_of(final(rows)@) == rows_of(old(rows)@).update(
            k as int,
            EnrollmentView { status: status@, ..rows_of(old(rows)@)[k as int] },
        ),
        final(rows)@.len() == old(rows)@.len(),
{
    let ghost before = rows_of(rows@);
    let row: &EnrollmentRow = &rows[k];
    let request: Option<RequestRow> = match &row.request {
        Some(request) => Some(
            RequestRow {
                csr_pem: request.csr_pem.clone(),
                device_name: request.device_name.clone(),
                os: copy_opt(&request.os),
                architecture: copy_opt(&request.architecture),
                agent_version: request.agent_version.clone(),
                certificate_pem: copy_opt(&request.certificate_pem),
            },
        ),
        None => None,
    };
    let next = EnrollmentRow {
        id: row.id.clone(),
        tenant_id: row.tenant_id.clone(),
        token_digest: row.token_digest.clone(),
        status: status.to_owned(),
        expires_at: row.expires_at,
        device_id: copy_opt(&row.device_id),
        created_at: row.created_at,
        kind: row.kind.clone(),
        request,
    };
    let ghost shown = next@;
    assert(shown == EnrollmentView { status: status@, ..before[k as int] });
    rows.set(k, next);
    assert(rows_of(rows@) =~= before.update(k as int, shown));
}

/// Makes an invitation with which a device that is there gets a new key. Earlier ones for the device
/// are withdrawn; its identity does not change before the approval.
pub fn create_recovery(
    registry: &mut Registry,
    tenants: &Vec<Tenant>,
    session: &Session,
    device: &str,
    now: i64,
) -> (r: Result<(Enrollment, AuditEvent), ApiError>)
    ensures
        devices_of(final(registry).devices@) == devices_of(old(registry).devices@),
        identities_of(final(registry).identities@) == identities_of(old(registry).identities@),
        match r {
            Err(e) => recovery_refusal(
                devices_of(old(registry).devices@),
                tenants@,
                session.tenant_id@,
                device@,
            ) == error::told(e) && rows_of(final(registry).rows@) == rows_of(old(registry).rows@),
            Ok(made) => recovery_refusal(
                devices_of(old(registry).devices@),
                tenants@,
                session.tenant_id@,
                device@,
            ) is None && digest::uuid_text(made.0.id@) && made.0.kind@ == "recovery"@
                && made.0.tenant_id@ == session.tenant_id@ && made.0.status@ == "awaiting_agent"@
                && made.0.expires_at == enrollment_token::later(now, DEFAULT_TTL) && text::opt(
                made.0.device_id,
            ) == Some(device@) && (made.0.token matches Some(token) && digest::secret_token(
                    token@,
                ) && rows_of(
                final(registry).rows@,
            ) == recoveries_withdrawn(rows_of(old(registry).rows@), device@).push(
                EnrollmentView {
                    id: made.0.id@,
                    tenant_id: session.tenant_id@,
                    token_digest: digest::digest_of(token@),
                    status: "awaiting_agent"@,
                    expires_at: made.0.expires_at,
                    device_id: Some(device@),
                    created_at: now,
                    kind: "recovery"@,
                    request: None,
                },
            )) && auth::is_audit(
                made.1,
                session.tenant_id@,
                Some(session.user_id@),
                "device_recovery_created"@,
                "device"@,
                device@,
                now,
            ),
        },
{
    let token: EnrollmentToken = match EnrollmentToken::generate(now, DEFAULT_TTL) {
        Ok(token) => token,
        Err(e) => {
            return Err(token_refusal(e));
        },
    };
    if let Err(e) = ensure_workspace_enabled(tenants, session.tenant_id.as_str()) {
        return Err(e);
    }
    if find_device(&registry.devices, device, session.tenant_id.as_str()).is_none() {
        return Err(ApiError::new(NOT_FOUND, "设备不存在"));
    }
    let ghost before = rows_of(registry.rows@);
    let ghost target = recoveries_withdrawn(before, device@);
    let mut i: usize = 0;
    while i < registry.rows.len()
        invariant
            i <= registry.rows@.len(),
            before == rows_of(old(registry).rows@),
            registry.rows@.len() == before.len(),
            target == recoveries_withdrawn(before, device@),
            registry.devices == old(registry).devices,
            registry.identities == old(registry).identities,
            forall|j: int| 0 <= j < i ==> (#[trigger] rows_of(registry.rows@)[j]) == target[j],
            forall|j: int|
                i <= j < before.len() ==> (#[trigger] rows_of(registry.rows@)[j]) == before[j],
        decreases registry.rows@.len() - i,
    {
        assert(rows_of(registry.rows@)[i as int] == registry.rows@[i as int]@);
        assert(rows_of(registry.rows@)[i as int] == before[i as int]);
        if is_text(&registry.rows[i].device_id, device) && same(
            registry.rows[i].kind.as_str(),
            "recovery",
        ) {
            set_status(&mut registry.rows, i, "revoked");
        }
        i = i + 1;
    }
    assert(rows_of(registry.rows@) =~= target);
    let id: String = new_uuid();
    let row = EnrollmentRow {
        id: id.clone(),
        tenant_id: session.tenant_id.clone(),
        token_digest: token.digest,
        status: "awaiting_agent".to_owned(),
        expires_at: token.expires_at,
        device_id: Some(device.to_owned()),
        created_at: now,
        kind: "recovery".to_owned(),
        request: None,
    };
    let ghost added = row@;
    registry.rows.push(row);
    assert(rows_of(registry.rows@) =~= target.push(added));
    let event: AuditEvent = audit(session, "device_recovery_created", "device", device, now);
    Ok(
        (
            Enrollment {
                id,
                kind: "recovery".to_owned(),
                tenant_id: session.tenant_id.clone(),
                status: "awaiting_agent".to_owned(),
                expires_at: token.expires_at,
                device_id: Some(device.to_owned()),
                token: Some(token.secret),
            },
            event,
        ),
    )
}

/// Of the recoveries of a device the newest alone can be used: each earlier one is refused to a
/// device that has not claimed it or claims it again.
pub proof fn earlier_recoveries_are_refused(
    rows: Seq<EnrollmentView>,
    device: Seq<char>,
    k: int,
    csr: Seq<char>,
    now: i64,
)
    requires
        0 <= k < rows.len(),
        rows[k].device_id == Some(device),
        rows[k].kind == "recovery"@,
    ensures
        claim_refusal(recoveries_withdrawn(rows, device)[k], csr, now) is Some,
{
    reveal_strlit("revoked");
    reveal_strlit("awaiting_agent");
    reveal_strlit("awaiting_approval");
    reveal_strlit("approved");
    reveal_strlit("consumed");
    assert("revoked"@.len() == 7);
    assert("awaiting_agent"@.len() == 14);
    assert("awaiting_approval"@.len() == 17);
    assert("approved"@.len() == 8);
    assert("consumed"@.len() == 8);
}

/// Whether an invitation can be withdrawn: one that was not approved.
pub open spec fn cancellable(rows: Seq<EnrollmentView>, id: Seq<char>, tenant: Seq<char>) -> bool {
    row_from(rows, id, tenant, 0) matches Some(k) && (rows[k].status == "awaiting_agent"@
        || rows[k].status == "awaiting_approval"@)
}

/// Withdraws an invitation that was not approved.
pub fn cancel_enrollment(rows: &mut Vec<EnrollmentRow>, session: &Session, id: &str) -> (r: Result<
    (),
    ApiError,
>)
    ensures
        match r {
            Err(e) => !cancellable(rows_of(old(rows)@), id@, session.tenant_id@) && error::told(e)
                == error::refusal(
                CONFLICT,
                "请求已批准、已撤销或不存在，请刷新列表",
            ) && rows_of(final(rows)@) == rows_of(old(rows)@),
            Ok(_) => cancellable(rows_of(old(rows)@), id@, session.tenant_id@) && (row_from(
                rows_of(old(rows)@),
                id@,
                session.tenant_id@,
                0,
            ) matches Some(k) && rows_of(final(rows)@) == rows_of(old(rows)@).update(
                k,
                EnrollmentView { status: "revoked"@, ..rows_of(old(rows)@)[k] },
            )),
        },
{
    if let Some(k) = find_row(rows, id, session.tenant_id.as_str()) {
        assert(rows_of(rows@)[k as int] == rows@[k as int]@);
        if same(rows[k].status.as_str(), "awaiting_agent") || same(
            rows[k].status.as_str(),
            "awaiting_approval",
        ) {
            set_status(rows, k, "revoked");
            return Ok(());
        }
    }
    Err(ApiError::new(CONFLICT, "请求已批准、已撤销或不存在，请刷新列表"))
}

/// The position of the first invitation from position `i` on with an identifier and a digest, of a
/// workspace that is on.
pub open spec fn poll_from(
    rows: Seq<EnrollmentView>,
    tenants: Seq<Tenant>,
    id: Seq<char>,
    token_digest: Seq<char>,
    i: int,
) -> Option<int>
    decreases rows.len() - i,
{
    if i < 0 || i >= rows.len() {
        None
    } else if rows[i].id == id && rows[i].token_digest == token_digest && accounts::workspace_on(
        tenants,
        rows[i].tenant_id,
    ) {
        Some(i)
    } else {
        poll_from(rows, tenants, id, token_digest, i + 1)
    }
}

/// Whether an invitation was approved, with all that the device needs.
pub open spec fn is_approved(row: EnrollmentView) -> bool {
    (row.status == "approved"@ || row.status == "consumed"@) && row.device_id is Some
        && row.request is Some && row.request->0.certificate_pem is Some
}

/// Why the answer to a waiting device is a refusal, if it is.
pub open spec fn poll_refusal(
    rows: Seq<EnrollmentView>,
    tenants: Seq<Tenant>,
    id: Seq<char>,
    token: Seq<char>,
    now: i64,
) -> Option<error::Refusal> {
    match poll_from(rows, tenants, id, digest::digest_of(token), 0) {
        None => error::refusal(UNAUTHORIZED, "入网请求无效"),
        Some(k) => if rows[k].expires_at <= now {
            error::refusal(UNAUTHORIZED, "入网凭证已过期")
        } else if is_approved(rows[k]) || rows[k].status == "awaiting_agent"@ || rows[k].status
            == "awaiting_approval"@ {
            None
        } else {
            error::refusal(UNAUTHORIZED, "设备身份已失效，请重新入网")
        },
    }
}

/// Answers a device that waits for its approval. Once approved, the certificate is handed out, and
/// again whenever the device asks before the invitation ends.
pub fn agent_poll(
    rows: &mut Vec<EnrollmentRow>,
    tenants: &Vec<Tenant>,
    id: &str,
    token: &str,
    ca_pem: &str,
    now: i64,
) -> (r: Result<AgentEnrollmentPollResponse, ApiError>)
    ensures
        match r {
            Err(e) => poll_refusal(rows_of(old(rows)@), tenants@, id@, token@, now)
                == error::told(e) && rows_of(final(rows)@) == rows_of(old(rows)@),
            Ok(reply) => poll_refusal(rows_of(old(rows)@), tenants@, id@, token@, now) is None && (
            poll_from(
                rows_of(old(rows)@),
                tenants@,
                id@,
                digest::digest_of(token@),
                0,
            ) matches Some(k) && ({
                let row = rows_of(old(rows)@)[k];
                let approved = is_approved(row);
                &&& reply.enrollment_id@ == id@
                &&& reply.status == (if approved {
                    EnrollmentStatus::Approved
                } else {
                    EnrollmentStatus::AwaitingApproval
                })
                &&& text::opt(reply.device_id) == (if approved {
                    row.device_id
                } else {
                    None
                })
                &&& text::opt(reply.certificate_pem) == (if approved {
                    row.request->0.certificate_pem
                } else {
                    None
                })
                &&& text::opt(reply.ca_certificate_pem) == (if approved {
                    Some(ca_pem@)
                } else {
                    None
                })
                &&& reply.message@ == (if approved {
                    "Agent 已批准"@
                } else {
                    "等待管理员批准"@
                })
                &&& rows_of(final(rows)@) == (if approved {
                    rows_of(old(rows)@).update(k, EnrollmentView { status: "consumed"@, ..row })
                } else {
                    rows_of(old(rows)@)
                })
            })),
        },
{
    let token_digest: String = EnrollmentToken::digest(token);
    let ghost all = rows_of(rows@);
    let mut i: usize = 0;
    while i < rows.len()
        invariant
            i <= rows@.len(),
            rows@ == old(rows)@,
            all == rows_of(rows@),
            token_digest@ == digest::digest_of(token@),
            poll_from(all, tenants@, id@, token_digest@, 0) == poll_from(
                all,
                tenants@,
                id@,
                token_digest@,
                i as int,
            ),
        decreases rows@.len() - i,
    {
        assert(all[i as int] == rows@[i as int]@);
        if same(rows[i].id.as_str(), id) && same(
            rows[i].token_digest.as_str(),
            token_digest.as_str(),
        ) {
            if let Ok(_) = ensure_workspace_enabled(tenants, rows[i].tenant_id.as_str()) {
                return answer_poll(rows, i, id, ca_pem, now);
            }
        }
        i = i + 1;
    }
    Err(ApiError::new(UNAUTHORIZED, "入网请求无效"))
}

fn answer_poll(rows: &mut Vec<EnrollmentRow>, k: usize, id: &str, ca_pem: &str, now: i64) -> (r:
    Result<AgentEnrollmentPollResponse, ApiError>)
    requires
        k < old(rows)@.len(),
    ensures
        ({
            let row = rows_of(old(rows)@)[k as int];
            let approved = is_approved(row);
            match r {
                Err(e) => rows_of(final(rows)@) == rows_of(old(rows)@) && (if row.expires_at
                    <= now {
                    error::told(e) == error::refusal(UNAUTHORIZED, "入网凭证已过期")
                } else {
                    !approved && row.status != "awaiting_agent"@ && row.status
                        != "awaiting_approval"@ && error::told(e) == error::refusal(
                        UNAUTHORIZED,
                        "设备身份已失效，请重新入网",
                    )
                }),
                Ok(reply) => {
                    &&& row.expires_at > now
                    &&& approved || row.status == "awaiting_agent"@ || row.status
                        == "awaiting_approval"@
                    &&& reply.enrollment_id@ == id@
                    &&& reply.status == (if approved {
                        EnrollmentStatus::Approved
                    } else {
                        EnrollmentStatus::AwaitingApproval
                    })
                    &&& text::opt(reply.device_id) == (if approved {
                        row.device_id
                    } else {
                        None
                    })
                    &&& text::opt(reply.certificate_pem) == (if approved {
                        row.request->0.certificate_pem
                    } else {
                        None
                    })
                    &&& text::opt(reply.ca_certificate_pem) == (if approved {
                        Some(ca_pem@)
                    } else {
                        None
                    })
                    &&& reply.message@ == (if approved {
                        "Agent 已批准"@
                    } else {
                        "等待管理员批准"@
                    })
                    &&& rows_of(final(rows)@) == (if approved {
                        rows_of(old(rows)@).update(
                            k as int,
                            EnrollmentView { status: "consumed"@, ..row },
                        )
                    } else {
                        rows_of(old(rows)@)
                    })
                },
            }
        }),
{
    assert(rows_of(rows@)[k as int] == rows@[k as int]@);
    if rows[k].expires_at <= now {
        return Err(ApiError::new(UNAUTHORIZED, "入网凭证已过期"));
    }
    let settled: bool = same(rows[k].status.as_str(), "approved") || same(
        rows[k].status.as_str(),
        "consumed",
    );
    let certificate: Option<String> = match &rows[k].request {
        Some(request) => copy_opt(&request.certificate_pem),
        None => None,
    };
    let device: Option<String> = copy_opt(&rows[k].device_id);
    if settled && device.is_some() && certificate.is_some() {
        set_status(rows, k, "consumed");
        return Ok(
            AgentEnrollmentPollResponse {
                enrollment_id: id.to_owned(),
                status: EnrollmentStatus::Approved,
                device_id: device,
                certificate_pem: certificate,
                ca_certificate_pem: Some(ca_pem.to_owned()),
                message: "Agent 已批准".to_owned(),
            },
        );
    }
    if !(same(rows[k].status.as_str(), "awaiting_agent") || same(
        rows[k].status.as_str(),
        "awaiting_approval",
    )) {
        return Err(ApiError::new(UNAUTHORIZED, "设备身份已失效，请重新入网"));
    }
    Ok(
        AgentEnrollmentPollResponse {
            enrollment_id: id.to_owned(),
            status: EnrollmentStatus::AwaitingApproval,
            device_id: None,
            certificate_pem: None,
            ca_certificate_pem: None,
            message: "等待管理员批准".to_owned(),
        },
    )
}

/// A device whose answer got lost gets the same certificate again: handing it out changes nothing
/// that a later answer depends on.
pub proof fn handing_out_keeps_the_answer(row: EnrollmentView)
    requires
        is_approved(row),
    ensures
        ({
            let after = EnrollmentView { status: "consumed"@, ..row };
            &&& is_approved(after)
            &&& after.device_id == row.device_id
            &&& after.request == row.request
        }),
{
}

/// The invitations after those of a workspace were withdrawn: one that was used stays as it is.
pub open spec fn workspace_withdrawn(rows: Seq<EnrollmentView>, tenant: Seq<char>) -> Seq<
    EnrollmentView,
> {
    Seq::new(
        rows.len(),
        |i: int|
            if rows[i].tenant_id == tenant && rows[i].status != "consumed"@ {
                EnrollmentView { status: "revoked"@, ..rows[i] }
            } else {
                rows[i]
            },
    )
}

/// The devices after those of a workspace were cut off.
pub open spec fn workspace_offline(devices: Seq<DeviceView>, tenant: Seq<char>) -> Seq<DeviceView> {
    Seq::new(
        devices.len(),
        |i: int|
            if devices[i].tenant_id == tenant {
                DeviceView { status: "offline"@, ..devices[i] }
            } else {
                devices[i]
            },
    )
}

/// Withdraws what lets devices in to a workspace that is switched off: its invitations that were not
/// used are revoked, and its devices count as offline. The identities of the devices stay.
pub fn withdraw_workspace(registry: &mut Registry, tenant: &str)
    ensures
        rows_of(final(registry).rows@) == workspace_withdrawn(rows_of(old(registry).rows@), tenant@),
        devices_of(final(registry).devices@) == workspace_offline(
            devices_of(old(registry).devices@),
            tenant@,
        ),
        final(registry).identities == old(registry).identities,
{
    let ghost rows = rows_of(registry.rows@);
    let ghost target = workspace_withdrawn(rows, tenant@);
    let n: usize = registry.rows.len();
    let mut i: usize = 0;
    while i < n
        invariant
            i <= n == registry.rows@.len() == rows.len(),
            target == workspace_withdrawn(rows, tenant@),
            registry.devices == old(registry).devices,
            registry.identities == old(registry).identities,
            forall|j: int|
                0 <= j < n ==> #[trigger] rows_of(registry.rows@)[j] == (if j < i {
                    target[j]
                } else {
                    rows[j]
                }),
        decreases n - i,
    {
        assert(rows_of(registry.rows@)[i as int] == registry.rows@[i as int]@);
        if same(registry.rows[i].tenant_id.as_str(), tenant) && !same(
            registry.rows[i].status.as_str(),
            "consumed",
        ) {
            set_status(&mut registry.rows, i, "revoked");
        }
        i = i + 1;
    }
    assert(rows_of(registry.rows@) =~= target);
    let ghost devices = devices_of(registry.devices@);
    let ghost offline = workspace_offline(devices, tenant@);
    let m: usize = registry.devices.len();
    let mut k: usize = 0;
    while k < m
        invariant
            k <= m == registry.devices@.len() == devices.len(),
            offline == workspace_offline(devices, tenant@),
            rows_of(registry.rows@) == target,
            registry.identities == old(registry).identities,
            forall|j: int|
                0 <= j < m ==> #[trigger] devices_of(registry.devices@)[j] == (if j < k {
                    offline[j]
                } else {
                    devices[j]
                }),
        decreases m - k,
    {
        assert(devices_of(registry.devices@)[k as int] == registry.devices@[k as int]@);
        if same(registry.devices[k].tenant_id.as_str(), tenant) {
            let ghost before = devices_of(registry.devices@);
            let device: &DeviceRow = &registry.devices[k];
            let next = DeviceRow {
                id: device.id.clone(),
                tenant_id: device.tenant_id.clone(),
                name: device.name.clone(),
                os: copy_opt(&device.os),
                architecture: copy_opt(&device.architecture),
                agent_version: device.agent_version.clone(),
                status: "offline".to_owned(),
                enrolled_at: device.enrolled_at,
                updated_at: device.updated_at,
            };
            let ghost shown = next@;
            registry.devices.set(k, next);
            assert(devices_of(registry.devices@) =~= before.update(k as int, shown));
        }
        k = k + 1;
    }
    assert(devices_of(registry.devices@) =~= offline);
}

/// No invitation of a workspace that was withdrawn can be approved any more, even once the workspace
/// is switched on again; those of other workspaces are as they were.
pub proof fn withdrawn_invitations_stay_refused(
    rows: Seq<EnrollmentView>,
    tenants: Seq<Tenant>,
    tenant: Seq<char>,
    id: Seq<char>,
    now: i64,
    k: int,
)
    requires
        0 <= k < rows.len(),
    ensures
        approve_refusal(workspace_withdrawn(rows, tenant), tenants, tenant, id, now) is Some,
        rows[k].tenant_id != tenant ==> workspace_withdrawn(rows, tenant)[k] == rows[k],
{
    let after = workspace_withdrawn(rows, tenant);
    lemma_row_from(after, id, tenant, 0);
    reveal_strlit("revoked");
    reveal_strlit("consumed");
    reveal_strlit("awaiting_approval");
    assert("revoked"@.len() == 7 && "consumed"@.len() == 8 && "awaiting_approval"@.len() == 17);
}

proof fn lemma_picks_shown(rows: Seq<EnrollmentView>, tenant: Seq<char>, now: i64, n: int, keep: spec_fn(int) -> bool, value: spec_fn(int) -> ShownView)
    requires
        forall|i: int|
            0 <= i < n ==> #[trigger] keep(i) == (listed(rows[i], tenant, now)) && value(i) == (shown(rows[i])),
    ensures
        shown_list(rows, tenant, now, n) == picked::picked(keep, value, n),
    decreases n,
{
    if n > 0 {
        assert(keep(n - 1) || !keep(n - 1));
        lemma_picks_shown(rows, tenant, now, n - 1, keep, value);
    }
}

/// The invitations that a user sees are those of the workspace that are open and have not ended: each as
/// it is stored, and none with its secret.
pub proof fn users_see_open_invitations(rows: Seq<EnrollmentView>, tenant: Seq<char>, now: i64)
    ensures
        forall|one: ShownView| #[trigger]
            shown_list(rows, tenant, now, rows.len() as int).contains(one) <==> exists|i: int|
                0 <= i < rows.len() && (#[trigger] rows[i]).tenant_id == tenant && rows[i].expires_at > now && (rows[i].status == "awaiting_agent"@ || rows[i].status == "awaiting_approval"@ || rows[i].status == "approved"@) && one.id == rows[i].id && one.kind == rows[i].kind && one.tenant_id == tenant && one.status == rows[i].status && one.expires_at == rows[i].expires_at && one.device_id == rows[i].device_id && one.token is None,
{
    let n = rows.len() as int;
    let keep = |i: int| listed(rows[i], tenant, now);
    let value = |i: int| shown(rows[i]);
    lemma_picks_shown(rows, tenant, now, n, keep, value);
    assert forall|one: ShownView| #[trigger] shown_list(rows, tenant, now, n).contains(one) <==> exists|i: int|
        0 <= i < rows.len() && (#[trigger] rows[i]).tenant_id == tenant && rows[i].expires_at > now && (rows[i].status == "awaiting_agent"@ || rows[i].status == "awaiting_approval"@ || rows[i].status == "approved"@) && one.id == rows[i].id && one.kind == rows[i].kind && one.tenant_id == tenant && one.status == rows[i].status && one.expires_at == rows[i].expires_at && one.device_id == rows[i].device_id && one.token is None by {
        picked::lemma_picked_contains(keep, value, n, one);
        if shown_list(rows, tenant, now, n).contains(one) {
            let i = choose|i: int| 0 <= i < n && #[trigger] keep(i) && value(i) == one;
            assert(rows[i] == rows[i]);
        }
        if exists|i: int| 0 <= i < rows.len() && (#[trigger] rows[i]).tenant_id == tenant && rows[i].expires_at > now && (rows[i].status == "awaiting_agent"@ || rows[i].status == "awaiting_approval"@ || rows[i].status == "approved"@) && one.id == rows[i].id && one.kind == rows[i].kind && one.tenant_id == tenant && one.status == rows[i].status && one.expires_at == rows[i].expires_at && one.device_id == rows[i].device_id && one.token is None {
            let i = choose|i: int| 0 <= i < rows.len() && (#[trigger] rows[i]).tenant_id == tenant && rows[i].expires_at > now && (rows[i].status == "awaiting_agent"@ || rows[i].status == "awaiting_approval"@ || rows[i].status == "approved"@) && one.id == rows[i].id && one.kind == rows[i].kind && one.tenant_id == tenant && one.status == rows[i].status && one.expires_at == rows[i].expires_at && one.device_id == rows[i].device_id && one.token is None;
            assert(keep(i) && value(i) == one);
        }
    }
}

proof fn lemma_claim_from(
    rows: Seq<EnrollmentView>,
    tenants: Seq<Tenant>,
    token_digest: Seq<char>,
    i: int,
)
    requires
        0 <= i,
    ensures
        claim_from(rows, tenants, token_digest, i) matches Some(k) ==> i <= k < rows.len()
            && rows[k].token_digest == token_digest && accounts::workspace_on(
            tenants,
            rows[k].tenant_id,
        ),
        claim_from(rows, tenants, token_digest, i) is None ==> forall|k: int|
            i <= k < rows.len() ==> !((#[trigger] rows[k]).token_digest == token_digest
                && accounts::workspace_on(tenants, rows[k].tenant_id)),
    decreases rows.len() - i,
{
    if i < rows.len() && !(rows[i].token_digest == token_digest && accounts::workspace_on(
        tenants,
        rows[i].tenant_id,
    )) {
        lemma_claim_from(rows, tenants, token_digest, i + 1);
    }
}

/// A device is heard only where it gives the secret of an invitation that has not ended and was not
/// withdrawn, of a workspace that is on, and a request for a certificate that is the one it gave
/// before, if it did. An invitation to recover needs its device.
pub proof fn devices_are_heard_with_their_secret(
    rows: Seq<EnrollmentView>,
    tenants: Seq<Tenant>,
    input: AgentEnrollmentRequest,
    now: i64,
)
    requires
        enroll_refusal(rows, tenants, input, now) is None,
    ensures
        claim_from(rows, tenants, digest::digest_of(input.token@), 0) matches Some(k) && {
            &&& 0 <= k < rows.len()
            &&& rows[k].token_digest == digest::digest_of(input.token@)
            &&& exists|w: int|
                0 <= w < tenants.len() && (#[trigger] tenants[w]).id@ == rows[k].tenant_id
                    && tenants[w].enabled
            &&& now < rows[k].expires_at
            &&& rows[k].status != "revoked"@
            &&& rows[k].kind == "recovery"@ ==> rows[k].device_id is Some
            &&& input.csr_pem matches Some(csr) && x509::request_valid(csr@)
            &&& rows[k].request matches Some(earlier) ==> earlier.csr_pem == input.csr_pem->0@
            &&& rows[k].request is None ==> rows[k].status == "awaiting_agent"@
        },
{
    lemma_claim_from(rows, tenants, digest::digest_of(input.token@), 0);
    reveal_strlit("revoked");
    reveal_strlit("awaiting_agent");
    reveal_strlit("awaiting_approval");
    reveal_strlit("approved");
    reveal_strlit("consumed");
    assert("revoked"@.len() == 7 && "awaiting_agent"@.len() == 14 && "awaiting_approval"@.len()
        == 17 && "approved"@.len() == 8 && "consumed"@.len() == 8);
}

/// What is kept of a device that was heard is what it said of itself; then it waits to be approved.
/// The invitation is otherwise the same, and one that was claimed stays as it was.
pub proof fn requests_are_kept_as_they_came(row: EnrollmentView, input: AgentEnrollmentRequest)
    requires
        input.csr_pem is Some,
    ensures
        ({
            let after = claimed(row, input);
            &&& row.request is Some ==> after == row
            &&& after.id == row.id && after.tenant_id == row.tenant_id && after.token_digest
                == row.token_digest && after.expires_at == row.expires_at && after.kind == row.kind
                && after.device_id == row.device_id && after.created_at == row.created_at
            &&& row.request is None ==> after.status == "awaiting_approval"@ && (
            after.request matches Some(kept) && kept.csr_pem == input.csr_pem->0@
                && kept.device_name == input.device_name@ && kept.os == text::opt(input.os)
                && kept.architecture == text::opt(input.architecture) && kept.agent_version
                == input.agent_version@ && kept.certificate_pem is None)
        }),
{
}

proof fn lemma_row_found(rows: Seq<EnrollmentView>, id: Seq<char>, tenant: Seq<char>, i: int)
    requires
        0 <= i,
    ensures
        row_from(rows, id, tenant, i) is None ==> forall|k: int|
            i <= k < rows.len() ==> !((#[trigger] rows[k]).id == id && rows[k].tenant_id == tenant),
        row_from(rows, id, tenant, i) matches Some(k) ==> i <= k < rows.len() && rows[k].id == id
            && rows[k].tenant_id == tenant,
    decreases rows.len() - i,
{
    if i < rows.len() && !(rows[i].id == id && rows[i].tenant_id == tenant) {
        lemma_row_found(rows, id, tenant, i + 1);
    }
}

/// An approval is accepted only for an invitation of the own workspace, which is on, that has not ended
/// and that a device has claimed and waits for; one to recover needs its device.
pub proof fn approvals_need_a_waiting_device(
    rows: Seq<EnrollmentView>,
    tenants: Seq<Tenant>,
    tenant: Seq<char>,
    id: Seq<char>,
    now: i64,
)
    ensures
        approve_refusal(rows, tenants, tenant, id, now) is None <==> (exists|w: int|
            0 <= w < tenants.len() && (#[trigger] tenants[w]).id@ == tenant && tenants[w].enabled)
            && (row_from(rows, id, tenant, 0) matches Some(k) && 0 <= k < rows.len() && rows[k].id
            == id && rows[k].tenant_id == tenant && now < rows[k].expires_at && rows[k].status
            == "awaiting_approval"@ && rows[k].request is Some && (rows[k].kind == "recovery"@
            ==> rows[k].device_id is Some)),
{
    lemma_row_found(rows, id, tenant, 0);
}

/// An approved invitation names its device and holds the certificate that was issued; its secret, its
/// workspace, its kind, its end and the request of the device stay.
pub proof fn approved_invitations_hold_the_certificate(
    row: EnrollmentView,
    device: Seq<char>,
    certificate: Seq<char>,
)
    requires
        row.request is Some,
    ensures
        ({
            let after = approved_row(row, device, certificate);
            &&& after.status == "approved"@ && after.device_id == Some(device)
            &&& after.request matches Some(kept) && kept.certificate_pem == Some(certificate)
                && kept.csr_pem == row.request->0.csr_pem && kept.device_name
                == row.request->0.device_name
            &&& after.id == row.id && after.tenant_id == row.tenant_id && after.token_digest
                == row.token_digest && after.expires_at == row.expires_at && after.kind == row.kind
                && after.created_at == row.created_at
        }),
{
}

/// A device that is let in is added to the workspace of its invitation with what it said of itself and
/// the name that it was given, or its own; it counts as offline until it connects. Every other device
/// stays as it was.
pub proof fn new_devices_are_added_to_their_workspace(
    devices: Seq<DeviceView>,
    row: EnrollmentView,
    device: Seq<char>,
    given: Option<String>,
    now: i64,
)
    requires
        row.kind != "recovery"@,
        row.request is Some,
    ensures
        ({
            let after = approved_devices(devices, row, device, given, now);
            let added = after.last();
            &&& after.len() == devices.len() + 1 && after.drop_last() == devices
            &&& added.id == device && added.tenant_id == row.tenant_id
            &&& given is Some && text::trimmed(given->0@).len() > 0 ==> added.name == given->0@
            &&& (given is None || text::trimmed(given->0@).len() == 0) ==> added.name
                == row.request->0.device_name
            &&& added.os == row.request->0.os && added.architecture
                == row.request->0.architecture && added.agent_version
                == row.request->0.agent_version
            &&& added.status == "offline"@ && added.enrolled_at == now && added.updated_at == now
        }),
{
    let after = approved_devices(devices, row, device, given, now);
    assert(after.drop_last() =~= devices);
}

/// A new identity is stored for its own device alone, with the digest of its certificate and nothing
/// that waits or has failed; the identities of other devices stay.
pub proof fn identities_are_stored_for_their_device(
    list: Seq<(Seq<char>, DeviceCertificateView)>,
    device: Seq<char>,
    certificate: Seq<char>,
    digest: Seq<char>,
)
    ensures
        ({
            let made = fresh_identity(certificate, digest);
            let after = with_identity(list, device, made);
            &&& made.active_digest == digest && made.certificate_pem == Some(certificate)
            &&& made.pending_csr is None && made.pending_certificate is None && made.retry_failures
                == 0 && made.renewal_error is None && made.next_retry_at is None
            &&& after.contains((device, made))
            &&& list.len() <= after.len()
            &&& forall|i: int|
                0 <= i < list.len() && (#[trigger] list[i]).0 != device ==> after[i] == list[i]
        }),
{
    lemma_identity_found(list, device, 0);
    let made = fresh_identity(certificate, digest);
    let after = with_identity(list, device, made);
    match identity_from(list, device, 0) {
        Some(k) => {
            assert(after[k] == (device, made));
        },
        None => {
            assert(after[list.len() as int] == (device, made));
        },
    }
}

proof fn lemma_identity_found(
    list: Seq<(Seq<char>, DeviceCertificateView)>,
    device: Seq<char>,
    i: int,
)
    requires
        0 <= i,
    ensures
        identity_from(list, device, i) matches Some(k) ==> i <= k < list.len() && list[k].0
            == device,
    decreases list.len() - i,
{
    if i < list.len() && list[i].0 != device {
        lemma_identity_found(list, device, i + 1);
    }
}

proof fn lemma_poll_from(
    rows: Seq<EnrollmentView>,
    tenants: Seq<Tenant>,
    id: Seq<char>,
    token_digest: Seq<char>,
    i: int,
)
    requires
        0 <= i,
    ensures
        poll_from(rows, tenants, id, token_digest, i) matches Some(k) ==> i <= k < rows.len()
            && rows[k].id == id && rows[k].token_digest == token_digest && accounts::workspace_on(
            tenants,
            rows[k].tenant_id,
        ),
    decreases rows.len() - i,
{
    if i < rows.len() {
        lemma_poll_from(rows, tenants, id, token_digest, i + 1);
    }
}

/// A device gets its certificate only with the secret of its invitation, of a workspace that is on,
/// before the invitation ends and once it was approved; a withdrawn invitation is refused.
pub proof fn certificates_are_handed_out_with_the_secret(
    rows: Seq<EnrollmentView>,
    tenants: Seq<Tenant>,
    id: Seq<char>,
    token: Seq<char>,
    now: i64,
)
    requires
        poll_refusal(rows, tenants, id, token, now) is None,
    ensures
        poll_from(rows, tenants, id, digest::digest_of(token), 0) matches Some(k) && {
            &&& 0 <= k < rows.len()
            &&& rows[k].id == id && rows[k].token_digest == digest::digest_of(token)
            &&& exists|w: int|
                0 <= w < tenants.len() && (#[trigger] tenants[w]).id@ == rows[k].tenant_id
                    && tenants[w].enabled
            &&& now < rows[k].expires_at
            &&& rows[k].status != "revoked"@
            &&& is_approved(rows[k]) <==> (rows[k].status == "approved"@ || rows[k].status
                == "consumed"@)
            &&& is_approved(rows[k]) ==> rows[k].device_id is Some && rows[k].request is Some
                && rows[k].request->0.certificate_pem is Some
        },
{
    lemma_poll_from(rows, tenants, id, digest::digest_of(token), 0);
    reveal_strlit("revoked");
    reveal_strlit("awaiting_agent");
    reveal_strlit("awaiting_approval");
    reveal_strlit("approved");
    reveal_strlit("consumed");
    assert("revoked"@.len() == 7 && "awaiting_agent"@.len() == 14 && "awaiting_approval"@.len()
        == 17 && "approved"@.len() == 8 && "consumed"@.len() == 8);
}

/// An invitation can be withdrawn by its own workspace as long as it was not approved.
pub proof fn open_invitations_can_be_withdrawn(
    rows: Seq<EnrollmentView>,
    id: Seq<char>,
    tenant: Seq<char>,
)
    ensures
        cancellable(rows, id, tenant) ==> exists|k: int|
            0 <= k < rows.len() && (#[trigger] rows[k]).id == id && rows[k].tenant_id == tenant && (
            rows[k].status == "awaiting_agent"@ || rows[k].status == "awaiting_approval"@),
        (row_from(rows, id, tenant, 0) matches Some(k) && (rows[k].status == "awaiting_agent"@
            || rows[k].status == "awaiting_approval"@)) ==> cancellable(rows, id, tenant),
{
    lemma_row_found(rows, id, tenant, 0);
    if let Some(k) = row_from(rows, id, tenant, 0) {
        assert(rows[k].id == id);
    }
}

/// A new invitation to recover a device withdraws the earlier ones for it, whatever their state;
/// withdrawing a workspace withdraws all of its invitations but those that were used, and its devices
/// count as offline. Everything else stays.
pub proof fn withdrawals_reach_what_they_name(
    rows: Seq<EnrollmentView>,
    devices: Seq<DeviceView>,
    device: Seq<char>,
    tenant: Seq<char>,
    k: int,
    d: int,
)
    requires
        0 <= k < rows.len(),
        0 <= d < devices.len(),
    ensures
        ({
            let after = recoveries_withdrawn(rows, device);
            let gone = rows[k].kind == "recovery"@ && rows[k].device_id == Some(device);
            &&& after.len() == rows.len()
            &&& gone ==> after[k].status == "revoked"@
            &&& !gone ==> after[k] == rows[k]
            &&& after[k].id == rows[k].id && after[k].token_digest == rows[k].token_digest
        }),
        ({
            let after = workspace_withdrawn(rows, tenant);
            let gone = rows[k].tenant_id == tenant && rows[k].status != "consumed"@;
            &&& after.len() == rows.len()
            &&& gone ==> after[k].status == "revoked"@
            &&& !gone ==> after[k] == rows[k]
            &&& after[k].id == rows[k].id && after[k].token_digest == rows[k].token_digest
        }),
        ({
            let after = workspace_offline(devices, tenant);
            &&& after.len() == devices.len()
            &&& devices[d].tenant_id == tenant ==> after[d].status == "offline"@
            &&& devices[d].tenant_id != tenant ==> after[d] == devices[d]
            &&& after[d].id == devices[d].id && after[d].name == devices[d].name
        }),
{
}

/// An invitation that nobody has approved is shown as expired once its time has passed; otherwise it
/// is shown in the state that it has.
pub proof fn invitations_expire_in_what_is_shown(row: EnrollmentView, now: i64)
    ensures
        (row.status == "awaiting_agent"@ || row.status == "awaiting_approval"@) && row.expires_at
            <= now ==> shown_status(row, now) == "expired"@,
        row.expires_at > now || !(row.status == "awaiting_agent"@ || row.status
            == "awaiting_approval"@) ==> shown_status(row, now) == row.status,
        shown(row).id == row.id && shown(row).kind == row.kind && shown(row).tenant_id
            == row.tenant_id && shown(row).expires_at == row.expires_at && shown(row).device_id
            == row.device_id && shown(row).token is None,
{
}

/// A workspace that is on invites for any time above nothing; an invitation to recover needs a device
/// of the workspace.
pub proof fn workspaces_that_are_on_invite(
    devices: Seq<DeviceView>,
    tenants: Seq<Tenant>,
    tenant: Seq<char>,
    ttl: int,
    device: Seq<char>,
)
    ensures
        ({
            let on = exists|w: int|
                0 <= w < tenants.len() && (#[trigger] tenants[w]).id@ == tenant
                    && tenants[w].enabled;
            &&& invite_refusal(tenants, tenant, ttl) is None <==> on && ttl > 0
            &&& recovery_refusal(devices, tenants, tenant, device) is None <==> on && exists|d: int|
                0 <= d < devices.len() && (#[trigger] devices[d]).id == device
                    && devices[d].tenant_id == tenant
        }),
{
    lemma_device_found(devices, device, tenant, 0);
    if let Some(d) = device_from(devices, device, tenant, 0) {
        assert(devices[d].id == device);
    }
}

proof fn lemma_device_found(devices: Seq<DeviceView>, id: Seq<char>, tenant: Seq<char>, i: int)
    requires
        0 <= i,
    ensures
        device_from(devices, id, tenant, i) matches Some(k) ==> i <= k < devices.len()
            && devices[k].id == id && devices[k].tenant_id == tenant,
        device_from(devices, id, tenant, i) is None ==> forall|k: int|
            i <= k < devices.len() ==> !((#[trigger] devices[k]).id == id && devices[k].tenant_id
                == tenant),
    decreases devices.len() - i,
{
    if i < devices.len() && !(devices[i].id == id && devices[i].tenant_id == tenant) {
        lemma_device_found(devices, id, tenant, i + 1);
    }
}

/// An invitation is added to the workspace of the one who makes it, with the digest of its secret; the
/// others stay, and no device is touched.
pub proof fn invitations_are_added_to_their_workspace(
    registry: &mut Registry,
    tenants: &Vec<Tenant>,
    session: &Session,
    input: &CreateEnrollment,
    now: i64,
    r: Result<(Enrollment, AuditEvent), ApiError>,
)
    requires
        call_ensures(create_enrollment, (registry, tenants, session, input, now), r),
    ensures
        r is Err ==> rows_of(final(registry).rows@) == rows_of(old(registry).rows@),
        r matches Ok(made) ==> {
            let rows = rows_of(final(registry).rows@);
            &&& rows.len() == old(registry).rows@.len() + 1
            &&& rows.drop_last() == rows_of(old(registry).rows@)
            &&& rows.last().tenant_id == session.tenant_id@
            &&& made.0.token is Some && rows.last().token_digest == digest::digest_of(
                made.0.token->0@,
            )
            &&& rows.last().status == "awaiting_agent"@ && rows.last().device_id is None
            &&& rows.last().kind == "enroll"@ && rows.last().request is None
            &&& rows.last().id == made.0.id@
            &&& input.ttl_seconds is Some && input.ttl_seconds->0 > 0 && now
                + input.ttl_seconds->0 <= i64::MAX ==> rows.last().expires_at == now
                + input.ttl_seconds->0
        },
        devices_of(final(registry).devices@) == devices_of(old(registry).devices@),
{
    if r is Ok {
        assert(rows_of(final(registry).rows@).drop_last() =~= rows_of(old(registry).rows@));
    }
}

/// A request of an agent waits for approval and hands nothing out; only the invitation that it has the
/// secret of changes.
pub proof fn requests_of_agents_wait(
    rows: &mut Vec<EnrollmentRow>,
    tenants: &Vec<Tenant>,
    input: &AgentEnrollmentRequest,
    now: i64,
    r: Result<AgentEnrollmentResponse, ApiError>,
)
    requires
        call_ensures(agent_enroll, (rows, tenants, input, now), r),
    ensures
        r is Err ==> rows_of(final(rows)@) == rows_of(old(rows)@),
        r matches Ok(reply) ==> {
            let k = claim_from(
                rows_of(old(rows)@),
                tenants@,
                digest::digest_of(input.token@),
                0,
            );
            &&& k is Some
            &&& reply.status == EnrollmentStatus::AwaitingApproval
            &&& reply.certificate_pem is None && reply.ca_certificate_pem is None
            &&& final(rows)@.len() == old(rows)@.len()
            &&& forall|i: int|
                0 <= i < old(rows)@.len() && i != k->0 ==> #[trigger] rows_of(final(rows)@)[i]
                    == rows_of(old(rows)@)[i]
        },
{
    lemma_claim_from(rows_of(old(rows)@), tenants@, digest::digest_of(input.token@), 0);
    if r is Ok {
        assert(rows_of(final(rows)@).len() == rows_of(old(rows)@).len());
    }
}

/// A certificate is handed out once, with its authority, for an approved invitation; before, nothing
/// is, and nothing changes.
pub proof fn certificates_are_handed_out_once(
    rows: &mut Vec<EnrollmentRow>,
    tenants: &Vec<Tenant>,
    id: &str,
    token: &str,
    ca_pem: &str,
    now: i64,
    r: Result<AgentEnrollmentPollResponse, ApiError>,
)
    requires
        call_ensures(agent_poll, (rows, tenants, id, token, ca_pem, now), r),
    ensures
        r is Err ==> rows_of(final(rows)@) == rows_of(old(rows)@),
        r matches Ok(reply) ==> {
            let k = poll_from(
                rows_of(old(rows)@),
                tenants@,
                id@,
                digest::digest_of(token@),
                0,
            );
            let row = rows_of(old(rows)@)[k->0];
            &&& k is Some
            &&& reply.status is Approved <==> is_approved(row)
            &&& reply.certificate_pem is Some ==> reply.status is Approved
            &&& !(reply.status is Approved) ==> reply.certificate_pem is None
                && reply.ca_certificate_pem is None && reply.device_id is None && rows_of(
                final(rows)@,
            ) == rows_of(old(rows)@)
            &&& reply.status is Approved ==> text::opt(reply.ca_certificate_pem) == Some(ca_pem@)
                && text::opt(reply.device_id) == row.device_id && text::opt(
                reply.certificate_pem,
            ) == row.request->0.certificate_pem
            &&& reply.status is Approved ==> rows_of(
                final(rows)@,
            )[k->0].status == "consumed"@ && rows_of(final(rows)@)[k->0].token_digest
                == row.token_digest
        },
{
    lemma_poll_from(rows_of(old(rows)@), tenants@, id@, digest::digest_of(token@), 0);
}

/// A withdrawn invitation is revoked, and no other changes.
pub proof fn withdrawing_revokes_one_invitation(
    rows: &mut Vec<EnrollmentRow>,
    session: &Session,
    id: &str,
    r: Result<(), ApiError>,
)
    requires
        call_ensures(cancel_enrollment, (rows, session, id), r),
    ensures
        r is Err ==> rows_of(final(rows)@) == rows_of(old(rows)@) && r->Err_0.status == 409,
        r is Ok ==> {
            let k = row_from(rows_of(old(rows)@), id@, session.tenant_id@, 0);
            &&& k is Some
            &&& rows_of(final(rows)@).len() == rows_of(old(rows)@).len()
            &&& rows_of(final(rows)@)[k->0].status == "revoked"@
            &&& forall|i: int|
                0 <= i < old(rows)@.len() && i != k->0 ==> #[trigger] rows_of(final(rows)@)[i]
                    == rows_of(old(rows)@)[i]
        },
{
    lemma_row_from(rows_of(old(rows)@), id@, session.tenant_id@, 0);
}

} // verus!
