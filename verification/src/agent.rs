//! The agent: how it joins, what it offers, and how it answers the server.
use vstd::prelude::*;

use crate::enrollment_token::EnrollmentStatus;
use crate::headscale::unix_now;
use crate::identity;
use crate::identity::{
    failed, request, DeviceIdentity, EnrollmentKey, RenewalRetry, RENEW_BEFORE, SERVER_NAME,
};
use crate::number;
use crate::number::decimal_text;
use crate::protocol;
use crate::protocol::{
    AgentControlMessage, AgentEnrollmentPollResponse, ServerControlMessage, TunnelApplyResult,
    TunnelDataEndpoint, TunnelDesiredState,
};
use crate::text;
use crate::text::{has_char, is_text, join2, join3, replace, same, shorten, trim, unbracket};
use crate::url;
use crate::url::{parse_url, UrlParts};
use crate::x509;
use crate::x509::{certificate_info, new_request, IdentityError};

verus! {

/// The port of the control connection where none is configured.
pub const CONTROL_PORT: u16 = 9890;

/// The port of the data connection where none is configured.
pub const DATA_PORT: u16 = 9891;

/// The time in Unix seconds.
pub fn now() -> (r: i64) {
    unix_now() as i64
}

/// Why an agent cannot go on.
#[derive(Debug, Clone)]
pub enum AgentError {
    /// The stored identity cannot be read.
    Unreadable,
    /// The stored identity is damaged.
    Damaged,
    /// The stored identity belongs to another server.
    OtherServer,
    /// There is no credential to join with.
    NoToken,
    /// The stored key cannot be read.
    KeyUnreadable,
    /// The stored key is damaged.
    KeyDamaged,
    /// No key could be made.
    KeyGeneration,
    /// The credential is not one for recovery.
    NotRecovery,
    /// The credential is one for recovery.
    Recovery,
    /// The credential for recovery is for another device.
    OtherDevice,
    /// The outcome is for another device than the request.
    ChangedDevice,
    /// The outcome names no device.
    NoDevice,
    /// The outcome holds no certificate.
    NoCertificate,
    /// The outcome holds no certificate authority.
    NoAuthority,
    /// The certificate is for another device.
    CertificateMismatch,
    /// The certificate cannot be read.
    Certificate { error: IdentityError },
    /// The server refuses the agent.
    Refused { message: String },
    /// The URL of the server cannot be read.
    Url,
    /// The URL of the server is neither HTTP nor HTTPS.
    Scheme,
    /// The URL of the server has no host.
    Host,
    /// The protocol of a service is unknown.
    Protocol,
    /// The protocol to the origin of a service is unknown.
    OriginProtocol,
    /// A service needs a certificate authority of its own and has none.
    OriginAuthority,
    /// How the origin of a service is verified is unknown.
    OriginVerification,
}

impl AgentError {
    /// The message for the log.
    pub open spec fn text(self) -> Seq<char> {
        match self {
            AgentError::Unreadable => "无法读取 Agent 身份"@,
            AgentError::Damaged => "Agent 身份文件损坏，请恢复备份"@,
            AgentError::OtherServer => {
                "持久身份属于其他 Server，请为新 Server 使用独立的 Agent 数据目录"@
            },
            AgentError::NoToken => "首次入网需要 NEXO_ENROLLMENT_TOKEN"@,
            AgentError::KeyUnreadable => "无法读取待入网设备私钥"@,
            AgentError::KeyDamaged => "待入网的设备私钥损坏"@,
            AgentError::KeyGeneration => "无法生成设备私钥"@,
            AgentError::NotRecovery => {
                "这不是设备恢复凭证，请从原 Agent 的详情页生成恢复凭证"@
            },
            AgentError::Recovery => "这是设备恢复凭证，请使用 --recover-identity 完成恢复"@,
            AgentError::OtherDevice => {
                "恢复凭证与此目录保存的原设备不一致，请核对 Server 和 Agent"@
            },
            AgentError::ChangedDevice => "恢复结果的设备 ID 与申请不一致"@,
            AgentError::NoDevice => "批准响应缺少设备 ID"@,
            AgentError::NoCertificate => "批准响应缺少设备证书"@,
            AgentError::NoAuthority => "批准响应缺少 CA"@,
            AgentError::CertificateMismatch => "批准证书与设备 ID 不一致，未替换本机身份"@,
            AgentError::Certificate { error } => error.text(),
            AgentError::Refused { message } => message@,
            AgentError::Url => "Server URL 无效"@,
            AgentError::Scheme => "Server URL 必须使用 HTTP 或 HTTPS"@,
            AgentError::Host => "Server URL 缺少主机名"@,
            AgentError::Protocol => "服务协议不受支持"@,
            AgentError::OriginProtocol => "本地回源协议无效"@,
            AgentError::OriginAuthority => "本地 HTTPS 缺少自定义 CA"@,
            AgentError::OriginVerification => "本地 HTTPS 证书校验方式不受支持"@,
        }
    }

    /// The message for the log.
    pub fn message(&self) -> (r: String)
        ensures
            r@ == self.text(),
    {
        match self {
            AgentError::Unreadable => "无法读取 Agent 身份".to_owned(),
            AgentError::Damaged => "Agent 身份文件损坏，请恢复备份".to_owned(),
            AgentError::OtherServer => {
                "持久身份属于其他 Server，请为新 Server 使用独立的 Agent 数据目录".to_owned()
            },
            AgentError::NoToken => "首次入网需要 NEXO_ENROLLMENT_TOKEN".to_owned(),
            AgentError::KeyUnreadable => "无法读取待入网设备私钥".to_owned(),
            AgentError::KeyDamaged => "待入网的设备私钥损坏".to_owned(),
            AgentError::KeyGeneration => "无法生成设备私钥".to_owned(),
            AgentError::NotRecovery => {
                "这不是设备恢复凭证，请从原 Agent 的详情页生成恢复凭证".to_owned()
            },
            AgentError::Recovery => {
                "这是设备恢复凭证，请使用 --recover-identity 完成恢复".to_owned()
            },
            AgentError::OtherDevice => {
                "恢复凭证与此目录保存的原设备不一致，请核对 Server 和 Agent".to_owned()
            },
            AgentError::ChangedDevice => "恢复结果的设备 ID 与申请不一致".to_owned(),
            AgentError::NoDevice => "批准响应缺少设备 ID".to_owned(),
            AgentError::NoCertificate => "批准响应缺少设备证书".to_owned(),
            AgentError::NoAuthority => "批准响应缺少 CA".to_owned(),
            AgentError::CertificateMismatch => {
                "批准证书与设备 ID 不一致，未替换本机身份".to_owned()
            },
            AgentError::Certificate { error } => error.message(),
            AgentError::Refused { message } => message.clone(),
            AgentError::Url => "Server URL 无效".to_owned(),
            AgentError::Scheme => "Server URL 必须使用 HTTP 或 HTTPS".to_owned(),
            AgentError::Host => "Server URL 缺少主机名".to_owned(),
            AgentError::Protocol => "服务协议不受支持".to_owned(),
            AgentError::OriginProtocol => "本地回源协议无效".to_owned(),
            AgentError::OriginAuthority => "本地 HTTPS 缺少自定义 CA".to_owned(),
            AgentError::OriginVerification => "本地 HTTPS 证书校验方式不受支持".to_owned(),
        }
    }
}

/// A stored file: it is missing, it cannot be read, what it holds is damaged, or what it holds.
pub enum Stored<T> {
    Missing,
    Unreadable,
    Damaged,
    Found(T),
}

/// What an agent does at its start.
pub enum LoadStep {
    /// It has an identity.
    Ready { identity: DeviceIdentity },
    /// It asks to join with a key from a file; for a recovery, the server and the device that the
    /// directory belongs to, where they are known.
    Join { key_file: &'static str, expected: Option<(String, String)> },
}

/// What an agent does at its start: with a stored identity for the same server it is ready;
/// otherwise, and for a recovery, it asks to join, for which it needs a credential.
pub fn start(recover: bool, server_url: &str, token: &str, stored: Stored<DeviceIdentity>) -> (r:
    Result<LoadStep, AgentError>)
    ensures
        ({
            let joins = if text::trimmed(token@).len() == 0 {
                r == Err::<LoadStep, _>(AgentError::NoToken)
            } else {
                r matches Ok(LoadStep::Join { key_file, expected }) && key_file@ == (if recover {
                    "recovery-key.json"@
                } else {
                    "enrollment-key.json"@
                }) && (match expected {
                    Some(pair) => recover && (stored matches Stored::Found(identity) && pair.0@
                        == identity.server_url@ && pair.1@ == identity.device_id@),
                    None => !(recover && stored is Found),
                })
            };
            if recover {
                joins
            } else {
                match stored {
                    Stored::Found(identity) => if identity.server_url@ == server_url@ {
                        r matches Ok(LoadStep::Ready { identity: found }) && found == identity
                    } else {
                        r == Err::<LoadStep, _>(AgentError::OtherServer)
                    },
                    Stored::Damaged => r == Err::<LoadStep, _>(AgentError::Damaged),
                    Stored::Unreadable => r == Err::<LoadStep, _>(AgentError::Unreadable),
                    Stored::Missing => joins,
                }
            }
        }),
{
    let expected: Option<(String, String)> = if recover {
        match stored {
            Stored::Found(identity) => Some((identity.server_url, identity.device_id)),
            _ => None,
        }
    } else {
        match stored {
            Stored::Found(identity) => {
                if same(identity.server_url.as_str(), server_url) {
                    return Ok(LoadStep::Ready { identity });
                }
                return Err(AgentError::OtherServer);
            },
            Stored::Damaged => {
                return Err(AgentError::Damaged);
            },
            Stored::Unreadable => {
                return Err(AgentError::Unreadable);
            },
            Stored::Missing => None,
        }
    };
    if trim(token).as_str().is_empty() {
        return Err(AgentError::NoToken);
    }
    Ok(
        LoadStep::Join {
            key_file: if recover {
                "recovery-key.json"
            } else {
                "enrollment-key.json"
            },
            expected,
        },
    )
}

/// The key to join with, and whether it is a new one that is to be stored first. A stored key is
/// used again, so that a lost answer makes no second device.
pub fn joining_key(stored: Stored<EnrollmentKey>) -> (r: Result<(EnrollmentKey, bool), AgentError>)
    ensures
        match stored {
            Stored::Found(key) => r == Ok::<(EnrollmentKey, bool), AgentError>((key, false)),
            Stored::Damaged => r == Err::<(EnrollmentKey, bool), _>(AgentError::KeyDamaged),
            Stored::Unreadable => r == Err::<(EnrollmentKey, bool), _>(AgentError::KeyUnreadable),
            Stored::Missing => match r {
                Ok(made) => made.1 && identity::key_asked_for(made.0),
                Err(e) => e == AgentError::KeyGeneration,
            },
        },
{
    match stored {
        Stored::Found(key) => Ok((key, false)),
        Stored::Damaged => Err(AgentError::KeyDamaged),
        Stored::Unreadable => Err(AgentError::KeyUnreadable),
        Stored::Missing => match new_request("agent.nexo") {
            Some((csr_pem, key_pem)) => Ok((EnrollmentKey { csr_pem, key_pem }, true)),
            None => Err(AgentError::KeyGeneration),
        },
    }
}

/// Why the first answer ends the attempt to join, if it does: a credential for recovery is used for
/// a recovery alone, and only for the device that the directory belongs to.
pub open spec fn first_fault(
    recover: bool,
    server_url: Seq<char>,
    target: Option<Seq<char>>,
    expected: Option<(Seq<char>, Seq<char>)>,
) -> Option<AgentError> {
    if recover {
        match target {
            None => Some(AgentError::NotRecovery),
            Some(device) => if expected matches Some(pair) && !(pair.0 == server_url && pair.1
                == device) {
                Some(AgentError::OtherDevice)
            } else {
                None
            },
        }
    } else if target is Some {
        Some(AgentError::Recovery)
    } else {
        None
    }
}

/// Checks the first answer of the server.
pub fn check_first(
    recover: bool,
    server_url: &str,
    target: Option<&str>,
    expected: &Option<(String, String)>,
) -> (r: Result<(), AgentError>)
    ensures
        ({
            let fault = first_fault(
                recover,
                server_url@,
                text::opt_str(target),
                match expected {
                    Some(pair) => Some((pair.0@, pair.1@)),
                    None => None,
                },
            );
            match r {
                Ok(_) => fault is None,
                Err(e) => fault == Some(e),
            }
        }),
{
    if recover {
        match target {
            None => Err(AgentError::NotRecovery),
            Some(device) => {
                if let Some((server, known)) = expected {
                    if !(same(server.as_str(), server_url) && same(known.as_str(), device)) {
                        return Err(AgentError::OtherDevice);
                    }
                }
                Ok(())
            },
        }
    } else if target.is_some() {
        Err(AgentError::Recovery)
    } else {
        Ok(())
    }
}

/// What an agent does after it has asked for the outcome.
pub enum PollStep {
    /// It asks again later.
    Wait,
    /// It is approved; it stores its identity once it has built a connection from it and has checked
    /// whose certificate it is.
    Approved { identity: DeviceIdentity },
}

/// What an agent does after it has asked for the outcome. An approval counts only with all that
/// makes an identity.
pub fn poll_step(
    recover: bool,
    server_url: &str,
    first_device: &Option<String>,
    key_pem: &str,
    response: AgentEnrollmentPollResponse,
) -> (r: Result<PollStep, AgentError>)
    ensures
        match response.status {
            EnrollmentStatus::Pending | EnrollmentStatus::AwaitingApproval => r matches Ok(
                PollStep::Wait,
            ),
            EnrollmentStatus::Approved => if recover && text::opt(response.device_id) != text::opt(
                *first_device,
            ) {
                r == Err::<PollStep, _>(AgentError::ChangedDevice)
            } else {
                match (
                    response.device_id,
                    response.certificate_pem,
                    response.ca_certificate_pem,
                ) {
                    (None, _, _) => r == Err::<PollStep, _>(AgentError::NoDevice),
                    (_, None, _) => r == Err::<PollStep, _>(AgentError::NoCertificate),
                    (_, _, None) => r == Err::<PollStep, _>(AgentError::NoAuthority),
                    (Some(device), Some(pem), Some(ca)) => r matches Ok(
                        PollStep::Approved { identity },
                    ) && identity.device_id@ == device@ && identity.server_url@ == server_url@
                        && identity.certificate_pem@ == pem@ && identity.ca_pem@ == ca@
                        && identity.key_pem@ == key_pem@ && identity.pending_key is None
                        && identity.renewal_retry.fresh(),
                }
            },
            _ => r matches Err(AgentError::Refused { message }) && message@ == "入网无法继续："@
                + response.message@,
        },
{
    match response.status {
        EnrollmentStatus::Pending | EnrollmentStatus::AwaitingApproval => Ok(PollStep::Wait),
        EnrollmentStatus::Approved => {
            let unchanged: bool = match (&response.device_id, first_device) {
                (Some(a), Some(b)) => same(a.as_str(), b.as_str()),
                (None, None) => true,
                _ => false,
            };
            if recover && !unchanged {
                return Err(AgentError::ChangedDevice);
            }
            let device_id: String = match response.device_id {
                Some(device) => device,
                None => {
                    return Err(AgentError::NoDevice);
                },
            };
            let certificate_pem: String = match response.certificate_pem {
                Some(pem) => pem,
                None => {
                    return Err(AgentError::NoCertificate);
                },
            };
            let ca_pem: String = match response.ca_certificate_pem {
                Some(ca) => ca,
                None => {
                    return Err(AgentError::NoAuthority);
                },
            };
            Ok(
                PollStep::Approved {
                    identity: DeviceIdentity {
                        device_id,
                        server_url: server_url.to_owned(),
                        certificate_pem,
                        ca_pem,
                        key_pem: key_pem.to_owned(),
                        pending_key: None,
                        renewal_retry: RenewalRetry::default(),
                    },
                },
            )
        },
        _ => Err(
            AgentError::Refused {
                message: join2("入网无法继续：", response.message.as_str()),
            },
        ),
    }
}

/// Why an approved identity is not stored, if it is not: its certificate names another device.
pub open spec fn approved_fault(identity: DeviceIdentity) -> Option<AgentError> {
    match x509::info_of(identity.certificate_pem@) {
        Err(error) => Some(AgentError::Certificate { error }),
        Ok(info) => if info.0 != identity.device_id@ {
            Some(AgentError::CertificateMismatch)
        } else {
            None
        },
    }
}

/// Checks an approved identity, from which a connection could be built, before it replaces the one
/// that is stored.
pub fn check_approved(identity: &DeviceIdentity) -> (r: Result<(), AgentError>)
    ensures
        match r {
            Ok(_) => approved_fault(*identity) is None,
            Err(e) => approved_fault(*identity) == Some(e),
        },
{
    match certificate_info(identity.certificate_pem.as_str()) {
        Err(error) => Err(AgentError::Certificate { error }),
        Ok(info) => if same(info.0.as_str(), identity.device_id.as_str()) {
            Ok(())
        } else {
            Err(AgentError::CertificateMismatch)
        },
    }
}

/// What stands for the credential in a message.
pub open spec fn token_mark() -> Seq<char> {
    "[凭据已隐藏]"@
}

/// The start of a refusal of the server, with the credential hidden.
pub open spec fn safe_body(body: Seq<char>, token: Seq<char>) -> Seq<char> {
    text::shortened(text::replaced(body, token, token_mark()), 512)
}

/// The message for a refusal of the server.
pub fn refusal_message(status: &str, body: &str, token: &str) -> (r: String)
    ensures
        r@ == "Server 拒绝入网请求（HTTP "@ + status@ + "）："@ + safe_body(body@, token@),
{
    let hidden: String = replace(body, token, "[凭据已隐藏]");
    let shown: String = shorten(hidden.as_str(), 512);
    let head: String = join3("Server 拒绝入网请求（HTTP ", status, "）：");
    join2(head.as_str(), shown.as_str())
}

/// What is shown of a refusal does not hold the credential, where the credential shares no
/// character with the mark that stands for it.
pub proof fn refusals_hide_the_credential(body: Seq<char>, token: Seq<char>)
    requires
        token.len() > 0,
        text::disjoint(token, token_mark()),
    ensures
        !text::contains(safe_body(body, token), token),
{
    reveal_strlit("[凭据已隐藏]");
    text::replacing_removes(body, token, token_mark(), token);
    text::lemma_shortened_contains(text::replaced(body, token, token_mark()), 512, token);
}

/// The address of a port of the server.
pub open spec fn server_address(parts: Option<url::UrlView>, port: u16) -> Result<
    Seq<char>,
    AgentError,
> {
    match parts {
        None => Err(AgentError::Url),
        Some(parts) => if parts.scheme != "http"@ && parts.scheme != "https"@ {
            Err(AgentError::Scheme)
        } else {
            match parts.host {
                None => Err(AgentError::Host),
                Some(host) => {
                    let bare = text::unbracketed(host);
                    let tail = ":"@ + number::decimal(port as nat);
                    if bare.contains(':') {
                        Ok("["@ + bare + "]"@ + tail)
                    } else {
                        Ok(bare + tail)
                    }
                },
            }
        },
    }
}

/// The address of a port of the server, given the parts of its URL.
pub fn address_of(parts: Option<UrlParts>, port: u16) -> (r: Result<String, AgentError>)
    ensures
        ({
            let view = match parts {
                Some(parts) => Some(parts@),
                None => None,
            };
            match r {
                Ok(address) => server_address(view, port) == Ok::<Seq<char>, AgentError>(address@),
                Err(e) => server_address(view, port) == Err::<Seq<char>, AgentError>(e),
            }
        }),
{
    let parts: UrlParts = match parts {
        Some(parts) => parts,
        None => {
            return Err(AgentError::Url);
        },
    };
    if !(same(parts.scheme.as_str(), "http") || same(parts.scheme.as_str(), "https")) {
        return Err(AgentError::Scheme);
    }
    let host: String = match &parts.host {
        Some(host) => unbracket(host.as_str()),
        None => {
            return Err(AgentError::Host);
        },
    };
    let tail: String = join2(":", decimal_text(port as u64).as_str());
    if has_char(host.as_str(), ':') {
        let inner: String = join3("[", host.as_str(), "]");
        Ok(join2(inner.as_str(), tail.as_str()))
    } else {
        Ok(join2(host.as_str(), tail.as_str()))
    }
}

/// The address of a port of the server, given its URL.
pub fn endpoint_address(url: &str, port: u16) -> (r: Result<String, AgentError>)
    ensures
        match r {
            Ok(address) => server_address(url::parsed(url@), port) == Ok::<Seq<char>, AgentError>(
                address@,
            ),
            Err(e) => server_address(url::parsed(url@), port) == Err::<Seq<char>, AgentError>(e),
        },
{
    match parse_url(url) {
        Ok(parts) => address_of(Some(parts), port),
        Err(_) => address_of(None, port),
    }
}

/// What the server wants an agent to offer.
pub struct Desired {
    pub endpoint: TunnelDataEndpoint,
    pub tunnels: Vec<TunnelDesiredState>,
}

/// The services of a list.
pub open spec fn desired_views(list: Seq<TunnelDesiredState>) -> Seq<protocol::DesiredView> {
    Seq::new(list.len(), |i: int| list[i]@)
}

/// What the server wants an agent to offer: the address and the name of the endpoint, and the
/// services.
pub ghost struct DesiredState {
    pub endpoint: (Seq<char>, Seq<char>),
    pub tunnels: Seq<protocol::DesiredView>,
}

impl View for Desired {
    type V = DesiredState;

    open spec fn view(&self) -> DesiredState {
        DesiredState {
            endpoint: protocol::endpoint_view(self.endpoint),
            tunnels: desired_views(self.tunnels@),
        }
    }
}

fn copy_tunnels(list: &Vec<TunnelDesiredState>) -> (r: Vec<TunnelDesiredState>)
    ensures
        desired_views(r@) == desired_views(list@),
{
    let mut r: Vec<TunnelDesiredState> = Vec::new();
    let mut i: usize = 0;
    while i < list.len()
        invariant
            i <= list@.len(),
            r@.len() == i,
            forall|j: int| 0 <= j < i ==> (#[trigger] r@[j])@ == list@[j]@,
        decreases list@.len() - i,
    {
        r.push(list[i].copy());
        i = i + 1;
    }
    assert(desired_views(r@) =~= desired_views(list@));
    r
}

impl Desired {
    /// A copy.
    pub fn copy(&self) -> (r: Desired)
        ensures
            r@ == self@,
    {
        Desired { endpoint: self.endpoint.copy(), tunnels: copy_tunnels(&self.tunnels) }
    }

    /// Whether the same is wanted.
    pub fn equals(&self, other: &Desired) -> (r: bool)
        ensures
            r == (self@ == other@),
    {
        if !self.endpoint.equals(&other.endpoint) {
            return false;
        }
        let ghost mine = desired_views(self.tunnels@);
        let ghost theirs = desired_views(other.tunnels@);
        if self.tunnels.len() != other.tunnels.len() {
            assert(mine.len() != theirs.len());
            return false;
        }
        let mut i: usize = 0;
        while i < self.tunnels.len()
            invariant
                i <= self.tunnels@.len() == other.tunnels@.len(),
                mine == desired_views(self.tunnels@),
                theirs == desired_views(other.tunnels@),
                forall|j: int| 0 <= j < i ==> mine[j] == theirs[j],
            decreases self.tunnels@.len() - i,
        {
            assert(mine[i as int] == self.tunnels@[i as int]@);
            assert(theirs[i as int] == other.tunnels@[i as int]@);
            if !self.tunnels[i].equals(&other.tunnels[i]) {
                return false;
            }
            i = i + 1;
        }
        assert(mine =~= theirs);
        true
    }
}

/// Whether a service takes a stream for an identifier and a revision.
pub open spec fn takes(tunnel: protocol::DesiredView, id: Seq<char>, revision: i64) -> bool {
    tunnel.tunnel_id == id && tunnel.revision == revision && tunnel.enabled
}

/// The first service from position `i` on that takes a stream.
pub open spec fn taker(
    tunnels: Seq<protocol::DesiredView>,
    id: Seq<char>,
    revision: i64,
    i: int,
) -> Option<protocol::DesiredView>
    decreases tunnels.len() - i,
{
    if i < 0 || i >= tunnels.len() {
        None
    } else if takes(tunnels[i], id, revision) {
        Some(tunnels[i])
    } else {
        taker(tunnels, id, revision, i + 1)
    }
}

/// The service that takes a stream: only one that is wanted, in this revision, and on. The server
/// cannot name another address.
pub fn find_stream(tunnels: &Vec<TunnelDesiredState>, id: &str, revision: i64) -> (r: Option<
    TunnelDesiredState,
>)
    ensures
        (match r {
            Some(tunnel) => Some(tunnel@),
            None => None,
        }) == taker(desired_views(tunnels@), id@, revision, 0),
{
    let ghost all = desired_views(tunnels@);
    let mut i: usize = 0;
    while i < tunnels.len()
        invariant
            i <= tunnels@.len(),
            all == desired_views(tunnels@),
            taker(all, id@, revision, 0) == taker(all, id@, revision, i as int),
        decreases tunnels@.len() - i,
    {
        assert(all[i as int] == tunnels@[i as int]@);
        if same(tunnels[i].tunnel_id.as_str(), id) && tunnels[i].revision == revision
            && tunnels[i].enabled {
            return Some(tunnels[i].copy());
        }
        i = i + 1;
    }
    None
}

/// Whether an open stream goes on: its service is still wanted exactly as it was.
pub fn still_wanted(tunnels: &Vec<TunnelDesiredState>, tunnel: &TunnelDesiredState) -> (r: bool)
    ensures
        r == (tunnel@.enabled && desired_views(tunnels@).contains(tunnel@)),
{
    let ghost all = desired_views(tunnels@);
    let mut i: usize = 0;
    while i < tunnels.len()
        invariant
            i <= tunnels@.len(),
            all == desired_views(tunnels@),
            tunnel@.enabled ==> forall|j: int| 0 <= j < i ==> #[trigger] all[j] != tunnel@,
        decreases tunnels@.len() - i,
    {
        assert(all[i as int] == tunnels@[i as int]@);
        if tunnels[i].equals(tunnel) && tunnels[i].enabled {
            return true;
        }
        i = i + 1;
    }
    false
}

proof fn lemma_taker(tunnels: Seq<protocol::DesiredView>, id: Seq<char>, revision: i64, i: int)
    requires
        0 <= i,
    ensures
        taker(tunnels, id, revision, i) matches Some(tunnel) ==> takes(tunnel, id, revision)
            && tunnels.contains(tunnel),
    decreases tunnels.len() - i,
{
    if i < tunnels.len() {
        if takes(tunnels[i], id, revision) {
            assert(tunnels.contains(tunnels[i]));
        } else {
            lemma_taker(tunnels, id, revision, i + 1);
        }
    }
}

/// A stream is taken only for a service that is wanted and on, in the revision that the stream is
/// for, and it then goes on until that changes.
pub proof fn streams_reach_wanted_services_only(
    tunnels: Seq<protocol::DesiredView>,
    id: Seq<char>,
    revision: i64,
)
    ensures
        taker(tunnels, id, revision, 0) matches Some(tunnel) ==> tunnel.enabled && tunnel.tunnel_id
            == id && tunnel.revision == revision && tunnels.contains(tunnel),
{
    lemma_taker(tunnels, id, revision, 0);
}

/// How the origin of a service is verified.
pub enum OriginRoots {
    /// By the certificate authorities of the system.
    System,
    /// By one of its own.
    Custom { ca_pem: String },
}

/// How the connection to the origin of a service is secured.
pub enum OriginSecurity {
    Plain,
    Tls { roots: OriginRoots, server_name: String },
}

/// Where the origin of a service is, and how the connection to it is secured once it stands.
pub struct OriginTarget {
    pub address: String,
    pub port: u16,
    pub security: Result<OriginSecurity, AgentError>,
}

/// Whether the connection to the origin of a service is not secured: only a web service that asks
/// for HTTPS to its origin has it.
pub open spec fn plain_origin(tunnel: protocol::DesiredView) -> bool {
    tunnel.protocol == "tcp"@ || (match tunnel.origin_protocol {
        Some(protocol) => protocol == "http"@,
        None => true,
    })
}

/// Whether a target is the one that a service has.
pub open spec fn is_target(tunnel: protocol::DesiredView, target: OriginTarget) -> bool {
    let bare = text::unbracketed(tunnel.local_address);
    &&& target.address@ == bare
    &&& target.port == tunnel.local_port
    &&& if plain_origin(tunnel) {
        target.security matches Ok(OriginSecurity::Plain)
    } else if tunnel.origin_protocol != Some("https"@) {
        target.security == Err::<OriginSecurity, _>(AgentError::OriginProtocol)
    } else {
        let how = match tunnel.origin_tls_verification {
            Some(how) => how,
            None => "system"@,
        };
        let name = match tunnel.origin_tls_server_name {
            Some(name) => name,
            None => bare,
        };
        if how == "custom_ca"@ {
            match tunnel.origin_ca_pem {
                Some(ca) => target.security matches Ok(OriginSecurity::Tls { roots, server_name })
                    && server_name@ == name && (roots matches OriginRoots::Custom { ca_pem }
                    && ca_pem@ == ca),
                None => target.security == Err::<OriginSecurity, _>(AgentError::OriginAuthority),
            }
        } else if how == "system"@ {
            target.security matches Ok(OriginSecurity::Tls { roots, server_name }) && server_name@
                == name && roots is System
        } else {
            target.security == Err::<OriginSecurity, _>(AgentError::OriginVerification)
        }
    }
}

fn origin_security(tunnel: &TunnelDesiredState, bare: &str) -> (r: Result<
    OriginSecurity,
    AgentError,
>)
    requires
        bare@ == text::unbracketed(tunnel@.local_address),
    ensures
        forall|target: OriginTarget|
            target.address@ == bare@ && target.port == tunnel@.local_port && target.security == r
                ==> #[trigger] is_target(tunnel@, target),
{
    let plain: bool = match &tunnel.origin_protocol {
        Some(protocol) => same(protocol.as_str(), "http"),
        None => true,
    };
    if same(tunnel.protocol.as_str(), "tcp") || plain {
        return Ok(OriginSecurity::Plain);
    }
    if !is_text(&tunnel.origin_protocol, "https") {
        return Err(AgentError::OriginProtocol);
    }
    let how: String = match &tunnel.origin_tls_verification {
        Some(how) => how.clone(),
        None => "system".to_owned(),
    };
    let server_name: String = match &tunnel.origin_tls_server_name {
        Some(name) => name.clone(),
        None => bare.to_owned(),
    };
    if same(how.as_str(), "custom_ca") {
        match &tunnel.origin_ca_pem {
            Some(ca) => Ok(
                OriginSecurity::Tls {
                    roots: OriginRoots::Custom { ca_pem: ca.clone() },
                    server_name,
                },
            ),
            None => Err(AgentError::OriginAuthority),
        }
    } else if same(how.as_str(), "system") {
        Ok(OriginSecurity::Tls { roots: OriginRoots::System, server_name })
    } else {
        Err(AgentError::OriginVerification)
    }
}

/// Where the origin of a service is, and how the connection to it is secured.
pub fn origin_target(tunnel: &TunnelDesiredState) -> (r: Result<OriginTarget, AgentError>)
    ensures
        match r {
            Ok(target) => (tunnel@.protocol == "tcp"@ || tunnel@.protocol == "http"@
                || tunnel@.protocol == "https"@) && is_target(tunnel@, target),
            Err(e) => tunnel@.protocol != "tcp"@ && tunnel@.protocol != "http"@ && tunnel@.protocol
                != "https"@ && e == AgentError::Protocol,
        },
{
    let protocol: &str = tunnel.protocol.as_str();
    if !(same(protocol, "tcp") || same(protocol, "http") || same(protocol, "https")) {
        return Err(AgentError::Protocol);
    }
    let address: String = unbracket(tunnel.local_address.as_str());
    let security: Result<OriginSecurity, AgentError> = origin_security(tunnel, address.as_str());
    let target = OriginTarget { address, port: tunnel.local_port, security };
    assert(is_target(tunnel@, target));
    Ok(target)
}

/// The report on a service after its origin was tried; one that is off is not tried.
pub fn probe_result(tunnel: &TunnelDesiredState, failure: Option<&str>) -> (r: TunnelApplyResult)
    ensures
        r@ == (protocol::ResultView {
            tunnel_id: tunnel@.tunnel_id,
            revision: tunnel@.revision,
            applied: !tunnel@.enabled || failure is None,
            status: if !tunnel@.enabled {
                "disabled"@
            } else if failure is None {
                "ready"@
            } else {
                "failed"@
            },
            error_message: if tunnel@.enabled {
                text::opt_str(failure)
            } else {
                None
            },
        }),
{
    let error_message: Option<String> = if tunnel.enabled {
        match failure {
            Some(text) => Some(text.to_owned()),
            None => None,
        }
    } else {
        None
    };
    TunnelApplyResult {
        tunnel_id: tunnel.tunnel_id.clone(),
        revision: tunnel.revision,
        applied: !tunnel.enabled || failure.is_none(),
        status: if !tunnel.enabled {
            "disabled".to_owned()
        } else if failure.is_none() {
            "ready".to_owned()
        } else {
            "failed".to_owned()
        },
        error_message,
    }
}

/// The seconds before the data connection is tried again: twice as many as before, at most thirty.
pub fn next_delay(delay: u64) -> (r: u64)
    requires
        1 <= delay <= 30,
    ensures
        r == (if 2 * delay > 30 {
            30
        } else {
            2 * delay
        }),
        delay <= r <= 30,
{
    if delay > 15 {
        30
    } else {
        delay * 2
    }
}

/// The control connection of an agent: whether the server has accepted it, until when an answer to
/// a request for a certificate is awaited, and what is wanted.
pub struct AgentControl {
    pub accepted: bool,
    pub renewal_deadline: Option<i64>,
    pub desired: Desired,
    pub fallback: TunnelDataEndpoint,
}

/// What an agent does about its certificate when it sends a heartbeat.
pub enum RenewalTick {
    Nothing,
    /// Store the identity, then send the request.
    Request { message: AgentControlMessage },
    /// Store the identity and send the report of a failure.
    Report { message: AgentControlMessage },
}

/// What an agent sends at a heartbeat.
pub struct Tick {
    pub heartbeat: AgentControlMessage,
    /// The report that no answer to a request came in time.
    pub overdue: Option<AgentControlMessage>,
    pub renewal: RenewalTick,
}

/// What an agent does upon a message of the server.
pub enum AgentStep {
    /// Offer what is wanted: whether it has changed, and whether the data connection is to be
    /// started; then try the origins.
    Offer { changed: bool, start_data: bool },
    Nothing,
    /// Install a certificate.
    Install { certificate_pem: String },
    /// Store the identity with the noted failure.
    Store,
}

/// What is reported where no answer to a request came in time.
pub open spec fn overdue_text() -> Seq<char> {
    "等待续签响应超时"@
}

/// When an agent tries again after one more failure.
pub open spec fn next_after(failures: u32, now: i64) -> int {
    identity::tries_again(identity::one_more(failures), None, now)
}

/// Whether a message reports that no answer came in time.
pub open spec fn is_overdue(
    identity: DeviceIdentity,
    report: AgentControlMessage,
    now: i64,
) -> bool {
    identity::is_report(report, overdue_text(), next_after(identity.renewal_retry.failures, now))
}

/// Whether an agent that has failed so often notes and reports that it cannot ask for a
/// certificate.
pub open spec fn cannot_ask(
    failures: u32,
    after: DeviceIdentity,
    report: AgentControlMessage,
    e: IdentityError,
    now: i64,
) -> bool {
    let reason = "准备设备续签失败："@ + e.text();
    &&& identity::is_report(report, reason, next_after(failures, now))
    &&& identity::is_noted(
        after.renewal_retry,
        identity::one_more(failures),
        reason,
        next_after(failures, now),
    )
}

/// Whether an agent asks for a certificate: with the key that waits for one, or else with a new
/// one, and not again within half a minute.
pub open spec fn asked(
    before: DeviceIdentity,
    after: DeviceIdentity,
    message: AgentControlMessage,
    now: i64,
) -> bool {
    &&& message matches AgentControlMessage::RenewCertificate { csr_pem }
        && after.pending_key matches Some(key) && csr_pem@ == key.csr_pem@
    &&& match before.pending_key {
        Some(key) => after.pending_key == Some(key),
        None => identity::key_asked_for(after.pending_key->0),
    }
    &&& after.renewal_retry == (RenewalRetry {
        next_retry_at: Some((now + 30) as i64),
        ..before.renewal_retry
    })
}

impl AgentControl {
    /// A new control connection: nothing is wanted yet.
    pub fn new(address: String) -> (r: AgentControl)
        ensures
            !r.accepted,
            r.renewal_deadline is None,
            protocol::endpoint_view(r.fallback) == (address@, SERVER_NAME@),
            r.desired@ == (DesiredState {
                endpoint: (address@, SERVER_NAME@),
                tunnels: Seq::empty(),
            }),
    {
        let fallback = TunnelDataEndpoint { address, server_name: SERVER_NAME.to_owned() };
        let tunnels: Vec<TunnelDesiredState> = Vec::new();
        assert(desired_views(tunnels@) =~= Seq::empty());
        AgentControl {
            accepted: false,
            renewal_deadline: None,
            desired: Desired { endpoint: fallback.copy(), tunnels },
            fallback,
        }
    }

    /// What an agent sends at a heartbeat: first that an answer is overdue, then, where none is
    /// awaited, a request for a certificate that is due. After an overdue answer the next try is
    /// never due yet.
    pub fn tick(&mut self, identity: &mut DeviceIdentity, version: &str, now: i64) -> (r: Tick)
        requires
            now + RENEW_BEFORE <= i64::MAX,
        ensures
            final(self).accepted == old(self).accepted,
            final(self).desired == old(self).desired,
            final(self).fallback == old(self).fallback,
            final(identity).device_id == old(identity).device_id,
            final(identity).server_url == old(identity).server_url,
            final(identity).certificate_pem == old(identity).certificate_pem,
            final(identity).ca_pem == old(identity).ca_pem,
            final(identity).key_pem == old(identity).key_pem,
            r.heartbeat matches AgentControlMessage::Heartbeat { device_id, agent_version }
                && device_id@ == old(identity).device_id@ && agent_version@ == version@,
            match old(self).renewal_deadline {
                Some(at) => if at <= now {
                    &&& r.overdue matches Some(report) && is_overdue(*old(identity), report, now)
                    &&& final(self).renewal_deadline is None
                    &&& final(identity).pending_key == old(identity).pending_key
                    &&& match x509::info_of(old(identity).certificate_pem@) {
                        Ok(_) => r.renewal is Nothing && identity::is_noted(
                            final(identity).renewal_retry,
                            identity::one_more(old(identity).renewal_retry.failures),
                            overdue_text(),
                            next_after(old(identity).renewal_retry.failures, now),
                        ),
                        Err(e) => r.renewal matches RenewalTick::Report { message } && cannot_ask(
                            identity::one_more(old(identity).renewal_retry.failures),
                            *final(identity),
                            message,
                            e,
                            now,
                        ),
                    }
                } else {
                    &&& r.overdue is None
                    &&& r.renewal is Nothing
                    &&& final(self).renewal_deadline == old(self).renewal_deadline
                    &&& *final(identity) == *old(identity)
                },
                None => {
                    &&& r.overdue is None
                    &&& match r.renewal {
                        RenewalTick::Nothing => identity::asks_to_renew(*old(identity), now)
                            == Ok::<bool, IdentityError>(false) && *final(identity) == *old(identity)
                            && final(self).renewal_deadline is None,
                        RenewalTick::Request { message } => identity::asks_to_renew(
                            *old(identity),
                            now,
                        ) == Ok::<bool, IdentityError>(true) && asked(
                            *old(identity),
                            *final(identity),
                            message,
                            now,
                        ) && final(self).renewal_deadline == Some((now + 30) as i64),
                        RenewalTick::Report { message } => {
                            &&& final(self).renewal_deadline is None
                            &&& final(identity).pending_key == old(identity).pending_key
                            &&& match identity::asks_to_renew(*old(identity), now) {
                                Ok(asks) => asks && old(identity).pending_key is None && cannot_ask(
                                    old(identity).renewal_retry.failures,
                                    *final(identity),
                                    message,
                                    IdentityError::Issue,
                                    now,
                                ),
                                Err(e) => cannot_ask(
                                    old(identity).renewal_retry.failures,
                                    *final(identity),
                                    message,
                                    e,
                                    now,
                                ),
                            }
                        },
                    }
                },
            },
    {
        let heartbeat = AgentControlMessage::Heartbeat {
            device_id: identity.device_id.clone(),
            agent_version: version.to_owned(),
        };
        let late: bool = match self.renewal_deadline {
            Some(at) => at <= now,
            None => false,
        };
        let report: Option<AgentControlMessage> = if late {
            self.renewal_deadline = None;
            let report: AgentControlMessage = failed(identity, "等待续签响应超时", None, now);
            proof {
                let failures = identity::one_more(old(identity).renewal_retry.failures) as int;
                identity::retry_delay_is_bounded_and_grows(failures, failures);
            }
            Some(report)
        } else {
            None
        };
        if self.renewal_deadline.is_some() {
            return Tick { heartbeat, overdue: report, renewal: RenewalTick::Nothing };
        }
        let renewal: RenewalTick = match request(identity, now) {
            Ok(Some(message)) => {
                self.renewal_deadline = Some(now + 30);
                RenewalTick::Request { message }
            },
            Ok(None) => RenewalTick::Nothing,
            Err(e) => {
                let reason: String = join2("准备设备续签失败：", e.message().as_str());
                RenewalTick::Report { message: failed(identity, reason.as_str(), None, now) }
            },
        };
        Tick { heartbeat, overdue: report, renewal }
    }

    /// Notes that a request could not be stored, and gives the report of it.
    pub fn request_failed(&mut self, identity: &mut DeviceIdentity, error: &str, now: i64) -> (r:
        AgentControlMessage)
        requires
            now + 3600 <= i64::MAX,
        ensures
            final(self).renewal_deadline is None,
            final(self).accepted == old(self).accepted,
            final(self).desired == old(self).desired,
            final(self).fallback == old(self).fallback,
            final(identity).pending_key == old(identity).pending_key,
            final(identity).device_id == old(identity).device_id,
            final(identity).server_url == old(identity).server_url,
            final(identity).certificate_pem == old(identity).certificate_pem,
            final(identity).ca_pem == old(identity).ca_pem,
            final(identity).key_pem == old(identity).key_pem,
            identity::is_report(
                r,
                "准备设备续签失败："@ + error@,
                next_after(old(identity).renewal_retry.failures, now),
            ),
            identity::is_noted(
                final(identity).renewal_retry,
                identity::one_more(old(identity).renewal_retry.failures),
                "准备设备续签失败："@ + error@,
                next_after(old(identity).renewal_retry.failures, now),
            ),
    {
        self.renewal_deadline = None;
        let reason: String = join2("准备设备续签失败：", error);
        failed(identity, reason.as_str(), None, now)
    }

    fn offer(
        &mut self,
        tunnels: Vec<TunnelDesiredState>,
        endpoint: Option<TunnelDataEndpoint>,
    ) -> (r: AgentStep)
        ensures
            final(self).renewal_deadline == old(self).renewal_deadline,
            final(self).fallback == old(self).fallback,
            final(self).accepted,
            final(self).desired@ == (DesiredState {
                endpoint: match endpoint {
                    Some(endpoint) => protocol::endpoint_view(endpoint),
                    None => protocol::endpoint_view(old(self).fallback),
                },
                tunnels: desired_views(tunnels@),
            }),
            r == (AgentStep::Offer {
                changed: old(self).desired@ != final(self).desired@,
                start_data: !old(self).accepted,
            }),
    {
        let endpoint: TunnelDataEndpoint = match endpoint {
            Some(endpoint) => endpoint,
            None => self.fallback.copy(),
        };
        let next = Desired { endpoint, tunnels };
        let changed: bool = !self.desired.equals(&next);
        if changed {
            self.desired = next;
        }
        let start_data: bool = !self.accepted;
        self.accepted = true;
        AgentStep::Offer { changed, start_data }
    }

    /// What an agent does upon a message of the server. What is wanted replaces what was wanted
    /// before, down to nothing.
    pub fn message(
        &mut self,
        message: ServerControlMessage,
        identity: &mut DeviceIdentity,
        now: i64,
    ) -> (r: Result<AgentStep, AgentError>)
        requires
            now + 3600 <= i64::MAX,
        ensures
            final(self).fallback == old(self).fallback,
            !(message is CertificateRenewalFailed) ==> *final(identity) == *old(identity),
            final(identity).device_id == old(identity).device_id,
            final(identity).server_url == old(identity).server_url,
            final(identity).certificate_pem == old(identity).certificate_pem,
            final(identity).ca_pem == old(identity).ca_pem,
            final(identity).key_pem == old(identity).key_pem,
            final(identity).pending_key == old(identity).pending_key,
            match message {
                ServerControlMessage::HelloAccepted { server_time: _, tunnels, tunnel_endpoint }
                | ServerControlMessage::HeartbeatAck { server_time: _, tunnels, tunnel_endpoint } =>
                final(self).accepted && final(self).renewal_deadline == old(self).renewal_deadline
                    && final(self).desired@ == (DesiredState {
                    endpoint: match tunnel_endpoint {
                        Some(endpoint) => protocol::endpoint_view(endpoint),
                        None => protocol::endpoint_view(old(self).fallback),
                    },
                    tunnels: desired_views(tunnels@),
                }) && r == Ok::<AgentStep, AgentError>(
                    AgentStep::Offer {
                        changed: old(self).desired@ != final(self).desired@,
                        start_data: !old(self).accepted,
                    },
                ),
                ServerControlMessage::TunnelApplyAccepted { tunnel_ids: _ } => *final(self) == *old(
                    self,
                ) && r == Ok::<AgentStep, AgentError>(AgentStep::Nothing),
                ServerControlMessage::CertificateRenewed { certificate_pem } =>
                final(self).renewal_deadline is None && final(self).desired == old(self).desired
                    && final(self).accepted == old(self).accepted && (
                r matches Ok(AgentStep::Install { certificate_pem: pem }) && pem
                    == certificate_pem),
                ServerControlMessage::CertificateRenewalFailed { message: reason, next_retry_at } =>
                final(self).renewal_deadline is None && final(self).desired == old(self).desired
                    && final(self).accepted == old(self).accepted && r == Ok::<
                    AgentStep,
                    AgentError,
                >(AgentStep::Store) && identity::is_noted(
                    final(identity).renewal_retry,
                    identity::one_more(old(identity).renewal_retry.failures),
                    reason@,
                    identity::tries_again(0, Some(next_retry_at), now),
                ),
                ServerControlMessage::Error { message: reason } => *final(self) == *old(self) && (
                r matches Err(AgentError::Refused { message: told }) && told@
                    == "Server 拒绝请求："@ + reason@),
            },
    {
        match message {
            ServerControlMessage::HelloAccepted { server_time: _, tunnels, tunnel_endpoint } => Ok(
                self.offer(tunnels, tunnel_endpoint),
            ),
            ServerControlMessage::HeartbeatAck { server_time: _, tunnels, tunnel_endpoint } => Ok(
                self.offer(tunnels, tunnel_endpoint),
            ),
            ServerControlMessage::TunnelApplyAccepted { tunnel_ids: _ } => Ok(AgentStep::Nothing),
            ServerControlMessage::CertificateRenewed { certificate_pem } => {
                self.renewal_deadline = None;
                Ok(AgentStep::Install { certificate_pem })
            },
            ServerControlMessage::CertificateRenewalFailed { message: reason, next_retry_at } => {
                self.renewal_deadline = None;
                failed(identity, reason.as_str(), Some(next_retry_at), now);
                Ok(AgentStep::Store)
            },
            ServerControlMessage::Error { message: reason } => Err(
                AgentError::Refused { message: join2("Server 拒绝请求：", reason.as_str()) },
            ),
        }
    }
}

/// A recovery needs a credential for it, for the server and the device that the directory belongs to
/// where those are known; a first join needs one that is for no device.
pub proof fn credentials_fit_what_is_asked_for(
    recover: bool,
    server_url: Seq<char>,
    target: Option<Seq<char>>,
    expected: Option<(Seq<char>, Seq<char>)>,
)
    ensures
        first_fault(recover, server_url, target, expected) is None <==> recover == (target is Some)
            && (recover && expected is Some ==> expected == Some((server_url, target->0))),
        recover && target is None ==> first_fault(recover, server_url, target, expected) == Some(
            AgentError::NotRecovery,
        ),
        !recover && target is Some ==> first_fault(recover, server_url, target, expected) == Some(
            AgentError::Recovery,
        ),
        recover && target is Some && first_fault(recover, server_url, target, expected) is Some
            ==> first_fault(recover, server_url, target, expected)->0 is OtherDevice,
{
}

/// An approved identity is stored where its certificate names its own device, and only there.
pub proof fn approved_certificates_name_their_device(identity: DeviceIdentity)
    ensures
        approved_fault(identity) is None <==> x509::info_of(identity.certificate_pem@) is Ok
            && x509::info_of(identity.certificate_pem@)->Ok_0.0 == identity.device_id@,
        x509::info_of(identity.certificate_pem@) is Ok && approved_fault(identity) is Some
            ==> approved_fault(identity)->0 is CertificateMismatch,
{
}

/// An agent reaches its server at the host of the URL and the given port; an address with colons
/// stands in brackets, and a URL that is not for the web has no address.
pub proof fn servers_are_reached_at_their_host(parts: url::UrlView, port: u16)
    ensures
        server_address(None, port) == Err::<Seq<char>, _>(AgentError::Url),
        server_address(Some(parts), port) is Ok <==> (parts.scheme == "http"@ || parts.scheme
            == "https"@) && parts.host is Some,
        server_address(Some(parts), port) is Ok ==> {
            let address = server_address(Some(parts), port)->Ok_0;
            let bare = text::unbracketed(parts.host->0);
            &&& text::has_suffix(address, ":"@ + number::decimal(port as nat))
            &&& bare.contains(':') ==> address.len() == bare.len() + 3 + number::decimal(
                port as nat,
            ).len() && address[0] == '[' && address.subrange(1, bare.len() as int + 1) == bare && address[bare.len() as int
                + 1] == ']'
            &&& !bare.contains(':') ==> address.len() == bare.len() + 1 + number::decimal(
                port as nat,
            ).len() && address.take(bare.len() as int) == bare
        },
{
    reveal_strlit(":");
    reveal_strlit("[");
    reveal_strlit("]");
    if server_address(Some(parts), port) is Ok {
        let address = server_address(Some(parts), port)->Ok_0;
        let bare = text::unbracketed(parts.host->0);
        let tail = ":"@ + number::decimal(port as nat);
        assert(address.skip(address.len() - tail.len()) =~= tail);
        if bare.contains(':') {
            assert(address.subrange(1, bare.len() as int + 1) =~= bare);
        } else {
            assert(address.take(bare.len() as int) =~= bare);
        }
    }
}

proof fn lemma_taken(
    tunnels: Seq<protocol::DesiredView>,
    id: Seq<char>,
    revision: i64,
    i: int,
    k: int,
)
    requires
        0 <= i <= k < tunnels.len(),
        tunnels[k].tunnel_id == id,
        tunnels[k].revision == revision,
        tunnels[k].enabled,
    ensures
        taker(tunnels, id, revision, i) is Some,
    decreases tunnels.len() - i,
{
    if i < k {
        lemma_taken(tunnels, id, revision, i + 1, k);
    }
}

/// A stream for an enabled service in the revision that the agent knows is taken.
pub proof fn streams_of_wanted_services_are_taken(
    tunnels: Seq<protocol::DesiredView>,
    id: Seq<char>,
    revision: i64,
    k: int,
)
    requires
        0 <= k < tunnels.len(),
        tunnels[k].tunnel_id == id,
        tunnels[k].revision == revision,
        tunnels[k].enabled,
    ensures
        taker(tunnels, id, revision, 0) is Some,
{
    lemma_taken(tunnels, id, revision, 0, k);
}

/// A stream goes to the local address and port of its service. It is encrypted for an HTTPS origin
/// alone: then the certificate is verified, for the name that is set or else the address, by the
/// authority of the service where it has one of its own and by those of the system otherwise.
pub proof fn streams_go_to_the_origin_of_their_service(
    tunnel: protocol::DesiredView,
    target: OriginTarget,
)
    requires
        is_target(tunnel, target),
    ensures
        target.address@ == text::unbracketed(tunnel.local_address),
        target.port == tunnel.local_port,
        tunnel.protocol == "tcp"@ || tunnel.origin_protocol is None || tunnel.origin_protocol
            == Some("http"@) ==> target.security == Ok::<OriginSecurity, AgentError>(
            OriginSecurity::Plain,
        ),
        target.security == Ok::<OriginSecurity, AgentError>(OriginSecurity::Plain)
            ==> tunnel.protocol == "tcp"@ || tunnel.origin_protocol is None
            || tunnel.origin_protocol == Some("http"@),
        (target.security matches Ok(OriginSecurity::Tls { roots, server_name }) ==> {
            &&& tunnel.protocol != "tcp"@
            &&& tunnel.origin_protocol == Some("https"@)
            &&& server_name@ == (if tunnel.origin_tls_server_name is Some {
                tunnel.origin_tls_server_name->0
            } else {
                text::unbracketed(tunnel.local_address)
            })
            &&& roots matches OriginRoots::Custom { ca_pem } ==> tunnel.origin_tls_verification
                == Some("custom_ca"@) && tunnel.origin_ca_pem == Some(ca_pem@)
            &&& roots is System ==> tunnel.origin_tls_verification is None
                || tunnel.origin_tls_verification == Some("system"@)
        }),
        tunnel.protocol != "tcp"@ && tunnel.origin_protocol == Some("https"@)
            && tunnel.origin_tls_verification == Some("custom_ca"@) && tunnel.origin_ca_pem is None
            ==> target.security is Err,
        tunnel.protocol != "tcp"@ && tunnel.origin_protocol == Some("https"@) && (
        tunnel.origin_tls_verification is None || tunnel.origin_tls_verification == Some(
            "system"@,
        )) ==> target.security is Ok,
        tunnel.protocol != "tcp"@ && tunnel.origin_protocol == Some("https"@)
            && tunnel.origin_tls_verification == Some("custom_ca"@) && tunnel.origin_ca_pem is Some
            ==> target.security is Ok,
{
    reveal_strlit("http");
    reveal_strlit("https");
    reveal_strlit("system");
    reveal_strlit("custom_ca");
    assert("http"@.len() == 4 && "https"@.len() == 5);
    assert("system"@.len() == 6 && "custom_ca"@.len() == 9);
}

/// A request to renew that has no answer after half a minute is reported as overdue, with the wait of
/// one more failure.
pub proof fn missing_answers_are_reported(
    identity: DeviceIdentity,
    report: AgentControlMessage,
    now: i64,
)
    requires
        is_overdue(identity, report, now),
    ensures
        report matches AgentControlMessage::CertificateRenewalFailed { error, next_retry_at } && now
            + 30 <= next_retry_at <= now + 3600 && (identity.renewal_retry.failures == 0
            ==> next_retry_at == now + 30),
{
    let next = identity::one_more(identity.renewal_retry.failures);
    identity::tries_are_half_a_minute_to_an_hour_apart(next, None, now);
}

/// A request to renew carries the request of the waiting key, which stays the same until its answer
/// comes; the device waits half a minute for that.
pub proof fn requests_stay_the_same_until_answered(
    before: DeviceIdentity,
    after: DeviceIdentity,
    message: AgentControlMessage,
    now: i64,
)
    requires
        asked(before, after, message, now),
        now + 30 <= i64::MAX,
    ensures
        after.pending_key is Some,
        message matches AgentControlMessage::RenewCertificate { csr_pem } && csr_pem@
            == after.pending_key->0.csr_pem@,
        before.pending_key is Some ==> after.pending_key == before.pending_key,
        before.pending_key is None ==> x509::request_key(after.pending_key->0.csr_pem@)
            == x509::key_public(after.pending_key->0.key_pem@),
        after.renewal_retry.next_retry_at is Some && after.renewal_retry.next_retry_at->0 == now
            + 30,
        after.renewal_retry.failures == before.renewal_retry.failures,
        after.renewal_retry.error == before.renewal_retry.error,
{
}

/// A service that is on is reported as applied where its origin answered, and as failed with the reason
/// where it did not; one that is off is applied and disabled.
pub proof fn origins_are_reported_as_they_answered(
    tunnel: &TunnelDesiredState,
    failure: Option<&str>,
    r: TunnelApplyResult,
)
    requires
        call_ensures(probe_result, (tunnel, failure), r),
    ensures
        r@.tunnel_id == tunnel@.tunnel_id,
        r@.revision == tunnel@.revision,
        tunnel@.enabled && failure is None ==> r@.applied && r@.status == "ready"@
            && r@.error_message is None,
        tunnel@.enabled && failure is Some ==> !r@.applied && r@.status == "failed"@
            && r@.error_message == Some(failure->0@),
        !tunnel@.enabled ==> r@.applied && r@.status == "disabled"@ && r@.error_message is None,
{
}

/// An agent with an identity for its server uses it; one for another server is refused. Without one,
/// or to recover, it joins with its credential, and without a credential it cannot.
pub proof fn agents_start_with_what_they_have(
    recover: bool,
    server_url: &str,
    token: &str,
    stored: Stored<DeviceIdentity>,
    r: Result<LoadStep, AgentError>,
)
    requires
        call_ensures(start, (recover, server_url, token, stored), r),
    ensures
        !recover && stored is Found && stored->Found_0.server_url@ == server_url@ ==> (r matches Ok(
            LoadStep::Ready { identity },
        ) && identity == stored->Found_0),
        !recover && stored is Found && stored->Found_0.server_url@ != server_url@ ==> r is Err,
        !recover && (stored is Damaged || stored is Unreadable) ==> r is Err,
        (recover || stored is Missing) && text::trimmed(token@).len() == 0 ==> r == Err::<
            LoadStep,
            _,
        >(AgentError::NoToken),
        recover && text::trimmed(token@).len() > 0 ==> (r matches Ok(
            LoadStep::Join { key_file, expected },
        ) && key_file@ == "recovery-key.json"@ && (expected is Some <==> stored is Found) && (
        expected matches Some(pair) ==> pair.0@ == stored->Found_0.server_url@ && pair.1@
            == stored->Found_0.device_id@)),
        !recover && stored is Missing && text::trimmed(token@).len() > 0 ==> (r matches Ok(
            LoadStep::Join { key_file, expected },
        ) && key_file@ == "enrollment-key.json"@ && expected is None),
{
}

/// An agent waits until it is approved, and has the identity that it was approved with; a recovery
/// gives it back the device that it asked for.
pub proof fn agents_take_the_identity_they_are_given(
    recover: bool,
    server_url: &str,
    first_device: &Option<String>,
    key_pem: &str,
    response: AgentEnrollmentPollResponse,
    r: Result<PollStep, AgentError>,
)
    requires
        call_ensures(poll_step, (recover, server_url, first_device, key_pem, response), r),
    ensures
        r matches Ok(PollStep::Wait) ==> response.status is Pending || response.status
            is AwaitingApproval,
        response.status is Pending || response.status is AwaitingApproval ==> r is Ok && r->Ok_0
            is Wait,
        (r matches Ok(PollStep::Approved { identity }) ==> {
            &&& response.status is Approved
            &&& text::opt(response.device_id) == Some(identity.device_id@)
            &&& text::opt(response.certificate_pem) == Some(identity.certificate_pem@)
            &&& text::opt(response.ca_certificate_pem) == Some(identity.ca_pem@)
            &&& identity.server_url@ == server_url@
            &&& identity.key_pem@ == key_pem@
            &&& recover ==> text::opt(*first_device) == Some(identity.device_id@)
        }),
        response.status is Approved && response.device_id is Some && response.certificate_pem
            is Some && response.ca_certificate_pem is Some && (recover ==> text::opt(
            response.device_id,
        ) == text::opt(*first_device)) ==> r is Ok,
        response.status is Expired || response.status is Revoked || response.status is Consumed
            ==> r is Err,
{
}

/// The wait before the next connection doubles up to half a minute.
pub proof fn waits_for_a_connection_double(delay: u64, r: u64)
    requires
        1 <= delay <= 30,
        call_ensures(next_delay, (delay,), r),
    ensures
        delay <= 15 ==> r == 2 * delay,
        delay > 15 ==> r == 30,
{
}

/// A service is still wanted while it is on and the agent knows it just so.
pub proof fn services_are_wanted_as_they_are_known(
    tunnels: &Vec<TunnelDesiredState>,
    tunnel: &TunnelDesiredState,
    r: bool,
)
    requires
        call_ensures(still_wanted, (tunnels, tunnel), r),
    ensures
        r <==> tunnel@.enabled && exists|i: int|
            0 <= i < tunnels@.len() && (#[trigger] tunnels@[i])@ == tunnel@,
{
    let list = desired_views(tunnels@);
    if list.contains(tunnel@) {
        let i = choose|i: int| 0 <= i < list.len() && list[i] == tunnel@;
        assert(tunnels@[i]@ == tunnel@);
    }
    if exists|i: int| 0 <= i < tunnels@.len() && (#[trigger] tunnels@[i])@ == tunnel@ {
        let i = choose|i: int| 0 <= i < tunnels@.len() && (#[trigger] tunnels@[i])@ == tunnel@;
        assert(list[i] == tunnel@);
    }
}

/// An agent follows what its server wants: the services of the last answer at the endpoint it names, or
/// else at the server itself. The data connection starts with the first answer.
pub proof fn agents_follow_the_last_answer(
    control: &mut AgentControl,
    tunnels: Vec<TunnelDesiredState>,
    tunnel_endpoint: Option<TunnelDataEndpoint>,
    server_time: i64,
    identity: &mut DeviceIdentity,
    now: i64,
    r: Result<AgentStep, AgentError>,
)
    requires
        call_ensures(
            AgentControl::message,
            (
                control,
                ServerControlMessage::HeartbeatAck { server_time, tunnels, tunnel_endpoint },
                identity,
                now,
            ),
            r,
        ),
    ensures
        final(control).accepted,
        final(control).desired@.tunnels.len() == tunnels@.len(),
        forall|i: int|
            0 <= i < tunnels@.len() ==> #[trigger] final(control).desired@.tunnels[i]
                == tunnels@[i]@,
        tunnel_endpoint is Some ==> final(control).desired@.endpoint == protocol::endpoint_view(
            tunnel_endpoint->0,
        ),
        tunnel_endpoint is None ==> final(control).desired@.endpoint == protocol::endpoint_view(
            old(control).fallback,
        ),
        (r matches Ok(AgentStep::Offer { changed, start_data }) && (start_data <==> !old(
            control,
        ).accepted) && (changed <==> old(control).desired@ != final(control).desired@)),
        *final(identity) == *old(identity),
{
}

/// A renewed certificate is installed as it came, and a refusal of the server ends the connection.
pub proof fn agents_install_what_they_are_sent(
    control: &mut AgentControl,
    message: ServerControlMessage,
    identity: &mut DeviceIdentity,
    now: i64,
    r: Result<AgentStep, AgentError>,
)
    requires
        call_ensures(AgentControl::message, (control, message, identity, now), r),
    ensures
        message matches ServerControlMessage::CertificateRenewed { certificate_pem } ==> (
        r matches Ok(AgentStep::Install { certificate_pem: pem }) && pem == certificate_pem)
            && final(control).renewal_deadline is None,
        message is Error ==> r is Err && *final(control) == *old(control),
        message is TunnelApplyAccepted ==> *final(control) == *old(control) && *final(identity)
            == *old(identity),
        final(identity).key_pem == old(identity).key_pem,
        final(identity).certificate_pem == old(identity).certificate_pem,
        final(identity).device_id == old(identity).device_id,
{
}

} // verus!
