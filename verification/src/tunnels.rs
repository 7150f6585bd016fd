//! The services that are published: what may be created, where they are reached, and what an agent
//! is asked to offer.
use vstd::prelude::*;

use crate::domains;
use crate::domains::{normalize_domain, Settings};
use crate::error;
use crate::error::{ApiError, BAD_REQUEST, CONFLICT, NOT_FOUND};
use crate::identity;
use crate::identity::{device_status, CertificateStatus, RENEW_BEFORE};
use crate::number;
use crate::number::decimal_text;
use crate::picked;
use crate::protocol;
use crate::protocol::TunnelDesiredState;
use crate::text;
use crate::text::{copy_opt, has_char, is_text, join2, join3, same, strip_suffix, trim};

verus! {

/// The mark of the data that this version works with.
pub const GENERATION: &'static str = "tunnel-only-v1";

/// The first port that is given to a TCP service.
pub const FIRST_PORT: u16 = 20000;

/// The last port that is given to a TCP service.
pub const LAST_PORT: u16 = 29999;

/// What a user asks for a service.
#[derive(Debug, Clone)]
pub struct TunnelInput {
    pub device_id: Option<String>,
    pub name: String,
    pub protocol: String,
    pub local_address: String,
    pub local_port: u16,
    pub public_port: Option<u16>,
    pub hostname: Option<String>,
    pub enabled: Option<bool>,
    pub public_domain_id: Option<String>,
}

/// What a user asks for a service.
pub ghost struct InputView {
    pub device_id: Option<Seq<char>>,
    pub name: Seq<char>,
    pub protocol: Seq<char>,
    pub local_address: Seq<char>,
    pub local_port: u16,
    pub public_port: Option<u16>,
    pub hostname: Option<Seq<char>>,
    pub enabled: Option<bool>,
    pub public_domain_id: Option<Seq<char>>,
}

impl View for TunnelInput {
    type V = InputView;

    open spec fn view(&self) -> InputView {
        InputView {
            device_id: text::opt(self.device_id),
            name: self.name@,
            protocol: self.protocol@,
            local_address: self.local_address@,
            local_port: self.local_port,
            public_port: self.public_port,
            hostname: text::opt(self.hostname),
            enabled: self.enabled,
            public_domain_id: text::opt(self.public_domain_id),
        }
    }
}

/// Something that belongs to a workspace.
pub struct Owned {
    pub id: String,
    pub tenant_id: String,
}

/// A stored service, as far as the names and ports of others depend on it.
pub struct TunnelKey {
    pub id: String,
    pub tenant_id: String,
    pub protocol: String,
    pub public_port: Option<u16>,
    /// The full host name, where it has one.
    pub address: Option<String>,
    pub deleted: bool,
}

/// A stored domain with its settings.
pub struct DomainKey {
    pub id: String,
    pub tenant_id: String,
    pub domain: String,
    pub https: bool,
    pub settings: Settings,
}

/// What is stored that a new or changed service depends on.
pub struct TunnelStore {
    pub devices: Vec<Owned>,
    pub tunnels: Vec<TunnelKey>,
    pub domains: Vec<DomainKey>,
}

/// Why what a user asks for is refused, if it is, whatever is stored.
pub open spec fn input_refusal(input: InputView) -> Option<error::Refusal> {
    if text::trimmed(input.name).len() == 0 {
        error::refusal(BAD_REQUEST, "服务名称不能为空")
    } else if input.protocol != "tcp"@ && input.protocol != "http"@ && input.protocol != "https"@ {
        error::refusal(BAD_REQUEST, "协议必须是 TCP、HTTP 或 HTTPS")
    } else if text::trimmed(input.local_address).len() == 0 || input.local_address.contains('/')
        || input.local_address.contains('\\') || input.local_address.contains(' ') {
        error::refusal(BAD_REQUEST, "本地地址必须是主机名或 IP，不含网址前缀或路径")
    } else if input.local_port == 0 {
        error::refusal(BAD_REQUEST, "本地端口无效")
    } else {
        None
    }
}

/// Checks what a user asks for, whatever is stored.
pub fn validate_tunnel(input: &TunnelInput) -> (r: Result<(), ApiError>)
    ensures
        match r {
            Ok(_) => input_refusal(input@) is None,
            Err(e) => input_refusal(input@) == error::told(e),
        },
{
    if trim(input.name.as_str()).as_str().is_empty() {
        return Err(ApiError::new(BAD_REQUEST, "服务名称不能为空"));
    }
    let protocol: &str = input.protocol.as_str();
    if !(same(protocol, "tcp") || same(protocol, "http") || same(protocol, "https")) {
        return Err(ApiError::new(BAD_REQUEST, "协议必须是 TCP、HTTP 或 HTTPS"));
    }
    let address: &str = input.local_address.as_str();
    if trim(address).as_str().is_empty() || has_char(address, '/') || has_char(address, '\\')
        || has_char(address, ' ') {
        return Err(
            ApiError::new(
                BAD_REQUEST,
                "本地地址必须是主机名或 IP，不含网址前缀或路径",
            ),
        );
    }
    if input.local_port == 0 {
        return Err(ApiError::new(BAD_REQUEST, "本地端口无效"));
    }
    Ok(())
}

/// Whether one of a list belongs to a workspace.
pub open spec fn owns(list: Seq<Owned>, id: Seq<char>, tenant: Seq<char>) -> bool {
    exists|i: int|
        0 <= i < list.len() && (#[trigger] list[i]).id@ == id && list[i].tenant_id@ == tenant
}

/// Whether one of a list belongs to a workspace.
pub fn check_owner(list: &Vec<Owned>, id: &str, tenant: &str) -> (r: bool)
    ensures
        r == owns(list@, id@, tenant@),
{
    let mut i: usize = 0;
    while i < list.len()
        invariant
            i <= list@.len(),
            forall|j: int|
                0 <= j < i ==> !((#[trigger] list@[j]).id@ == id@ && list@[j].tenant_id@
                    == tenant@),
        decreases list@.len() - i,
    {
        if same(list[i].id.as_str(), id) && same(list[i].tenant_id.as_str(), tenant) {
            return true;
        }
        i = i + 1;
    }
    false
}

/// Whether a service that is not deleted uses a port.
pub open spec fn port_used(tunnels: Seq<TunnelKey>, port: u16) -> bool {
    exists|i: int|
        0 <= i < tunnels.len() && !(#[trigger] tunnels[i]).deleted && tunnels[i].public_port == Some(
            port,
        )
}

/// Whether another service that is not deleted uses a port.
pub open spec fn port_taken(tunnels: Seq<TunnelKey>, id: Seq<char>, port: u16) -> bool {
    exists|i: int|
        0 <= i < tunnels.len() && !(#[trigger] tunnels[i]).deleted && tunnels[i].id@ != id
            && tunnels[i].public_port == Some(port)
}

/// The port that a TCP service has had: that of the first stored one with its identifier.
pub open spec fn previous_port(
    tunnels: Seq<TunnelKey>,
    id: Seq<char>,
    tenant: Seq<char>,
    i: int,
) -> Option<u16>
    decreases tunnels.len() - i,
{
    if i < 0 || i >= tunnels.len() {
        None
    } else if tunnels[i].id@ == id && tunnels[i].tenant_id@ == tenant && tunnels[i].protocol@
        == "tcp"@ {
        tunnels[i].public_port
    } else {
        previous_port(tunnels, id, tenant, i + 1)
    }
}

/// The first free port from one on, up to the last that is given.
pub open spec fn free_port(tunnels: Seq<TunnelKey>, from: int) -> Option<u16>
    decreases LAST_PORT + 1 - from,
{
    if from > LAST_PORT {
        None
    } else if !port_used(tunnels, from as u16) {
        Some(from as u16)
    } else {
        free_port(tunnels, from + 1)
    }
}

/// The port of a TCP service: the one asked for, else the one it has had, else the first free one.
pub open spec fn port_for(
    tunnels: Seq<TunnelKey>,
    id: Seq<char>,
    tenant: Seq<char>,
    asked: Option<u16>,
) -> Option<u16> {
    match asked {
        Some(port) => Some(port),
        None => match previous_port(tunnels, id, tenant, 0) {
            Some(port) => Some(port),
            None => free_port(tunnels, FIRST_PORT as int),
        },
    }
}

fn check_used(tunnels: &Vec<TunnelKey>, port: u16) -> (r: bool)
    ensures
        r == port_used(tunnels@, port),
{
    let mut i: usize = 0;
    while i < tunnels.len()
        invariant
            i <= tunnels@.len(),
            forall|j: int|
                0 <= j < i ==> (#[trigger] tunnels@[j]).deleted || tunnels@[j].public_port != Some(
                    port,
                ),
        decreases tunnels@.len() - i,
    {
        if !tunnels[i].deleted {
            if let Some(used) = tunnels[i].public_port {
                if used == port {
                    return true;
                }
            }
        }
        i = i + 1;
    }
    false
}

fn check_taken(tunnels: &Vec<TunnelKey>, id: &str, port: u16) -> (r: bool)
    ensures
        r == port_taken(tunnels@, id@, port),
{
    let mut i: usize = 0;
    while i < tunnels.len()
        invariant
            i <= tunnels@.len(),
            forall|j: int|
                0 <= j < i ==> (#[trigger] tunnels@[j]).deleted || tunnels@[j].id@ == id@
                    || tunnels@[j].public_port != Some(port),
        decreases tunnels@.len() - i,
    {
        if !tunnels[i].deleted && !same(tunnels[i].id.as_str(), id) {
            if let Some(used) = tunnels[i].public_port {
                if used == port {
                    return true;
                }
            }
        }
        i = i + 1;
    }
    false
}

fn find_previous(tunnels: &Vec<TunnelKey>, id: &str, tenant: &str) -> (r: Option<u16>)
    ensures
        r == previous_port(tunnels@, id@, tenant@, 0),
{
    let mut i: usize = 0;
    while i < tunnels.len()
        invariant
            i <= tunnels@.len(),
            previous_port(tunnels@, id@, tenant@, 0) == previous_port(
                tunnels@,
                id@,
                tenant@,
                i as int,
            ),
        decreases tunnels@.len() - i,
    {
        if same(tunnels[i].id.as_str(), id) && same(tunnels[i].tenant_id.as_str(), tenant) && same(
            tunnels[i].protocol.as_str(),
            "tcp",
        ) {
            return tunnels[i].public_port;
        }
        i = i + 1;
    }
    None
}

fn find_free(tunnels: &Vec<TunnelKey>) -> (r: Option<u16>)
    ensures
        r == free_port(tunnels@, FIRST_PORT as int),
{
    let mut port: u16 = FIRST_PORT;
    while port <= LAST_PORT
        invariant
            FIRST_PORT <= port <= LAST_PORT + 1,
            free_port(tunnels@, FIRST_PORT as int) == free_port(tunnels@, port as int),
        decreases LAST_PORT + 1 - port,
    {
        if !check_used(tunnels, port) {
            return Some(port);
        }
        port = port + 1;
    }
    None
}

/// The TCP service that comes of what a user asks for, or why there is none.
pub open spec fn prepared_tcp(
    tunnels: Seq<TunnelKey>,
    tenant: Seq<char>,
    id: Seq<char>,
    input: InputView,
) -> Result<InputView, Option<error::Refusal>> {
    match port_for(tunnels, id, tenant, input.public_port) {
        Some(port) if port != 0 => if port_taken(tunnels, id, port) {
            Err(error::refusal(CONFLICT, "公网端口已被其他服务使用"))
        } else {
            Ok(
                InputView {
                    hostname: None,
                    public_domain_id: None,
                    public_port: Some(port),
                    ..input
                },
            )
        },
        _ => Err(error::refusal(BAD_REQUEST, "没有可用公网端口，请指定有效端口")),
    }
}

/// The position of a domain of a workspace.
pub open spec fn domain_at(
    list: Seq<DomainKey>,
    id: Option<Seq<char>>,
    tenant: Seq<char>,
    i: int,
) -> Option<int>
    decreases list.len() - i,
{
    if i < 0 || i >= list.len() {
        None
    } else if Some(list[i].id@) == id && list[i].tenant_id@ == tenant {
        Some(i)
    } else {
        domain_at(list, id, tenant, i + 1)
    }
}

/// Whether a full host name is that of another service or of a verified domain.
pub open spec fn address_taken(store: TunnelStore, id: Seq<char>, full: Seq<char>) -> bool {
    (exists|i: int|
        0 <= i < store.tunnels@.len() && !(#[trigger] store.tunnels@[i]).deleted
            && store.tunnels@[i].id@ != id && text::opt(store.tunnels@[i].address) == Some(full))
        || (exists|i: int|
        0 <= i < store.domains@.len() && (#[trigger] store.domains@[i]).domain@ == full
            && store.domains@[i].settings.verification_status@ == "verified"@)
}

/// Why a domain cannot serve a protocol, if it cannot.
pub open spec fn domain_refusal(domain: DomainKey, protocol: Seq<char>) -> Option<error::Refusal> {
    if domain.settings.verification_status@ != "verified"@ {
        error::refusal(BAD_REQUEST, "请先完成域名归属验证")
    } else if protocol == "https"@ && domain.settings.certificate_mode@ == "cloudflare_dns"@
        && !domain.settings.credential_configured && !domain.settings.legacy {
        error::refusal(BAD_REQUEST, "请先配置 Cloudflare 凭据，或选择 HTTP 验证")
    } else if protocol == "https"@ && !domain.https {
        error::refusal(BAD_REQUEST, "此域名未开启 HTTPS")
    } else {
        None
    }
}

/// The full host name of a service under a domain and the part before the domain, or why there is
/// none.
pub open spec fn service_host(asked: Option<Seq<char>>, domain: Seq<char>) -> Result<
    (Seq<char>, Seq<char>),
    Option<error::Refusal>,
> {
    let host = text::trimmed(
        match asked {
            Some(host) => host,
            None => Seq::empty(),
        },
    );
    if host.len() == 0 {
        Err(error::refusal(BAD_REQUEST, "服务子域名不能为空"))
    } else {
        match domains::domain_of(host + "."@ + domain) {
            None => Err(domains::domain_refusal()),
            Some(full) => match text::before_suffix(full, "."@ + domain) {
                None => Err(error::refusal(BAD_REQUEST, "服务子域名无效")),
                Some(part) => Ok((full, part)),
            },
        }
    }
}

/// The web service that comes of what a user asks for, or why there is none.
pub open spec fn prepared_web(
    store: TunnelStore,
    tenant: Seq<char>,
    id: Seq<char>,
    input: InputView,
) -> Result<InputView, Option<error::Refusal>> {
    match domain_at(store.domains@, input.public_domain_id, tenant, 0) {
        None => Err(error::refusal(BAD_REQUEST, "请选择当前工作空间的域名")),
        Some(k) => {
            let domain = store.domains@[k];
            if domain_refusal(domain, input.protocol) is Some {
                Err(domain_refusal(domain, input.protocol))
            } else {
                match service_host(input.hostname, domain.domain@) {
                    Err(e) => Err(e),
                    Ok(host) => if address_taken(store, id, host.0) {
                        Err(error::refusal(CONFLICT, "该服务域名已被使用"))
                    } else {
                        Ok(InputView { public_port: None, hostname: Some(host.1), ..input })
                    },
                }
            }
        },
    }
}

/// The service that comes of what a user asks for, or why there is none.
pub open spec fn prepared(
    store: TunnelStore,
    tenant: Seq<char>,
    id: Seq<char>,
    input: InputView,
) -> Result<InputView, Option<error::Refusal>> {
    if input_refusal(input) is Some {
        Err(input_refusal(input))
    } else if input.device_id matches Some(device) && !owns(store.devices@, device, tenant) {
        Err(error::refusal(BAD_REQUEST, "Agent 不存在或不属于当前工作空间"))
    } else if input.protocol == "tcp"@ {
        prepared_tcp(store.tunnels@, tenant, id, input)
    } else {
        prepared_web(store, tenant, id, input)
    }
}

fn prepare_tcp(
    tunnels: &Vec<TunnelKey>,
    tenant: &str,
    id: &str,
    input: &mut TunnelInput,
) -> (r: Result<(), ApiError>)
    ensures
        match r {
            Ok(_) => prepared_tcp(tunnels@, tenant@, id@, old(input)@) == Ok::<
                InputView,
                Option<error::Refusal>,
            >(final(input)@),
            Err(e) => prepared_tcp(tunnels@, tenant@, id@, old(input)@) == Err::<InputView, _>(
                error::told(e),
            ) && *final(input) == *old(input),
        },
{
    let port: Option<u16> = match input.public_port {
        Some(port) => Some(port),
        None => match find_previous(tunnels, id, tenant) {
            Some(port) => Some(port),
            None => find_free(tunnels),
        },
    };
    let port: u16 = match port {
        Some(port) => port,
        None => 0,
    };
    if port == 0 {
        return Err(ApiError::new(BAD_REQUEST, "没有可用公网端口，请指定有效端口"));
    }
    if check_taken(tunnels, id, port) {
        return Err(ApiError::new(CONFLICT, "公网端口已被其他服务使用"));
    }
    input.hostname = None;
    input.public_domain_id = None;
    input.public_port = Some(port);
    Ok(())
}

fn find_domain(list: &Vec<DomainKey>, id: &Option<String>, tenant: &str) -> (r: Option<usize>)
    ensures
        (match r {
            Some(k) => Some(k as int),
            None => None,
        }) == domain_at(list@, text::opt(*id), tenant@, 0),
        r matches Some(k) ==> k < list@.len(),
{
    let mut i: usize = 0;
    while i < list.len()
        invariant
            i <= list@.len(),
            domain_at(list@, text::opt(*id), tenant@, 0) == domain_at(
                list@,
                text::opt(*id),
                tenant@,
                i as int,
            ),
        decreases list@.len() - i,
    {
        if is_text(id, list[i].id.as_str()) && same(list[i].tenant_id.as_str(), tenant) {
            return Some(i);
        }
        i = i + 1;
    }
    None
}

fn check_address(store: &TunnelStore, id: &str, full: &str) -> (r: bool)
    ensures
        r == address_taken(*store, id@, full@),
{
    let mut i: usize = 0;
    while i < store.tunnels.len()
        invariant
            i <= store.tunnels@.len(),
            forall|j: int|
                0 <= j < i ==> (#[trigger] store.tunnels@[j]).deleted || store.tunnels@[j].id@
                    == id@ || text::opt(store.tunnels@[j].address) != Some(full@),
        decreases store.tunnels@.len() - i,
    {
        if !store.tunnels[i].deleted && !same(store.tunnels[i].id.as_str(), id) && is_text(
            &store.tunnels[i].address,
            full,
        ) {
            return true;
        }
        i = i + 1;
    }
    let mut k: usize = 0;
    while k < store.domains.len()
        invariant
            k <= store.domains@.len(),
            forall|j: int|
                0 <= j < store.tunnels@.len() ==> (#[trigger] store.tunnels@[j]).deleted
                    || store.tunnels@[j].id@ == id@ || text::opt(store.tunnels@[j].address) != Some(
                    full@,
                ),
            forall|j: int|
                0 <= j < k ==> !((#[trigger] store.domains@[j]).domain@ == full@
                    && store.domains@[j].settings.verification_status@ == "verified"@),
        decreases store.domains@.len() - k,
    {
        if same(store.domains[k].domain.as_str(), full) && same(
            store.domains[k].settings.verification_status.as_str(),
            "verified",
        ) {
            return true;
        }
        k = k + 1;
    }
    false
}

fn check_domain_for(domain: &DomainKey, protocol: &str) -> (r: Result<(), ApiError>)
    ensures
        match r {
            Ok(_) => domain_refusal(*domain, protocol@) is None,
            Err(e) => domain_refusal(*domain, protocol@) == error::told(e),
        },
{
    let settings: &Settings = &domain.settings;
    if !same(settings.verification_status.as_str(), "verified") {
        return Err(ApiError::new(BAD_REQUEST, "请先完成域名归属验证"));
    }
    let secure: bool = same(protocol, "https");
    if secure && same(settings.certificate_mode.as_str(), "cloudflare_dns")
        && !settings.credential_configured && !settings.legacy {
        return Err(
            ApiError::new(BAD_REQUEST, "请先配置 Cloudflare 凭据，或选择 HTTP 验证"),
        );
    }
    if secure && !domain.https {
        return Err(ApiError::new(BAD_REQUEST, "此域名未开启 HTTPS"));
    }
    Ok(())
}

fn find_host(asked: &Option<String>, domain: &str) -> (r: Result<(String, String), ApiError>)
    ensures
        match r {
            Ok(host) => service_host(text::opt(*asked), domain@) == Ok::<
                (Seq<char>, Seq<char>),
                Option<error::Refusal>,
            >((host.0@, host.1@)),
            Err(e) => service_host(text::opt(*asked), domain@) == Err::<(Seq<char>, Seq<char>), _>(
                error::told(e),
            ),
        },
{
    let host: String = match asked {
        Some(host) => trim(host.as_str()),
        None => trim(""),
    };
    proof {
        reveal_strlit("");
        assert(""@ =~= Seq::<char>::empty());
    }
    if host.as_str().is_empty() {
        return Err(ApiError::new(BAD_REQUEST, "服务子域名不能为空"));
    }
    let full: String = match normalize_domain(join3(host.as_str(), ".", domain).as_str()) {
        Ok(full) => full,
        Err(e) => {
            return Err(e);
        },
    };
    match strip_suffix(full.as_str(), join2(".", domain).as_str()) {
        Some(part) => Ok((full, part)),
        None => Err(ApiError::new(BAD_REQUEST, "服务子域名无效")),
    }
}

fn prepare_web(store: &TunnelStore, tenant: &str, id: &str, input: &mut TunnelInput) -> (r: Result<
    (),
    ApiError,
>)
    ensures
        match r {
            Ok(_) => prepared_web(*store, tenant@, id@, old(input)@) == Ok::<
                InputView,
                Option<error::Refusal>,
            >(final(input)@),
            Err(e) => prepared_web(*store, tenant@, id@, old(input)@) == Err::<InputView, _>(
                error::told(e),
            ) && *final(input) == *old(input),
        },
{
    let k: usize = match find_domain(&store.domains, &input.public_domain_id, tenant) {
        Some(k) => k,
        None => {
            return Err(ApiError::new(BAD_REQUEST, "请选择当前工作空间的域名"));
        },
    };
    let domain: &DomainKey = &store.domains[k];
    if let Err(e) = check_domain_for(domain, input.protocol.as_str()) {
        return Err(e);
    }
    let (full, part): (String, String) = match find_host(&input.hostname, domain.domain.as_str()) {
        Ok(host) => host,
        Err(e) => {
            return Err(e);
        },
    };
    if check_address(store, id, full.as_str()) {
        return Err(ApiError::new(CONFLICT, "该服务域名已被使用"));
    }
    input.public_port = None;
    input.hostname = Some(part);
    Ok(())
}

/// Makes what a user asks for complete, or refuses it: what it names must belong to the workspace,
/// its port or host name must be free, and its domain must be verified.
pub fn prepare_tunnel(
    store: &TunnelStore,
    tenant: &str,
    id: &str,
    input: &mut TunnelInput,
) -> (r: Result<(), ApiError>)
    ensures
        match r {
            Ok(_) => prepared(*store, tenant@, id@, old(input)@) == Ok::<
                InputView,
                Option<error::Refusal>,
            >(final(input)@),
            Err(e) => prepared(*store, tenant@, id@, old(input)@) == Err::<InputView, _>(
                error::told(e),
            ) && *final(input) == *old(input),
        },
{
    if let Err(e) = validate_tunnel(input) {
        return Err(e);
    }
    if let Some(device) = &input.device_id {
        if !check_owner(&store.devices, device.as_str(), tenant) {
            return Err(
                ApiError::new(BAD_REQUEST, "Agent 不存在或不属于当前工作空间"),
            );
        }
    }
    if same(input.protocol.as_str(), "tcp") {
        prepare_tcp(&store.tunnels, tenant, id, input)
    } else {
        prepare_web(store, tenant, id, input)
    }
}

proof fn lemma_free_port(tunnels: Seq<TunnelKey>, from: int)
    requires
        FIRST_PORT <= from <= LAST_PORT + 1,
    ensures
        free_port(tunnels, from) matches Some(port) ==> from <= port <= LAST_PORT && !port_used(
            tunnels,
            port,
        ),
        free_port(tunnels, from) is None ==> forall|port: u16|
            from <= port <= LAST_PORT ==> port_used(tunnels, port),
    decreases LAST_PORT + 1 - from,
{
    if from <= LAST_PORT && port_used(tunnels, from as u16) {
        lemma_free_port(tunnels, from + 1);
    }
}

/// A TCP service that nobody chose a port for gets one of its own: the one it has had, or a free
/// one from 20000 to 29999. No accepted service shares a port with another.
pub proof fn ports_are_never_shared(
    tunnels: Seq<TunnelKey>,
    tenant: Seq<char>,
    id: Seq<char>,
    input: InputView,
)
    ensures
        prepared_tcp(tunnels, tenant, id, input) matches Ok(made) ==> (made.public_port matches Some(
            port,
        ) && port != 0 && !port_taken(tunnels, id, port) && (input.public_port is None
            && previous_port(tunnels, id, tenant, 0) is None ==> FIRST_PORT <= port <= LAST_PORT)),
{
    lemma_free_port(tunnels, FIRST_PORT as int);
}

/// Preparing a service touches its public side alone: its device, name, protocol, local address and
/// port, and whether it is enabled, are those that the user asked for. A TCP service has a public
/// port and no host name, a web service a host name under the domain that was asked for and no port.
pub proof fn preparing_keeps_what_was_asked_for(
    store: TunnelStore,
    tenant: Seq<char>,
    id: Seq<char>,
    input: InputView,
)
    ensures
        prepared(store, tenant, id, input) matches Ok(made) ==> {
            &&& made.device_id == input.device_id
            &&& made.name == input.name
            &&& made.protocol == input.protocol
            &&& made.local_address == input.local_address
            &&& made.local_port == input.local_port
            &&& made.enabled == input.enabled
            &&& input.protocol == "tcp"@ ==> made.public_port is Some && made.hostname is None
                && made.public_domain_id is None
            &&& input.protocol != "tcp"@ ==> made.public_port is None && made.hostname is Some
                && made.public_domain_id == input.public_domain_id
        },
{
}

/// What is accepted has a name, one of the three protocols, a local address that is no path, a local
/// port, and a device of the workspace where it names one. Everything else is refused.
pub proof fn accepted_services_are_complete(
    store: TunnelStore,
    tenant: Seq<char>,
    id: Seq<char>,
    input: InputView,
)
    ensures
        prepared(store, tenant, id, input) is Ok ==> {
            &&& text::trimmed(input.name).len() > 0
            &&& input.protocol == "tcp"@ || input.protocol == "http"@ || input.protocol == "https"@
            &&& text::trimmed(input.local_address).len() > 0
            &&& !input.local_address.contains('/') && !input.local_address.contains('\\')
                && !input.local_address.contains(' ')
            &&& input.local_port > 0
            &&& input.device_id matches Some(device) ==> exists|i: int|
                0 <= i < store.devices@.len() && (#[trigger] store.devices@[i]).id@ == device
                    && store.devices@[i].tenant_id@ == tenant
        },
{
}

proof fn lemma_lowest_port(tunnels: Seq<TunnelKey>, from: int)
    requires
        0 <= from,
    ensures
        match free_port(tunnels, from) {
            Some(port) => from <= port <= LAST_PORT && !port_used(tunnels, port) && forall|q: u16|
                from <= q < port ==> port_used(tunnels, q),
            None => forall|q: u16| from <= q <= LAST_PORT ==> port_used(tunnels, q),
        },
    decreases LAST_PORT + 1 - from,
{
    if from <= LAST_PORT && port_used(tunnels, from as u16) {
        lemma_lowest_port(tunnels, from + 1);
        assert forall|q: u16| from <= q && (free_port(tunnels, from) matches Some(port) ==> q
            < port) && q <= LAST_PORT implies port_used(tunnels, q) by {
            if q == from {
                assert(q == from as u16);
            }
        }
    }
}

proof fn lemma_previous_port(tunnels: Seq<TunnelKey>, id: Seq<char>, tenant: Seq<char>, i: int)
    requires
        0 <= i,
    ensures
        previous_port(tunnels, id, tenant, i) matches Some(port) ==> exists|k: int|
            i <= k < tunnels.len() && (#[trigger] tunnels[k]).id@ == id && tunnels[k].tenant_id@
                == tenant && tunnels[k].protocol@ == "tcp"@ && tunnels[k].public_port == Some(port),
        (forall|k: int|
            i <= k < tunnels.len() ==> !((#[trigger] tunnels[k]).id@ == id
                && tunnels[k].tenant_id@ == tenant)) ==> previous_port(tunnels, id, tenant, i)
            is None,
    decreases tunnels.len() - i,
{
    if i < tunnels.len() {
        lemma_previous_port(tunnels, id, tenant, i + 1);
    }
}

/// A TCP service gets the port that is asked for, where no other service that is not deleted has it;
/// one that asks for none and had none gets the lowest port from 20000 to 29999 that no service has,
/// and is refused only where all of them are in use.
pub proof fn ports_are_given_as_asked(
    tunnels: Seq<TunnelKey>,
    tenant: Seq<char>,
    id: Seq<char>,
    input: InputView,
)
    ensures
        prepared_tcp(tunnels, tenant, id, input) matches Ok(made) ==> {
            &&& made.public_port matches Some(port) && port > 0 && forall|i: int|
                0 <= i < tunnels.len() && !(#[trigger] tunnels[i]).deleted && tunnels[i].id@ != id
                    ==> tunnels[i].public_port != Some(port)
            &&& input.public_port is Some ==> made.public_port == input.public_port
        },
        input.public_port matches Some(port) ==> (prepared_tcp(tunnels, tenant, id, input) is Ok
            <==> port > 0 && forall|i: int|
            0 <= i < tunnels.len() && !(#[trigger] tunnels[i]).deleted && tunnels[i].id@ != id
                ==> tunnels[i].public_port != Some(port)),
        (input.public_port is None && forall|i: int|
            0 <= i < tunnels.len() ==> !((#[trigger] tunnels[i]).id@ == id && tunnels[i].tenant_id@
                == tenant)) ==> match prepared_tcp(tunnels, tenant, id, input) {
            Ok(made) => made.public_port matches Some(port) && 20000 <= port <= 29999 && (forall|
                i: int,
            |
                0 <= i < tunnels.len() && !(#[trigger] tunnels[i]).deleted ==> tunnels[i].public_port
                    != Some(port)) && forall|lower: u16|
                20000 <= lower < port ==> #[trigger] port_used(tunnels, lower),
            Err(_) => forall|port: u16|
                20000 <= port <= 29999 ==> #[trigger] port_used(tunnels, port),
        },
{
    lemma_lowest_port(tunnels, FIRST_PORT as int);
    lemma_previous_port(tunnels, id, tenant, 0);
    if let Some(port) = free_port(tunnels, FIRST_PORT as int) {
        assert(!port_used(tunnels, port));
        assert(!port_taken(tunnels, id, port));
    }
}

/// A web service belongs to a verified domain of its own workspace, and its host name is neither
/// that of another service nor that of a verified domain.
pub proof fn web_services_stay_in_their_workspace(
    store: TunnelStore,
    tenant: Seq<char>,
    id: Seq<char>,
    input: InputView,
)
    requires
        input.protocol != "tcp"@,
        prepared(store, tenant, id, input) is Ok,
    ensures
        exists|k: int|
            #![trigger store.domains@[k]]
            0 <= k < store.domains@.len() && store.domains@[k].tenant_id@ == tenant && Some(
                store.domains@[k].id@,
            ) == input.public_domain_id && store.domains@[k].settings.verification_status@
                == "verified"@ && !address_taken(
                store,
                id,
                (prepared(store, tenant, id, input)->Ok_0).hostname->0 + ("."@
                    + store.domains@[k].domain@),
            ),
{
    lemma_domain_at(store.domains@, input.public_domain_id, tenant, 0);
    let k = domain_at(store.domains@, input.public_domain_id, tenant, 0)->0;
    let domain = store.domains@[k];
    let host = service_host(input.hostname, domain.domain@)->Ok_0;
    let tail = "."@ + domain.domain@;
    assert(host.0 =~= host.1 + tail);
}

/// A web service that is accepted has a host name that no other service and no verified domain has,
/// under a verified domain of its own workspace; over HTTPS the domain has HTTPS on and a way to get
/// its certificates.
pub proof fn web_services_have_a_name_of_their_own(
    store: TunnelStore,
    tenant: Seq<char>,
    id: Seq<char>,
    input: InputView,
) -> (k: int)
    requires
        input.protocol != "tcp"@,
        prepared(store, tenant, id, input) is Ok,
    ensures
        0 <= k < store.domains@.len(),
        Some(store.domains@[k].id@) == input.public_domain_id,
        store.domains@[k].tenant_id@ == tenant,
        store.domains@[k].settings.verification_status@ == "verified"@,
        input.protocol == "https"@ ==> store.domains@[k].https && (
        store.domains@[k].settings.certificate_mode@ != "cloudflare_dns"@
            || store.domains@[k].settings.credential_configured
            || store.domains@[k].settings.legacy),
        ({
            let full = (prepared(store, tenant, id, input)->Ok_0).hostname->0 + ("."@
                + store.domains@[k].domain@);
            &&& input.hostname matches Some(asked) && domains::domain_of(
                text::trimmed(asked) + "."@ + store.domains@[k].domain@,
            ) == Some(full)
            &&& forall|i: int|
                0 <= i < store.tunnels@.len() && !(#[trigger] store.tunnels@[i]).deleted
                    && store.tunnels@[i].id@ != id ==> text::opt(store.tunnels@[i].address) != Some(
                    full,
                )
            &&& forall|i: int|
                0 <= i < store.domains@.len() && (
                #[trigger] store.domains@[i]).settings.verification_status@ == "verified"@
                    ==> store.domains@[i].domain@ != full
        }),
{
    lemma_domain_at(store.domains@, input.public_domain_id, tenant, 0);
    let k = domain_at(store.domains@, input.public_domain_id, tenant, 0)->0;
    let domain = store.domains@[k];
    let host = service_host(input.hostname, domain.domain@)->Ok_0;
    let tail = "."@ + domain.domain@;
    assert(host.0 =~= host.1 + tail);
    assert(text::trimmed(Seq::<char>::empty()).len() == 0);
    k
}

proof fn lemma_domain_at(list: Seq<DomainKey>, id: Option<Seq<char>>, tenant: Seq<char>, i: int)
    requires
        0 <= i,
    ensures
        domain_at(list, id, tenant, i) matches Some(k) ==> i <= k < list.len() && Some(list[k].id@)
            == id && list[k].tenant_id@ == tenant,
    decreases list.len() - i,
{
    if i < list.len() && !(Some(list[i].id@) == id && list[i].tenant_id@ == tenant) {
        lemma_domain_at(list, id, tenant, i + 1);
    }
}

/// The state of a stored service that changes with each request about it.
#[derive(Debug, Clone)]
pub struct TunnelState {
    pub enabled: bool,
    pub apply_status: String,
    pub apply_revision: i64,
    pub deleted: bool,
}

/// The state of a stored service.
pub ghost struct StateView {
    pub enabled: bool,
    pub apply_status: Seq<char>,
    pub apply_revision: int,
    pub deleted: bool,
}

impl View for TunnelState {
    type V = StateView;

    open spec fn view(&self) -> StateView {
        StateView {
            enabled: self.enabled,
            apply_status: self.apply_status@,
            apply_revision: self.apply_revision as int,
            deleted: self.deleted,
        }
    }
}

impl TunnelState {
    /// The state of a new service: to be checked, in its first revision.
    pub fn created(enabled: Option<bool>) -> (r: TunnelState)
        ensures
            r@ == (StateView {
                enabled: enabled != Some(false),
                apply_status: "checking"@,
                apply_revision: 1,
                deleted: false,
            }),
    {
        TunnelState {
            enabled: match enabled {
                Some(flag) => flag,
                None => true,
            },
            apply_status: "checking".to_owned(),
            apply_revision: 1,
            deleted: false,
        }
    }

    /// The state after its device got a new key: the next revision, to be checked where the service
    /// is enabled. Whether it is enabled stays as it was.
    pub fn recovered(&mut self)
        requires
            old(self).apply_revision < i64::MAX,
        ensures
            final(self)@ == (if old(self)@.deleted {
                old(self)@
            } else {
                StateView {
                    enabled: old(self)@.enabled,
                    apply_status: if old(self)@.enabled {
                        "checking"@
                    } else {
                        "disabled"@
                    },
                    apply_revision: old(self)@.apply_revision + 1,
                    deleted: false,
                }
            }),
    {
        if !self.deleted {
            self.apply_status = if self.enabled {
                "checking".to_owned()
            } else {
                "disabled".to_owned()
            };
            self.apply_revision = self.apply_revision + 1;
        }
    }

    /// The state after a change: the next revision, to be checked.
    pub fn changed(&mut self, enabled: Option<bool>)
        requires
            old(self).apply_revision < i64::MAX,
        ensures
            final(self)@ == (StateView {
                enabled: enabled != Some(false),
                apply_status: "checking"@,
                apply_revision: old(self)@.apply_revision + 1,
                deleted: old(self)@.deleted,
            }),
    {
        self.enabled = match enabled {
            Some(flag) => flag,
            None => true,
        };
        self.apply_status = "checking".to_owned();
        self.apply_revision = self.apply_revision + 1;
    }

    /// The state after the service was switched on or off: the next revision.
    pub fn toggled(&mut self, enabled: bool)
        requires
            old(self).apply_revision < i64::MAX,
        ensures
            final(self)@ == (StateView {
                enabled,
                apply_status: if enabled {
                    "checking"@
                } else {
                    "disabled"@
                },
                apply_revision: old(self)@.apply_revision + 1,
                deleted: old(self)@.deleted,
            }),
    {
        self.enabled = enabled;
        self.apply_status = if enabled {
            "checking".to_owned()
        } else {
            "disabled".to_owned()
        };
        self.apply_revision = self.apply_revision + 1;
    }

    /// The state after the service was deleted: off, in the next revision, so that no earlier report
    /// counts.
    pub fn deleted(&mut self)
        requires
            old(self).apply_revision < i64::MAX,
        ensures
            final(self)@ == (StateView {
                enabled: false,
                apply_status: "disabled"@,
                apply_revision: old(self)@.apply_revision + 1,
                deleted: true,
            }),
    {
        self.enabled = false;
        self.apply_status = "disabled".to_owned();
        self.apply_revision = self.apply_revision + 1;
        self.deleted = true;
    }

    /// The state after the device of the service was deleted: off, in the next revision.
    pub fn detached(&mut self)
        requires
            old(self).apply_revision < i64::MAX,
        ensures
            final(self)@ == (StateView {
                enabled: false,
                apply_status: "disabled"@,
                apply_revision: old(self)@.apply_revision + 1,
                deleted: old(self)@.deleted,
            }),
    {
        self.enabled = false;
        self.apply_status = "disabled".to_owned();
        self.apply_revision = self.apply_revision + 1;
    }
}

/// Whether a service can be changed or deleted: it is one of the workspace and not deleted.
pub open spec fn service_there(tunnels: Seq<TunnelKey>, id: Seq<char>, tenant: Seq<char>) -> bool {
    exists|i: int|
        0 <= i < tunnels.len() && (#[trigger] tunnels[i]).id@ == id && tunnels[i].tenant_id@
            == tenant && !tunnels[i].deleted
}

/// Refuses a request about a service that is not there.
pub fn require_service(tunnels: &Vec<TunnelKey>, id: &str, tenant: &str) -> (r: Result<
    (),
    ApiError,
>)
    ensures
        match r {
            Ok(_) => service_there(tunnels@, id@, tenant@),
            Err(e) => !service_there(tunnels@, id@, tenant@) && error::told(e) == error::refusal(
                NOT_FOUND,
                "服务不存在",
            ),
        },
{
    let mut i: usize = 0;
    while i < tunnels.len()
        invariant
            i <= tunnels@.len(),
            forall|j: int|
                0 <= j < i ==> !((#[trigger] tunnels@[j]).id@ == id@ && tunnels@[j].tenant_id@
                    == tenant@ && !tunnels@[j].deleted),
        decreases tunnels@.len() - i,
    {
        if same(tunnels[i].id.as_str(), id) && same(tunnels[i].tenant_id.as_str(), tenant)
            && !tunnels[i].deleted {
            return Ok(());
        }
        i = i + 1;
    }
    Err(ApiError::new(NOT_FOUND, "服务不存在"))
}

/// Refuses to delete a device that is not one of the workspace.
pub fn delete_device(devices: &Vec<Owned>, id: &str, tenant: &str) -> (r: Result<(), ApiError>)
    ensures
        match r {
            Ok(_) => owns(devices@, id@, tenant@),
            Err(e) => !owns(devices@, id@, tenant@) && error::told(e) == error::refusal(
                NOT_FOUND,
                "设备不存在",
            ),
        },
{
    if check_owner(devices, id, tenant) {
        Ok(())
    } else {
        Err(ApiError::new(NOT_FOUND, "设备不存在"))
    }
}

/// The host in the authority that a request names, where it names one.
pub uninterp spec fn authority_host_of(text: Seq<char>) -> Option<Seq<char>>;

/// `axum::http::uri::Authority`: the host in an authority, with the brackets of an IPv6 address;
/// `None` for a text that is no authority.
#[verifier::external_body]
pub(crate) fn authority_host(text: &str) -> (r: Option<String>)
    ensures
        text::opt(r) == authority_host_of(text@),
{
    text.parse::<axum::http::uri::Authority>().ok().map(|authority| authority.host().to_owned())
}

/// Where a service is reached: a TCP service at the host of the request, a web service under its
/// own name.
pub open spec fn address_of(
    protocol: Seq<char>,
    port: Option<u16>,
    hostname: Option<Seq<char>>,
    domain: Option<Seq<char>>,
    host: Option<Seq<char>>,
) -> Option<Seq<char>> {
    if protocol == "tcp"@ {
        match (port, host) {
            (Some(port), Some(host)) => Some(host + ":"@ + number::decimal(port as nat)),
            _ => None,
        }
    } else {
        match (hostname, domain) {
            (Some(name), Some(domain)) => Some(protocol + "://"@ + name + "."@ + domain),
            _ => None,
        }
    }
}

/// Where a service is reached, given the host of the request.
pub fn address_at(
    protocol: &str,
    port: Option<u16>,
    hostname: Option<&str>,
    domain: Option<&str>,
    host: Option<&str>,
) -> (r: Option<String>)
    ensures
        text::opt(r) == address_of(
            protocol@,
            port,
            text::opt_str(hostname),
            text::opt_str(domain),
            text::opt_str(host),
        ),
{
    if same(protocol, "tcp") {
        match (port, host) {
            (Some(port), Some(host)) => Some(
                join3(host, ":", decimal_text(port as u64).as_str()),
            ),
            _ => None,
        }
    } else {
        match (hostname, domain) {
            (Some(name), Some(domain)) => {
                let site: String = join3(protocol, "://", name);
                Some(join3(site.as_str(), ".", domain))
            },
            _ => None,
        }
    }
}

/// Where a service is reached, given the host header of the request.
pub fn public_address(
    protocol: &str,
    port: Option<u16>,
    hostname: Option<&str>,
    domain: Option<&str>,
    host_header: Option<&str>,
) -> (r: Option<String>)
    ensures
        text::opt(r) == address_of(
            protocol@,
            port,
            text::opt_str(hostname),
            text::opt_str(domain),
            match host_header {
                Some(header) => authority_host_of(header@),
                None => None,
            },
        ),
{
    let host: Option<String> = match host_header {
        Some(header) => authority_host(header),
        None => None,
    };
    match &host {
        Some(host) => address_at(protocol, port, hostname, domain, Some(host.as_str())),
        None => address_at(protocol, port, hostname, domain, None),
    }
}

/// A stored service as an agent is asked to offer it.
pub struct DesiredRow {
    pub device_id: Option<String>,
    pub deleted: bool,
    pub workspace_enabled: bool,
    pub state: TunnelDesiredState,
}

/// Whether a stored service is sent to a device.
pub open spec fn sent_to(row: DesiredRow, device: Seq<char>) -> bool {
    text::opt(row.device_id) == Some(device) && !row.deleted && row.workspace_enabled
}

/// The services among the first `n` stored ones that are sent to a device.
pub open spec fn desired_of(rows: Seq<DesiredRow>, device: Seq<char>, n: int) -> Seq<
    protocol::DesiredView,
>
    decreases n,
{
    if n <= 0 {
        Seq::empty()
    } else if sent_to(rows[n - 1], device) {
        desired_of(rows, device, n - 1).push(rows[n - 1].state@)
    } else {
        desired_of(rows, device, n - 1)
    }
}

/// The services that are sent to a device: its own, not deleted, of a workspace that is enabled.
pub fn desired_tunnels(rows: &Vec<DesiredRow>, device: &str) -> (r: Vec<TunnelDesiredState>)
    ensures
        Seq::new(r@.len(), |i: int| r@[i]@) == desired_of(rows@, device@, rows@.len() as int),
{
    let mut r: Vec<TunnelDesiredState> = Vec::new();
    let mut i: usize = 0;
    while i < rows.len()
        invariant
            i <= rows@.len(),
            Seq::new(r@.len(), |j: int| r@[j]@) == desired_of(rows@, device@, i as int),
        decreases rows@.len() - i,
    {
        if is_text(&rows[i].device_id, device) && !rows[i].deleted && rows[i].workspace_enabled {
            let ghost before = Seq::new(r@.len(), |j: int| r@[j]@);
            let state: TunnelDesiredState = rows[i].state.copy();
            r.push(state);
            assert(Seq::new(r@.len(), |j: int| r@[j]@) =~= before.push(state@));
        }
        i = i + 1;
    }
    r
}

/// Whether the data of an earlier run can be used: only of the same generation.
pub fn check_generation(is_new: bool, generation: Option<&str>) -> (r: Result<(), &'static str>)
    ensures
        match r {
            Ok(_) => is_new || text::opt_str(generation) == Some(GENERATION@),
            Err(message) => !is_new && text::opt_str(generation) != Some(GENERATION@) && message@
                == "检测到旧版 Nexo 数据目录；v0.2.0 仅支持全新安装，请备份后使用空数据目录启动"@,
        },
{
    if is_new {
        return Ok(());
    }
    let known: bool = match generation {
        Some(text) => same(text, GENERATION),
        None => false,
    };
    if known {
        Ok(())
    } else {
        Err(
            "检测到旧版 Nexo 数据目录；v0.2.0 仅支持全新安装，请备份后使用空数据目录启动",
        )
    }
}

/// A stored service, joined with its device and its domain.
#[derive(Debug)]
pub struct TunnelRow {
    pub id: String,
    pub tenant_id: String,
    pub device_id: Option<String>,
    pub device_name: Option<String>,
    pub name: String,
    pub protocol: String,
    pub local_address: String,
    pub local_port: u16,
    pub public_port: Option<u16>,
    pub hostname: Option<String>,
    pub enabled: bool,
    pub apply_status: String,
    pub apply_error: Option<String>,
    pub apply_revision: i64,
    pub public_domain: Option<String>,
    pub deleted: bool,
}

/// A service as it is shown.
#[derive(Debug)]
pub struct Tunnel {
    pub id: String,
    pub tenant_id: String,
    pub device_id: Option<String>,
    pub device_name: Option<String>,
    pub name: String,
    pub protocol: String,
    pub local_address: String,
    pub local_port: u16,
    pub public_port: Option<u16>,
    pub hostname: Option<String>,
    pub enabled: bool,
    pub apply_status: String,
    pub apply_error: Option<String>,
    pub apply_revision: i64,
    pub public_address: Option<String>,
    pub public_domain: Option<String>,
    pub deletion_pending: bool,
}

/// Whether a service is listed: one of the workspace that was not deleted, and the one that was asked
/// for where one was.
pub open spec fn tunnel_listed(row: TunnelRow, tenant: Seq<char>, only: Option<Seq<char>>) -> bool {
    row.tenant_id@ == tenant && !row.deleted && (only matches Some(id) ==> row.id@ == id)
}

/// Whether a service is shown as it is stored, with the address under which it can be reached.
pub open spec fn is_shown(shown: Tunnel, row: TunnelRow, host: Option<Seq<char>>) -> bool {
    &&& shown.id@ == row.id@ && shown.tenant_id@ == row.tenant_id@ && shown.name@ == row.name@
    &&& text::opt(shown.device_id) == text::opt(row.device_id)
    &&& text::opt(shown.device_name) == text::opt(row.device_name)
    &&& shown.protocol@ == row.protocol@ && shown.local_address@ == row.local_address@
    &&& shown.local_port == row.local_port && shown.public_port == row.public_port
    &&& text::opt(shown.hostname) == text::opt(row.hostname) && shown.enabled == row.enabled
    &&& shown.apply_status@ == row.apply_status@ && text::opt(shown.apply_error) == text::opt(
        row.apply_error,
    )
    &&& shown.apply_revision == row.apply_revision
    &&& text::opt(shown.public_domain) == text::opt(row.public_domain) && !shown.deletion_pending
    &&& text::opt(shown.public_address) == address_of(
        row.protocol@,
        row.public_port,
        text::opt(row.hostname),
        text::opt(row.public_domain),
        match host {
            Some(header) => authority_host_of(header),
            None => None,
        },
    )
}

/// The positions of those of the first `n` services that are listed.
pub open spec fn listed_at(
    rows: Seq<TunnelRow>,
    tenant: Seq<char>,
    only: Option<Seq<char>>,
    n: int,
) -> Seq<int>
    decreases n,
{
    if n <= 0 {
        Seq::empty()
    } else if tunnel_listed(rows[n - 1], tenant, only) {
        listed_at(rows, tenant, only, n - 1).push(n - 1)
    } else {
        listed_at(rows, tenant, only, n - 1)
    }
}

fn show_tunnel(row: &TunnelRow, host_header: Option<&str>) -> (r: Tunnel)
    ensures
        is_shown(r, *row, text::opt_str(host_header)),
{
    let hostname: Option<&str> = match &row.hostname {
        Some(name) => Some(name.as_str()),
        None => None,
    };
    let domain: Option<&str> = match &row.public_domain {
        Some(name) => Some(name.as_str()),
        None => None,
    };
    Tunnel {
        id: row.id.clone(),
        tenant_id: row.tenant_id.clone(),
        device_id: copy_opt(&row.device_id),
        device_name: copy_opt(&row.device_name),
        name: row.name.clone(),
        protocol: row.protocol.clone(),
        local_address: row.local_address.clone(),
        local_port: row.local_port,
        public_port: row.public_port,
        hostname: copy_opt(&row.hostname),
        enabled: row.enabled,
        apply_status: row.apply_status.clone(),
        apply_error: copy_opt(&row.apply_error),
        apply_revision: row.apply_revision,
        public_address: public_address(
            row.protocol.as_str(),
            row.public_port,
            hostname,
            domain,
            host_header,
        ),
        public_domain: copy_opt(&row.public_domain),
        deletion_pending: false,
    }
}

/// The services of a workspace, in the order of the rows. The host of the request serves to show an
/// address and for nothing else.
pub fn query_tunnels(
    rows: &Vec<TunnelRow>,
    tenant: &str,
    only: Option<&str>,
    host_header: Option<&str>,
) -> (r: Vec<Tunnel>)
    ensures
        ({
            let places = listed_at(rows@, tenant@, text::opt_str(only), rows@.len() as int);
            r@.len() == places.len() && forall|i: int|
                0 <= i < places.len() ==> is_shown(
                    #[trigger] r@[i],
                    rows@[places[i]],
                    text::opt_str(host_header),
                )
        }),
{
    let mut shown: Vec<Tunnel> = Vec::new();
    let mut i: usize = 0;
    while i < rows.len()
        invariant
            i <= rows@.len(),
            shown@.len() == listed_at(rows@, tenant@, text::opt_str(only), i as int).len(),
            forall|j: int|
                0 <= j < shown@.len() ==> is_shown(
                    #[trigger] shown@[j],
                    rows@[listed_at(rows@, tenant@, text::opt_str(only), i as int)[j]],
                    text::opt_str(host_header),
                ),
        decreases rows@.len() - i,
    {
        let ghost before = listed_at(rows@, tenant@, text::opt_str(only), i as int);
        let wanted: bool = match only {
            Some(id) => same(rows[i].id.as_str(), id),
            None => true,
        };
        if same(rows[i].tenant_id.as_str(), tenant) && !rows[i].deleted && wanted {
            let ghost held = shown@;
            shown.push(show_tunnel(&rows[i], host_header));
            proof {
                let after = listed_at(rows@, tenant@, text::opt_str(only), i + 1);
                assert(after == before.push(i as int));
                assert forall|j: int| 0 <= j < shown@.len() implies is_shown(
                    #[trigger] shown@[j],
                    rows@[after[j]],
                    text::opt_str(host_header),
                ) by {
                    if j < held.len() {
                        assert(shown@[j] == held[j]);
                        assert(after[j] == before[j]);
                    }
                }
            }
        }
        i = i + 1;
    }
    shown
}

/// A list of services shows those of its workspace alone.
pub proof fn lists_stay_in_the_workspace(
    rows: Seq<TunnelRow>,
    tenant: Seq<char>,
    only: Option<Seq<char>>,
    n: int,
    k: int,
)
    requires
        0 <= n <= rows.len(),
        0 <= k < listed_at(rows, tenant, only, n).len(),
    ensures
        0 <= listed_at(rows, tenant, only, n)[k] < n,
        tunnel_listed(rows[listed_at(rows, tenant, only, n)[k]], tenant, only),
    decreases n,
{
    if n > 0 {
        let before = listed_at(rows, tenant, only, n - 1);
        if k < before.len() {
            lists_stay_in_the_workspace(rows, tenant, only, n - 1, k);
        }
    }
}

/// A device as it is stored, with its certificate.
pub struct DeviceInfo {
    pub id: String,
    pub tenant_id: String,
    pub name: String,
    pub os: Option<String>,
    pub architecture: Option<String>,
    pub agent_version: Option<String>,
    pub status: String,
    pub enrolled_at: Option<i64>,
    pub last_seen_at: Option<i64>,
    pub certificate_pem: Option<String>,
    pub renewal_error: Option<String>,
    pub next_retry_at: Option<i64>,
}

/// A device as it is shown.
#[derive(Debug)]
pub struct Device {
    pub id: String,
    pub tenant_id: String,
    pub name: String,
    pub os: Option<String>,
    pub architecture: Option<String>,
    pub agent_version: Option<String>,
    pub status: String,
    pub enrolled_at: Option<i64>,
    pub last_seen_at: Option<i64>,
    pub tunnel_count: u64,
    pub certificate: CertificateStatus,
}

/// How many of the first `n` services a device offers; deleted ones do not count.
pub open spec fn offered_by(services: Seq<TunnelRow>, device: Seq<char>, n: int) -> int
    decreases n,
{
    if n <= 0 {
        0
    } else {
        offered_by(services, device, n - 1) + (if text::opt(services[n - 1].device_id) == Some(
            device,
        ) && !services[n - 1].deleted {
            1int
        } else {
            0
        })
    }
}

fn count_offered(services: &Vec<TunnelRow>, device: &str) -> (r: u64)
    ensures
        r == offered_by(services@, device@, services@.len() as int),
{
    let mut count: u64 = 0;
    let mut i: usize = 0;
    while i < services.len()
        invariant
            i <= services@.len(),
            count <= i,
            count == offered_by(services@, device@, i as int),
        decreases services@.len() - i,
    {
        if is_text(&services[i].device_id, device) && !services[i].deleted {
            count = count + 1;
        }
        i = i + 1;
    }
    count
}

/// Whether a device is shown as it is stored, with the services that it offers and the state of its
/// certificate.
pub open spec fn is_device(
    shown: Device,
    row: DeviceInfo,
    services: Seq<TunnelRow>,
    now: i64,
) -> bool {
    &&& shown.id@ == row.id@
    &&& shown.tenant_id@ == row.tenant_id@
    &&& shown.name@ == row.name@
    &&& text::opt(shown.os) == text::opt(row.os)
    &&& text::opt(shown.architecture) == text::opt(row.architecture)
    &&& text::opt(shown.agent_version) == text::opt(row.agent_version)
    &&& shown.status@ == row.status@
    &&& shown.enrolled_at == row.enrolled_at
    &&& shown.last_seen_at == row.last_seen_at
    &&& shown.tunnel_count == offered_by(services, row.id@, services.len() as int)
    &&& shown.certificate.expires_at == (match row.certificate_pem {
        Some(pem) => identity::end_of(pem@),
        None => None,
    })
    &&& shown.certificate.status@ == identity::status_word(
        shown.certificate.expires_at,
        row.renewal_error is Some,
        now,
    )
    &&& shown.certificate.renew_after == identity::renewed_from(shown.certificate.expires_at)
    &&& text::opt(shown.certificate.error) == text::opt(row.renewal_error)
    &&& shown.certificate.next_retry_at == row.next_retry_at
}

/// The positions of those of the first `n` devices that belong to a workspace.
pub open spec fn devices_at(rows: Seq<DeviceInfo>, tenant: Seq<char>, n: int) -> Seq<int>
    decreases n,
{
    if n <= 0 {
        Seq::empty()
    } else if rows[n - 1].tenant_id@ == tenant {
        devices_at(rows, tenant, n - 1).push(n - 1)
    } else {
        devices_at(rows, tenant, n - 1)
    }
}

/// The devices of a workspace as they are shown, in the order in which they are stored.
pub fn list_devices(
    rows: &Vec<DeviceInfo>,
    services: &Vec<TunnelRow>,
    tenant: &str,
    now: i64,
) -> (r: Vec<Device>)
    requires
        now + RENEW_BEFORE <= i64::MAX,
    ensures
        ({
            let places = devices_at(rows@, tenant@, rows@.len() as int);
            r@.len() == places.len() && forall|i: int|
                0 <= i < places.len() ==> is_device(
                    #[trigger] r@[i],
                    rows@[places[i]],
                    services@,
                    now,
                )
        }),
{
    let mut shown: Vec<Device> = Vec::new();
    let mut i: usize = 0;
    while i < rows.len()
        invariant
            now + RENEW_BEFORE <= i64::MAX,
            i <= rows@.len(),
            shown@.len() == devices_at(rows@, tenant@, i as int).len(),
            forall|j: int|
                0 <= j < shown@.len() ==> is_device(
                    #[trigger] shown@[j],
                    rows@[devices_at(rows@, tenant@, i as int)[j]],
                    services@,
                    now,
                ),
        decreases rows@.len() - i,
    {
        let row: &DeviceInfo = &rows[i];
        if same(row.tenant_id.as_str(), tenant) {
            let pem: Option<&str> = match &row.certificate_pem {
                Some(pem) => Some(pem.as_str()),
                None => None,
            };
            let one = Device {
                id: row.id.clone(),
                tenant_id: row.tenant_id.clone(),
                name: row.name.clone(),
                os: copy_opt(&row.os),
                architecture: copy_opt(&row.architecture),
                agent_version: copy_opt(&row.agent_version),
                status: row.status.clone(),
                enrolled_at: row.enrolled_at,
                last_seen_at: row.last_seen_at,
                tunnel_count: count_offered(services, row.id.as_str()),
                certificate: device_status(
                    pem,
                    copy_opt(&row.renewal_error),
                    row.next_retry_at,
                    now,
                ),
            };
            assert(is_device(one, *row, services@, now));
            shown.push(one);
        }
        i = i + 1;
    }
    shown
}

proof fn lemma_desired_of(rows: Seq<DesiredRow>, device: Seq<char>, n: int, keep: spec_fn(int) -> bool, value: spec_fn(int) -> protocol::DesiredView)
    requires
        forall|i: int|
            0 <= i < n ==> #[trigger] keep(i) == (text::opt(rows[i].device_id) == Some(device) && !rows[i].deleted && rows[i].workspace_enabled) && value(i) == (rows[i].state@),
    ensures
        desired_of(rows, device, n) == picked::picked(keep, value, n),
    decreases n,
{
    if n > 0 {
        assert(keep(n - 1) || !keep(n - 1));
        lemma_desired_of(rows, device, n - 1, keep, value);
    }
}

/// An agent is told of the services of its own device, and of no other: of those that are not deleted
/// and whose workspace is on, each as it is stored.
pub proof fn agents_are_told_of_their_own_services(rows: Seq<DesiredRow>, device: Seq<char>)
    ensures
        forall|told: protocol::DesiredView| #[trigger]
            desired_of(rows, device, rows.len() as int).contains(told) <==> exists|i: int|
                0 <= i < rows.len() && (#[trigger] rows[i]).state@ == told && text::opt(rows[i].device_id) == Some(device) && !rows[i].deleted && rows[i].workspace_enabled,
{
    let n = rows.len() as int;
    let keep = |i: int| text::opt(rows[i].device_id) == Some(device) && !rows[i].deleted && rows[i].workspace_enabled;
    let value = |i: int| rows[i].state@;
    lemma_desired_of(rows, device, n, keep, value);
    assert forall|told: protocol::DesiredView| #[trigger] desired_of(rows, device, n).contains(told) <==> exists|i: int|
        0 <= i < rows.len() && (#[trigger] rows[i]).state@ == told && text::opt(rows[i].device_id) == Some(device) && !rows[i].deleted && rows[i].workspace_enabled by {
        picked::lemma_picked_contains(keep, value, n, told);
        if desired_of(rows, device, n).contains(told) {
            let i = choose|i: int| 0 <= i < n && #[trigger] keep(i) && value(i) == told;
            assert(rows[i] == rows[i]);
        }
        if exists|i: int| 0 <= i < rows.len() && (#[trigger] rows[i]).state@ == told && text::opt(rows[i].device_id) == Some(device) && !rows[i].deleted && rows[i].workspace_enabled {
            let i = choose|i: int| 0 <= i < rows.len() && (#[trigger] rows[i]).state@ == told && text::opt(rows[i].device_id) == Some(device) && !rows[i].deleted && rows[i].workspace_enabled;
            assert(keep(i) && value(i) == told);
        }
    }
}

proof fn lemma_listed_at(rows: Seq<TunnelRow>, tenant: Seq<char>, only: Option<Seq<char>>, n: int, keep: spec_fn(int) -> bool, value: spec_fn(int) -> int)
    requires
        forall|i: int|
            0 <= i < n ==> #[trigger] keep(i) == (rows[i].tenant_id@ == tenant && !rows[i].deleted && (only is None || only == Some(rows[i].id@))) && value(i) == (i),
    ensures
        listed_at(rows, tenant, only, n) == picked::picked(keep, value, n),
    decreases n,
{
    if n > 0 {
        assert(keep(n - 1) || !keep(n - 1));
        lemma_listed_at(rows, tenant, only, n - 1, keep, value);
    }
}

/// A user sees the services of the workspace that are not deleted, or the one asked for: each of them,
/// and no other.
pub proof fn users_see_the_services_of_their_workspace(rows: Seq<TunnelRow>, tenant: Seq<char>, only: Option<Seq<char>>)
    ensures
        forall|place: int| #[trigger]
            listed_at(rows, tenant, only, rows.len() as int).contains(place) <==> exists|i: int|
                0 <= i < rows.len() && (#[trigger] rows[i]).tenant_id@ == tenant && i == place && !rows[i].deleted && (only is None || only == Some(rows[i].id@)),
{
    let n = rows.len() as int;
    let keep = |i: int| rows[i].tenant_id@ == tenant && !rows[i].deleted && (only is None || only == Some(rows[i].id@));
    let value = |i: int| i;
    lemma_listed_at(rows, tenant, only, n, keep, value);
    assert forall|place: int| #[trigger] listed_at(rows, tenant, only, n).contains(place) <==> exists|i: int|
        0 <= i < rows.len() && (#[trigger] rows[i]).tenant_id@ == tenant && i == place && !rows[i].deleted && (only is None || only == Some(rows[i].id@)) by {
        picked::lemma_picked_contains(keep, value, n, place);
        if listed_at(rows, tenant, only, n).contains(place) {
            let i = choose|i: int| 0 <= i < n && #[trigger] keep(i) && value(i) == place;
            assert(rows[i] == rows[i]);
        }
        if exists|i: int| 0 <= i < rows.len() && (#[trigger] rows[i]).tenant_id@ == tenant && i == place && !rows[i].deleted && (only is None || only == Some(rows[i].id@)) {
            let i = choose|i: int| 0 <= i < rows.len() && (#[trigger] rows[i]).tenant_id@ == tenant && i == place && !rows[i].deleted && (only is None || only == Some(rows[i].id@));
            assert(keep(i) && value(i) == place);
        }
    }
}

/// What is shown of a service is what is stored of it, field by field, with its public address: the
/// host of the request and the public port for TCP, else the protocol and the host name.
pub proof fn services_are_shown_as_they_are_stored(
    shown: Tunnel,
    row: TunnelRow,
    header: Option<Seq<char>>,
)
    requires
        is_shown(shown, row, header),
    ensures
        shown.id@ == row.id@,
        shown.tenant_id@ == row.tenant_id@,
        text::opt(shown.device_id) == text::opt(row.device_id),
        text::opt(shown.device_name) == text::opt(row.device_name),
        shown.name@ == row.name@,
        shown.protocol@ == row.protocol@,
        shown.local_address@ == row.local_address@,
        shown.local_port == row.local_port,
        shown.public_port == row.public_port,
        text::opt(shown.hostname) == text::opt(row.hostname),
        shown.enabled == row.enabled,
        shown.apply_status@ == row.apply_status@,
        text::opt(shown.apply_error) == text::opt(row.apply_error),
        shown.apply_revision == row.apply_revision,
        text::opt(shown.public_domain) == text::opt(row.public_domain),
        !shown.deletion_pending,
        row.protocol@ == "tcp"@ ==> (shown.public_address matches Some(address) ==> row.public_port
            is Some && header is Some && authority_host_of(header->0) is Some && address@
            == authority_host_of(header->0)->0 + ":"@ + number::decimal(
            row.public_port->0 as nat,
        )),
        row.protocol@ == "tcp"@ && row.public_port is Some && header is Some && authority_host_of(
            header->0,
        ) is Some ==> shown.public_address is Some,
        row.protocol@ != "tcp"@ ==> (shown.public_address is Some <==> row.hostname is Some
            && row.public_domain is Some),
        row.protocol@ != "tcp"@ ==> (shown.public_address matches Some(address) ==> address@
            == row.protocol@ + "://"@ + row.hostname->0@ + "."@ + row.public_domain->0@),
{
}

proof fn lemma_devices_at(rows: Seq<DeviceInfo>, tenant: Seq<char>, n: int, keep: spec_fn(int) -> bool, value: spec_fn(int) -> int)
    requires
        forall|i: int|
            0 <= i < n ==> #[trigger] keep(i) == (rows[i].tenant_id@ == tenant) && value(i) == (i),
    ensures
        devices_at(rows, tenant, n) == picked::picked(keep, value, n),
    decreases n,
{
    if n > 0 {
        assert(keep(n - 1) || !keep(n - 1));
        lemma_devices_at(rows, tenant, n - 1, keep, value);
    }
}

/// A user sees the devices of the workspace: each of them, and no other.
pub proof fn users_see_the_devices_of_their_workspace(rows: Seq<DeviceInfo>, tenant: Seq<char>)
    ensures
        forall|place: int| #[trigger]
            devices_at(rows, tenant, rows.len() as int).contains(place) <==> exists|i: int|
                0 <= i < rows.len() && (#[trigger] rows[i]).tenant_id@ == tenant && i == place,
{
    let n = rows.len() as int;
    let keep = |i: int| rows[i].tenant_id@ == tenant;
    let value = |i: int| i;
    lemma_devices_at(rows, tenant, n, keep, value);
    assert forall|place: int| #[trigger] devices_at(rows, tenant, n).contains(place) <==> exists|i: int|
        0 <= i < rows.len() && (#[trigger] rows[i]).tenant_id@ == tenant && i == place by {
        picked::lemma_picked_contains(keep, value, n, place);
        if devices_at(rows, tenant, n).contains(place) {
            let i = choose|i: int| 0 <= i < n && #[trigger] keep(i) && value(i) == place;
            assert(rows[i] == rows[i]);
        }
        if exists|i: int| 0 <= i < rows.len() && (#[trigger] rows[i]).tenant_id@ == tenant && i == place {
            let i = choose|i: int| 0 <= i < rows.len() && (#[trigger] rows[i]).tenant_id@ == tenant && i == place;
            assert(keep(i) && value(i) == place);
        }
    }
}

/// What is shown of a device is what is stored of it, with the state of its certificate.
pub proof fn devices_are_shown_as_they_are_stored(
    shown: Device,
    row: DeviceInfo,
    services: Seq<TunnelRow>,
    now: i64,
)
    requires
        is_device(shown, row, services, now),
    ensures
        shown.id@ == row.id@,
        shown.tenant_id@ == row.tenant_id@,
        shown.name@ == row.name@,
        shown.status@ == row.status@,
        text::opt(shown.os) == text::opt(row.os),
        text::opt(shown.architecture) == text::opt(row.architecture),
        text::opt(shown.agent_version) == text::opt(row.agent_version),
        shown.enrolled_at == row.enrolled_at,
        shown.last_seen_at == row.last_seen_at,
        shown.tunnel_count == offered_by(services, row.id@, services.len() as int),
        row.certificate_pem is None ==> shown.certificate.status@ == "unknown"@,
        row.certificate_pem matches Some(pem) ==> (crate::x509::info_of(pem@) matches Ok(info) ==> {
            &&& shown.certificate.expires_at == Some(info.1)
            &&& shown.certificate.renew_after == Some((info.1 - RENEW_BEFORE) as i64)
            &&& info.1 <= now ==> shown.certificate.status@ == "expired"@
            &&& info.1 > now && row.renewal_error is Some ==> shown.certificate.status@
                == "retry_wait"@
            &&& info.1 > now + RENEW_BEFORE && row.renewal_error is None
                ==> shown.certificate.status@ == "valid"@
        }),
        text::opt(shown.certificate.error) == text::opt(row.renewal_error),
        shown.certificate.next_retry_at == row.next_retry_at,
{
}

/// The services of a device are counted once each: one more with each service of the device that is
/// not deleted, and no more with any other.
pub proof fn services_of_a_device_are_counted(
    services: Seq<TunnelRow>,
    one: TunnelRow,
    device: Seq<char>,
)
    ensures
        offered_by(Seq::<TunnelRow>::empty(), device, 0) == 0,
        offered_by(services.push(one), device, services.len() as int + 1) == offered_by(
            services,
            device,
            services.len() as int,
        ) + (if one.device_id matches Some(own) && own@ == device && !one.deleted {
            1int
        } else {
            0
        }),
{
    lemma_same_count(services, one, device, services.len() as int);
}

proof fn lemma_same_count(services: Seq<TunnelRow>, one: TunnelRow, device: Seq<char>, n: int)
    requires
        n <= services.len(),
    ensures
        offered_by(services.push(one), device, n) == offered_by(services, device, n),
    decreases n,
{
    if n > 0 {
        lemma_same_count(services, one, device, n - 1);
    }
}

/// A TCP service is reached at the host of the request and its port, a web service under its own
/// name; where a part of the address is missing, there is none.
pub proof fn services_are_reached_at_their_address(
    protocol: Seq<char>,
    port: Option<u16>,
    hostname: Option<Seq<char>>,
    domain: Option<Seq<char>>,
    host: Option<Seq<char>>,
)
    ensures
        ({
            let address = address_of(protocol, port, hostname, domain, host);
            &&& protocol == "tcp"@ ==> (address is Some <==> port is Some && host is Some)
            &&& protocol == "tcp"@ && address is Some ==> address == Some(
                host->0 + ":"@ + number::decimal(port->0 as nat),
            )
            &&& protocol != "tcp"@ ==> (address is Some <==> hostname is Some && domain is Some)
            &&& protocol != "tcp"@ && address is Some ==> address == Some(
                protocol + "://"@ + hostname->0 + "."@ + domain->0,
            )
        }),
{
}

/// A service that is switched is on or off as asked, in the next revision.
pub proof fn services_are_switched_as_asked(state: &mut TunnelState, enabled: bool)
    requires
        call_ensures(TunnelState::toggled, (state, enabled), ()),
    ensures
        final(state)@.enabled == enabled,
        final(state)@.apply_revision == old(state)@.apply_revision + 1,
        final(state)@.deleted == old(state)@.deleted,
{
}

/// A service of a recovered device keeps whether it is on and is in the next revision; a deleted one
/// stays as it is.
pub proof fn recovered_services_stay_switched(state: &mut TunnelState)
    requires
        call_ensures(TunnelState::recovered, (state,), ()),
    ensures
        final(state)@.enabled == old(state)@.enabled,
        final(state)@.deleted == old(state)@.deleted,
        old(state)@.deleted ==> final(state)@ == old(state)@,
        !old(state)@.deleted ==> final(state)@.apply_revision == old(state)@.apply_revision + 1,
        !old(state)@.deleted && old(state)@.enabled ==> final(state)@.apply_status == "checking"@,
        !old(state)@.deleted && !old(state)@.enabled ==> final(state)@.apply_status
            == "disabled"@,
{
}

/// A changed service is on unless it is asked to be off, and is checked in the next revision.
pub proof fn changed_services_are_checked(state: &mut TunnelState, enabled: Option<bool>)
    requires
        call_ensures(TunnelState::changed, (state, enabled), ()),
    ensures
        enabled == Some(false) ==> !final(state)@.enabled,
        enabled != Some(false) ==> final(state)@.enabled,
        final(state)@.apply_status == "checking"@,
        final(state)@.apply_revision == old(state)@.apply_revision + 1,
        final(state)@.deleted == old(state)@.deleted,
{
}

/// A deleted service is off and deleted in the next revision.
pub proof fn deleted_services_are_off(state: &mut TunnelState)
    requires
        call_ensures(TunnelState::deleted, (state,), ()),
    ensures
        final(state)@.deleted,
        !final(state)@.enabled,
        final(state)@.apply_status == "disabled"@,
        final(state)@.apply_revision == old(state)@.apply_revision + 1,
{
}

/// A service whose device is deleted is off in the next revision, and is not deleted with it.
pub proof fn detached_services_are_off(state: &mut TunnelState)
    requires
        call_ensures(TunnelState::detached, (state,), ()),
    ensures
        final(state)@.deleted == old(state)@.deleted,
        !final(state)@.enabled,
        final(state)@.apply_status == "disabled"@,
        final(state)@.apply_revision == old(state)@.apply_revision + 1,
{
}

/// A service is changed for the workspace that has it, while it is not deleted.
pub proof fn services_are_changed_by_their_workspace(
    tunnels: &Vec<TunnelKey>,
    id: &str,
    tenant: &str,
    r: Result<(), ApiError>,
)
    requires
        call_ensures(require_service, (tunnels, id, tenant), r),
    ensures
        r is Ok <==> exists|i: int|
            0 <= i < tunnels@.len() && (#[trigger] tunnels@[i]).id@ == id@
                && tunnels@[i].tenant_id@ == tenant@ && !tunnels@[i].deleted,
        r matches Err(e) ==> e.status == 404,
{
    if service_there(tunnels@, id@, tenant@) {
        let i = choose|i: int|
            0 <= i < tunnels@.len() && (#[trigger] tunnels@[i]).id@ == id@
                && tunnels@[i].tenant_id@ == tenant@ && !tunnels@[i].deleted;
        assert(tunnels@[i].id@ == id@);
    }
}

} // verus!
