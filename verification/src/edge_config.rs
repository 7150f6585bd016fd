//! The configuration of the edge process: the routes and the certificates of the public domains.
use serde_json::Value;
use vstd::prelude::*;

use crate::caddy::CaddyRuntimeConfig;
use crate::domains;
use crate::domains::{normalize_domain, DnsSettings};
use crate::ip;
use crate::ip::{format_socket, parse_ip, IpAddr, SocketAddr};
use crate::json;
use crate::json::{
    array1, json_array, json_bool, json_number, json_object, json_text, json_texts, object1,
    object2, object3, Json,
};
use crate::order;
use crate::order::sort_unique;
use crate::text;
use crate::text::{holds, join2, join3, same, split_once, unbracket};
use crate::url;
use crate::url::{parse_url, UrlParts};

verus! {

/// A service that the edge serves under a host name.
#[derive(Debug, Clone)]
pub struct WebService {
    pub hostname: String,
    pub protocol: String,
    pub upstream: Option<String>,
}

/// A public domain with what is served under it.
#[derive(Debug, Clone)]
pub struct DomainSpec {
    pub id: String,
    pub tenant_id: String,
    pub name: String,
    pub https: bool,
    pub token_reference: Option<String>,
    pub certificate_mode: String,
    pub dns: DnsSettings,
    pub services: Vec<WebService>,
}

/// A service that the edge serves.
pub ghost struct ServiceView {
    pub hostname: Seq<char>,
    pub protocol: Seq<char>,
    pub upstream: Option<Seq<char>>,
}

/// A public domain with what is served under it.
pub ghost struct DomainView {
    pub id: Seq<char>,
    pub tenant: Seq<char>,
    pub name: Seq<char>,
    pub https: bool,
    pub token: Option<Seq<char>>,
    pub mode: Seq<char>,
    pub resolvers: Seq<Seq<char>>,
    pub delay: Option<u32>,
    pub timeout: Option<u32>,
    pub services: Seq<ServiceView>,
}

impl View for WebService {
    type V = ServiceView;

    open spec fn view(&self) -> ServiceView {
        ServiceView {
            hostname: self.hostname@,
            protocol: self.protocol@,
            upstream: text::opt(self.upstream),
        }
    }
}

impl View for DomainSpec {
    type V = DomainView;

    open spec fn view(&self) -> DomainView {
        DomainView {
            id: self.id@,
            tenant: self.tenant_id@,
            name: self.name@,
            https: self.https,
            token: text::opt(self.token_reference),
            mode: self.certificate_mode@,
            resolvers: text::views(self.dns.dns_resolvers@),
            delay: self.dns.dns_propagation_delay_seconds,
            timeout: self.dns.dns_propagation_timeout_seconds,
            services: Seq::new(self.services@.len(), |i: int| self.services@[i]@),
        }
    }
}

/// The domains of a list.
pub open spec fn domain_views(list: Seq<DomainSpec>) -> Seq<DomainView> {
    Seq::new(list.len(), |i: int| list[i]@)
}

impl ServiceView {
    /// Whether the service is served over HTTPS.
    pub open spec fn secure(self) -> bool {
        self.protocol == "https"@
    }
}

/// The wildcard name for what stands beside a host name, where it has a parent.
pub open spec fn wildcard_of(hostname: Seq<char>) -> Option<Seq<char>> {
    match text::cut_at(hostname, '.') {
        Some(cut) => Some("*."@ + cut.1),
        None => None,
    }
}

/// Whether a domain needs a certificate for a name. With the HTTP challenge each host name has its
/// own; otherwise the domain has its own, and those below share one for each parent.
pub open spec fn needs_subject(domain: DomainView, name: Seq<char>) -> bool {
    domain.https && (name == domain.name || (if domain.mode == "http01"@ {
        exists|i: int|
            0 <= i < domain.services.len() && (#[trigger] domain.services[i]).secure()
                && domain.services[i].hostname == name
    } else {
        name == "*."@ + domain.name || exists|i: int|
            0 <= i < domain.services.len() && (#[trigger] domain.services[i]).secure()
                && wildcard_of(domain.services[i].hostname) == Some(name)
    }))
}

/// Whether a list is that of the names that a domain needs certificates for: in order, each once.
pub open spec fn is_subject_list(domain: DomainView, list: Seq<Seq<char>>) -> bool {
    order::ordered(list) && forall|name: Seq<char>| #[trigger]
        list.contains(name) <==> needs_subject(domain, name)
}

/// The names that a domain needs certificates for, in order.
pub open spec fn subject_list(domain: DomainView) -> Seq<Seq<char>> {
    choose|list: Seq<Seq<char>>| is_subject_list(domain, list)
}

/// There is one such list.
pub proof fn lemma_subject_list(domain: DomainView, list: Seq<Seq<char>>)
    requires
        is_subject_list(domain, list),
    ensures
        list == subject_list(domain),
        is_subject_list(domain, subject_list(domain)),
{
    let chosen = subject_list(domain);
    assert forall|t: Seq<char>| list.contains(t) <==> chosen.contains(t) by {
        assert(list.contains(t) <==> needs_subject(domain, t));
        assert(chosen.contains(t) <==> needs_subject(domain, t));
    }
    order::lemma_ordered_unique(list, chosen);
}

/// Whether a certificate for a name serves a host name: the name itself, or the wildcard beside
/// which the host name stands.
pub open spec fn covered(subject: Seq<char>, hostname: Seq<char>) -> bool {
    subject == hostname || (text::after_prefix(subject, "*."@) matches Some(suffix)
        && text::cut_at(hostname, '.') matches Some(cut) && cut.1 == suffix)
}

/// Whether a certificate for a name serves a host name.
pub fn covers(subject: &str, hostname: &str) -> (r: bool)
    ensures
        r == covered(subject@, hostname@),
{
    if same(subject, hostname) {
        return true;
    }
    match text::strip_prefix(subject, "*.") {
        Some(suffix) => match split_once(hostname, '.') {
            Some((_, rest)) => same(rest.as_str(), suffix.as_str()),
            None => false,
        },
        None => false,
    }
}

impl DomainSpec {
    /// The names that the domain needs certificates for, in order, each once.
    pub fn subjects(&self) -> (r: Vec<String>)
        ensures
            is_subject_list(self@, text::views(r@)),
            text::views(r@) == subject_list(self@),
    {
        let mut hosts: Vec<String> = Vec::new();
        if self.https {
            let single: bool = same(self.certificate_mode.as_str(), "http01");
            hosts.push(self.name.clone());
            if !single {
                hosts.push(join2("*.", self.name.as_str()));
            }
            proof {
                if single {
                    assert(text::views(hosts@) =~= seq![self.name@]);
                } else {
                    assert(text::views(hosts@) =~= seq![self.name@, "*."@ + self.name@]);
                    assert(text::views(hosts@)[1] == "*."@ + self.name@);
                }
                assert(text::views(hosts@)[0] == self.name@);
            }
            let mut i: usize = 0;
            while i < self.services.len()
                invariant
                    i <= self.services@.len(),
                    self.https,
                    single == (self.certificate_mode@ == "http01"@),
                    forall|t: Seq<char>| #[trigger]
                        text::views(hosts@).contains(t) <==> self.needs_among(t, i as int),
                decreases self.services@.len() - i,
            {
                let ghost before = text::views(hosts@);
                let ghost service = self@.services[i as int];
                assert(service == self.services@[i as int]@);
                let ghost mut added: Option<Seq<char>> = None;
                if same(self.services[i].protocol.as_str(), "https") {
                    if single {
                        proof {
                            added = Some(service.hostname);
                        }
                        hosts.push(self.services[i].hostname.clone());
                    } else if let Some((_, parent)) = split_once(
                        self.services[i].hostname.as_str(),
                        '.',
                    ) {
                        proof {
                            added = Some("*."@ + parent@);
                        }
                        hosts.push(join2("*.", parent.as_str()));
                    }
                }
                proof {
                    let after = text::views(hosts@);
                    if added is Some {
                        assert(after =~= before.push(added->0));
                    }
                    assert forall|t: Seq<char>| #[trigger]
                        after.contains(t) <==> self.needs_among(t, i + 1) by {
                        assert(before.contains(t) <==> self.needs_among(t, i as int));
                        if added is Some {
                            if before.contains(t) {
                                let k = choose|k: int| 0 <= k < before.len() && before[k] == t;
                                assert(after[k] == t);
                            }
                            assert(after[before.len() as int] == added->0);
                            if after.contains(t) {
                                let k = choose|k: int| 0 <= k < after.len() && after[k] == t;
                                if k < before.len() {
                                    assert(before[k] == t);
                                }
                            }
                        }
                        if self.needs_among(t, i + 1) && !self.needs_among(t, i as int) {
                            assert(added == Some(t));
                        }
                    }
                }
                i = i + 1;
            }
        }
        let sorted: Vec<String> = sort_unique(&hosts);
        proof {
            let list = text::views(sorted@);
            assert forall|t: Seq<char>| #[trigger] list.contains(t) <==> needs_subject(self@, t) by {
                assert(list.contains(t) <==> text::views(hosts@).contains(t));
                if !self.https {
                    assert(text::views(hosts@).len() == 0);
                } else {
                    assert(text::views(hosts@).contains(t) <==> self.needs_among(
                        t,
                        self.services@.len() as int,
                    ));
                    assert(self@.services.len() == self.services@.len());
                }
            }
            lemma_subject_list(self@, list);
        }
        sorted
    }

    spec fn needs_among(&self, name: Seq<char>, n: int) -> bool {
        name == self.name@ || (if self.certificate_mode@ == "http01"@ {
            exists|i: int|
                0 <= i < n && (#[trigger] self@.services[i]).secure()
                    && self@.services[i].hostname == name
        } else {
            name == "*."@ + self.name@ || exists|i: int|
                0 <= i < n && (#[trigger] self@.services[i]).secure() && wildcard_of(
                    self@.services[i].hostname,
                ) == Some(name)
        })
    }
}

/// Every service over HTTPS is served by one of the certificates of its domain.
pub proof fn every_secure_service_is_covered(
    domain: DomainView,
    subjects: Seq<Seq<char>>,
    k: int,
)
    requires
        is_subject_list(domain, subjects),
        domain.https,
        0 <= k < domain.services.len(),
        domain.services[k].secure(),
        domain.services[k].hostname.contains('.'),
    ensures
        exists|i: int|
            0 <= i < subjects.len() && covered(#[trigger] subjects[i], domain.services[k].hostname),
{
    let host = domain.services[k].hostname;
    let name = if domain.mode == "http01"@ {
        host
    } else {
        wildcard_of(host)->0
    };
    assert(needs_subject(domain, name));
    assert(subjects.contains(name));
    let i = choose|i: int| 0 <= i < subjects.len() && subjects[i] == name;
    reveal_strlit("*.");
    let rest = (text::cut_at(host, '.')->0).1;
    assert(("*."@ + rest).take(2) =~= "*."@);
    assert(("*."@ + rest).skip(2) =~= rest);
    assert(covered(subjects[i], host));
}

/// With shared certificates, a service beside another one needs no further certificate.
pub proof fn siblings_share_a_certificate(domain: DomainView, k: int, service: ServiceView)
    requires
        domain.mode != "http01"@,
        0 <= k < domain.services.len(),
        domain.services[k].secure(),
        wildcard_of(service.hostname) == wildcard_of(domain.services[k].hostname),
    ensures
        forall|name: Seq<char>|
            needs_subject(
                DomainView { services: domain.services.push(service), ..domain },
                name,
            ) <==> #[trigger] needs_subject(domain, name),
{
    let more = DomainView { services: domain.services.push(service), ..domain };
    assert forall|name: Seq<char>|
        needs_subject(more, name) <==> #[trigger] needs_subject(domain, name) by {
        if needs_subject(domain, name) {
            assert forall|i: int| 0 <= i < domain.services.len() implies more.services[i]
                == #[trigger] domain.services[i] by {}
        }
        if needs_subject(more, name) && name != domain.name && name != "*."@ + domain.name {
            let i = choose|i: int|
                0 <= i < more.services.len() && (#[trigger] more.services[i]).secure()
                    && wildcard_of(more.services[i].hostname) == Some(name);
            if i < domain.services.len() {
                assert(domain.services[i] == more.services[i]);
            } else {
                assert(domain.services[k].secure());
            }
        }
        if needs_subject(domain, name) && name != domain.name && name != "*."@ + domain.name {
            let i = choose|i: int|
                0 <= i < domain.services.len() && (#[trigger] domain.services[i]).secure()
                    && wildcard_of(domain.services[i].hostname) == Some(name);
            assert(more.services[i].secure());
        }
    }
}

/// Why a configuration cannot be made.
#[derive(Debug, Clone, PartialEq, Eq)]
pub enum ConfigError {
    /// A domain has no valid name.
    InvalidDomain,
    /// A domain is there twice.
    RepeatedDomain,
    /// A service has no valid host name, or one that is taken.
    InvalidService,
    /// The address for administration is no URL, with the reason.
    AdminUrl(String),
    /// The address for administration names no IP address.
    AdminAddress,
    /// The address for administration is not one of this machine.
    AdminExposed,
}

/// Why a configuration cannot be made, as mathematics.
pub enum ConfigFault {
    InvalidDomain,
    RepeatedDomain,
    InvalidService,
    AdminUrl(Seq<char>),
    AdminAddress,
    AdminExposed,
}

impl View for ConfigError {
    type V = ConfigFault;

    open spec fn view(&self) -> ConfigFault {
        match *self {
            ConfigError::InvalidDomain => ConfigFault::InvalidDomain,
            ConfigError::RepeatedDomain => ConfigFault::RepeatedDomain,
            ConfigError::InvalidService => ConfigFault::InvalidService,
            ConfigError::AdminUrl(message) => ConfigFault::AdminUrl(message@),
            ConfigError::AdminAddress => ConfigFault::AdminAddress,
            ConfigError::AdminExposed => ConfigFault::AdminExposed,
        }
    }
}

impl ConfigFault {
    /// The message for the user.
    pub open spec fn text(self) -> Seq<char> {
        match self {
            ConfigFault::InvalidDomain => "域名格式无效，请修改域名配置"@,
            ConfigFault::RepeatedDomain => "存在重复的公网域名，请检查域名配置"@,
            ConfigFault::InvalidService => "服务主机名无效或重复，请检查服务配置"@,
            ConfigFault::AdminUrl(message) => message,
            ConfigFault::AdminAddress => "Caddy 管理接口必须使用本机回环 IP"@,
            ConfigFault::AdminExposed => "Caddy 管理接口只允许本机回环 HTTP 地址"@,
        }
    }
}

impl ConfigError {
    /// The message for the user.
    pub fn message(&self) -> (r: String)
        ensures
            r@ == self@.text(),
    {
        match self {
            ConfigError::AdminUrl(message) => message.clone(),
            ConfigError::InvalidDomain => "域名格式无效，请修改域名配置".to_owned(),
            ConfigError::RepeatedDomain => "存在重复的公网域名，请检查域名配置".to_owned(),
            ConfigError::InvalidService => "服务主机名无效或重复，请检查服务配置".to_owned(),
            ConfigError::AdminAddress => "Caddy 管理接口必须使用本机回环 IP".to_owned(),
            ConfigError::AdminExposed => "Caddy 管理接口只允许本机回环 HTTP 地址".to_owned(),
        }
    }
}

/// The address on which the edge process is administered: only one of this machine, over HTTP, is
/// permitted.
pub open spec fn admin_address(parts: Result<url::UrlView, Seq<char>>) -> Result<
    Seq<char>,
    ConfigFault,
> {
    match parts {
        Err(message) => Err(ConfigFault::AdminUrl(message)),
        Ok(parts) => match ip::ip_of(
            text::unbracketed(
                match parts.host {
                    Some(host) => host,
                    None => Seq::empty(),
                },
            ),
        ) {
            None => Err(ConfigFault::AdminAddress),
            Some(ip) => if ip.loopback() && parts.scheme == "http"@ && parts.username.len() == 0
                && !parts.has_password && (parts.path.len() == 0 || parts.path == "/"@)
                && !parts.has_query {
                Ok(
                    ip::socket_text(
                        SocketAddr {
                            ip,
                            port: match parts.port {
                                Some(port) => port,
                                None => 8290,
                            },
                            scope: 0,
                        },
                    ),
                )
            } else {
                Err(ConfigFault::AdminExposed)
            },
        },
    }
}

/// The address on which the edge process is administered, given the parts of its URL.
pub fn admin_of(parts: Result<UrlParts, String>) -> (r: Result<String, ConfigError>)
    ensures
        match r {
            Ok(address) => admin_address(url::read_of(parts)) == Ok::<Seq<char>, ConfigFault>(
                address@,
            ),
            Err(e) => admin_address(url::read_of(parts)) == Err::<Seq<char>, ConfigFault>(e@),
        },
{
    let parts: UrlParts = match parts {
        Ok(parts) => parts,
        Err(message) => {
            return Err(ConfigError::AdminUrl(message));
        },
    };
    let host: String = match &parts.host {
        Some(host) => unbracket(host.as_str()),
        None => unbracket(""),
    };
    proof {
        reveal_strlit("");
        assert(""@ =~= Seq::<char>::empty());
    }
    let ip: IpAddr = match parse_ip(host.as_str()) {
        Some(ip) => ip,
        None => {
            return Err(ConfigError::AdminAddress);
        },
    };
    if !(ip.is_loopback() && same(parts.scheme.as_str(), "http")
        && parts.username.as_str().is_empty() && !parts.has_password && (
    parts.path.as_str().is_empty() || same(parts.path.as_str(), "/")) && !parts.has_query) {
        return Err(ConfigError::AdminExposed);
    }
    let port: u16 = match parts.port {
        Some(port) => port,
        None => 8290,
    };
    Ok(format_socket(&SocketAddr { ip, port, scope: 0 }))
}

/// The address on which the edge process is administered.
pub fn admin_listen(settings: &CaddyRuntimeConfig) -> (r: Result<String, ConfigError>)
    ensures
        match r {
            Ok(address) => admin_address(url::url_of(settings.admin_url@)) == Ok::<
                Seq<char>,
                ConfigFault,
            >(address@),
            Err(e) => admin_address(url::url_of(settings.admin_url@)) == Err::<
                Seq<char>,
                ConfigFault,
            >(e@),
        },
{
    admin_of(parse_url(settings.admin_url.as_str()))
}

/// The host names that the first `n` services take.
pub open spec fn hosts_of(services: Seq<ServiceView>, n: int) -> Seq<Seq<char>> {
    Seq::new(n as nat, |i: int| services[i].hostname)
}

/// The names that the first `n` domains and their services take.
pub open spec fn taken(domains: Seq<DomainView>, n: int) -> Seq<Seq<char>>
    decreases n,
{
    if n <= 0 {
        Seq::empty()
    } else {
        let domain = domains[n - 1];
        taken(domains, n - 1).push(domain.name) + hosts_of(
            domain.services,
            domain.services.len() as int,
        )
    }
}

/// Whether the services from position `i` on have valid host names that nothing takes.
pub open spec fn services_fit(
    services: Seq<ServiceView>,
    i: int,
    before: Seq<Seq<char>>,
) -> bool
    decreases services.len() - i,
{
    if i < 0 || i >= services.len() {
        true
    } else {
        domains::domain_of(services[i].hostname) is Some && !(before + hosts_of(
            services,
            i,
        )).contains(services[i].hostname) && services_fit(services, i + 1, before)
    }
}

/// Why the domains from position `k` on cannot be configured, if they cannot: the first that is
/// wrong.
pub open spec fn domains_fault(domains: Seq<DomainView>, k: int) -> Option<ConfigFault>
    decreases domains.len() - k,
{
    if k < 0 || k >= domains.len() {
        None
    } else {
        let domain = domains[k];
        let before = taken(domains, k);
        if domains::domain_of(domain.name) is None {
            Some(ConfigFault::InvalidDomain)
        } else if before.contains(domain.name) {
            Some(ConfigFault::RepeatedDomain)
        } else if !services_fit(domain.services, 0, before.push(domain.name)) {
            Some(ConfigFault::InvalidService)
        } else {
            domains_fault(domains, k + 1)
        }
    }
}

/// What answers with a status and no body.
pub open spec fn status_handler(code: u64) -> Json {
    Json::Object(
        seq![
            ("handler"@, Json::Text("static_response"@)),
            ("status_code"@, Json::Unsigned(code)),
        ],
    )
}

/// What answers for a service: its tunnel, or a notice that there is none.
pub open spec fn service_handler(service: ServiceView) -> Json {
    match service.upstream {
        Some(upstream) => Json::Object(
            seq![
                ("handler"@, Json::Text("reverse_proxy"@)),
                (
                    "upstreams"@,
                    Json::Array(seq![Json::Object(seq![("dial"@, Json::Text(upstream))])]),
                ),
                ("stream_close_delay"@, Json::Unsigned(300000000000)),
            ],
        ),
        None => Json::Object(
            seq![
                ("handler"@, Json::Text("static_response"@)),
                ("status_code"@, Json::Unsigned(503)),
                ("body"@, Json::Text("服务转发通道尚未就绪"@)),
            ],
        ),
    }
}

/// The route for a host name.
pub open spec fn host_route(host: Seq<char>, handler: Json) -> Json {
    Json::Object(
        seq![
            (
                "match"@,
                Json::Array(
                    seq![Json::Object(seq![("host"@, Json::Array(seq![Json::Text(host)]))])],
                ),
            ),
            ("handle"@, Json::Array(seq![handler])),
        ],
    )
}

/// The route for every other host name.
pub open spec fn last_route() -> Json {
    Json::Object(seq![("handle"@, Json::Array(seq![status_handler(404)]))])
}

/// What sends the requests for a host over to HTTPS for good: the same host and the same path.
pub open spec fn redirect_handler(host: Seq<char>) -> Json {
    Json::Object(
        seq![
            ("handler"@, Json::Text("static_response"@)),
            ("status_code"@, Json::Unsigned(308)),
            (
                "headers"@,
                Json::Object(
                    seq![
                        (
                            "Location"@,
                            Json::Array(
                                seq![Json::Text("https://"@ + host + "{http.request.uri}"@)],
                            ),
                        ),
                    ],
                ),
            ),
        ],
    )
}

/// The routes of the first `n` services, over HTTPS or not. A service over HTTPS has none where its
/// domain has no HTTPS; else its host is sent there from HTTP.
pub open spec fn service_routes(domain: DomainView, n: int, secure: bool) -> Seq<Json>
    decreases n,
{
    if n <= 0 {
        Seq::empty()
    } else {
        let service = domain.services[n - 1];
        let before = service_routes(domain, n - 1, secure);
        if service.secure() && !domain.https {
            before
        } else if service.secure() == secure {
            before.push(host_route(service.hostname, service_handler(service)))
        } else if service.secure() {
            before.push(host_route(service.hostname, redirect_handler(service.hostname)))
        } else {
            before
        }
    }
}

/// The routes of the first `n` domains, over HTTPS or not. The domain itself answers that nothing
/// is there.
pub open spec fn domain_routes(domains: Seq<DomainView>, n: int, secure: bool) -> Seq<Json>
    decreases n,
{
    if n <= 0 {
        Seq::empty()
    } else {
        let domain = domains[n - 1];
        let before = domain_routes(domains, n - 1, secure);
        (if domain.https == secure {
            before.push(host_route(domain.name, status_handler(404)))
        } else {
            before
        }) + service_routes(domain, domain.services.len() as int, secure)
    }
}

/// The names that the first `n` domains need certificates for.
pub open spec fn all_subjects(domains: Seq<DomainView>, n: int) -> Seq<Seq<char>>
    decreases n,
{
    if n <= 0 {
        Seq::empty()
    } else {
        all_subjects(domains, n - 1) + subject_list(domains[n - 1])
    }
}

/// Seconds as nanoseconds.
pub open spec fn nanoseconds(seconds: u32) -> Json {
    Json::Unsigned((seconds * 1000000000) as u64)
}

/// The DNS challenge of a domain.
pub open spec fn dns_challenge(domain: DomainView, token: Seq<char>) -> Json {
    let provider = seq![
        (
            "provider"@,
            Json::Object(
                seq![("name"@, Json::Text("cloudflare"@)), ("api_token"@, Json::Text(token))],
            ),
        ),
    ];
    let resolvers = if domain.resolvers.len() > 0 {
        provider.push(("resolvers"@, json::text_array(domain.resolvers)))
    } else {
        provider
    };
    let delay = match domain.delay {
        Some(seconds) => resolvers.push(("propagation_delay"@, nanoseconds(seconds))),
        None => resolvers,
    };
    Json::Object(
        match domain.timeout {
            Some(seconds) => delay.push(("propagation_timeout"@, nanoseconds(seconds))),
            None => delay,
        },
    )
}

/// The policy for some names with a challenge.
pub open spec fn acme_policy(subjects: Seq<Seq<char>>, challenges: Json) -> Json {
    Json::Object(
        seq![
            ("subjects"@, json::text_array(subjects)),
            (
                "issuers"@,
                Json::Array(
                    seq![
                        Json::Object(
                            seq![("module"@, Json::Text("acme"@)), ("challenges"@, challenges)],
                        ),
                    ],
                ),
            ),
        ],
    )
}

/// The policy of a domain: the HTTP challenge alone, or the DNS challenge where there is a
/// credential for it.
pub open spec fn policy_of(domain: DomainView) -> Option<Json> {
    if !domain.https {
        None
    } else if domain.mode == "http01"@ {
        Some(
            acme_policy(
                subject_list(domain),
                Json::Object(
                    seq![("tls-alpn"@, Json::Object(seq![("disabled"@, Json::Bool(true))]))],
                ),
            ),
        )
    } else {
        match domain.token {
            Some(token) => Some(
                acme_policy(
                    subject_list(domain),
                    Json::Object(seq![("dns"@, dns_challenge(domain, token))]),
                ),
            ),
            None => None,
        }
    }
}

/// The policies of the first `n` domains.
pub open spec fn all_policies(domains: Seq<DomainView>, n: int) -> Seq<Json>
    decreases n,
{
    if n <= 0 {
        Seq::empty()
    } else {
        match policy_of(domains[n - 1]) {
            Some(policy) => all_policies(domains, n - 1).push(policy),
            None => all_policies(domains, n - 1),
        }
    }
}

/// A server with its routes; certificates are never ordered for a route.
pub open spec fn server_members(listen: Seq<char>, routes: Seq<Json>) -> Seq<(Seq<char>, Json)> {
    seq![
        ("listen"@, Json::Array(seq![Json::Text(listen)])),
        ("automatic_https"@, Json::Object(seq![("disable"@, Json::Bool(true))])),
        ("routes"@, Json::Array(routes)),
    ]
}

/// The servers: one for HTTP where there is a domain, one for HTTPS where it has a route.
pub open spec fn servers_of(
    http_listen: Seq<char>,
    https_listen: Seq<char>,
    domains: Seq<DomainView>,
) -> Json {
    let n = domains.len() as int;
    let secure = domain_routes(domains, n, true);
    let plain = if n > 0 {
        seq![
            (
                "http"@,
                Json::Object(
                    server_members(http_listen, domain_routes(domains, n, false).push(last_route())),
                ),
            ),
        ]
    } else {
        Seq::empty()
    };
    Json::Object(
        if secure.len() > 0 {
            plain.push(
                (
                    "https"@,
                    Json::Object(
                        server_members(https_listen, secure.push(last_route())).push(
                            (
                                "tls_connection_policies"@,
                                Json::Array(seq![Json::Object(Seq::empty())]),
                            ),
                        ),
                    ),
                ),
            )
        } else {
            plain
        },
    )
}

/// The applications of the configuration.
pub open spec fn apps_of(servers: Json, domains: Seq<DomainView>) -> Json {
    let n = domains.len() as int;
    let base = seq![
        ("http"@, Json::Object(seq![("servers"@, servers)])),
        (
            "pki"@,
            Json::Object(
                seq![
                    (
                        "certificate_authorities"@,
                        Json::Object(
                            seq![
                                (
                                    "local"@,
                                    Json::Object(seq![("install_trust"@, Json::Bool(false))]),
                                ),
                            ],
                        ),
                    ),
                ],
            ),
        ),
    ];
    Json::Object(
        if all_subjects(domains, n).len() > 0 {
            base.push(
                (
                    "tls"@,
                    Json::Object(
                        seq![
                            (
                                "certificates"@,
                                Json::Object(
                                    seq![("automate"@, json::text_array(all_subjects(domains, n)))],
                                ),
                            ),
                            (
                                "automation"@,
                                Json::Object(
                                    seq![("policies"@, Json::Array(all_policies(domains, n)))],
                                ),
                            ),
                        ],
                    ),
                ),
            )
        } else {
            base
        },
    )
}

/// The whole configuration.
pub open spec fn config_tree(
    admin: Seq<char>,
    storage_root: Seq<char>,
    http_listen: Seq<char>,
    https_listen: Seq<char>,
    domains: Seq<DomainView>,
) -> Json {
    Json::Object(
        seq![
            ("admin"@, Json::Object(seq![("listen"@, Json::Text(admin))])),
            (
                "storage"@,
                Json::Object(
                    seq![
                        ("module"@, Json::Text("file_system"@)),
                        ("root"@, Json::Text(storage_root)),
                    ],
                ),
            ),
            ("apps"@, apps_of(servers_of(http_listen, https_listen, domains), domains)),
        ],
    )
}

/// The keys that stand together in one object are different.
proof fn lemma_keys()
    ensures
        "match"@ != "handle"@,
        "handler"@ != "status_code"@,
        "handler"@ != "upstreams"@,
        "handler"@ != "headers"@,
        "status_code"@ != "headers"@,
        "handler"@ != "stream_close_delay"@,
        "upstreams"@ != "stream_close_delay"@,
        "handler"@ != "body"@,
        "status_code"@ != "body"@,
        "subjects"@ != "issuers"@,
        "module"@ != "challenges"@,
        "name"@ != "api_token"@,
        "provider"@ != "resolvers"@,
        "provider"@ != "propagation_delay"@,
        "provider"@ != "propagation_timeout"@,
        "resolvers"@ != "propagation_delay"@,
        "resolvers"@ != "propagation_timeout"@,
        "propagation_delay"@ != "propagation_timeout"@,
        "listen"@ != "automatic_https"@,
        "listen"@ != "routes"@,
        "listen"@ != "tls_connection_policies"@,
        "automatic_https"@ != "routes"@,
        "automatic_https"@ != "tls_connection_policies"@,
        "routes"@ != "tls_connection_policies"@,
        "http"@ != "https"@,
        "http"@ != "pki"@,
        "http"@ != "tls"@,
        "pki"@ != "tls"@,
        "certificates"@ != "automation"@,
        "admin"@ != "storage"@,
        "admin"@ != "apps"@,
        "storage"@ != "apps"@,
        "module"@ != "root"@,
{
    reveal_strlit("match");
    reveal_strlit("handle");
    reveal_strlit("handler");
    reveal_strlit("status_code");
    reveal_strlit("upstreams");
    reveal_strlit("headers");
    reveal_strlit("stream_close_delay");
    reveal_strlit("body");
    reveal_strlit("subjects");
    reveal_strlit("issuers");
    reveal_strlit("module");
    reveal_strlit("challenges");
    reveal_strlit("name");
    reveal_strlit("api_token");
    reveal_strlit("provider");
    reveal_strlit("resolvers");
    reveal_strlit("propagation_delay");
    reveal_strlit("propagation_timeout");
    reveal_strlit("listen");
    reveal_strlit("automatic_https");
    reveal_strlit("routes");
    reveal_strlit("tls_connection_policies");
    reveal_strlit("http");
    reveal_strlit("https");
    reveal_strlit("pki");
    reveal_strlit("tls");
    reveal_strlit("certificates");
    reveal_strlit("automation");
    reveal_strlit("admin");
    reveal_strlit("storage");
    reveal_strlit("apps");
    reveal_strlit("root");
    assert("match"@.len() == 5);
    assert("handle"@.len() == 6);
    assert("handler"@.len() == 7);
    assert("status_code"@.len() == 11);
    assert("upstreams"@.len() == 9);
    assert("stream_close_delay"@.len() == 18);
    assert("body"@.len() == 4);
    assert("subjects"@.len() == 8);
    assert("issuers"@.len() == 7);
    assert("module"@.len() == 6);
    assert("challenges"@.len() == 10);
    assert("name"@.len() == 4);
    assert("api_token"@.len() == 9);
    assert("provider"@.len() == 8);
    assert("resolvers"@.len() == 9);
    assert("propagation_delay"@.len() == 17);
    assert("propagation_timeout"@.len() == 19);
    assert("listen"@.len() == 6);
    assert("automatic_https"@.len() == 15);
    assert("routes"@.len() == 6);
    assert("tls_connection_policies"@.len() == 23);
    assert("http"@.len() == 4);
    assert("https"@.len() == 5);
    assert("pki"@.len() == 3);
    assert("tls"@.len() == 3);
    assert("certificates"@.len() == 12);
    assert("automation"@.len() == 10);
    assert("admin"@.len() == 5);
    assert("storage"@.len() == 7);
    assert("apps"@.len() == 4);
    assert("root"@.len() == 4);
    assert("headers"@.len() == 7);
    assert("handler"@[1] != "headers"@[1]);
    assert("pki"@[0] != "tls"@[0]);
    assert("listen"@[0] != "routes"@[0]);
}

fn status_value(code: u64) -> (r: Value)
    ensures
        json::json_tree(r) == status_handler(code),
{
    proof {
        lemma_keys();
    }
    object2("handler", json_text("static_response"), "status_code", json_number(code))
}

fn service_value(service: &WebService) -> (r: Value)
    ensures
        json::json_tree(r) == service_handler(service@),
{
    proof {
        lemma_keys();
    }
    match &service.upstream {
        Some(upstream) => object3(
            "handler",
            json_text("reverse_proxy"),
            "upstreams",
            array1(object1("dial", json_text(upstream.as_str()))),
            "stream_close_delay",
            json_number(300000000000),
        ),
        None => object3(
            "handler",
            json_text("static_response"),
            "status_code",
            json_number(503),
            "body",
            json_text("服务转发通道尚未就绪"),
        ),
    }
}

fn redirect_value(host: &str) -> (r: Value)
    ensures
        json::json_tree(r) == redirect_handler(host@),
{
    proof {
        lemma_keys();
    }
    let target: String = join3("https://", host, "{http.request.uri}");
    object3(
        "handler",
        json_text("static_response"),
        "status_code",
        json_number(308),
        "headers",
        object1("Location", array1(json_text(target.as_str()))),
    )
}

fn route_value(host: &str, handler: Value) -> (r: Value)
    ensures
        json::json_tree(r) == host_route(host@, json::json_tree(handler)),
{
    proof {
        lemma_keys();
    }
    object2(
        "match",
        array1(object1("host", array1(json_text(host)))),
        "handle",
        array1(handler),
    )
}

fn last_route_value() -> (r: Value)
    ensures
        json::json_tree(r) == last_route(),
{
    object1("handle", array1(status_value(404)))
}

fn challenge_value(domain: &DomainSpec, token: &str) -> (r: Value)
    ensures
        json::json_tree(r) == dns_challenge(domain@, token@),
{
    proof {
        lemma_keys();
    }
    let mut members: Vec<(String, Value)> = Vec::new();
    members.push(
        (
            "provider".to_owned(),
            object2("name", json_text("cloudflare"), "api_token", json_text(token)),
        ),
    );
    let ghost provider = seq![
        (
            "provider"@,
            Json::Object(
                seq![("name"@, Json::Text("cloudflare"@)), ("api_token"@, Json::Text(token@))],
            ),
        ),
    ];
    assert(json::member_trees(members@) =~= provider);
    let ghost before = members@;
    if domain.dns.dns_resolvers.len() > 0 {
        members.push(("resolvers".to_owned(), json_texts(&domain.dns.dns_resolvers)));
    }
    let ghost resolvers = if domain@.resolvers.len() > 0 {
        provider.push(("resolvers"@, json::text_array(domain@.resolvers)))
    } else {
        provider
    };
    assert(json::member_trees(members@) =~= resolvers);
    if let Some(seconds) = domain.dns.dns_propagation_delay_seconds {
        members.push(
            ("propagation_delay".to_owned(), json_number(seconds as u64 * 1000000000)),
        );
    }
    let ghost delay = match domain@.delay {
        Some(seconds) => resolvers.push(("propagation_delay"@, nanoseconds(seconds))),
        None => resolvers,
    };
    assert(json::member_trees(members@) =~= delay);
    if let Some(seconds) = domain.dns.dns_propagation_timeout_seconds {
        members.push(
            ("propagation_timeout".to_owned(), json_number(seconds as u64 * 1000000000)),
        );
    }
    let ghost all = match domain@.timeout {
        Some(seconds) => delay.push(("propagation_timeout"@, nanoseconds(seconds))),
        None => delay,
    };
    assert(json::member_trees(members@) =~= all);
    json_object(members)
}

fn policy_value(subjects: &Vec<String>, challenges: Value) -> (r: Value)
    ensures
        json::json_tree(r) == acme_policy(text::views(subjects@), json::json_tree(challenges)),
{
    proof {
        lemma_keys();
    }
    object2(
        "subjects",
        json_texts(subjects),
        "issuers",
        array1(object2("module", json_text("acme"), "challenges", challenges)),
    )
}

fn domain_policy(domain: &DomainSpec, subjects: &Vec<String>) -> (r: Option<Value>)
    requires
        text::views(subjects@) == subject_list(domain@),
    ensures
        match r {
            Some(value) => policy_of(domain@) == Some(json::json_tree(value)),
            None => policy_of(domain@) is None,
        },
{
    if !domain.https {
        None
    } else if same(domain.certificate_mode.as_str(), "http01") {
        Some(
            policy_value(
                subjects,
                object1("tls-alpn", object1("disabled", json_bool(true))),
            ),
        )
    } else {
        match &domain.token_reference {
            Some(token) => Some(
                policy_value(subjects, object1("dns", challenge_value(domain, token.as_str()))),
            ),
            None => None,
        }
    }
}

proof fn lemma_trees_push(items: Seq<Value>, item: Value)
    ensures
        json::trees(items.push(item)) == json::trees(items).push(json::json_tree(item)),
{
    assert(json::trees(items.push(item)) =~= json::trees(items).push(json::json_tree(item)));
}

proof fn lemma_views_push(list: Seq<String>, item: String)
    ensures
        text::views(list.push(item)) == text::views(list).push(item@),
{
    assert(text::views(list.push(item)) =~= text::views(list).push(item@));
}

/// The routes, the certificates and the names taken, as they are gathered domain by domain.
struct Gathered {
    http: Vec<Value>,
    https: Vec<Value>,
    subjects: Vec<String>,
    policies: Vec<Value>,
    claimed: Vec<String>,
}

impl Gathered {
    spec fn holds(&self, domains: Seq<DomainView>, n: int) -> bool {
        &&& json::trees(self.http@) == domain_routes(domains, n, false)
        &&& json::trees(self.https@) == domain_routes(domains, n, true)
        &&& text::views(self.subjects@) == all_subjects(domains, n)
        &&& json::trees(self.policies@) == all_policies(domains, n)
        &&& text::views(self.claimed@) == taken(domains, n)
    }
}

fn gather_services(domain: &DomainSpec, g: &mut Gathered) -> (r: bool)
    ensures
        r == services_fit(domain@.services, 0, text::views(old(g).claimed@)),
        final(g).subjects == old(g).subjects,
        final(g).policies == old(g).policies,
        r ==> json::trees(final(g).http@) == json::trees(old(g).http@) + service_routes(
            domain@,
            domain@.services.len() as int,
            false,
        ),
        r ==> json::trees(final(g).https@) == json::trees(old(g).https@) + service_routes(
            domain@,
            domain@.services.len() as int,
            true,
        ),
        r ==> text::views(final(g).claimed@) == text::views(old(g).claimed@) + hosts_of(
            domain@.services,
            domain@.services.len() as int,
        ),
{
    let ghost services = domain@.services;
    let ghost before = text::views(g.claimed@);
    assert(service_routes(domain@, 0, false) =~= Seq::empty());
    assert(service_routes(domain@, 0, true) =~= Seq::empty());
    assert(hosts_of(services, 0) =~= Seq::empty());
    assert(json::trees(g.http@) + Seq::<Json>::empty() =~= json::trees(g.http@));
    assert(json::trees(g.https@) + Seq::<Json>::empty() =~= json::trees(g.https@));
    assert(before + Seq::<Seq<char>>::empty() =~= before);
    let n: usize = domain.services.len();
    let mut i: usize = 0;
    while i < n
        invariant
            i <= n == domain.services@.len(),
            services == domain@.services,
            before == text::views(old(g).claimed@),
            g.subjects == old(g).subjects,
            g.policies == old(g).policies,
            json::trees(g.http@) == json::trees(old(g).http@) + service_routes(
                domain@,
                i as int,
                false,
            ),
            json::trees(g.https@) == json::trees(old(g).https@) + service_routes(
                domain@,
                i as int,
                true,
            ),
            text::views(g.claimed@) == before + hosts_of(services, i as int),
            services_fit(services, 0, before) == services_fit(services, i as int, before),
        decreases n - i,
    {
        let service: &WebService = &domain.services[i];
        let ghost view = services[i as int];
        assert(view == service@);
        if normalize_domain(service.hostname.as_str()).is_err() {
            return false;
        }
        if holds(&g.claimed, service.hostname.as_str()) {
            return false;
        }
        let ghost claimed = g.claimed@;
        g.claimed.push(service.hostname.clone());
        proof {
            lemma_views_push(claimed, g.claimed@[i + claimed.len() - i]);
            assert(hosts_of(services, i + 1) =~= hosts_of(services, i as int).push(view.hostname));
            assert(text::views(g.claimed@) =~= before + hosts_of(services, i + 1));
        }
        let secure: bool = same(service.protocol.as_str(), "https");
        if !(secure && !domain.https) {
            let route: Value = route_value(service.hostname.as_str(), service_value(service));
            if secure {
                let redirect: Value = route_value(
                    service.hostname.as_str(),
                    redirect_value(service.hostname.as_str()),
                );
                let ghost plain = g.http@;
                g.http.push(redirect);
                let ghost list = g.https@;
                g.https.push(route);
                proof {
                    lemma_trees_push(plain, redirect);
                    assert(json::trees(g.http@) =~= json::trees(old(g).http@) + service_routes(
                        domain@,
                        i + 1,
                        false,
                    ));
                    lemma_trees_push(list, route);
                    assert(json::trees(g.https@) =~= json::trees(old(g).https@) + service_routes(
                        domain@,
                        i + 1,
                        true,
                    ));
                }
            } else {
                let ghost list = g.http@;
                g.http.push(route);
                proof {
                    lemma_trees_push(list, route);
                    assert(json::trees(g.http@) =~= json::trees(old(g).http@) + service_routes(
                        domain@,
                        i + 1,
                        false,
                    ));
                }
            }
        }
        i = i + 1;
    }
    true
}

fn append_texts(list: &mut Vec<String>, more: &Vec<String>)
    ensures
        text::views(final(list)@) == text::views(old(list)@) + text::views(more@),
{
    let ghost before = text::views(list@);
    let mut i: usize = 0;
    assert(before + text::views(more@).take(0) =~= before);
    while i < more.len()
        invariant
            i <= more@.len(),
            before == text::views(old(list)@),
            text::views(list@) == before + text::views(more@).take(i as int),
        decreases more@.len() - i,
    {
        let ghost held = list@;
        let item: String = more[i].clone();
        list.push(item);
        proof {
            lemma_views_push(held, item);
            assert(text::views(more@)[i as int] == more@[i as int]@);
            assert(text::views(list@) =~= before + text::views(more@).take(i + 1));
        }
        i = i + 1;
    }
    assert(text::views(more@).take(more@.len() as int) =~= text::views(more@));
}

fn gather_domain(domain: &DomainSpec, g: &mut Gathered, Ghost(domains): Ghost<Seq<DomainView>>, Ghost(k): Ghost<int>) -> (r: Result<(), ConfigError>)
    requires
        old(g).holds(domains, k),
        0 <= k < domains.len(),
        domains[k] == domain@,
    ensures
        match r {
            Ok(_) => final(g).holds(domains, k + 1) && domains_fault(domains, k) == domains_fault(
                domains,
                k + 1,
            ),
            Err(e) => domains_fault(domains, k) == Some(e@),
        },
{
    if normalize_domain(domain.name.as_str()).is_err() {
        return Err(ConfigError::InvalidDomain);
    }
    if holds(&g.claimed, domain.name.as_str()) {
        return Err(ConfigError::RepeatedDomain);
    }
    let ghost claimed = g.claimed@;
    let name: String = domain.name.clone();
    g.claimed.push(name);
    proof {
        lemma_views_push(claimed, name);
    }
    let root: Value = route_value(domain.name.as_str(), status_value(404));
    if domain.https {
        let ghost list = g.https@;
        g.https.push(root);
        proof {
            lemma_trees_push(list, root);
        }
    } else {
        let ghost list = g.http@;
        g.http.push(root);
        proof {
            lemma_trees_push(list, root);
        }
    }
    if !gather_services(domain, g) {
        return Err(ConfigError::InvalidService);
    }
    let subjects: Vec<String> = domain.subjects();
    if let Some(policy) = domain_policy(domain, &subjects) {
        let ghost list = g.policies@;
        g.policies.push(policy);
        proof {
            lemma_trees_push(list, policy);
        }
    }
    append_texts(&mut g.subjects, &subjects);
    Ok(())
}

fn server_value(listen: &str, routes: Vec<Value>, secure: bool) -> (r: Value)
    ensures
        json::json_tree(r) == Json::Object(
            if secure {
                server_members(listen@, json::trees(routes@)).push(
                    (
                        "tls_connection_policies"@,
                        Json::Array(seq![Json::Object(Seq::empty())]),
                    ),
                )
            } else {
                server_members(listen@, json::trees(routes@))
            },
        ),
{
    proof {
        lemma_keys();
    }
    let ghost all = json::trees(routes@);
    let mut members: Vec<(String, Value)> = Vec::new();
    members.push(("listen".to_owned(), array1(json_text(listen))));
    members.push(("automatic_https".to_owned(), object1("disable", json_bool(true))));
    members.push(("routes".to_owned(), json_array(routes)));
    assert(json::member_trees(members@) =~= server_members(listen@, all));
    if secure {
        let empty: Vec<(String, Value)> = Vec::new();
        assert(json::member_trees(empty@) =~= Seq::empty());
        members.push(("tls_connection_policies".to_owned(), array1(json_object(empty))));
        assert(json::member_trees(members@) =~= server_members(listen@, all).push(
            ("tls_connection_policies"@, Json::Array(seq![Json::Object(Seq::empty())])),
        ));
    }
    json_object(members)
}

fn apps_value(servers: Value, subjects: &Vec<String>, policies: Vec<Value>, Ghost(domains): Ghost<Seq<DomainView>>) -> (r: Value)
    requires
        text::views(subjects@) == all_subjects(domains, domains.len() as int),
        json::trees(policies@) == all_policies(domains, domains.len() as int),
    ensures
        json::json_tree(r) == apps_of(json::json_tree(servers), domains),
{
    proof {
        lemma_keys();
    }
    let http: Value = object1("servers", servers);
    let pki: Value = object1(
        "certificate_authorities",
        object1("local", object1("install_trust", json_bool(false))),
    );
    assert(text::views(subjects@).len() == subjects@.len());
    let mut members: Vec<(String, Value)> = Vec::new();
    members.push(("http".to_owned(), http));
    members.push(("pki".to_owned(), pki));
    let ghost base = seq![("http"@, json::json_tree(http)), ("pki"@, json::json_tree(pki))];
    assert(json::member_trees(members@) =~= base);
    if subjects.len() > 0 {
        let tls: Value = object2(
            "certificates",
            object1("automate", json_texts(subjects)),
            "automation",
            object1("policies", json_array(policies)),
        );
        members.push(("tls".to_owned(), tls));
        assert(json::member_trees(members@) =~= base.push(("tls"@, json::json_tree(tls))));
    }
    json_object(members)
}

fn servers_value(
    settings: &CaddyRuntimeConfig,
    http: Vec<Value>,
    https: Vec<Value>,
    any: bool,
    Ghost(domains): Ghost<Seq<DomainView>>,
) -> (r: Value)
    requires
        json::trees(http@) == domain_routes(domains, domains.len() as int, false),
        json::trees(https@) == domain_routes(domains, domains.len() as int, true),
        any == (domains.len() > 0),
    ensures
        json::json_tree(r) == servers_of(settings.http_listen@, settings.https_listen@, domains),
{
    proof {
        lemma_keys();
        assert(json::trees(https@).len() == https@.len());
    }
    let ghost n = domains.len() as int;
    let ghost secure = domain_routes(domains, n, true);
    let ghost open = domain_routes(domains, n, false);
    let ghost plain = if n > 0 {
        seq![
            (
                "http"@,
                Json::Object(server_members(settings.http_listen@, open.push(last_route()))),
            ),
        ]
    } else {
        Seq::empty()
    };
    let mut members: Vec<(String, Value)> = Vec::new();
    let mut http: Vec<Value> = http;
    let mut https: Vec<Value> = https;
    if any {
        let last: Value = last_route_value();
        let ghost list = http@;
        http.push(last);
        proof {
            lemma_trees_push(list, last);
        }
        members.push(
            ("http".to_owned(), server_value(settings.http_listen.as_str(), http, false)),
        );
    }
    assert(json::member_trees(members@) =~= plain);
    if https.len() > 0 {
        let last: Value = last_route_value();
        let ghost list = https@;
        https.push(last);
        proof {
            lemma_trees_push(list, last);
        }
        let server: Value = server_value(settings.https_listen.as_str(), https, true);
        members.push(("https".to_owned(), server));
        assert(json::member_trees(members@) =~= plain.push(("https"@, json::json_tree(server))));
    }
    json_object(members)
}

/// The configuration for the domains: only their names are served, and what is unknown is answered
/// with 404. A service without a tunnel is answered with 503.
pub fn build_config(settings: &CaddyRuntimeConfig, domains: &Vec<DomainSpec>) -> (r: Result<
    Value,
    ConfigError,
>)
    ensures
        ({
            let views = domain_views(domains@);
            let admin = admin_address(url::url_of(settings.admin_url@));
            match r {
                Ok(value) => domains_fault(views, 0) is None && (admin matches Ok(address)
                    && json::json_tree(value) == config_tree(
                    address,
                    settings.storage_root@,
                    settings.http_listen@,
                    settings.https_listen@,
                    views,
                )),
                Err(e) => if domains_fault(views, 0) is Some {
                    domains_fault(views, 0) == Some(e@)
                } else {
                    admin == Err::<Seq<char>, ConfigFault>(e@)
                },
            }
        }),
{
    let ghost views = domain_views(domains@);
    let mut g = Gathered {
        http: Vec::new(),
        https: Vec::new(),
        subjects: Vec::new(),
        policies: Vec::new(),
        claimed: Vec::new(),
    };
    proof {
        assert(json::trees(g.http@) =~= domain_routes(views, 0, false));
        assert(json::trees(g.https@) =~= domain_routes(views, 0, true));
        assert(text::views(g.subjects@) =~= all_subjects(views, 0));
        assert(json::trees(g.policies@) =~= all_policies(views, 0));
        assert(text::views(g.claimed@) =~= taken(views, 0));
    }
    let n: usize = domains.len();
    let mut i: usize = 0;
    while i < n
        invariant
            i <= n == domains@.len(),
            views == domain_views(domains@),
            g.holds(views, i as int),
            domains_fault(views, 0) == domains_fault(views, i as int),
        decreases n - i,
    {
        assert(views[i as int] == domains@[i as int]@);
        if let Err(e) = gather_domain(&domains[i], &mut g, Ghost(views), Ghost(i as int)) {
            return Err(e);
        }
        i = i + 1;
    }
    let admin: String = match admin_listen(settings) {
        Ok(admin) => admin,
        Err(e) => {
            return Err(e);
        },
    };
    proof {
        lemma_keys();
    }
    let servers: Value = servers_value(settings, g.http, g.https, n > 0, Ghost(views));
    let apps: Value = apps_value(servers, &g.subjects, g.policies, Ghost(views));
    Ok(
        object3(
            "admin",
            object1("listen", json_text(admin.as_str())),
            "storage",
            object2(
                "module",
                json_text("file_system"),
                "root",
                json_text(settings.storage_root.as_str()),
            ),
            "apps",
            apps,
        ),
    )
}

proof fn lemma_service_route(domain: DomainView, j: int, n: int, secure: bool)
    requires
        0 <= j < n <= domain.services.len(),
    ensures
        ({
            let service = domain.services[j];
            let routes = service_routes(domain, n, secure);
            service.secure() && !domain.https || (if service.secure() == secure {
                routes.contains(host_route(service.hostname, service_handler(service)))
            } else {
                service.secure() ==> routes.contains(
                    host_route(service.hostname, redirect_handler(service.hostname)),
                )
            })
        }),
    decreases n,
{
    let routes = service_routes(domain, n, secure);
    let before = service_routes(domain, n - 1, secure);
    if j < n - 1 {
        lemma_service_route(domain, j, n - 1, secure);
        assert forall|x: Json| before.contains(x) implies routes.contains(x) by {
            let at = choose|i: int| 0 <= i < before.len() && before[i] == x;
            assert(routes[at] == x);
        }
    } else if routes.len() > before.len() {
        assert(routes.last() == routes[routes.len() - 1]);
    }
}

proof fn lemma_domain_route(domains: Seq<DomainView>, k: int, n: int, secure: bool, x: Json)
    requires
        0 <= k < n <= domains.len(),
        service_routes(domains[k], domains[k].services.len() as int, secure).contains(x),
    ensures
        domain_routes(domains, n, secure).contains(x),
    decreases n,
{
    let routes = domain_routes(domains, n, secure);
    let domain = domains[n - 1];
    let before = domain_routes(domains, n - 1, secure);
    let named = if domain.https == secure {
        before.push(host_route(domain.name, status_handler(404)))
    } else {
        before
    };
    let own = service_routes(domain, domain.services.len() as int, secure);
    if k < n - 1 {
        lemma_domain_route(domains, k, n - 1, secure, x);
        let at = choose|i: int| 0 <= i < before.len() && before[i] == x;
        assert(routes[at] == x);
    } else {
        let at = choose|i: int| 0 <= i < own.len() && own[i] == x;
        assert(routes[named.len() + at] == x);
    }
}

/// A service over HTTPS is served over HTTPS, and its host is sent there from HTTP.
pub proof fn secure_services_are_redirected(domains: Seq<DomainView>, k: int, j: int)
    requires
        0 <= k < domains.len(),
        0 <= j < domains[k].services.len(),
        domains[k].https,
        domains[k].services[j].secure(),
    ensures
        ({
            let service = domains[k].services[j];
            let n = domains.len() as int;
            domain_routes(domains, n, true).contains(
                host_route(service.hostname, service_handler(service)),
            ) && domain_routes(domains, n, false).contains(
                host_route(service.hostname, redirect_handler(service.hostname)),
            )
        }),
{
    let service = domains[k].services[j];
    let n = domains.len() as int;
    let m = domains[k].services.len() as int;
    lemma_service_route(domains[k], j, m, true);
    lemma_service_route(domains[k], j, m, false);
    lemma_domain_route(
        domains,
        k,
        n,
        true,
        host_route(service.hostname, service_handler(service)),
    );
    lemma_domain_route(
        domains,
        k,
        n,
        false,
        host_route(service.hostname, redirect_handler(service.hostname)),
    );
}

/// Whether a host is the name of a domain with HTTPS or of a service over HTTPS in one.
pub open spec fn has_https(domains: Seq<DomainView>, n: int, host: Seq<char>) -> bool {
    exists|k: int|
        0 <= k < n && (#[trigger] domains[k]).https && (domains[k].name == host || exists|j: int|
            0 <= j < domains[k].services.len() && (#[trigger] domains[k].services[j]).secure()
                && domains[k].services[j].hostname == host)
}

proof fn lemma_route_host(a: Seq<char>, x: Json, b: Seq<char>, y: Json)
    requires
        host_route(a, x) == host_route(b, y),
    ensures
        a == b,
{
    let left = host_route(a, x)->Object_0;
    let right = host_route(b, y)->Object_0;
    assert(left[0].1->Array_0[0]->Object_0[0].1->Array_0[0]->Text_0 == a);
    assert(right[0].1->Array_0[0]->Object_0[0].1->Array_0[0]->Text_0 == b);
}

proof fn lemma_https_hosts(domains: Seq<DomainView>, n: int, host: Seq<char>, x: Json)
    requires
        0 <= n <= domains.len(),
        domain_routes(domains, n, true).contains(host_route(host, x)),
    ensures
        has_https(domains, n, host),
    decreases n,
{
    if n > 0 {
        let route = host_route(host, x);
        let routes = domain_routes(domains, n, true);
        let domain = domains[n - 1];
        let before = domain_routes(domains, n - 1, true);
        let own = service_routes(domain, domain.services.len() as int, true);
        let at = choose|i: int| 0 <= i < routes.len() && routes[i] == route;
        if at < before.len() {
            assert(before[at] == route);
            lemma_https_hosts(domains, n - 1, host, x);
            let k = choose|k: int|
                0 <= k < n - 1 && (#[trigger] domains[k]).https && (domains[k].name == host
                    || exists|j: int|
                    0 <= j < domains[k].services.len() && (#[trigger] domains[k].services[j]).secure()
                        && domains[k].services[j].hostname == host);
            assert(domains[k].https);
        } else if domain.https && at == before.len() {
            lemma_route_host(domain.name, status_handler(404), host, x);
            assert(domains[n - 1].https && domains[n - 1].name == host);
        } else {
            let skipped = if domain.https {
                before.len() + 1
            } else {
                before.len()
            };
            assert(own[at - skipped] == route);
            lemma_https_services(domain, domain.services.len() as int, host, x);
            assert(domains[n - 1].https);
        }
    }
}

proof fn lemma_https_services(domain: DomainView, n: int, host: Seq<char>, x: Json)
    requires
        0 <= n <= domain.services.len(),
        service_routes(domain, n, true).contains(host_route(host, x)),
    ensures
        domain.https,
        exists|j: int|
            0 <= j < n && (#[trigger] domain.services[j]).secure() && domain.services[j].hostname
                == host,
    decreases n,
{
    if n > 0 {
        let route = host_route(host, x);
        let routes = service_routes(domain, n, true);
        let before = service_routes(domain, n - 1, true);
        let service = domain.services[n - 1];
        let at = choose|i: int| 0 <= i < routes.len() && routes[i] == route;
        if at < before.len() {
            assert(before[at] == route);
            lemma_https_services(domain, n - 1, host, x);
        } else {
            lemma_route_host(service.hostname, service_handler(service), host, x);
            assert(domain.services[n - 1].secure());
        }
    }
}

proof fn lemma_fit(services: Seq<ServiceView>, i: int, j: int, before: Seq<Seq<char>>)
    requires
        0 <= i <= j < services.len(),
        services_fit(services, i, before),
    ensures
        !(before + hosts_of(services, j)).contains(services[j].hostname),
    decreases j - i,
{
    if i < j {
        lemma_fit(services, i + 1, j, before);
    }
}

proof fn lemma_no_fault(domains: Seq<DomainView>, i: int, k: int)
    requires
        0 <= i <= k < domains.len(),
        domains_fault(domains, i) is None,
    ensures
        !taken(domains, k).contains(domains[k].name),
        services_fit(domains[k].services, 0, taken(domains, k).push(domains[k].name)),
    decreases k - i,
{
    if i < k {
        lemma_no_fault(domains, i + 1, k);
    }
}

proof fn lemma_taken(domains: Seq<DomainView>, k: int, n: int)
    requires
        0 <= k < n <= domains.len(),
    ensures
        taken(domains, n).contains(domains[k].name),
        forall|j: int|
            0 <= j < domains[k].services.len() ==> taken(domains, n).contains(
                (#[trigger] domains[k].services[j]).hostname,
            ),
    decreases n,
{
    let all = taken(domains, n);
    let before = taken(domains, n - 1);
    let domain = domains[n - 1];
    if k < n - 1 {
        lemma_taken(domains, k, n - 1);
        assert forall|x: Seq<char>| before.contains(x) implies all.contains(x) by {
            let at = choose|i: int| 0 <= i < before.len() && before[i] == x;
            assert(all[at] == x);
        }
    } else {
        assert(all[before.len() as int] == domain.name);
        assert forall|j: int| 0 <= j < domain.services.len() implies all.contains(
            (#[trigger] domain.services[j]).hostname,
        ) by {
            assert(all[before.len() + 1 + j] == domain.services[j].hostname);
        }
    }
}

/// Host names are taken once: the name of a service is that of no domain and of no other service.
proof fn lemma_service_host(domains: Seq<DomainView>, k: int, j: int, l: int)
    requires
        domains_fault(domains, 0) is None,
        0 <= k < domains.len(),
        0 <= j < domains[k].services.len(),
        0 <= l < domains.len(),
    ensures
        domains[l].name != domains[k].services[j].hostname,
        forall|i: int|
            0 <= i < domains[l].services.len() && (l != k || i != j) ==> (
            #[trigger] domains[l].services[i]).hostname != domains[k].services[j].hostname,
{
    let host = domains[k].services[j].hostname;
    lemma_no_fault(domains, 0, k);
    lemma_no_fault(domains, 0, l);
    let before = taken(domains, k).push(domains[k].name);
    lemma_fit(domains[k].services, 0, j, before);
    let known = before + hosts_of(domains[k].services, j);
    if l < k {
        lemma_taken(domains, l, k);
        assert forall|x: Seq<char>| taken(domains, k).contains(x) implies known.contains(x) by {
            let at = choose|i: int| 0 <= i < taken(domains, k).len() && taken(domains, k)[i] == x;
            assert(known[at] == x);
        }
    } else if l == k {
        assert(known[taken(domains, k).len() as int] == domains[k].name);
        assert forall|i: int| 0 <= i < domains[k].services.len() && i != j implies (
        #[trigger] domains[k].services[i]).hostname != host by {
            if i < j {
                assert(known[before.len() + i] == domains[k].services[i].hostname);
            } else {
                lemma_fit(domains[k].services, 0, i, before);
                let later = before + hosts_of(domains[k].services, i);
                assert(later[before.len() + j] == host);
            }
        }
    } else {
        lemma_taken(domains, k, l);
        assert(taken(domains, l).contains(host));
        let other = taken(domains, l).push(domains[l].name);
        assert forall|i: int| 0 <= i < domains[l].services.len() implies (
        #[trigger] domains[l].services[i]).hostname != host by {
            lemma_fit(domains[l].services, 0, i, other);
            let at = choose|a: int|
                0 <= a < taken(domains, l).len() && taken(domains, l)[a] == host;
            assert((other + hosts_of(domains[l].services, i))[at] == host);
        }
    }
}

/// A service over HTTP is served over HTTP, and nothing answers for its host over HTTPS.
pub proof fn plain_services_stay_on_http(domains: Seq<DomainView>, k: int, j: int, handler: Json)
    requires
        domains_fault(domains, 0) is None,
        0 <= k < domains.len(),
        0 <= j < domains[k].services.len(),
        !domains[k].services[j].secure(),
    ensures
        ({
            let service = domains[k].services[j];
            let n = domains.len() as int;
            domain_routes(domains, n, false).contains(
                host_route(service.hostname, service_handler(service)),
            ) && !domain_routes(domains, n, true).contains(host_route(service.hostname, handler))
        }),
{
    let service = domains[k].services[j];
    let n = domains.len() as int;
    lemma_service_route(domains[k], j, domains[k].services.len() as int, false);
    lemma_domain_route(
        domains,
        k,
        n,
        false,
        host_route(service.hostname, service_handler(service)),
    );
    if domain_routes(domains, n, true).contains(host_route(service.hostname, handler)) {
        lemma_https_hosts(domains, n, service.hostname, handler);
        let l = choose|l: int|
            0 <= l < n && (#[trigger] domains[l]).https && (domains[l].name == service.hostname
                || exists|i: int|
                0 <= i < domains[l].services.len() && (#[trigger] domains[l].services[i]).secure()
                    && domains[l].services[i].hostname == service.hostname);
        lemma_service_host(domains, k, j, l);
    }
}

/// The routes of a server in a configuration, as the edge reads them.
pub open spec fn served(config: Json, server: Seq<char>) -> Seq<Json> {
    let servers = json::field(
        json::field(json::field(Some(config), "apps"@), "http"@),
        "servers"@,
    );
    json::items(json::field(json::field(servers, server), "routes"@))
}

/// The one host name that a route is for.
pub open spec fn route_host(route: Json) -> Option<Seq<char>> {
    json::text_in(
        json::only(
            json::field(json::only(json::field(Some(route), "match"@)), "host"@),
        ),
    )
}

/// What a route does with a request, by the key of the setting.
pub open spec fn handling(route: Json, key: Seq<char>) -> Option<Json> {
    json::field(json::only(json::field(Some(route), "handle"@)), key)
}

/// Whether a route passes requests for a host name on to one address and nowhere else.
pub open spec fn passes_to(route: Json, host: Seq<char>, upstream: Seq<char>) -> bool {
    &&& route_host(route) == Some(host)
    &&& handling(route, "handler"@) == Some(Json::Text("reverse_proxy"@))
    &&& json::field(json::only(handling(route, "upstreams"@)), "dial"@) == Some(
        Json::Text(upstream),
    )
}

/// Whether a route answers requests with a status.
pub open spec fn answers_with(route: Json, host: Option<Seq<char>>, code: u64) -> bool {
    &&& route_host(route) == host
    &&& handling(route, "handler"@) == Some(Json::Text("static_response"@))
    &&& handling(route, "status_code"@) == Some(Json::Unsigned(code))
    &&& handling(route, "upstreams"@) is None
}

/// Whether a route sends requests for a host name on to another URL for good.
pub open spec fn redirects_to(route: Json, host: Seq<char>, url: Seq<char>) -> bool {
    &&& answers_with(route, Some(host), 308)
    &&& json::only(json::field(handling(route, "headers"@), "Location"@)) == Some(Json::Text(url))
}

proof fn lemma_settings()
    ensures
        "match"@.len() == 5 && "handle"@.len() == 6 && "host"@.len() == 4,
        "handler"@.len() == 7 && "upstreams"@.len() == 9 && "status_code"@.len() == 11,
        "handler"@ != "headers"@ && "headers"@.len() == 7,
        "body"@.len() == 4 && "stream_close_delay"@.len() == 18,
        "admin"@.len() == 5 && "storage"@.len() == 7 && "apps"@.len() == 4,
        "http"@.len() == 4 && "https"@.len() == 5 && "pki"@.len() == 3 && "tls"@.len() == 3,
        "pki"@ != "tls"@,
        "listen"@ != "routes"@ && "listen"@.len() == 6 && "routes"@.len() == 6,
        "automatic_https"@.len() == 15 && "tls_connection_policies"@.len() == 23,
        "certificates"@.len() == 12 && "automation"@.len() == 10,
        "subjects"@.len() == 8 && "issuers"@.len() == 7 && "module"@.len() == 6
            && "challenges"@.len() == 10,
        "provider"@.len() == 8 && "resolvers"@.len() == 9 && "propagation_delay"@.len() == 17
            && "propagation_timeout"@.len() == 19,
        "name"@.len() == 4 && "api_token"@.len() == 9 && "root"@.len() == 4,
        "dns"@.len() == 3 && "tls-alpn"@.len() == 8,
{
    reveal_strlit("match");
    reveal_strlit("handle");
    reveal_strlit("host");
    reveal_strlit("handler");
    reveal_strlit("upstreams");
    reveal_strlit("status_code");
    reveal_strlit("headers");
    reveal_strlit("body");
    reveal_strlit("stream_close_delay");
    reveal_strlit("admin");
    reveal_strlit("storage");
    reveal_strlit("apps");
    reveal_strlit("http");
    reveal_strlit("https");
    reveal_strlit("pki");
    reveal_strlit("tls");
    reveal_strlit("listen");
    reveal_strlit("routes");
    reveal_strlit("automatic_https");
    reveal_strlit("tls_connection_policies");
    reveal_strlit("certificates");
    reveal_strlit("automation");
    reveal_strlit("subjects");
    reveal_strlit("issuers");
    reveal_strlit("module");
    reveal_strlit("challenges");
    reveal_strlit("provider");
    reveal_strlit("resolvers");
    reveal_strlit("propagation_delay");
    reveal_strlit("propagation_timeout");
    reveal_strlit("name");
    reveal_strlit("api_token");
    reveal_strlit("root");
    reveal_strlit("dns");
    reveal_strlit("tls-alpn");
    assert("handler"@[1] == 'a' && "headers"@[1] == 'e');
    assert("pki"@[0] == 'p' && "tls"@[0] == 't');
    assert("listen"@[0] == 'l' && "routes"@[0] == 'r');
}

/// A route for a host name is read as one, with its handler.
proof fn lemma_host_route(host: Seq<char>, handler: Json, key: Seq<char>)
    ensures
        route_host(host_route(host, handler)) == Some(host),
        handling(host_route(host, handler), key) == json::member(handler, key),
{
    lemma_settings();
    let inner = seq![("host"@, Json::Array(seq![Json::Text(host)]))];
    let members = seq![
        ("match"@, Json::Array(seq![Json::Object(inner)])),
        ("handle"@, Json::Array(seq![handler])),
    ];
    json::lemma_member(inner, 0);
    json::lemma_member(members, 0);
    json::lemma_member(members, 1);
}

proof fn lemma_service_read(service: ServiceView)
    ensures
        ({
            let route = host_route(service.hostname, service_handler(service));
            match service.upstream {
                Some(upstream) => passes_to(route, service.hostname, upstream),
                None => answers_with(route, Some(service.hostname), 503),
            }
        }),
{
    lemma_settings();
    let handler = service_handler(service);
    lemma_host_route(service.hostname, handler, "handler"@);
    lemma_host_route(service.hostname, handler, "upstreams"@);
    lemma_host_route(service.hostname, handler, "status_code"@);
    match service.upstream {
        Some(upstream) => {
            let dial = seq![("dial"@, Json::Text(upstream))];
            let members = seq![
                ("handler"@, Json::Text("reverse_proxy"@)),
                ("upstreams"@, Json::Array(seq![Json::Object(dial)])),
                ("stream_close_delay"@, Json::Unsigned(300000000000)),
            ];
            json::lemma_member(dial, 0);
            json::lemma_member(members, 0);
            json::lemma_member(members, 1);
        },
        None => {
            let members = seq![
                ("handler"@, Json::Text("static_response"@)),
                ("status_code"@, Json::Unsigned(503)),
                ("body"@, Json::Text("服务转发通道尚未就绪"@)),
            ];
            json::lemma_member(members, 0);
            json::lemma_member(members, 1);
            json::lemma_no_member(members, "upstreams"@, 0);
        },
    }
}

proof fn lemma_redirect_route(host: Seq<char>)
    ensures
        redirects_to(
            host_route(host, redirect_handler(host)),
            host,
            "https://"@ + host + "{http.request.uri}"@,
        ),
{
    lemma_settings();
    let handler = redirect_handler(host);
    lemma_host_route(host, handler, "handler"@);
    lemma_host_route(host, handler, "upstreams"@);
    lemma_host_route(host, handler, "status_code"@);
    lemma_host_route(host, handler, "headers"@);
    let location = seq![
        ("Location"@, Json::Array(seq![Json::Text("https://"@ + host + "{http.request.uri}"@)])),
    ];
    let members = seq![
        ("handler"@, Json::Text("static_response"@)),
        ("status_code"@, Json::Unsigned(308)),
        ("headers"@, Json::Object(location)),
    ];
    json::lemma_member(location, 0);
    json::lemma_member(members, 0);
    json::lemma_member(members, 1);
    json::lemma_member(members, 2);
    json::lemma_no_member(members, "upstreams"@, 0);
}

proof fn lemma_status_handler(code: u64)
    ensures
        json::member(status_handler(code), "handler"@) == Some(Json::Text("static_response"@)),
        json::member(status_handler(code), "status_code"@) == Some(Json::Unsigned(code)),
        json::member(status_handler(code), "upstreams"@) is None,
{
    lemma_settings();
    let members = seq![
        ("handler"@, Json::Text("static_response"@)),
        ("status_code"@, Json::Unsigned(code)),
    ];
    json::lemma_member(members, 0);
    json::lemma_member(members, 1);
    json::lemma_no_member(members, "upstreams"@, 0);
}

proof fn lemma_domain_read(host: Seq<char>)
    ensures
        answers_with(host_route(host, status_handler(404)), Some(host), 404),
{
    lemma_status_handler(404);
    lemma_host_route(host, status_handler(404), "handler"@);
    lemma_host_route(host, status_handler(404), "status_code"@);
    lemma_host_route(host, status_handler(404), "upstreams"@);
}

proof fn lemma_last_route()
    ensures
        answers_with(last_route(), None, 404),
{
    lemma_settings();
    lemma_status_handler(404);
    let members = seq![("handle"@, Json::Array(seq![status_handler(404)]))];
    json::lemma_member(members, 0);
    json::lemma_no_member(members, "match"@, 0);
}

proof fn lemma_server(listen: Seq<char>, routes: Seq<Json>, more: Seq<(Seq<char>, Json)>)
    ensures
        ({
            let server = Some(Json::Object(server_members(listen, routes) + more));
            &&& json::items(json::field(server, "routes"@)) == routes
            &&& json::only(json::field(server, "listen"@)) == Some(Json::Text(listen))
            &&& json::field(json::field(server, "automatic_https"@), "disable"@) == Some(
                Json::Bool(true),
            )
        }),
{
    lemma_settings();
    let members = server_members(listen, routes) + more;
    let disable = seq![("disable"@, Json::Bool(true))];
    json::lemma_member(disable, 0);
    json::lemma_member(members, 0);
    json::lemma_member(members, 1);
    json::lemma_member(members, 2);
}

/// The servers of a configuration hold the routes of the domains, each list with a last route that
/// answers every other host name.
proof fn lemma_served(
    admin: Seq<char>,
    storage_root: Seq<char>,
    http_listen: Seq<char>,
    https_listen: Seq<char>,
    domains: Seq<DomainView>,
    secure: bool,
)
    ensures
        ({
            let config = config_tree(admin, storage_root, http_listen, https_listen, domains);
            let n = domains.len() as int;
            let routes = domain_routes(domains, n, secure);
            let server = json::field(
                json::field(
                    json::field(json::field(Some(config), "apps"@), "http"@),
                    "servers"@,
                ),
                if secure {
                    "https"@
                } else {
                    "http"@
                },
            );
            let there = if secure {
                routes.len() > 0
            } else {
                n > 0
            };
            &&& !there ==> server is None
            &&& there ==> json::items(json::field(server, "routes"@)) == routes.push(last_route())
            &&& there ==> json::only(json::field(server, "listen"@)) == Some(
                Json::Text(
                    if secure {
                        https_listen
                    } else {
                        http_listen
                    },
                ),
            )
            &&& there ==> json::field(json::field(server, "automatic_https"@), "disable"@) == Some(
                Json::Bool(true),
            )
        }),
{
    lemma_settings();
    let n = domains.len() as int;
    let servers = servers_of(http_listen, https_listen, domains);
    let apps = apps_of(servers, domains);
    let top = seq![
        ("admin"@, Json::Object(seq![("listen"@, Json::Text(admin))])),
        (
            "storage"@,
            Json::Object(
                seq![
                    ("module"@, Json::Text("file_system"@)),
                    ("root"@, Json::Text(storage_root)),
                ],
            ),
        ),
        ("apps"@, apps),
    ];
    json::lemma_member(top, 2);
    json::lemma_member(apps->Object_0, 0);
    let http = seq![("servers"@, servers)];
    json::lemma_member(http, 0);
    let members = servers->Object_0;
    let plain = domain_routes(domains, n, false).push(last_route());
    let safe = domain_routes(domains, n, true).push(last_route());
    lemma_server(http_listen, plain, Seq::empty());
    assert(server_members(http_listen, plain) + Seq::<(Seq<char>, Json)>::empty()
        =~= server_members(http_listen, plain));
    let policy = ("tls_connection_policies"@, Json::Array(seq![Json::Object(Seq::empty())]));
    lemma_server(https_listen, safe, seq![policy]);
    assert(server_members(https_listen, safe) + seq![policy] =~= server_members(
        https_listen,
        safe,
    ).push(policy));
    if n > 0 {
        json::lemma_member(members, 0);
        if members.len() == 2 {
            json::lemma_member(members, 1);
        } else {
            json::lemma_no_member(members, "https"@, 0);
        }
    } else {
        assert(domain_routes(domains, 0, true).len() == 0);
        json::lemma_no_member(members, "http"@, 0);
        json::lemma_no_member(members, "https"@, 0);
    }
}

proof fn lemma_service_routed(domain: DomainView, n: int, secure: bool, j: int)
    requires
        0 <= j < n <= domain.services.len(),
        domain.services[j].secure() ==> domain.https,
        domain.services[j].secure() == secure,
    ensures
        service_routes(domain, n, secure).contains(
            host_route(domain.services[j].hostname, service_handler(domain.services[j])),
        ),
    decreases n,
{
    let route = host_route(domain.services[j].hostname, service_handler(domain.services[j]));
    let after = service_routes(domain, n, secure);
    if j < n - 1 {
        lemma_service_routed(domain, n - 1, secure, j);
        let before = service_routes(domain, n - 1, secure);
        let i = choose|i: int| 0 <= i < before.len() && before[i] == route;
        assert(after[i] == route);
    } else {
        assert(after[after.len() - 1] == route);
    }
}

proof fn lemma_routed(domains: Seq<DomainView>, n: int, secure: bool, k: int, route: Json)
    requires
        0 <= k < n <= domains.len(),
        service_routes(domains[k], domains[k].services.len() as int, secure).contains(route),
    ensures
        domain_routes(domains, n, secure).contains(route),
    decreases n,
{
    let after = domain_routes(domains, n, secure);
    let before = domain_routes(domains, n - 1, secure);
    let own = service_routes(domains[n - 1], domains[n - 1].services.len() as int, secure);
    if k < n - 1 {
        lemma_routed(domains, n - 1, secure, k, route);
        let i = choose|i: int| 0 <= i < before.len() && before[i] == route;
        assert(after[i] == route);
    } else {
        let i = choose|i: int| 0 <= i < own.len() && own[i] == route;
        assert(after[after.len() - own.len() + i] == route);
    }
}

/// The edge passes the requests for a web service on to the address under which its tunnel is reached
/// and to no other: over HTTPS where the service is secure, else over HTTP. As long as its tunnel has
/// no address, requests for it are answered with the status 503.
pub proof fn requests_reach_the_tunnel(
    admin: Seq<char>,
    storage_root: Seq<char>,
    http_listen: Seq<char>,
    https_listen: Seq<char>,
    domains: Seq<DomainView>,
    k: int,
    j: int,
) -> (i: int)
    requires
        0 <= k < domains.len(),
        0 <= j < domains[k].services.len(),
        domains[k].services[j].protocol == "https"@ ==> domains[k].https,
    ensures
        ({
            let config = config_tree(admin, storage_root, http_listen, https_listen, domains);
            let service = domains[k].services[j];
            let routes = served(
                config,
                if service.protocol == "https"@ {
                    "https"@
                } else {
                    "http"@
                },
            );
            &&& 0 <= i < routes.len()
            &&& service.upstream matches Some(upstream) ==> passes_to(
                routes[i],
                service.hostname,
                upstream,
            )
            &&& service.upstream is None ==> answers_with(routes[i], Some(service.hostname), 503)
        }),
{
    let service = domains[k].services[j];
    let secure = service.secure();
    let n = domains.len() as int;
    lemma_served(admin, storage_root, http_listen, https_listen, domains, secure);
    let route = host_route(service.hostname, service_handler(service));
    lemma_service_routed(domains[k], domains[k].services.len() as int, secure, j);
    lemma_routed(domains, n, secure, k, route);
    lemma_service_read(service);
    let routes = domain_routes(domains, n, secure);
    let i = choose|i: int| 0 <= i < routes.len() && routes[i] == route;
    assert(routes.push(last_route())[i] == route);
    i
}

proof fn lemma_service_route_from(domain: DomainView, n: int, secure: bool, i: int) -> (j: int)
    requires
        0 <= n <= domain.services.len(),
        0 <= i < service_routes(domain, n, secure).len(),
    ensures
        0 <= j < n,
        domain.services[j].secure() ==> domain.https,
        ({
            let service = domain.services[j];
            let route = service_routes(domain, n, secure)[i];
            (service.secure() == secure && route == host_route(
                service.hostname,
                service_handler(service),
            )) || (!secure && service.secure() && route == host_route(
                service.hostname,
                redirect_handler(service.hostname),
            ))
        }),
    decreases n,
{
    let before = service_routes(domain, n - 1, secure);
    if i < before.len() {
        lemma_service_route_from(domain, n - 1, secure, i)
    } else {
        n - 1
    }
}

/// What a route for a host name does, by where the host name comes from.
spec fn explained(domains: Seq<DomainView>, n: int, secure: bool, route: Json) -> bool {
    (exists|k: int|
        0 <= k < n && (#[trigger] domains[k]).https == secure && answers_with(
            route,
            Some(domains[k].name),
            404,
        )) || (exists|k: int, j: int|
        0 <= k < n && 0 <= j < domains[k].services.len() && explained_by(
            #[trigger] domains[k],
            #[trigger] domains[k].services[j],
            secure,
            route,
        ))
}

/// What a route does for a service.
spec fn explained_by(domain: DomainView, service: ServiceView, secure: bool, route: Json) -> bool {
    &&& service.protocol == "https"@ ==> domain.https
    &&& if (service.protocol == "https"@) == secure {
        match service.upstream {
            Some(upstream) => passes_to(route, service.hostname, upstream),
            None => answers_with(route, Some(service.hostname), 503),
        }
    } else {
        !secure && redirects_to(
            route,
            service.hostname,
            "https://"@ + service.hostname + "{http.request.uri}"@,
        )
    }
}

proof fn lemma_explained(domains: Seq<DomainView>, n: int, secure: bool, i: int)
    requires
        0 <= n <= domains.len(),
        0 <= i < domain_routes(domains, n, secure).len(),
    ensures
        explained(domains, n, secure, domain_routes(domains, n, secure)[i]),
    decreases n,
{
    let route = domain_routes(domains, n, secure)[i];
    let before = domain_routes(domains, n - 1, secure);
    let own = service_routes(domains[n - 1], domains[n - 1].services.len() as int, secure);
    if i < before.len() {
        lemma_explained(domains, n - 1, secure, i);
        assert(route == before[i]);
        if exists|k: int|
            0 <= k < n - 1 && (#[trigger] domains[k]).https == secure && answers_with(
                route,
                Some(domains[k].name),
                404,
            ) {
            let k = choose|k: int|
                0 <= k < n - 1 && (#[trigger] domains[k]).https == secure && answers_with(
                    route,
                    Some(domains[k].name),
                    404,
                );
            assert(domains[k].https == secure);
        } else {
            let (k, j) = choose|k: int, j: int|
                0 <= k < n - 1 && 0 <= j < domains[k].services.len() && explained_by(
                    #[trigger] domains[k],
                    #[trigger] domains[k].services[j],
                    secure,
                    route,
                );
            assert(explained_by(domains[k], domains[k].services[j], secure, route));
        }
    } else {
        let first = before.len() + (if domains[n - 1].https == secure {
            1int
        } else {
            0
        });
        if i < first {
            lemma_domain_read(domains[n - 1].name);
            assert(domains[n - 1].https == secure);
        } else {
            assert(route == own[i - first]);
            let j = lemma_service_route_from(
                domains[n - 1],
                domains[n - 1].services.len() as int,
                secure,
                i - first,
            );
            let service = domains[n - 1].services[j];
            lemma_service_read(service);
            lemma_redirect_route(service.hostname);
            assert(explained_by(domains[n - 1], service, secure, route));
        }
    }
}

/// Every route of a configuration that has an address to pass requests on to is for the host name of a
/// service, and leads to the tunnel of that service alone; the routes for HTTPS are those of secure
/// services. Nothing else is passed on: what is left is answered by the edge itself.
pub proof fn only_services_are_passed_on(
    admin: Seq<char>,
    storage_root: Seq<char>,
    http_listen: Seq<char>,
    https_listen: Seq<char>,
    domains: Seq<DomainView>,
    secure: bool,
    i: int,
)
    requires
        ({
            let routes = served(
                config_tree(admin, storage_root, http_listen, https_listen, domains),
                if secure {
                    "https"@
                } else {
                    "http"@
                },
            );
            0 <= i < routes.len() && handling(routes[i], "upstreams"@) is Some
        }),
    ensures
        ({
            let route = served(
                config_tree(admin, storage_root, http_listen, https_listen, domains),
                if secure {
                    "https"@
                } else {
                    "http"@
                },
            )[i];
            exists|k: int, j: int|
                #![trigger domains[k].services[j]]
                0 <= k < domains.len() && 0 <= j < domains[k].services.len() && (
                domains[k].services[j].protocol == "https"@) == secure && (secure
                    ==> domains[k].https) && domains[k].services[j].upstream is Some && passes_to(
                    route,
                    domains[k].services[j].hostname,
                    domains[k].services[j].upstream->0,
                )
        }),
{
    let n = domains.len() as int;
    lemma_served(admin, storage_root, http_listen, https_listen, domains, secure);
    let routes = domain_routes(domains, n, secure);
    lemma_last_route();
    assert(i < routes.len());
    lemma_explained(domains, n, secure, i);
    let route = routes[i];
    assert(routes.push(last_route())[i] == route);
    let (k, j) = choose|k: int, j: int|
        0 <= k < n && 0 <= j < domains[k].services.len() && explained_by(
            #[trigger] domains[k],
            #[trigger] domains[k].services[j],
            secure,
            route,
        );
    assert(explained_by(domains[k], domains[k].services[j], secure, route));
}

/// A request over HTTP for a secure service is sent on to the same place over HTTPS, for good.
pub proof fn plain_requests_are_sent_to_https(
    admin: Seq<char>,
    storage_root: Seq<char>,
    http_listen: Seq<char>,
    https_listen: Seq<char>,
    domains: Seq<DomainView>,
    k: int,
    j: int,
) -> (i: int)
    requires
        0 <= k < domains.len(),
        0 <= j < domains[k].services.len(),
        domains[k].https,
        domains[k].services[j].protocol == "https"@,
    ensures
        ({
            let routes = served(
                config_tree(admin, storage_root, http_listen, https_listen, domains),
                "http"@,
            );
            let host = domains[k].services[j].hostname;
            0 <= i < routes.len() && redirects_to(
                routes[i],
                host,
                "https://"@ + host + "{http.request.uri}"@,
            )
        }),
{
    let n = domains.len() as int;
    let host = domains[k].services[j].hostname;
    lemma_served(admin, storage_root, http_listen, https_listen, domains, false);
    secure_services_are_redirected(domains, k, j);
    lemma_redirect_route(host);
    let routes = domain_routes(domains, n, false);
    let route = host_route(host, redirect_handler(host));
    let i = choose|i: int| 0 <= i < routes.len() && routes[i] == route;
    assert(routes.push(last_route())[i] == route);
    i
}

/// The edge listens where its settings say: one server for HTTP, and one for HTTPS where something is
/// served over it. Neither gets certificates on its own, and both answer what they have no other
/// route for with the status 404.
pub proof fn the_edge_listens_as_it_is_set(
    admin: Seq<char>,
    storage_root: Seq<char>,
    http_listen: Seq<char>,
    https_listen: Seq<char>,
    domains: Seq<DomainView>,
)
    ensures
        ({
            let config = Some(
                config_tree(admin, storage_root, http_listen, https_listen, domains),
            );
            let servers = json::field(
                json::field(json::field(config, "apps"@), "http"@),
                "servers"@,
            );
            let plain = json::field(servers, "http"@);
            let safe = json::field(servers, "https"@);
            &&& json::field(json::field(config, "admin"@), "listen"@) == Some(Json::Text(admin))
            &&& json::field(json::field(config, "storage"@), "root"@) == Some(
                Json::Text(storage_root),
            )
            &&& plain is Some <==> domains.len() > 0
            &&& plain is Some ==> json::only(json::field(plain, "listen"@)) == Some(
                Json::Text(http_listen),
            ) && json::field(json::field(plain, "automatic_https"@), "disable"@) == Some(
                Json::Bool(true),
            ) && json::items(json::field(plain, "routes"@)).len() > 0 && answers_with(
                json::items(json::field(plain, "routes"@)).last(),
                None,
                404,
            )
            &&& safe is Some ==> json::only(json::field(safe, "listen"@)) == Some(
                Json::Text(https_listen),
            ) && json::field(json::field(safe, "automatic_https"@), "disable"@) == Some(
                Json::Bool(true),
            ) && json::items(json::field(safe, "routes"@)).len() > 1 && answers_with(
                json::items(json::field(safe, "routes"@)).last(),
                None,
                404,
            )
        }),
{
    lemma_settings();
    lemma_last_route();
    lemma_served(admin, storage_root, http_listen, https_listen, domains, false);
    lemma_served(admin, storage_root, http_listen, https_listen, domains, true);
    let listen = seq![("listen"@, Json::Text(admin))];
    let storage = seq![
        ("module"@, Json::Text("file_system"@)),
        ("root"@, Json::Text(storage_root)),
    ];
    let top = seq![
        ("admin"@, Json::Object(listen)),
        ("storage"@, Json::Object(storage)),
        ("apps"@, apps_of(servers_of(http_listen, https_listen, domains), domains)),
    ];
    json::lemma_member(listen, 0);
    json::lemma_member(storage, 1);
    json::lemma_member(top, 0);
    json::lemma_member(top, 1);
    let n = domains.len() as int;
    let plain = domain_routes(domains, n, false);
    let safe = domain_routes(domains, n, true);
    if n > 0 {
        json::lemma_member(servers_of(http_listen, https_listen, domains)->Object_0, 0);
        let server = json::field(
            json::field(
                json::field(
                    json::field(
                        Some(config_tree(admin, storage_root, http_listen, https_listen, domains)),
                        "apps"@,
                    ),
                    "http"@,
                ),
                "servers"@,
            ),
            "http"@,
        );
        assert(json::items(json::field(server, "routes"@)).len() == plain.len() + 1);
        assert(server is Some);
    }
}

/// The certificates that a configuration orders, by their subjects.
pub open spec fn ordered_subjects(config: Json) -> Option<Json> {
    json::field(
        json::field(json::field(json::field(Some(config), "apps"@), "tls"@), "certificates"@),
        "automate"@,
    )
}

/// The rules of a configuration for how certificates are got.
pub open spec fn ordering_rules(config: Json) -> Seq<Json> {
    json::items(
        json::field(
            json::field(json::field(json::field(Some(config), "apps"@), "tls"@), "automation"@),
            "policies"@,
        ),
    )
}

proof fn lemma_ordered(
    admin: Seq<char>,
    storage_root: Seq<char>,
    http_listen: Seq<char>,
    https_listen: Seq<char>,
    domains: Seq<DomainView>,
)
    ensures
        ({
            let config = config_tree(admin, storage_root, http_listen, https_listen, domains);
            let n = domains.len() as int;
            let subjects = all_subjects(domains, n);
            &&& subjects.len() == 0 ==> ordered_subjects(config) is None && ordering_rules(
                config,
            ).len() == 0
            &&& subjects.len() > 0 ==> ordered_subjects(config) == Some(json::text_array(subjects))
                && ordering_rules(config) == all_policies(domains, n)
        }),
{
    lemma_settings();
    let n = domains.len() as int;
    let servers = servers_of(http_listen, https_listen, domains);
    let apps = apps_of(servers, domains);
    let top = seq![
        ("admin"@, Json::Object(seq![("listen"@, Json::Text(admin))])),
        (
            "storage"@,
            Json::Object(
                seq![
                    ("module"@, Json::Text("file_system"@)),
                    ("root"@, Json::Text(storage_root)),
                ],
            ),
        ),
        ("apps"@, apps),
    ];
    json::lemma_member(top, 2);
    let subjects = all_subjects(domains, n);
    if subjects.len() > 0 {
        let automate = seq![("automate"@, json::text_array(subjects))];
        let policies = seq![("policies"@, Json::Array(all_policies(domains, n)))];
        let tls = seq![
            ("certificates"@, Json::Object(automate)),
            ("automation"@, Json::Object(policies)),
        ];
        json::lemma_member(apps->Object_0, 2);
        json::lemma_member(tls, 0);
        json::lemma_member(tls, 1);
        json::lemma_member(automate, 0);
        json::lemma_member(policies, 0);
    } else {
        json::lemma_no_member(apps->Object_0, "tls"@, 0);
    }
}

proof fn lemma_all_subjects(domains: Seq<DomainView>, n: int, name: Seq<char>)
    requires
        0 <= n <= domains.len(),
        forall|k: int| 0 <= k < n ==> is_subject_list(#[trigger] domains[k], subject_list(domains[k])),
    ensures
        all_subjects(domains, n).contains(name) <==> exists|k: int|
            0 <= k < n && needs_subject(#[trigger] domains[k], name),
    decreases n,
{
    if n > 0 {
        lemma_all_subjects(domains, n - 1, name);
        let before = all_subjects(domains, n - 1);
        let own = subject_list(domains[n - 1]);
        let all = all_subjects(domains, n);
        assert(all =~= before + own);
        if all.contains(name) {
            let i = choose|i: int| 0 <= i < all.len() && all[i] == name;
            if i < before.len() {
                assert(before[i] == name);
                let k = choose|k: int| 0 <= k < n - 1 && needs_subject(#[trigger] domains[k], name);
                assert(needs_subject(domains[k], name));
            } else {
                assert(own[i - before.len()] == name);
                assert(own.contains(name));
                assert(needs_subject(domains[n - 1], name));
            }
        }
        if exists|k: int| 0 <= k < n && needs_subject(#[trigger] domains[k], name) {
            let k = choose|k: int| 0 <= k < n && needs_subject(#[trigger] domains[k], name);
            if k < n - 1 {
                let i = choose|i: int| 0 <= i < before.len() && before[i] == name;
                assert(all[i] == name);
            } else {
                assert(own.contains(name));
                let i = choose|i: int| 0 <= i < own.len() && own[i] == name;
                assert(all[before.len() + i] == name);
            }
        }
    }
}

/// Certificates are ordered for what is served over HTTPS and for nothing else: for each domain with
/// HTTPS its own name; with the challenge over HTTP the host name of each secure service; with the
/// challenge over DNS the wildcard of the domain and of the parent of each secure service.
pub proof fn certificates_are_ordered_for_what_is_served(
    admin: Seq<char>,
    storage_root: Seq<char>,
    http_listen: Seq<char>,
    https_listen: Seq<char>,
    domains: Seq<DomainView>,
    name: Seq<char>,
)
    requires
        forall|k: int|
            0 <= k < domains.len() ==> is_subject_list(
                #[trigger] domains[k],
                subject_list(domains[k]),
            ),
    ensures
        ({
            let config = config_tree(admin, storage_root, http_listen, https_listen, domains);
            json::items(ordered_subjects(config)).contains(Json::Text(name)) <==> exists|k: int|
                #![trigger domains[k]]
                0 <= k < domains.len() && domains[k].https && (name == domains[k].name || (
                domains[k].mode == "http01"@ && exists|j: int|
                    0 <= j < domains[k].services.len() && (
                    #[trigger] domains[k].services[j]).protocol == "https"@
                        && domains[k].services[j].hostname == name) || (domains[k].mode
                    != "http01"@ && (name == "*."@ + domains[k].name || exists|j: int|
                    0 <= j < domains[k].services.len() && (
                    #[trigger] domains[k].services[j]).protocol == "https"@
                        && wildcard_of(domains[k].services[j].hostname) == Some(name))))
        }),
{
    let n = domains.len() as int;
    let config = config_tree(admin, storage_root, http_listen, https_listen, domains);
    lemma_ordered(admin, storage_root, http_listen, https_listen, domains);
    lemma_all_subjects(domains, n, name);
    let subjects = all_subjects(domains, n);
    let list = json::items(ordered_subjects(config));
    if list.contains(Json::Text(name)) {
        let i = choose|i: int| 0 <= i < list.len() && list[i] == Json::Text(name);
        assert(subjects[i] == name);
        let k = choose|k: int| 0 <= k < n && needs_subject(#[trigger] domains[k], name);
        assert(domains[k].https);
    }
    if subjects.contains(name) {
        let i = choose|i: int| 0 <= i < subjects.len() && subjects[i] == name;
        assert(list[i] == Json::Text(name));
    }
    assert forall|k: int|
        #![trigger domains[k]]
        0 <= k < domains.len() && domains[k].https && (name == domains[k].name || (domains[k].mode
            == "http01"@ && exists|j: int|
            0 <= j < domains[k].services.len() && (#[trigger] domains[k].services[j]).protocol
                == "https"@ && domains[k].services[j].hostname == name) || (domains[k].mode
            != "http01"@ && (name == "*."@ + domains[k].name || exists|j: int|
            0 <= j < domains[k].services.len() && (#[trigger] domains[k].services[j]).protocol
                == "https"@ && wildcard_of(domains[k].services[j].hostname) == Some(name))))
        implies needs_subject(domains[k], name) by {}
}

/// A host name and the wildcard that stands for it differ in the first label alone: the wildcard has
/// an asterisk in its place, and covers the host name.
pub proof fn wildcards_cover_their_host(hostname: Seq<char>)
    ensures
        wildcard_of(hostname) matches Some(name) ==> {
            &&& covered(name, hostname)
            &&& exists|i: int|
                0 <= i < hostname.len() && #[trigger] hostname[i] == '.' && !hostname.subrange(
                    0,
                    i,
                ).contains('.') && name == "*"@ + hostname.subrange(i, hostname.len() as int)
        },
        wildcard_of(hostname) is None <==> !hostname.contains('.'),
{
    if hostname.contains('.') {
        let i = text::position(hostname, '.');
        text::lemma_cut(hostname, '.');
        text::lemma_first_position(hostname, '.');
        let rest = hostname.skip(i + 1);
        reveal_strlit("*.");
        reveal_strlit("*");
        assert(("*."@ + rest).take(2) =~= "*."@);
        assert(("*."@ + rest).skip(2) =~= rest);
        assert(hostname[i] == '.');
        assert forall|j: int| 0 <= j < i implies hostname.subrange(0, i)[j] != '.' by {}
        assert("*."@ + rest =~= "*"@ + hostname.subrange(i, hostname.len() as int));
    }
}

/// The rule for certificates of a domain: what it orders, and how the domain is shown to be its own.
/// Over HTTP no other challenge is tried; over DNS the records are set with the credential of the
/// domain, as its settings say.
pub proof fn rules_follow_the_settings_of_the_domain(domain: DomainView)
    ensures
        !domain.https ==> policy_of(domain) is None,
        domain.https && domain.mode != "http01"@ && domain.token is None ==> policy_of(domain)
            is None,
        policy_of(domain) matches Some(rule) ==> ({
            let issuer = json::only(json::field(Some(rule), "issuers"@));
            let challenges = json::field(issuer, "challenges"@);
            let dns = json::field(challenges, "dns"@);
            &&& json::field(Some(rule), "subjects"@) == Some(
                json::text_array(subject_list(domain)),
            )
            &&& json::field(issuer, "module"@) == Some(Json::Text("acme"@))
            &&& domain.mode == "http01"@ ==> dns is None && json::field(
                json::field(challenges, "tls-alpn"@),
                "disabled"@,
            ) == Some(Json::Bool(true))
            &&& domain.mode != "http01"@ ==> {
                &&& json::field(json::field(dns, "provider"@), "name"@) == Some(
                    Json::Text("cloudflare"@),
                )
                &&& domain.token is Some && json::field(
                    json::field(dns, "provider"@),
                    "api_token"@,
                ) == Some(Json::Text(domain.token->0))
                &&& domain.resolvers.len() > 0 ==> json::field(dns, "resolvers"@) == Some(
                    json::text_array(domain.resolvers),
                )
                &&& domain.delay matches Some(seconds) ==> json::field(dns, "propagation_delay"@)
                    == Some(Json::Unsigned((seconds * 1000000000) as u64))
                &&& domain.timeout matches Some(seconds) ==> json::field(
                    dns,
                    "propagation_timeout"@,
                ) == Some(Json::Unsigned((seconds * 1000000000) as u64))
            }
        }),
{
    lemma_settings();
    if let Some(rule) = policy_of(domain) {
        let challenges = if domain.mode == "http01"@ {
            seq![("tls-alpn"@, Json::Object(seq![("disabled"@, Json::Bool(true))]))]
        } else {
            seq![("dns"@, dns_challenge(domain, domain.token->0))]
        };
        let issuer = seq![
            ("module"@, Json::Text("acme"@)),
            ("challenges"@, Json::Object(challenges)),
        ];
        let members = seq![
            ("subjects"@, json::text_array(subject_list(domain))),
            ("issuers"@, Json::Array(seq![Json::Object(issuer)])),
        ];
        json::lemma_member(members, 0);
        json::lemma_member(members, 1);
        json::lemma_member(issuer, 0);
        json::lemma_member(issuer, 1);
        json::lemma_member(challenges, 0);
        if domain.mode == "http01"@ {
            json::lemma_no_member(challenges, "dns"@, 0);
            json::lemma_member(seq![("disabled"@, Json::Bool(true))], 0);
        } else {
            let token = domain.token->0;
            let provider = seq![("name"@, Json::Text("cloudflare"@)), ("api_token"@, Json::Text(token))];
            json::lemma_member(provider, 0);
            json::lemma_member(provider, 1);
            let dns = dns_challenge(domain, token)->Object_0;
            json::lemma_member(dns, 0);
            let at: int = if domain.resolvers.len() > 0 {
                2
            } else {
                1
            };
            if domain.resolvers.len() > 0 {
                json::lemma_member(dns, 1);
            }
            if domain.delay is Some {
                json::lemma_member(dns, at);
            }
            if domain.timeout is Some {
                json::lemma_member(dns, dns.len() - 1);
            }
        }
    }
}

/// The interface for administration is opened on a loopback address of this machine alone, without
/// encryption, credentials, path or query in its address.
pub proof fn administration_stays_on_this_machine(parts: Result<url::UrlView, Seq<char>>)
    ensures
        admin_address(parts) is Ok ==> {
            &&& parts is Ok
            &&& exists|ip: IpAddr|
                #[trigger] ip.loopback() && ip::ip_of(
                    text::unbracketed(
                        match parts->Ok_0.host {
                            Some(host) => host,
                            None => Seq::empty(),
                        },
                    ),
                ) == Some(ip) && admin_address(parts) == Ok::<Seq<char>, ConfigFault>(
                    ip::socket_text(
                        SocketAddr {
                            ip,
                            port: match parts->Ok_0.port {
                                Some(port) => port,
                                None => 8290,
                            },
                            scope: 0,
                        },
                    ),
                )
            &&& parts->Ok_0.scheme == "http"@ && parts->Ok_0.username.len() == 0
                && !parts->Ok_0.has_password && !parts->Ok_0.has_query
            &&& parts->Ok_0.path.len() == 0 || parts->Ok_0.path == "/"@
        },
        parts is Err ==> admin_address(parts) is Err,
{
    if admin_address(parts) is Ok {
        let ip = ip::ip_of(
            text::unbracketed(
                match parts->Ok_0.host {
                    Some(host) => host,
                    None => Seq::empty(),
                },
            ),
        )->0;
        assert(ip.loopback());
    }
}

} // verus!
