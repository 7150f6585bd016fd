use nexo::caddy::CaddyRuntimeConfig;
use nexo::domain_runtime::tenant_error;
use nexo::domains::DnsSettings;
use nexo::edge_config::{admin_listen, build_config, covers, ConfigError, DomainSpec, WebService};
use serde_json::Value;

fn settings() -> CaddyRuntimeConfig {
    CaddyRuntimeConfig {
        binary: "caddy".into(),
        config_path: "test/config.json".into(),
        applied_path: "test/applied.json".into(),
        cloudflare_token_root: "test/tokens".into(),
        storage_root: "test/storage".into(),
        admin_url: "http://127.0.0.1:8290".into(),
        enabled: true,
        http_listen: ":80".into(),
        https_listen: ":443".into(),
    }
}

fn service(hostname: &str, protocol: &str) -> WebService {
    WebService {
        hostname: hostname.into(),
        protocol: protocol.into(),
        upstream: None,
    }
}

fn domain() -> DomainSpec {
    DomainSpec {
        id: "d".into(),
        tenant_id: "default".into(),
        name: "example.com".into(),
        https: true,
        token_reference: None,
        certificate_mode: "cloudflare_dns".into(),
        dns: DnsSettings::default(),
        services: vec![service("nas.example.com", "https")],
    }
}

fn texts(list: &[&str]) -> Value {
    Value::from(list.to_vec())
}

#[test]
fn routes_share_wildcard_without_dns_credentials_and_do_not_fake_a_working_tunnel() {
    let cfg = build_config(&settings(), &vec![domain()]).unwrap();
    assert_eq!(cfg["admin"]["listen"], "127.0.0.1:8290");
    assert_eq!(
        cfg["apps"]["tls"]["certificates"]["automate"],
        texts(&["*.example.com", "example.com"])
    );
    assert_eq!(
        cfg["apps"]["http"]["servers"]["https"]["automatic_https"]["disable"],
        true
    );
    assert_eq!(
        cfg["apps"]["http"]["servers"]["https"]["routes"][1]["handle"][0]["status_code"],
        503
    );
    assert!(!cfg.to_string().contains("mesh."));
    assert!(!cfg.to_string().contains("local_address"));
    assert_eq!(
        cfg["apps"]["pki"]["certificate_authorities"]["local"]["install_trust"],
        false
    );
}

#[test]
fn dns_credentials_remain_placeholders_and_http_only_has_no_certificates() {
    let mut d = domain();
    d.token_reference = Some("{env.NEXO_CLOUDFLARE_TOKEN_D}".into());
    let cfg = build_config(&settings(), &vec![d.clone()]).unwrap();
    assert_eq!(
        cfg["apps"]["tls"]["certificates"]["automate"],
        texts(&["*.example.com", "example.com"])
    );
    assert_eq!(
        cfg["apps"]["http"]["servers"]["https"]["automatic_https"]["disable"],
        true
    );
    assert_eq!(
        cfg["apps"]["tls"]["automation"]["policies"][0]["issuers"][0]["challenges"]["dns"]
            ["provider"]["api_token"],
        "{env.NEXO_CLOUDFLARE_TOKEN_D}"
    );
    assert_eq!(
        cfg["apps"]["tls"]["automation"]["policies"][0]["issuers"][0]["challenges"]["dns"]
            ["resolvers"],
        texts(&["223.5.5.5:53", "223.6.6.6:53"])
    );
    d.https = false;
    let cfg = build_config(&settings(), &vec![d]).unwrap();
    assert!(cfg["apps"]["tls"].is_null());
    assert!(cfg["apps"]["http"]["servers"]["https"].is_null());
}

#[test]
fn sibling_services_reuse_wildcards_at_each_domain_level() {
    let mut d = domain();
    d.services.extend([
        service("media.example.com", "https"),
        service("a.team.example.com", "https"),
        service("b.team.example.com", "https"),
        service("a.http-only.example.com", "http"),
    ]);
    for token in [None, Some("{env.NEXO_CLOUDFLARE_TOKEN_D}".into())] {
        d.token_reference = token;
        let cfg = build_config(&settings(), &vec![d.clone()]).unwrap();
        assert_eq!(
            cfg["apps"]["tls"]["certificates"]["automate"],
            texts(&["*.example.com", "*.team.example.com", "example.com"])
        );
        for service in d
            .services
            .iter()
            .filter(|service| service.protocol == "https")
        {
            assert!(d
                .subjects()
                .iter()
                .any(|subject| covers(subject, &service.hostname)));
            assert!(!d.subjects().contains(&service.hostname));
        }
        let subjects = d.subjects();
        d.services.push(service("next.team.example.com", "https"));
        assert_eq!(d.subjects(), subjects);
        d.services.pop();
    }
}

#[test]
fn config_rejects_external_admin_and_conflicting_hosts() {
    let mut cfg = settings();
    cfg.admin_url = "http://0.0.0.0:8290".into();
    assert!(build_config(&cfg, &vec![]).is_err());
    cfg.admin_url = "http://127.0.0.1:8290".into();
    assert!(build_config(&cfg, &vec![domain(), domain()]).is_err());
    assert!(!covers("*.example.com", "a.b.example.com"));
    assert!(covers("*.example.com", "nas.example.com"));
    let mut other = domain();
    other.tenant_id = "other".into();
    let public = tenant_error(
        "配置错误：nas.example.com / example.com",
        &vec![other],
        "default",
    );
    assert!(!public.contains("example.com"));
}

#[test]
fn certificate_modes_and_dns_options_stay_per_domain() {
    let mut dns = domain();
    dns.token_reference = Some("{file./private/token}".into());
    dns.dns = DnsSettings {
        dns_resolvers: vec!["1.1.1.1:53".into()],
        dns_propagation_delay_seconds: Some(15),
        dns_propagation_timeout_seconds: Some(90),
    };
    dns.services[0].upstream = Some("127.0.0.1:18080".into());
    let mut http = domain();
    http.name = "other.test".into();
    http.certificate_mode = "http01".into();
    http.services[0].hostname = "nas.other.test".into();
    let config = build_config(&settings(), &vec![dns, http]).unwrap();
    let policies = &config["apps"]["tls"]["automation"]["policies"];
    let challenge = &policies[0]["issuers"][0]["challenges"]["dns"];
    assert_eq!(challenge["provider"]["api_token"], "{file./private/token}");
    assert_eq!(challenge["resolvers"], texts(&["1.1.1.1:53"]));
    assert_eq!(challenge["propagation_delay"], 15_000_000_000_u64);
    assert_eq!(challenge["propagation_timeout"], 90_000_000_000_u64);
    assert_eq!(
        policies[1]["subjects"],
        texts(&["nas.other.test", "other.test"])
    );
    assert!(policies[1]["issuers"][0]["challenges"]["dns"].is_null());
    assert_eq!(
        config["apps"]["http"]["servers"]["https"]["routes"][1]["handle"][0]["stream_close_delay"],
        300_000_000_000_u64
    );
    assert!(config["apps"]["http"]["servers"]["https"]["protocols"].is_null());
}

#[test]
fn each_fault_of_a_configuration_has_its_reason() {
    let mut cfg = settings();
    cfg.admin_url = "not a url".into();
    let reason = "relative URL without a base";
    assert_eq!(admin_listen(&cfg).err(), Some(ConfigError::AdminUrl(reason.into())));
    assert_eq!(admin_listen(&cfg).unwrap_err().message(), reason);
    cfg.admin_url = "http://localhost:8290".into();
    assert_eq!(admin_listen(&cfg).err(), Some(ConfigError::AdminAddress));
    cfg.admin_url = "http://192.0.2.1:8290".into();
    assert_eq!(admin_listen(&cfg).err(), Some(ConfigError::AdminExposed));
    cfg.admin_url = "http://user@127.0.0.1:8290".into();
    assert_eq!(admin_listen(&cfg).err(), Some(ConfigError::AdminExposed));
    cfg.admin_url = "http://[::1]:8290".into();
    assert_eq!(admin_listen(&cfg).unwrap(), "[::1]:8290");
    let cfg = settings();
    assert_eq!(
        build_config(&cfg, &vec![domain(), domain()]).err(),
        Some(ConfigError::RepeatedDomain)
    );
    let mut twice = domain();
    twice.services.push(service("nas.example.com", "http"));
    assert_eq!(
        build_config(&cfg, &vec![twice]).err(),
        Some(ConfigError::InvalidService)
    );
    let mut invalid = domain();
    invalid.name = "no domain".into();
    assert_eq!(
        build_config(&cfg, &vec![invalid]).err(),
        Some(ConfigError::InvalidDomain)
    );
}

#[test]
fn services_over_https_are_redirected_from_http() {
    let mut one = domain();
    one.services.push(service("tv.example.com", "http"));
    let config = build_config(&settings(), &vec![one.clone()]).unwrap();
    let servers = &config["apps"]["http"]["servers"];
    let plain = servers["http"]["routes"].as_array().unwrap();
    assert_eq!(plain.len(), 3);
    assert_eq!(plain[0]["match"][0]["host"], texts(&["nas.example.com"]));
    let answer = &plain[0]["handle"][0];
    assert_eq!(answer["handler"], "static_response");
    assert_eq!(answer["status_code"], 308);
    assert_eq!(
        answer["headers"]["Location"],
        texts(&["https://nas.example.com{http.request.uri}"])
    );
    assert_eq!(plain[1]["match"][0]["host"], texts(&["tv.example.com"]));
    assert_eq!(plain[1]["handle"][0]["status_code"], 503);
    let secure = servers["https"]["routes"].as_array().unwrap();
    assert_eq!(secure.len(), 3);
    assert_eq!(secure[1]["match"][0]["host"], texts(&["nas.example.com"]));
    assert_eq!(secure[1]["handle"][0]["status_code"], 503);
    assert!(!servers["https"].to_string().contains("tv.example.com"));
    one.https = false;
    let config = build_config(&settings(), &vec![one]).unwrap();
    let servers = &config["apps"]["http"]["servers"];
    assert!(servers["https"].is_null());
    assert!(!servers["http"].to_string().contains("308"));
}
