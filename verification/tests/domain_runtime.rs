use nexo::caddy::CaddyLogEvent;
use nexo::domain_runtime::{
    certificate_metadata, check_round, credential_source, needs_apply, observe_certificate,
    plan_cleanup, round_complete, specifications, CertificateMetadata, CertificateStatus, Cleanup,
    CredentialSource, DomainRow, DomainRuntime, ServiceRow,
};
use nexo::domains::{DnsSettings, Settings};
use nexo::edge_config::{DomainSpec, WebService};
use rcgen::{CertificateParams, KeyPair};

const ID: &str = "6f1e2d3c-4b5a-4978-8899-aabbccddeeff";

fn settings(mode: &str) -> Settings {
    Settings {
        certificate_mode: mode.into(),
        verification_status: "verified".into(),
        verification_record: None,
        credential_configured: false,
        dns: DnsSettings {
            dns_resolvers: vec!["1.1.1.1:53".into()],
            dns_propagation_delay_seconds: Some(5),
            dns_propagation_timeout_seconds: None,
        },
        credential_file: None,
        legacy: false,
    }
}

fn row(id: &str, domain: &str) -> DomainRow {
    DomainRow {
        id: id.into(),
        tenant_id: "default".into(),
        domain: domain.into(),
        https_enabled: true,
        workspace_enabled: true,
        verified: Some(true),
        settings: settings("http01"),
    }
}

fn service(id: &str, domain: &str, protocol: &str) -> ServiceRow {
    ServiceRow {
        id: id.into(),
        tenant_id: "default".into(),
        public_domain_id: Some(domain.into()),
        hostname: None,
        protocol: protocol.into(),
        enabled: true,
        deleted: false,
    }
}

fn web(hostname: &str, protocol: &str, upstream: Option<&str>) -> WebService {
    WebService {
        hostname: hostname.into(),
        protocol: protocol.into(),
        upstream: upstream.map(Into::into),
    }
}

fn served(services: Vec<WebService>) -> DomainSpec {
    DomainSpec {
        id: "d".into(),
        tenant_id: "default".into(),
        name: "example.com".into(),
        https: true,
        token_reference: None,
        certificate_mode: "http01".into(),
        dns: DnsSettings::default(),
        services,
    }
}

fn event(message: &str, identifier: &str) -> CaddyLogEvent {
    CaddyLogEvent {
        level: Some("error".into()),
        logger: Some("tls.obtain".into()),
        message: message.into(),
        identifier: Some(identifier.into()),
        status_code: None,
        retry_after_secs: None,
        occurred_at: Some(90),
    }
}

#[test]
fn expiry_and_renewal_failures_are_independent_and_new_certificate_clears_old_error() {
    let mut cert = CertificateStatus {
        hostname: "example.com".into(),
        status: "retry_wait".into(),
        error: Some("CA 限流".into()),
        next_retry_at: Some(150),
        not_before: Some(1),
        expires_at: Some(200),
    };
    let old = CertificateMetadata {
        subjects: vec!["example.com".into()],
        not_before: 1,
        expires_at: 200,
    };
    observe_certificate(&mut cert, Some(&old), 100);
    assert_eq!(cert.status, "retry_wait");
    assert!(cert.error.is_some());
    observe_certificate(&mut cert, Some(&old), 201);
    assert_eq!(cert.status, "expired");
    let renewed = CertificateMetadata {
        subjects: vec!["example.com".into()],
        not_before: 190,
        expires_at: 400,
    };
    observe_certificate(&mut cert, Some(&renewed), 201);
    assert_eq!(cert.status, "issued");
    assert!(cert.error.is_none());
    assert!(cert.next_retry_at.is_none());
}

#[test]
fn unproved_domains_and_disabled_workspaces_are_not_served() {
    let mut unproved = row("b", "unproved.example");
    unproved.verified = Some(false);
    let mut disabled = row("c", "disabled.example");
    disabled.workspace_enabled = false;
    let mut old = row("d", "old.example");
    old.verified = None;
    old.settings.certificate_mode = "cloudflare_dns".into();
    let rows = vec![row("a", "example.com"), unproved, disabled, old];
    let mut off = service("off", "a", "http");
    off.enabled = false;
    let mut foreign = service("foreign", "a", "http");
    foreign.tenant_id = "other".into();
    let mut named = service("s1", "a", "https");
    named.hostname = Some("nas".into());
    let mut inner = service("s3", "d", "http");
    inner.hostname = Some("a.b".into());
    let services = vec![
        named,
        off,
        foreign,
        service("tcp", "a", "tcp"),
        service("s2", "b", "http"),
        inner,
    ];
    let upstreams = vec![("s1".into(), "unix//run/s1".into())];
    let credentials = vec![
        ("a".into(), "/data/a".into()),
        ("d".into(), "/data/d/token".into()),
    ];
    let list = specifications(&rows, &services, &upstreams, &credentials);
    assert_eq!(list.len(), 2);
    assert_eq!(list[0].name, "example.com");
    assert_eq!(list[0].token_reference, None);
    assert_eq!(list[0].dns.dns_resolvers, ["1.1.1.1:53"]);
    assert_eq!(list[0].dns.dns_propagation_delay_seconds, Some(5));
    assert_eq!(list[0].services.len(), 1);
    assert_eq!(list[0].services[0].hostname, "nas.example.com");
    assert_eq!(
        list[0].services[0].upstream.as_deref(),
        Some("unix//run/s1")
    );
    assert_eq!(list[1].name, "old.example");
    assert_eq!(
        list[1].token_reference.as_deref(),
        Some("{file./data/d/token}")
    );
    assert_eq!(list[1].services[0].hostname, "a.b.old.example");
    assert_eq!(list[1].services[0].upstream, None);
}

#[test]
fn rounds_note_changes_once_and_forget_domains_that_are_gone() {
    let specs = vec![served(vec![
        web("nas.example.com", "https", Some("unix//run/nas")),
        web("web.example.com", "http", None),
    ])];
    let gone = ("gone".to_string(), DomainRuntime::pending(true));
    let (states, notices) = check_round(&vec![gone], &specs, None, &vec![], &vec![], 100);
    assert_eq!(states.len(), 1);
    let state = &states[0].1;
    assert_eq!(state.config_status, "applied");
    assert_eq!(state.checked_at, Some(100));
    assert!(state.service_warning.is_some());
    assert_eq!(
        state.loaded_route("https://nas.example.com").as_deref(),
        Some("unix//run/nas")
    );
    assert_eq!(state.loaded_route("http://web.example.com"), None);
    assert_eq!(notices[0].len(), 1);
    assert_eq!(notices[0][0].summary, "配置已加载");
    assert_eq!(state.certificates.len(), 2);
    assert_eq!(state.certificates[0].hostname, "example.com");
    assert_eq!(state.certificates[1].hostname, "nas.example.com");
    assert_eq!(state.certificates[1].status, "pending");
    let failed = event("obtaining certificate: failed", "nas.example.com");
    let mut other = event("obtaining certificate: failed", "nas.example.com");
    other.logger = Some("admin.api".into());
    let (states, notices) = check_round(&states, &specs, None, &vec![other], &vec![], 110);
    assert_eq!(notices[0].len(), 0);
    assert_eq!(states[0].1.certificates[1].error, None);
    let (states, notices) = check_round(&states, &specs, None, &vec![failed], &vec![], 120);
    assert_eq!(notices[0].len(), 1);
    assert_eq!(
        notices[0][0].summary,
        "nas.example.com：obtaining certificate: failed"
    );
    assert_eq!(notices[0][0].occurred_at, 90);
    assert!(states[0].1.certificates[1].error.is_some());
    let (states, notices) =
        check_round(&states, &specs, Some("端口被占用"), &vec![], &vec![], 130);
    assert_eq!(states[0].1.config_status, "failed");
    assert_eq!(states[0].1.config_error.as_deref(), Some("端口被占用"));
    assert_eq!(states[0].1.loaded_route("https://nas.example.com"), None);
    assert_eq!(notices[0][0].summary, "配置加载失败：端口被占用");
}

#[test]
fn stored_certificates_tell_their_names_and_dates() {
    let mut params =
        CertificateParams::new(vec!["example.com".into(), "*.example.com".into()]).unwrap();
    params.not_before = rcgen::date_time_ymd(2026, 1, 1);
    params.not_after = rcgen::date_time_ymd(2026, 4, 1);
    let pem = params
        .self_signed(&KeyPair::generate().unwrap())
        .unwrap()
        .pem();
    let metadata = certificate_metadata(&pem.into_bytes()).unwrap();
    assert_eq!(metadata.subjects, ["example.com", "*.example.com"]);
    assert_eq!(metadata.not_before, 1_767_225_600);
    assert_eq!(metadata.expires_at, 1_775_001_600);
    assert!(certificate_metadata(&b"no certificate".to_vec()).is_none());
}

#[test]
fn credentials_are_removed_only_where_nothing_needs_them() {
    let used = vec!["/t/used".to_string()];
    assert!(matches!(plan_cleanup(ID, true, true, true, "/t/x", &used), Cleanup::Keep));
    assert!(matches!(plan_cleanup("notes", true, false, true, "/t/x", &used), Cleanup::Keep));
    assert!(matches!(plan_cleanup(ID, false, false, true, "/t/x", &used), Cleanup::Keep));
    assert!(matches!(plan_cleanup(ID, true, false, false, "/t/x", &used), Cleanup::Refuse));
    assert!(matches!(plan_cleanup(ID, true, false, true, "/t/used", &used), Cleanup::Wait));
    assert!(matches!(plan_cleanup(ID, true, false, true, "/t/x", &used), Cleanup::Remove));
    assert!(needs_apply(false, false) && needs_apply(true, true) && !needs_apply(true, false));
}

#[test]
fn credentials_come_from_their_own_file_first() {
    let source = |settings: &Settings, own: Option<&str>, admin: bool| {
        credential_source(settings, "/t", ID, own.map(Into::into), admin, Some(" shared "))
    };
    let mut chosen = settings("cloudflare_dns");
    assert!(matches!(source(&chosen, None, true), CredentialSource::Missing));
    chosen.legacy = true;
    assert!(matches!(source(&chosen, None, false), CredentialSource::Missing));
    assert!(
        matches!(source(&chosen, None, true), CredentialSource::Token { token } if token == " shared ")
    );
    assert!(
        matches!(source(&chosen, Some("own"), true), CredentialSource::Token { token } if token == "own")
    );
    chosen.credential_file = Some("../token".into());
    assert!(matches!(source(&chosen, Some("own"), true), CredentialSource::Invalid));
    chosen.certificate_mode = "http01".into();
    assert!(matches!(source(&chosen, Some("own"), true), CredentialSource::Missing));
}

#[test]
fn a_round_is_complete_once_nothing_is_left() {
    assert!(round_complete(false, true, false));
    assert!(round_complete(true, false, true));
    assert!(!round_complete(true, true, true));
    assert!(!round_complete(true, false, false));
}
