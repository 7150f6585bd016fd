use nexo::policy::{generate_policy, grant_protocols, policy_document, PolicyGrant};

fn grant() -> PolicyGrant {
    PolicyGrant {
        source_tenant: "default".to_owned(),
        target_tenant: "default".to_owned(),
        sources: vec!["user:42".to_owned()],
        destinations: vec!["192.168.10.0/24".to_owned()],
        protocols: Vec::new(),
        ports: vec!["*".to_owned()],
        ssh: false,
    }
}

#[test]
fn policy_is_explicit_and_never_uses_global_wildcard() {
    let policy = generate_policy(&[grant()]);
    assert!(policy.contains("user:42"));
    assert!(policy.contains("192.168.10.0/24"));
    assert!(policy.contains("\"ip\""));
    assert!(policy.contains("\"*\""));
}

#[test]
fn empty_policy_is_not_allow_all() {
    assert_eq!(
        generate_policy(&[]),
        "{\n  \"grants\": [],\n  \"ssh\": []\n}"
    );
}

#[test]
fn policy_restricts_protocol_and_port_without_widening_targets() {
    let policy = generate_policy(&[PolicyGrant {
        source_tenant: "owner".to_owned(),
        target_tenant: "guest".to_owned(),
        sources: vec!["nexo-guest@".to_owned()],
        destinations: vec!["100.64.0.8".to_owned()],
        protocols: vec!["tcp".to_owned()],
        ports: vec!["22".to_owned(), "443".to_owned()],
        ssh: true,
    }]);
    assert!(policy.contains("tcp:22"));
    assert!(policy.contains("tcp:443"));
    assert!(policy.contains("autogroup:nonroot"));
    assert!(!policy.contains("udp:22"));
}

#[test]
fn wildcard_ports_stay_within_selected_protocols() {
    let policy = generate_policy(&[PolicyGrant {
        source_tenant: "owner".to_owned(),
        target_tenant: "owner".to_owned(),
        sources: vec!["nexo-owner@".to_owned()],
        destinations: vec!["100.64.0.8".to_owned()],
        protocols: vec!["tcp".to_owned()],
        ports: vec!["*".to_owned()],
        ssh: false,
    }]);
    assert!(policy.contains("tcp:*"));
    assert!(!policy.contains("\"*\""));
}

#[test]
fn rules_are_the_product_of_protocols_and_ports() {
    let mut one = grant();
    one.protocols = vec![" TCP ".into(), "sctp".into(), "udp".into()];
    one.ports = vec!["22".into(), " ".into(), " 443 ".into()];
    assert_eq!(
        grant_protocols(&one),
        vec!["tcp:22", "tcp:443", "udp:22", "udp:443"]
    );
    one.ports.push("*".into());
    assert_eq!(grant_protocols(&one), vec!["tcp:*", "udp:*"]);
    one.protocols = vec!["sctp".into()];
    assert_eq!(grant_protocols(&one), vec!["*"]);
}

#[test]
fn incomplete_grants_are_left_out() {
    let mut no_source = grant();
    no_source.sources.clear();
    let mut no_tenant = grant();
    no_tenant.source_tenant = "  ".into();
    let mut shell = grant();
    shell.ssh = true;
    let document = policy_document(&[no_source, no_tenant, shell]);
    assert_eq!(document["grants"].as_array().unwrap().len(), 1);
    assert_eq!(document["ssh"].as_array().unwrap().len(), 1);
    assert_eq!(document["ssh"][0]["action"], "accept");
    assert_eq!(document["ssh"][0]["users"][0], "autogroup:nonroot");
    assert_eq!(document["grants"][0]["src"][0], "user:42");
}

#[test]
fn a_star_among_the_protocols_allows_every_protocol_and_port() {
    let mut one = grant();
    one.protocols = vec!["tcp".into(), "*".into()];
    one.ports = vec!["22".into()];
    assert_eq!(grant_protocols(&one), vec!["*"]);
    one.protocols = vec![" * ".into()];
    assert_eq!(grant_protocols(&one), vec!["*"]);
    one.protocols = vec!["tcp".into(), "**".into()];
    assert_eq!(grant_protocols(&one), vec!["tcp:22"]);
}
