use nexo::domains::{
    absolute_path, check_mode, check_proof, check_reply, claim, create_domain, credential_path,
    delete_domain, load, missing_settings, new_credential_file, no_settings, record_id, valid_token, zone_step, DnsSettings,
    DomainClaim, ProofLookup, ZoneStep,
};

#[test]
fn tokens_match_cloudflare_module_and_cannot_inject_placeholders() {
    for token in [
        "a".repeat(40),
        format!("cfut_{}", "a".repeat(256)),
        format!("cfat_{}", "a".repeat(100)),
    ] {
        assert!(valid_token(&token));
    }
    for token in [
        "{file./etc/passwd}".to_owned(),
        "cfut_short".into(),
        format!("cfut_{}", "a".repeat(257)),
        "a".repeat(51),
        format!("{}\n", "a".repeat(40)),
    ] {
        assert!(!valid_token(&token));
    }
}

#[test]
fn dns_values_are_bounded_and_normalized() {
    let mut value = DnsSettings {
        dns_resolvers: vec![
            "1.1.1.1".into(),
            "1.1.1.1:53".into(),
            "[2606:4700:4700::1111]:5353".into(),
        ],
        dns_propagation_delay_seconds: Some(10),
        dns_propagation_timeout_seconds: Some(60),
    };
    value.validate().unwrap();
    assert_eq!(value.dns_resolvers.len(), 2);
    assert_eq!(value.dns_resolvers[0], "1.1.1.1:53");
    for resolver in ["https://dns.example.com", "1.1.1.1:0", "0.0.0.0"] {
        value.dns_resolvers = vec![resolver.into()];
        assert!(value.validate().is_err());
    }
    value.dns_resolvers.clear();
    value.validate().unwrap();
    assert_eq!(value.dns_resolvers, ["223.5.5.5:53", "223.6.6.6:53"]);
    value.dns_propagation_timeout_seconds = Some(0);
    assert!(value.validate().is_err());
}

#[test]
fn new_dns_mode_requires_a_domain_credential() {
    let created = create_domain("default", "no-token.test", Some(true), &vec![]).unwrap();
    let settings = load(Some(created.settings), &created.domain).unwrap();
    assert_eq!(settings.dns.dns_resolvers, ["223.5.5.5:53", "223.6.6.6:53"]);
    let error = check_mode(
        "cloudflare_dns",
        settings.credential_configured,
        settings.legacy,
    )
    .unwrap_err();
    assert_eq!(error.status, 400);
    assert_eq!(settings.certificate_mode, "http01");
    assert!(check_mode("cloudflare_dns", true, false).is_ok());
    assert!(check_mode("http01", false, false).is_ok());
}

#[test]
fn unverified_domains_do_not_reserve_ranges_and_verified_ranges_cannot_overlap() {
    let claimed = |tenant: &str, domain: &str, verified| DomainClaim {
        tenant_id: tenant.into(),
        domain: domain.into(),
        verified,
    };
    let mut all = vec![];
    let first = create_domain("default", "example.test", Some(true), &all).unwrap();
    let settings = load(Some(first.settings), &first.domain).unwrap();
    assert_eq!(settings.verification_status, "pending");
    all.push(claimed("default", "example.test", false));
    create_domain("other", "example.test", Some(true), &all).unwrap();
    all.push(claimed("other", "example.test", false));
    create_domain("default", "sub.example.test", Some(true), &all).unwrap();
    all.push(claimed("default", "sub.example.test", false));
    claim("other", "example.test", &all, &vec![]).unwrap();
    all[1].verified = true;
    assert_eq!(
        claim("default", "example.test", &all, &vec![]).unwrap_err().status,
        409
    );
    assert_eq!(
        claim("default", "sub.example.test", &all, &vec![]).unwrap_err().status,
        409
    );
    assert_eq!(settings.certificate_mode, "http01");
}

#[test]
fn new_credentials_are_kept_apart_within_their_directory() {
    let id = "0b0f2b6e-4c8e-4e0b-9a36-0f6f4a1f3d52";
    let first = new_credential_file(id).unwrap();
    let second = new_credential_file(id).unwrap();
    assert_ne!(first, second);
    let path = credential_path("/data/tokens", id, &first).unwrap();
    assert!(path.starts_with("/data/tokens/"));
    assert!(path.ends_with(&first));
    assert!(credential_path("/data/tokens", id, "../../private.token").is_none());
    assert_eq!(absolute_path("tokens", "/data"), "/data/tokens");
    assert_eq!(absolute_path("/tokens", "/data"), "/tokens");
}

#[test]
fn proofs_are_read_from_dns() {
    let found = |records: &[&str]| ProofLookup::Found {
        records: records.iter().map(|one| one.as_bytes().to_vec()).collect(),
    };
    assert!(check_proof(&found(&["other", "proof"]), "proof").is_ok());
    assert!(check_proof(&found(&["other"]), "proof").is_err());
    for lookup in [ProofLookup::NoResolver, ProofLookup::TimedOut, ProofLookup::Missing] {
        assert!(check_proof(&lookup, "proof").is_err());
    }
}

#[test]
fn answers_of_the_provider_are_followed() {
    let zones = |text: &str| serde_json::from_str::<serde_json::Value>(text).unwrap();
    match zone_step(&zones("{\"result\":[{\"id\":\"x\",\"name\":\"b.example.com\"},{\"id\":\"z\",\"name\":\"a.example.com\"}]}"), "a.example.com").unwrap() {
        ZoneStep::Found { id } => assert_eq!(id, "z"),
        ZoneStep::Parent { .. } => panic!(),
    }
    match zone_step(&zones("{\"result\":[]}"), "a.example.com").unwrap() {
        ZoneStep::Parent { name } => assert_eq!(name, "example.com"),
        ZoneStep::Found { .. } => panic!(),
    }
    assert!(zone_step(&zones("{\"result\":[]}"), "com").is_err());
    assert_eq!(record_id(&zones("{\"result\":{\"id\":\"r\"}}")).unwrap(), "r");
    assert!(record_id(&zones("{}")).is_err());
    assert!(check_reply(true, Some(&zones("{\"success\":true}"))).is_ok());
    assert!(check_reply(true, Some(&zones("{\"success\":false}"))).is_err());
    assert!(check_reply(false, None).is_err());
}

#[test]
fn domains_normalize_validate_and_report_duplicates() {
    let mut all = vec![];
    for invalid in [
        "",
        ".",
        "a..com",
        "-a.com",
        "a-.com",
        "a_b.com",
        "https://example.com",
        "example.com:443",
        "example.com/path",
        "*.example.com",
        "127.0.0.1",
        "x.123",
        "user@example.com",
        "a b.com",
        "example.com..",
    ] {
        let error = create_domain("default", invalid, None, &all).err().unwrap();
        assert_eq!(error.status, 400, "{}", invalid);
    }
    let oversized = format!("{}.com", "a".repeat(64));
    assert_eq!(create_domain("default", &oversized, None, &all).err().unwrap().status, 400);
    let created = create_domain("default", "  EXAMPLE.COM. ", None, &all).unwrap();
    assert_eq!(created.domain, "example.com");
    assert!(created.is_primary && created.https_enabled);
    let settings = &created.settings;
    assert_eq!(settings.certificate_mode, "http01");
    assert!(!settings.verified && !settings.legacy);
    assert_eq!(settings.verification_token.len(), 43);
    assert_eq!(settings.credential_file, None);
    assert_eq!(settings.dns_resolvers, "[]");
    assert_eq!((settings.propagation_delay, settings.propagation_timeout), (None, None));
    let claimed = |domain: &str| DomainClaim {
        tenant_id: "default".into(),
        domain: domain.into(),
        verified: false,
    };
    all.push(claimed(&created.domain));
    let duplicate = create_domain("default", "example.com", None, &all).err().unwrap();
    assert_eq!(duplicate.status, 409);
    assert!(duplicate.message.contains("域名已存在"));
    let idn = create_domain("default", "例子.公司", Some(false), &all).unwrap();
    assert!(idn.domain.starts_with("xn--"));
    assert!(!idn.is_primary && !idn.https_enabled);
    all.push(claimed(&idn.domain));
    assert_eq!(create_domain("default", &idn.domain, None, &all).err().unwrap().status, 409);
}

#[test]
fn referenced_domains_cannot_be_deleted_even_when_service_disabled() {
    let error = delete_domain(true, &vec!["家庭 NAS".to_owned()]).unwrap_err();
    assert_eq!(error.status, 409);
    assert!(error.message.contains("家庭 NAS"));
    assert!(delete_domain(true, &vec![]).is_ok());
    assert_eq!(delete_domain(false, &vec![]).unwrap_err().status, 404);
}

#[test]
fn earlier_domains_get_settings_once() {
    let ids: Vec<String> = ["a", "b", "c"].iter().map(|id| id.to_string()).collect();
    let mut known = vec!["b".to_owned()];
    let missing = missing_settings(&ids, &known);
    assert_eq!(missing, ["a", "c"]);
    known.extend(missing);
    assert!(missing_settings(&ids, &known).is_empty());
    let old = no_settings();
    assert_eq!(old.certificate_mode, "cloudflare_dns");
    assert!(old.verified && old.legacy);
    assert_eq!(old.credential_file, None);
    let loaded = load(Some(old), "example.test").unwrap();
    assert!(loaded.legacy && !loaded.credential_configured);
}

#[test]
fn identifiers_are_accepted_in_each_form() {
    let plain = "550e8400-E29b-41d4-a716-446655440000";
    let short = plain.replace('-', "");
    let braced = format!("{{{}}}", plain);
    let urn = format!("URN:uuid:{}", plain);
    for (id, accepted) in [
        (plain, true),
        (short.as_str(), true),
        (braced.as_str(), true),
        (urn.as_str(), true),
        ("550e8400-e29b-41d4-a716-44665544000", false),
        ("550e8400_e29b-41d4-a716-446655440000", false),
        ("550e8400-e29b-41d4-a716-44665544000g", false),
        ("{550e8400e29b41d4a716446655440000}", false),
        ("", false),
    ] {
        let path = credential_path("/data/tokens", id, "cloudflare.token");
        let other = new_credential_file(id);
        assert_eq!(other.is_some(), accepted, "{}", id);
        assert!(accepted || path.is_none());
    }
}
