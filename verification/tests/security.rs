use nexo::ip::{parse_ip, IpAddr};
use nexo::security::{
    check_quota, limited, parse_addresses, protect, protective_headers, Boundary, Quota, Security,
    SecurityError,
};

fn address(text: &str) -> Option<IpAddr> {
    parse_ip(text)
}

#[test]
fn forwarded_https_requires_trusted_peer_and_single_value() {
    let security = Security {
        trusted_proxies: vec![address("127.0.0.1").unwrap()],
        ..Default::default()
    };
    let mut headers = vec!["https".to_owned()];
    assert!(!security.secure(address("192.0.2.1"), &headers));
    assert!(security.secure(address("127.0.0.1"), &headers));
    assert!(!security.secure(None, &headers));
    headers.push("http".to_owned());
    assert!(!security.secure(address("127.0.0.1"), &headers));
}

#[test]
fn attempts_are_bounded_and_expire() {
    let mut security = Security::default();
    for _ in 0..5 {
        assert!(security.allow("account:admin".into(), 5, 100));
    }
    assert!(!security.allow("account:admin".into(), 5, 101));
    assert!(security.allow("account:admin".into(), 5, 400));
}

#[test]
fn names_are_counted_apart_and_limited_in_number() {
    let mut security = Security::default();
    for i in 0..4096 {
        assert!(security.allow(format!("name-{}", i), 1, 100));
    }
    assert!(!security.allow("one more".into(), 1, 100));
    assert!(!security.allow("name-0".into(), 1, 399));
    assert_eq!(security.attempts.len(), 4096);
    assert!(security.allow("one more".into(), 1, 400));
    assert_eq!(security.attempts.len(), 1);
    assert!(!security.allow("nothing".into(), 0, 400));
}

#[test]
fn quotas_differ_by_purpose() {
    let mut security = Security::default();
    for _ in 0..10 {
        assert!(check_quota(&mut security, Quota::Password, "u", 0).is_ok());
    }
    let refused = check_quota(&mut security, Quota::Password, "u", 1).unwrap_err();
    assert_eq!(refused.status, 429);
    assert_eq!(refused.message, limited().message);
    assert!(check_quota(&mut security, Quota::Password, "other", 1).is_ok());
    assert!(check_quota(&mut security, Quota::Resolution, "u", 1).is_ok());
    assert!(check_quota(&mut security, Quota::DomainProof, "u", 1).is_ok());
    assert!(check_quota(&mut security, Quota::DomainCredential, "u", 1).is_ok());
    assert!(security.attempts.iter().any(|one| one.key == "dns:u"));
}

fn boundary(path: &str, method: &str) -> Boundary {
    Boundary {
        peer: address("192.0.2.7"),
        forwarded: vec![],
        path: path.into(),
        method: method.into(),
        origin: None,
        host: Some("nexo.lan:8280".into()),
    }
}

#[test]
fn an_https_entry_refuses_requests_that_are_not() {
    let mut security =
        Security::from_env(Some("https://nexo.example.com"), Some("127.0.0.1, ::1")).unwrap();
    assert_eq!(security.public_origin.as_deref(), Some("https://nexo.example.com"));
    let refused = protect(&mut security, &boundary("/api/v1/devices", "GET"), 0).unwrap_err();
    assert_eq!(refused.status, 403);
    assert!(protect(&mut security, &boundary("/health", "GET"), 0).is_ok());
    let mut proxied = boundary("/api/v1/devices", "GET");
    proxied.peer = address("::1");
    proxied.forwarded = vec!["https".into()];
    assert!(protect(&mut security, &proxied, 0).unwrap().secure);
}

#[test]
fn writes_from_other_sites_are_refused() {
    let mut security = Security::default();
    let mut request = boundary("/api/v1/tunnels", "POST");
    assert!(protect(&mut security, &request, 0).is_ok());
    request.origin = Some(Some("http://nexo.lan:8280".into()));
    assert!(protect(&mut security, &request, 0).is_ok());
    request.origin = Some(Some("http://evil.example".into()));
    assert_eq!(protect(&mut security, &request, 0).unwrap_err().status, 403);
    request.origin = Some(None);
    assert_eq!(protect(&mut security, &request, 0).unwrap_err().status, 403);
    request.method = "GET".into();
    assert!(protect(&mut security, &request, 0).is_ok());
}

#[test]
fn sign_in_attempts_of_one_peer_are_limited() {
    let mut security = Security::default();
    let request = boundary("/api/v1/auth/login", "POST");
    for _ in 0..20 {
        assert!(protect(&mut security, &request, 0).is_ok());
    }
    assert_eq!(security.attempts[0].key, "ip:Some(192.0.2.7)");
    assert_eq!(protect(&mut security, &request, 0).unwrap_err().status, 429);
    let mut other = boundary("/api/v1/auth/login", "POST");
    other.peer = None;
    assert!(protect(&mut security, &other, 0).is_ok());
    assert!(security.attempts.iter().any(|one| one.key == "ip:None"));
    assert!(protect(&mut security, &boundary("/api/v1/auth/status", "GET"), 0).is_ok());
    assert!(protect(&mut security, &request, 300).is_ok());
}

#[test]
fn faulty_settings_have_their_reason() {
    for (url, error) in [
        ("nonsense", SecurityError::Address("relative URL without a base".into())),
        ("ftp://nexo.example.com/", SecurityError::Origin),
        ("https://nexo.example.com/path", SecurityError::Origin),
        ("https://user@nexo.example.com", SecurityError::Origin),
        ("https://nexo.example.com/?q", SecurityError::Origin),
    ] {
        assert_eq!(Security::from_env(Some(url), None).err(), Some(error), "{}", url);
    }
    assert_eq!(
        Security::from_env(None, Some("10.0.0.0/8")).err(),
        Some(SecurityError::Proxy)
    );
    assert!(Security::from_env(Some(""), Some(" , ")).unwrap().public_origin.is_none());
    let security = Security::from_env(Some("https://nexo.example.com:443/"), None).unwrap();
    assert_eq!(security.public_origin.as_deref(), Some("https://nexo.example.com"));
    assert_eq!(parse_addresses("1.1.1.1,,::1").unwrap().len(), 2);
}

#[test]
fn answers_of_the_interface_are_not_stored() {
    assert_eq!(
        protective_headers("/api/v1/x"),
        vec![
            ("cache-control", "no-store"),
            ("x-content-type-options", "nosniff"),
            ("referrer-policy", "same-origin")
        ]
    );
    assert_eq!(protective_headers("/").len(), 2);
}

#[test]
fn the_origin_leaves_out_the_port_that_the_scheme_implies() {
    for (url, origin) in [
        ("https://nexo.example.com:8443/", "https://nexo.example.com:8443"),
        ("https://nexo.example.com:80", "https://nexo.example.com:80"),
        ("http://nexo.example.com:80/", "http://nexo.example.com"),
        ("http://nexo.example.com:443/", "http://nexo.example.com:443"),
        ("HTTP://Nexo.Example.com", "http://nexo.example.com"),
        ("https://[2001:DB8::1]:8443/", "https://[2001:db8::1]:8443"),
        ("https://[::1]/", "https://[::1]"),
    ] {
        let security = Security::from_env(Some(url), None).unwrap();
        assert_eq!(security.public_origin.as_deref(), Some(origin));
    }
    let blob = Security::from_env(Some("blob:blob:https://nexo.example.com/"), None);
    assert_eq!(blob.err(), Some(SecurityError::Origin));
    assert_eq!(SecurityError::Proxy.message(), "invalid IP address syntax");
}
