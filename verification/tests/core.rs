use nexo::enrollment_token::{EnrollmentError, EnrollmentToken};
use nexo::gateway::forwarding_enabled_for_prefix;
use nexo::ip::{format_ip, format_socket, parse_ip, parse_socket, IpAddr};
use nexo::network::{networks_overlap, validate_published_network, IpNet, NetworkError};
use nexo::order::sort_unique;
use nexo::text::{lower, replace, shorten, split_on, trim, unbracket};

#[test]
fn token_can_be_verified_without_persisting_secret() {
    let token = EnrollmentToken::generate(100, 900).expect("应生成凭证");
    assert!(!token.secret.is_empty());
    assert_ne!(token.secret, token.digest);
    assert!(EnrollmentToken::verify(&token.secret, &token.digest, token.expires_at, 100).is_ok());
}

#[test]
fn token_expires_and_rejects_other_secret() {
    let token = EnrollmentToken::generate(100, 1).expect("应生成凭证");
    assert_eq!(
        EnrollmentToken::verify(&token.secret, &token.digest, token.expires_at, 101),
        Err(EnrollmentError::Expired)
    );
    assert_eq!(
        EnrollmentToken::verify("other", &token.digest, token.expires_at, 100),
        Err(EnrollmentError::InvalidToken)
    );
}

#[test]
fn tokens_need_a_life_and_their_digest_is_the_known_one() {
    assert_eq!(
        EnrollmentToken::generate(100, 0).err(),
        Some(EnrollmentError::InvalidTtl)
    );
    assert_eq!(
        EnrollmentToken::generate(100, -5).err(),
        Some(EnrollmentError::InvalidTtl)
    );
    let token = EnrollmentToken::generate(i64::MAX - 1, 900).unwrap();
    assert_eq!(token.expires_at, i64::MAX);
    assert_eq!(token.secret.len(), 43);
    assert_eq!(
        EnrollmentToken::digest("abc"),
        "ba7816bf8f01cfea414140de5dae2223b00361a396177a9cb410ff61f20015ad"
    );
    let other = EnrollmentToken::generate(100, 900).unwrap();
    assert_ne!(token.secret, other.secret);
}

#[test]
fn forwarding_is_checked_per_address_family() {
    let ipv4: IpNet = IpNet::from_str("192.168.10.0/24").unwrap();
    let ipv6: IpNet = IpNet::from_str("2001:db8:10::/64").unwrap();

    assert!(forwarding_enabled_for_prefix(true, false, ipv4));
    assert!(!forwarding_enabled_for_prefix(true, false, ipv6));
    assert!(!forwarding_enabled_for_prefix(false, true, ipv4));
    assert!(forwarding_enabled_for_prefix(false, true, ipv6));
}

#[test]
fn rejects_default_route() {
    let network = IpNet::from_str("0.0.0.0/0").unwrap();
    assert_eq!(
        validate_published_network(network),
        Err(NetworkError::DefaultRoute)
    );
}

#[test]
fn rejects_ipv6_default_route() {
    let network = IpNet::from_str("::/0").unwrap();
    assert_eq!(
        validate_published_network(network),
        Err(NetworkError::DefaultRoute)
    );
}

#[test]
fn accepts_private_lan() {
    let network = IpNet::from_str("192.168.10.0/24").unwrap();
    assert!(validate_published_network(network).is_ok());
}

#[test]
fn each_unsuitable_network_has_its_reason() {
    for (text, reason) in [
        ("0.0.0.0/8", NetworkError::Unspecified),
        ("127.0.0.0/8", NetworkError::LocalOnly),
        ("169.254.7.0/24", NetworkError::LocalOnly),
        ("fe80::/64", NetworkError::LocalOnly),
        ("::1/128", NetworkError::LocalOnly),
        ("224.0.0.0/4", NetworkError::Multicast),
        ("ff02::/16", NetworkError::Multicast),
        ("100.64.0.0/10", NetworkError::OverlayNetwork),
        ("100.100.0.0/16", NetworkError::OverlayNetwork),
        ("96.0.0.0/3", NetworkError::OverlayNetwork),
        ("fd7a:115c:a1e0:1::/64", NetworkError::OverlayNetwork),
    ] {
        let network = IpNet::from_str(text).unwrap();
        assert_eq!(validate_published_network(network), Err(reason), "{}", text);
    }
    assert_eq!(NetworkError::DefaultRoute.message(), "不能发布默认路由");
    assert!(IpNet::from_str("192.168.10.0").is_err());
    assert!(IpNet::from_str("192.168.10.0/33").is_err());
}

#[test]
fn networks_overlap_when_they_share_an_address() {
    let net = |text: &str| IpNet::from_str(text).unwrap();
    assert!(networks_overlap(net("10.0.0.0/8"), net("10.1.2.0/24")));
    assert!(networks_overlap(net("10.1.2.0/24"), net("10.0.0.0/8")));
    assert!(!networks_overlap(net("10.1.2.0/24"), net("10.1.3.0/24")));
    assert!(!networks_overlap(net("10.0.0.0/8"), net("2001:db8::/32")));
    assert!(networks_overlap(net("2001:db8::/32"), net("2001:db8:1::/48")));
    assert_eq!(net("192.168.10.77/24").trunc().format(), "192.168.10.0/24");
    assert_eq!(net("2001:db8:0:1::7/64").trunc().format(), "2001:db8:0:1::/64");
}

#[test]
fn addresses_read_and_write_as_the_standard_library_does() {
    for text in [
        "0.0.0.0",
        "127.0.0.1",
        "255.255.255.255",
        "::",
        "::1",
        "2001:db8::1",
        "2001:db8:0:1:1:1:1:1",
        "2001:0:0:1::1",
        "fe80::1:2:3:4",
        "::ffff:192.0.2.1",
        "1::",
    ] {
        let known = if text.contains(':') {
            format!("{}/128", text)
        } else {
            format!("{}/32", text)
        };
        let known: ipnet::IpNet = known.parse().unwrap();
        let read = parse_ip(text).unwrap();
        let expected = match known {
            ipnet::IpNet::V4(net) => IpAddr::V4(u32::from(net.addr())),
            ipnet::IpNet::V6(net) => IpAddr::V6(u128::from(net.addr())),
        };
        assert_eq!(read, expected);
        assert_eq!(format_ip(&read), known.addr().to_string());
    }
    for text in [
        "", "1.2.3", "1.2.3.4.5", "01.2.3.4", "256.1.1.1", ":::", "1:2:3:4:5:6:7:8:9", "12345::",
        "1::2::3", "g::", "::1%eth0", " 1.2.3.4",
    ] {
        assert!(parse_ip(text).is_none(), "{}", text);
    }
    for text in ["1.2.3.4:53", "[::1]:853", "[2001:db8::1]:65535"] {
        let read = parse_socket(text).unwrap();
        assert_eq!(format_socket(&read), text);
    }
    for text in ["1.2.3.4", "1.2.3.4:", "1.2.3.4:65536", "::1:53", "[::1]", "[1.2.3.4]:53"] {
        assert!(parse_socket(text).is_none(), "{}", text);
    }
}

#[test]
fn texts_are_cut_as_the_standard_library_does() {
    for text in ["", "  a b ", "\u{3000}错 误\u{a0}", "\t\n", "x"] {
        assert_eq!(trim(text), text.trim());
        assert_eq!(lower(text), text.to_ascii_lowercase());
    }
    assert_eq!(lower("Ä-ABZ[`"), "Ä-ABZ[`".to_ascii_lowercase());
    assert_eq!(split_on("a,,b,", ','), vec!["a", "", "b", ""]);
    assert_eq!(split_on("", ','), vec![""]);
    assert_eq!(replace("aaaa", "aa", "b"), "aaaa".replace("aa", "b"));
    assert_eq!(replace("abc", "x", "y"), "abc");
    assert_eq!(replace("abab", "ab", ""), "");
    assert_eq!(shorten("错误abc", 3), "错误a");
    assert_eq!(shorten("ab", 3), "ab");
    assert_eq!(unbracket("[::1]"), "::1");
    assert_eq!(
        sort_unique(&vec!["b".into(), "a".into(), "b".into(), "ä".into(), "Z".into()]),
        vec!["Z", "a", "b", "ä"]
    );
}
