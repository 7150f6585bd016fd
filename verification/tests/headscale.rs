use nexo::headscale::{
    parse_cli_secret, render_derp_config, supervisor_backoff, unix_now, ApiKeyManager,
    HeadscaleEnvironment, HeadscaleRuntimeConfig, DEFAULT_DERP_MAP_URL,
};
use std::time::Duration;

#[test]
fn rotation_starts_at_fourteen_days() {
    let now = 1_000_000;
    assert!(!ApiKeyManager::needs_rotation(
        now + 14 * 24 * 60 * 60 + 1,
        now
    ));
    assert!(ApiKeyManager::needs_rotation(now + 14 * 24 * 60 * 60, now));
}

#[test]
fn backoff_is_bounded_and_exponential() {
    assert_eq!(Duration::from_secs(supervisor_backoff(1)), Duration::from_secs(2));
    assert_eq!(Duration::from_secs(supervisor_backoff(3)), Duration::from_secs(8));
    assert_eq!(Duration::from_secs(supervisor_backoff(99)), Duration::from_secs(120));
}

#[test]
fn cli_secret_parser_does_not_accept_spaced_output() {
    assert_eq!(parse_cli_secret(b"API key: hskey-abc\n"), None);
    assert_eq!(
        parse_cli_secret(b"hskey-abc\n"),
        Some("hskey-abc".to_owned())
    );
}

#[test]
fn production_derp_config_uses_official_map_and_auto_update() {
    let sources = render_derp_config(false, "/unused");
    assert!(sources.contains("enabled: false"));
    assert!(sources.contains(DEFAULT_DERP_MAP_URL));
    assert!(sources.contains("paths: []"));
    assert!(sources.contains("auto_update_enabled: true"));
}

#[test]
fn integration_derp_config_enables_embedded_server_without_external_map() {
    let sources = render_derp_config(true, "/data/nexo/headscale/derp.key");
    assert!(sources.contains("enabled: true"));
    assert!(sources.contains("stun_listen_addr: 0.0.0.0:3478"));
    assert!(sources.contains("private_key_path: '/data/nexo/headscale/derp.key'"));
    assert!(sources.contains("urls: []"));
    assert!(sources.contains("auto_update_enabled: false"));
    assert!(!sources.contains(DEFAULT_DERP_MAP_URL));
}

fn named(binary: Option<&str>, enabled: Option<&str>) -> HeadscaleRuntimeConfig {
    let vars = HeadscaleEnvironment {
        binary: binary.map(Into::into),
        enabled: enabled.map(Into::into),
        listen_addr: None,
        api_url: Some("http://127.0.0.1:8281//".into()),
        server_url: None,
        oidc_issuer: None,
        dns_base_domain: None,
        embedded_derp_enabled: Some("TRUE".into()),
    };
    HeadscaleRuntimeConfig::from_env("/data/nexo", vars)
}

#[test]
fn the_mesh_is_used_where_its_program_is_named() {
    assert!(!named(None, None).enabled);
    assert!(named(Some("/bin/headscale"), None).enabled);
    assert!(named(None, Some("True")).enabled);
    assert!(!named(Some("/bin/headscale"), Some("1")).enabled);
    let config = named(None, None);
    assert_eq!(config.binary, "headscale");
    assert!(config.embedded_derp_enabled);
    assert_eq!(config.server_url, "http://nexo-server:8281");
    assert_eq!(config.config_path(), "/data/nexo/headscale/config.yaml");
    assert_eq!(config.secret_path(), "/data/nexo/headscale/nexo-api-key.secret");
    assert_eq!(config.internal_server_url(None), "http://127.0.0.1:8281");
    assert_eq!(config.internal_server_url(Some("http://10.0.0.2/")), "http://10.0.0.2");
}

#[test]
fn keys_last_ninety_days_and_are_never_blank() {
    let keys = ApiKeyManager::with_config("b".into(), "s".into(), "c".into());
    assert_eq!((keys.binary, keys.secret_path, keys.config_path), ("b".into(), "s".into(), "c".into()));
    assert_eq!(ApiKeyManager::key_expiry(1_000), 1_000 + 90 * 24 * 60 * 60);
    assert_eq!(ApiKeyManager::key_expiry(u64::MAX - 1), u64::MAX);
    assert!(ApiKeyManager::usable_key("hskey-abc"));
    assert!(!ApiKeyManager::usable_key(" \t"));
    assert!(unix_now() > 1_700_000_000);
}

#[test]
fn keys_are_read_from_lines_of_utf8() {
    assert_eq!(parse_cli_secret("提示：已创建 密钥\nhskey-密钥\n".as_bytes()).as_deref(), Some("hskey-密钥"));
    assert_eq!(parse_cli_secret(b"hskey-\xff\n").as_deref(), Some("hskey-\u{fffd}"));
}
