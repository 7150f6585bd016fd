use nexo::headscale::{
    change_oidc_issuer, change_server_url, ApiKeyManager, HeadscaleRuntimeConfig,
    IssuerChange, KeyPlan, ServerUrlError,
};
use nexo::supervisor::{
    backoff_seconds, begin_edge, begin_mesh, supervise_edge, supervise_mesh, Action, Event,
};

#[test]
fn waits_double_up_to_two_minutes() {
    let waits: Vec<u64> = (0..8).map(backoff_seconds).collect();
    assert_eq!(waits, vec![2, 4, 8, 16, 32, 64, 120, 120]);
}

#[test]
fn a_process_is_started_again_until_it_stays() {
    let (state, action) = begin_mesh(false, false);
    assert_eq!(action, Action::Wait { seconds: 2 });
    let (state, action) = supervise_mesh(state, Event::Elapsed, false);
    assert_eq!(action, Action::Start);
    let (state, action) = supervise_mesh(state, Event::Started { ok: false }, false);
    assert_eq!(action, Action::Wait { seconds: 4 });
    let (state, _) = supervise_mesh(state, Event::Elapsed, false);
    let (state, action) = supervise_mesh(state, Event::Started { ok: true }, false);
    assert_eq!(action, Action::Watch);
    let (state, action) = supervise_mesh(state, Event::Exited, false);
    assert_eq!(action, Action::Wait { seconds: 2 });
    let (_, action) = supervise_mesh(state, Event::Elapsed, true);
    assert_eq!(action, Action::Finish);
    assert_eq!(begin_mesh(false, true).1, Action::Finish);
}

#[test]
fn the_edge_is_supervised_too() {
    let (state, action) = begin_edge(true, false);
    assert_eq!(action, Action::Watch);
    let (state, action) = supervise_edge(state, Event::Exited, false);
    assert!(matches!(action, Action::Wait { .. }));
    let (state, action) = supervise_edge(state, Event::Elapsed, false);
    assert_eq!(action, Action::Start);
    let (state, action) = supervise_edge(state, Event::Started { ok: true }, false);
    assert_eq!(action, Action::Watch);
    assert_eq!(supervise_edge(state, Event::Woken { restart: false }, false).1, Action::Finish);
}

fn config() -> HeadscaleRuntimeConfig {
    HeadscaleRuntimeConfig {
        binary: "headscale".into(),
        data_dir: "/data".into(),
        listen_addr: "127.0.0.1:8281".into(),
        api_url: "http://127.0.0.1:8281".into(),
        server_url: "https://mesh.example.com".into(),
        oidc_issuer: Some("https://nexo.example.com".into()),
        dns_base_domain: "mesh.nexo.internal".into(),
        embedded_derp_enabled: false,
        enabled: false,
    }
}

#[test]
fn generated_config_trusts_only_loopback_reverse_proxy() {
    let config = config();
    let content = config.render_config(&config.server_url, config.oidc_issuer.as_deref());
    assert!(content.contains("trusted_proxies:\n  - 127.0.0.1/32\n  - ::1/128"));
    assert_eq!(config.config_path(), "/data/headscale/config.yaml");
    assert!(content.contains("https://nexo.example.com"));
    assert!(!config.render_config(&config.server_url, None).contains("issuer"));
}

#[test]
fn keys_are_rotated_without_losing_the_old_one_early() {
    let now = 1_000_000;
    let far = now + 60 * 86400;
    match ApiKeyManager::plan_rotation(&Some(("key".to_owned(), far)), now) {
        KeyPlan::Keep { api_key, expires_at } => {
            assert_eq!((api_key.as_str(), expires_at), ("key", far))
        }
        KeyPlan::Create => panic!(),
    }
    assert!(matches!(ApiKeyManager::plan_rotation(&Some(("key".to_owned(), now)), now), KeyPlan::Create));
    assert!(matches!(ApiKeyManager::plan_rotation(&None, now), KeyPlan::Create));
    let previous = Some(("old".to_owned(), now));
    let done = ApiKeyManager::settle_rotation("new", true, &previous);
    assert!(done.store);
    assert_eq!(done.revoke.as_deref(), Some("old"));
    let failed = ApiKeyManager::settle_rotation("new", false, &previous);
    assert!(!failed.store);
    assert_ne!(failed.revoke.as_deref(), Some("old"));
}

#[test]
fn addresses_and_issuers_change_only_when_they_may() {
    assert_eq!(
        change_server_url("https://a", "https://b/").unwrap().as_deref(),
        Some("https://b")
    );
    assert_eq!(change_server_url("https://a", "https://a").unwrap(), None);
    assert_eq!(change_server_url("https://a", "ftp://b"), Err(ServerUrlError::NotHttp));
    assert!(matches!(
        change_oidc_issuer(None, Some("https://nexo.example.com")),
        IssuerChange::Replace { issuer: Some(_) }
    ));
    assert!(matches!(
        change_oidc_issuer(Some("https://a.example"), Some("https://b.example")),
        IssuerChange::Refused { .. }
    ));
    assert!(matches!(
        change_oidc_issuer(Some("https://a.example"), Some("https://a.example/")),
        IssuerChange::Replace { issuer: Some(_) }
    ));
    assert!(matches!(
        change_oidc_issuer(Some("https://a.example"), None),
        IssuerChange::Keep
    ));
}
