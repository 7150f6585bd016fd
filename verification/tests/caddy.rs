use nexo::caddy::{
    credential_files, credential_signature, enqueue_event, join_path, observed_event,
    parse_caddy_log_line, parse_duration_seconds, parse_retry_after, parse_status_code,
    process_error_of, redact, referenced_files, truncate, CaddyEnvironment, CaddyLogEvent,
    CaddyRuntimeConfig,
};
use nexo::digest::digest;

#[test]
fn parses_caddy_rate_limit_log_and_retry_after() {
    let event = parse_caddy_log_line(
        r#"{"level":"error","msg":"could not obtain certificate: HTTP 429; Retry-After: 120","identifier":"*.example.com","status_code":429}"#,
    )
    .expect("JSON 日志应能解析");
    assert_eq!(event.identifier.as_deref(), Some("*.example.com"));
    assert_eq!(event.status_code, Some(429));
    assert_eq!(event.retry_after_secs, Some(120));
    assert!(event.is_rate_limited());
}

#[test]
fn keeps_detailed_acme_error_and_parses_caddy_retrying_in() {
    let event = parse_caddy_log_line(
        r#"{"level":"error","msg":"could not get certificate","error":"cloudflare: authentication error for *.example.com","identifier":"*.example.com","retrying_in":"2m30s"}"#,
    )
    .expect("Caddy ACME 日志应能解析");
    assert!(event.message.contains("could not get certificate"));
    assert!(event.message.contains("cloudflare: authentication error"));
    assert_eq!(event.retry_after_secs, Some(150));
    assert_eq!(event.certificate_stage(), Some("retry_wait"));
}

#[test]
fn parses_plain_caddy_error_without_exposing_unknown_fields() {
    let event = parse_caddy_log_line("certificate request failed: HTTP 503")
        .expect("纯文本日志应保留为事件");
    assert_eq!(event.status_code, Some(503));
    assert!(!event.is_rate_limited());
}

#[test]
fn challenge_errors_are_failures_and_retry_uses_log_timestamp() {
    let event = parse_caddy_log_line(r#"{"level":"error","logger":"tls.obtain","msg":"could not get certificate","error":"DNS propagation: authorization failed","identifier":"example.com","ts":1790000000.25}"#).unwrap();
    assert_eq!(event.certificate_stage(), Some("failed"));
    assert_eq!(event.occurred_at, Some(1790000000));
    assert_eq!(parse_status_code("validating https://example.com:443"), None);
}

#[test]
fn credentials_are_removed_before_truncating_unicode_errors() {
    let error = format!("{}secret-cloudflare-token 验证失败", "错".repeat(500));
    let public = redact(&error, &vec!["secret-cloudflare-token".to_owned()], None);
    assert!(!public.contains("secret"));
    assert!(public.contains("[已隐藏凭据]"));
}

#[test]
fn environment_credentials_are_removed_too() {
    let tokens = vec!["first-token\n".to_owned(), "  ".to_owned()];
    let public = redact("first-token and second-token", &tokens, Some("second-token"));
    assert_eq!(public, "[已隐藏凭据] and [已隐藏凭据]");
    assert_eq!(redact("nothing", &vec![], Some("")), "nothing");
    assert_eq!(truncate("  short  "), "short");
    assert_eq!(truncate(&"错".repeat(600)).chars().count(), 513);
}

#[test]
fn durations_and_statuses_are_read_from_messages() {
    assert_eq!(parse_duration_seconds("1h2m3s"), Some(3723));
    assert_eq!(parse_duration_seconds("45"), Some(45));
    assert_eq!(parse_duration_seconds("soon"), None);
    assert_eq!(parse_retry_after("Retry-After: 7"), Some(7));
    assert_eq!(parse_retry_after("no hint"), None);
    assert_eq!(parse_status_code("HTTP 429"), Some(429));
}

#[test]
fn event_queues_keep_the_newest() {
    let mut queue = Vec::new();
    for i in 0..130 {
        let event = parse_caddy_log_line(&format!("certificate error number {}", i)).unwrap();
        enqueue_event(&mut queue, event);
    }
    assert_eq!(queue.len(), 128);
    assert_eq!(queue[0].message, "certificate error number 2");
    assert_eq!(queue[127].message, "certificate error number 129");
}

#[test]
fn process_errors_are_noted_without_credentials() {
    let event = observed_event("Error: loading secret-x failed", &vec!["secret-x".into()], None)
        .unwrap();
    assert_eq!(
        process_error_of(&event).as_deref(),
        Some("Error: loading [已隐藏凭据] failed")
    );
    let other: CaddyLogEvent = parse_caddy_log_line("certificate renewed").unwrap();
    assert_eq!(process_error_of(&other), None);
}

#[test]
fn credential_files_are_found_and_signed() {
    let config: serde_json::Value = serde_json::from_str(
        r#"{"a":{"api_token":"{file./b}"},"list":[{"api_token":"{file./a}"},{"api_token":"{env.X}"}]}"#,
    )
    .unwrap();
    assert_eq!(credential_files(&config), vec!["/a", "/b"]);
    assert_eq!(referenced_files(&config), vec!["/a", "/b"]);
    let signature = credential_signature(
        &vec!["/a".into(), "/b".into()],
        &vec![b"1".to_vec(), b"2".to_vec()],
    );
    assert_eq!(signature.as_deref(), Some(digest("/a1/b2").as_str()));
    assert_eq!(credential_signature(&vec![], &vec![]), None);
}

#[test]
fn edge_settings_come_from_the_environment() {
    let none = CaddyEnvironment {
        binary: None,
        enabled: None,
        admin_url: None,
        http_listen: None,
        https_listen: None,
    };
    let config = CaddyRuntimeConfig::from_env("/data/nexo", none);
    assert_eq!(config.binary, "caddy");
    assert_eq!(config.admin_url, "http://127.0.0.1:8290");
    assert_eq!(config.http_listen, ":80");
    assert_eq!(config.https_listen, ":443");
    assert!(config.applied_path.starts_with("/data/nexo"));
    assert_eq!(join_path("/data", "x"), "/data/x");
}
