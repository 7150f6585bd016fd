use nexo::domain_runtime::DomainRuntime;
use nexo::identity::{Authority, DeviceCertificate};
use nexo::protocol::{AgentControlMessage, ServerControlMessage, TunnelApplyResult};
use nexo::transport::{
    allowed, apply_results, authenticated_device, ensure_device_enabled, entry_for, first_message,
    installed, next_message, plan_reconcile, refresh_status, remove_workspace, renewal_reply,
    wanted_services, web_upstreams, ControlError, ControlStep, Entry, Observed, OfferRow,
    OpenEntry, ReportRow, Service, Sessions, StatusRow,
};
use nexo::x509::{certificates, fingerprint, IdentityError};
use rcgen::{CertificateParams, KeyPair};

const NOW: i64 = 1_800_000_000;

fn report(id: &str, revision: i64) -> TunnelApplyResult {
    TunnelApplyResult {
        tunnel_id: id.into(),
        revision,
        applied: true,
        status: "ready".into(),
        error_message: None,
    }
}

#[test]
fn reports_cannot_cross_device_boundary_or_overwrite_a_newer_revision() {
    let row = |id: &str, device: &str, apply_revision| ReportRow {
        id: id.into(),
        device_id: Some(device.into()),
        apply_revision,
        enabled: true,
        deleted: false,
    };
    let rows = vec![row("own", "mine", 2), row("foreign", "foreign", 1)];
    let accepted = apply_results(
        &vec![report("foreign", 1), report("own", 1), report("own", 2)],
        &rows,
        "mine",
    );
    assert_eq!(accepted.len(), 1);
    assert_eq!(accepted[0].tunnel_id, "own");
    assert_eq!(accepted[0].revision, 2);
}

fn service(id: &str, device: &str, port: Option<u16>) -> Service {
    Service {
        id: id.into(),
        device: device.into(),
        revision: 1,
        protocol: if port.is_some() { "tcp" } else { "https" }.into(),
        port,
    }
}

fn offer(id: &str, device: &str) -> OfferRow {
    OfferRow {
        service: service(id, device, Some(20000)),
        device_in_workspace: true,
        workspace_enabled: true,
        enabled: true,
        deleted: false,
        device_online: true,
    }
}

#[test]
fn services_are_offered_while_everything_allows_them() {
    let mut rows = vec![offer("a", "mine")];
    assert_eq!(wanted_services(&rows).len(), 1);
    assert!(allowed(&rows, &service("a", "mine", Some(20000)), "mine"));
    assert!(!allowed(&rows, &service("a", "mine", Some(20000)), "other"));
    rows[0].workspace_enabled = false;
    assert_eq!(wanted_services(&rows).len(), 0);
    assert!(!allowed(&rows, &service("a", "mine", Some(20000)), "mine"));
    rows[0].workspace_enabled = true;
    rows[0].deleted = true;
    assert_eq!(wanted_services(&rows).len(), 0);
}

#[test]
fn reconciling_opens_what_is_wanted_and_closes_the_rest() {
    let wanted = vec![service("a", "mine", Some(20000)), service("b", "mine", Some(20001))];
    let entries = vec![
        OpenEntry { service: service("a", "mine", Some(20000)), upstream: None, finished: false },
        OpenEntry { service: service("old", "mine", Some(20002)), upstream: None, finished: false },
    ];
    let devices = vec!["mine".to_owned()];
    let control = vec!["mine".to_owned(), "gone".to_owned()];
    let plan = plan_reconcile(&wanted, &devices, &control, &vec!["gone".to_owned()], &entries);
    assert_eq!(plan.close_control, vec!["gone"]);
    assert_eq!(plan.close_data, vec!["gone"]);
    assert_eq!(plan.close_entries, vec!["old"]);
    assert_eq!(plan.open.len(), 1);
    assert_eq!(plan.open[0].id, "b");
    assert!(plan.open[0].equals(&wanted[1].copy()));
}

#[test]
fn entries_follow_the_protocol() {
    match entry_for(&service("a", "mine", Some(20000)), "/data") {
        Some(Entry::Tcp { port }) => assert_eq!(port, 20000),
        _ => panic!(),
    }
    match entry_for(&service("b", "mine", None), "/data") {
        Some(Entry::Socket { path, upstream }) => {
            assert!(path.starts_with("/data/"));
            assert!(upstream.contains(&path));
        }
        _ => panic!(),
    }
}

#[test]
fn only_connected_services_have_an_upstream() {
    let entry = |id: &str, device: &str| OpenEntry {
        service: service(id, device, None),
        upstream: Some(format!("unix/{}", id)),
        finished: false,
    };
    let entries = vec![entry("a", "mine"), entry("b", "half")];
    let found = web_upstreams(
        &entries,
        &vec!["mine".to_owned(), "half".to_owned()],
        &vec!["mine".to_owned()],
    );
    assert_eq!(found, vec![("a".to_owned(), "unix/a".to_owned())]);
    assert_eq!(
        remove_workspace(&entries, &vec!["half".to_owned()], &vec!["a".to_owned()]),
        vec!["a", "b"]
    );
}

#[test]
fn a_newer_session_takes_the_place_of_the_older() {
    let mut sessions = Sessions::new();
    assert_eq!(sessions.register("d", 1), None);
    assert_eq!(sessions.register("d", 2), Some(1));
    assert!(!sessions.finish("d", 1));
    assert_eq!(sessions.entries.len(), 1);
    assert!(sessions.finish("d", 2));
    assert!(sessions.entries.is_empty());
}

#[test]
fn control_connections_start_with_a_greeting() {
    let hello = AgentControlMessage::Hello {
        device_id: "mine".into(),
        agent_version: "1".into(),
    };
    assert_eq!(first_message(&hello, "mine").unwrap(), "1");
    assert_eq!(first_message(&hello, "other").err(), Some(ControlError::WrongDevice));
    let report = AgentControlMessage::TunnelApplyReport { results: vec![] };
    assert_eq!(first_message(&report, "mine").err(), Some(ControlError::NoGreeting));
    assert_eq!(next_message(hello, "mine").err(), Some(ControlError::RepeatedGreeting));
    let beat = |device: &str| AgentControlMessage::Heartbeat {
        device_id: device.into(),
        agent_version: "2".into(),
    };
    assert_eq!(next_message(beat("x"), "mine").err(), Some(ControlError::WrongHeartbeat));
    match next_message(beat("mine"), "mine") {
        Ok(ControlStep::Acknowledge { agent_version }) => assert_eq!(agent_version, "2"),
        _ => panic!(),
    }
    match next_message(report, "mine") {
        Ok(ControlStep::Note { results }) => assert!(results.is_empty()),
        _ => panic!(),
    }
    assert_eq!(ensure_device_enabled(None).err(), Some(ControlError::Disabled));
    assert_eq!(ensure_device_enabled(Some(false)).err(), Some(ControlError::Disabled));
    assert!(ensure_device_enabled(Some(true)).is_ok());
    assert!(!ControlError::Disabled.message().is_empty());
}

#[test]
fn devices_are_known_by_their_certificate() {
    let authority = Authority::generate(NOW).ok().unwrap();
    let csr = CertificateParams::new(vec!["agent.nexo".into()])
        .unwrap()
        .serialize_request(&KeyPair::generate().unwrap())
        .unwrap()
        .pem()
        .unwrap();
    let cert = authority.issue_device(&csr, "mine", NOW).unwrap();
    let der = certificates(&cert).unwrap();
    let (device, digest) = authenticated_device(&der[0]).unwrap();
    assert_eq!(device, "mine");
    assert_eq!(digest, fingerprint(&cert).unwrap());
    assert_eq!(
        authenticated_device(&vec![1, 2, 3]).err(),
        Some(ControlError::Certificate)
    );
    let row = DeviceCertificate {
        active_digest: "old".into(),
        certificate_pem: None,
        pending_csr: Some(csr),
        pending_certificate: Some(cert.clone()),
        retry_failures: 0,
        renewal_error: None,
        next_retry_at: None,
    };
    let (row, found) = installed(Some(row), &cert).ok().unwrap();
    assert_eq!(found, digest);
    assert_eq!(row.active_digest, digest);
    assert!(installed(None, &cert).is_err());
}

#[test]
fn failed_renewals_are_answered_with_a_time() {
    match renewal_reply(Ok("cert".into()), 4, NOW) {
        (ServerControlMessage::CertificateRenewed { certificate_pem }, None) => {
            assert_eq!(certificate_pem, "cert")
        }
        _ => panic!(),
    }
    match renewal_reply(Err(IdentityError::Request), 0, NOW) {
        (ServerControlMessage::CertificateRenewalFailed { next_retry_at, .. }, Some(retry)) => {
            assert_eq!(next_retry_at, NOW + 30);
            assert_eq!(retry.failures, 1);
        }
        _ => panic!(),
    }
}

#[test]
fn the_state_of_a_service_names_what_is_missing() {
    let runtime = DomainRuntime::pending(true);
    let mut row = StatusRow {
        id: "a".into(),
        device: Some("mine".into()),
        enabled: true,
        protocol: "tcp".into(),
        revision: 2,
        applied_revision: Some(2),
        applied_status: Some("ready".into()),
        applied_error: None,
        domain_id: None,
        hostname: None,
        domain_name: None,
    };
    let mut seen = Observed {
        listeners: vec![("a".into(), None)],
        online: vec!["mine".into()],
        data: vec!["mine".into()],
        failures: vec![],
    };
    assert_eq!(refresh_status(&row, &seen, &runtime, NOW).0, "ready");
    row.applied_revision = Some(1);
    assert_eq!(
        refresh_status(&row, &seen, &runtime, NOW),
        ("checking", Some("等待 Agent 应用当前配置".to_owned()))
    );
    row.applied_revision = Some(2);
    seen.failures.push(("a".into(), "无法建立服务入口".into()));
    seen.listeners.clear();
    let (status, error) = refresh_status(&row, &seen, &runtime, NOW);
    assert_eq!(status, "failed");
    assert!(error.unwrap().contains("无法建立服务入口"));
    row.enabled = false;
    assert_eq!(refresh_status(&row, &seen, &runtime, NOW).0, "disabled");
}
