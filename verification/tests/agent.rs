use nexo::agent::{
    check_approved, check_first, endpoint_address, find_stream, joining_key, next_delay, origin_target, poll_step,
    probe_result, refusal_message, start, still_wanted, AgentControl, AgentError, AgentStep,
    LoadStep, OriginRoots, OriginSecurity, PollStep, RenewalTick, Stored,
};
use nexo::enrollment_token::EnrollmentStatus;
use nexo::identity::{Authority, DeviceIdentity, RENEW_BEFORE};
use nexo::protocol::{
    AgentControlMessage, AgentEnrollmentPollResponse, ServerControlMessage, TunnelDataEndpoint,
    TunnelDesiredState,
};
use nexo::x509::{certificate_info, check_request_key};

const NOW: i64 = 1_800_000_000;

fn identity() -> DeviceIdentity {
    let authority = Authority::generate(NOW).ok().unwrap();
    let (key, fresh) = joining_key(Stored::Missing).ok().unwrap();
    assert!(fresh);
    DeviceIdentity {
        device_id: "id".into(),
        server_url: "https://server.example".into(),
        certificate_pem: authority.issue_device(&key.csr_pem, "id", NOW).unwrap(),
        ca_pem: authority.ca_pem,
        key_pem: key.key_pem,
        pending_key: None,
        renewal_retry: Default::default(),
    }
}

#[test]
fn a_stored_identity_is_used_for_its_server_only() {
    let url = "https://server.example";
    match start(false, url, "", Stored::Found(identity())) {
        Ok(LoadStep::Ready { identity }) => assert_eq!(identity.device_id, "id"),
        _ => panic!(),
    }
    assert!(matches!(
        start(false, "https://other.example", "t", Stored::Found(identity())),
        Err(AgentError::OtherServer)
    ));
    assert!(matches!(start(false, url, "", Stored::Missing), Err(AgentError::NoToken)));
    assert!(matches!(start(false, url, "t", Stored::Unreadable), Err(AgentError::Unreadable)));
    assert!(matches!(start(false, url, "t", Stored::Damaged), Err(AgentError::Damaged)));
    match start(false, url, "t", Stored::Missing) {
        Ok(LoadStep::Join { expected, .. }) => assert!(expected.is_none()),
        _ => panic!(),
    }
    match start(true, url, "t", Stored::Found(identity())) {
        Ok(LoadStep::Join { expected, .. }) => {
            assert_eq!(expected, Some((url.to_owned(), "id".to_owned())))
        }
        _ => panic!(),
    }
}

#[test]
fn keys_of_a_started_request_are_kept() {
    let (key, _) = joining_key(Stored::Missing).ok().unwrap();
    assert!(nexo::x509::check_request_key(&key.csr_pem, &key.key_pem));
    let (again, fresh) = joining_key(Stored::Found(key.clone())).ok().unwrap();
    assert!(!fresh);
    assert_eq!(again.key_pem, key.key_pem);
    assert!(matches!(joining_key(Stored::Unreadable), Err(AgentError::KeyUnreadable)));
    assert!(matches!(joining_key(Stored::Damaged), Err(AgentError::KeyDamaged)));
}

#[test]
fn recovery_is_for_the_known_device() {
    let expected = Some(("s".to_owned(), "d".to_owned()));
    assert!(check_first(true, "s", Some("d"), &expected).is_ok());
    assert!(check_first(true, "s", Some("d"), &None).is_ok());
    assert!(matches!(check_first(true, "s", None, &None), Err(AgentError::NotRecovery)));
    assert!(matches!(
        check_first(true, "s", Some("x"), &expected),
        Err(AgentError::OtherDevice)
    ));
    assert!(matches!(check_first(false, "s", Some("d"), &None), Err(AgentError::Recovery)));
    assert!(check_first(false, "s", None, &None).is_ok());
}

fn answer(status: EnrollmentStatus, known: &DeviceIdentity) -> AgentEnrollmentPollResponse {
    AgentEnrollmentPollResponse {
        enrollment_id: "e".into(),
        status,
        device_id: Some("id".into()),
        certificate_pem: Some(known.certificate_pem.clone()),
        ca_certificate_pem: Some(known.ca_pem.clone()),
        message: "已拒绝".into(),
    }
}

#[test]
fn approvals_are_checked_before_they_are_stored() {
    let known = identity();
    let poll = |response| poll_step(false, "s", &None, &known.key_pem, response);
    assert!(matches!(
        poll(answer(EnrollmentStatus::AwaitingApproval, &known)),
        Ok(PollStep::Wait)
    ));
    match poll(answer(EnrollmentStatus::Approved, &known)) {
        Ok(PollStep::Approved { identity }) => {
            assert_eq!(identity.device_id, "id");
            assert_eq!(identity.key_pem, known.key_pem);
            assert_eq!(identity.server_url, "s");
            assert!(check_approved(&identity).is_ok());
        }
        _ => panic!(),
    }
    let mut other = answer(EnrollmentStatus::Approved, &known);
    other.device_id = Some("x".into());
    match poll(other) {
        Ok(PollStep::Approved { mut identity }) => {
            assert_eq!(identity.device_id, "x");
            assert!(matches!(check_approved(&identity), Err(AgentError::CertificateMismatch)));
            identity.certificate_pem = "no certificate".into();
            assert!(matches!(check_approved(&identity), Err(AgentError::Certificate { .. })));
        }
        _ => panic!(),
    }
    let mut none = answer(EnrollmentStatus::Approved, &known);
    none.device_id = None;
    assert!(matches!(poll(none), Err(AgentError::NoDevice)));
    let mut none = answer(EnrollmentStatus::Approved, &known);
    none.certificate_pem = None;
    assert!(matches!(poll(none), Err(AgentError::NoCertificate)));
    let mut none = answer(EnrollmentStatus::Approved, &known);
    none.ca_certificate_pem = None;
    assert!(matches!(poll(none), Err(AgentError::NoAuthority)));
    let changed = poll_step(
        true,
        "s",
        &Some("first".to_owned()),
        &known.key_pem,
        answer(EnrollmentStatus::Approved, &known),
    );
    assert!(matches!(changed, Err(AgentError::ChangedDevice)));
}

#[test]
fn refusals_hide_the_token() {
    let text = refusal_message("401 Unauthorized", "bad token-1 here", "token-1");
    assert!(!text.contains("token-1"));
    assert!(text.contains("401 Unauthorized"));
    assert!(text.contains("[凭据已隐藏]"));
}

#[test]
fn addresses_keep_their_brackets() {
    assert_eq!(endpoint_address("https://s.example/x", 9890).unwrap(), "s.example:9890");
    assert_eq!(endpoint_address("http://[2001:db8::1]:80", 9890).unwrap(), "[2001:db8::1]:9890");
    assert!(matches!(endpoint_address("nonsense", 1), Err(AgentError::Url)));
    assert!(matches!(endpoint_address("ftp://s.example", 1), Err(AgentError::Scheme)));
}

fn tunnel(id: &str, protocol: &str) -> TunnelDesiredState {
    TunnelDesiredState {
        tunnel_id: id.into(),
        protocol: protocol.into(),
        local_address: "127.0.0.1".into(),
        local_port: 8080,
        hostname: None,
        origin_protocol: None,
        origin_tls_server_name: None,
        origin_tls_verification: None,
        origin_ca_pem: None,
        revision: 3,
        enabled: true,
    }
}

#[test]
fn streams_are_opened_for_the_current_revision() {
    let mut off = tunnel("b", "tcp");
    off.enabled = false;
    let list = vec![tunnel("a", "tcp"), off];
    assert_eq!(find_stream(&list, "a", 3).unwrap().local_port, 8080);
    assert!(find_stream(&list, "a", 2).is_none());
    assert!(find_stream(&list, "b", 3).is_none());
    assert!(still_wanted(&list, &list[0]));
    assert!(!still_wanted(&vec![], &list[0]));
}

#[test]
fn origins_are_reached_as_they_say() {
    let plain = origin_target(&tunnel("a", "tcp")).ok().unwrap();
    assert_eq!((plain.address.as_str(), plain.port), ("127.0.0.1", 8080));
    assert!(matches!(plain.security, Ok(OriginSecurity::Plain)));
    let mut tls = tunnel("a", "https");
    tls.origin_protocol = Some("https".into());
    tls.origin_tls_server_name = Some("origin.test".into());
    match origin_target(&tls).ok().unwrap().security {
        Ok(OriginSecurity::Tls { roots: OriginRoots::System, server_name }) => {
            assert_eq!(server_name, "origin.test")
        }
        _ => panic!(),
    }
    assert!(matches!(origin_target(&tunnel("a", "udp")), Err(AgentError::Protocol)));
    let fine = probe_result(&tunnel("a", "tcp"), None);
    assert!(fine.applied);
    assert_eq!(fine.status, "ready");
    let bad = probe_result(&tunnel("a", "tcp"), Some("无法连接"));
    assert!(!bad.applied);
    assert_eq!(bad.error_message.as_deref(), Some("无法连接"));
}

#[test]
fn waits_double_up_to_half_a_minute() {
    let mut waits = vec![1];
    for _ in 0..6 {
        waits.push(next_delay(waits[waits.len() - 1]));
    }
    assert_eq!(waits, vec![1, 2, 4, 8, 16, 30, 30]);
}

#[test]
fn the_control_connection_renews_and_takes_what_is_offered() {
    let mut identity = identity();
    let mut control = AgentControl::new("s.example:9891".into());
    let tick = control.tick(&mut identity, "1", NOW);
    assert!(matches!(tick.heartbeat, AgentControlMessage::Heartbeat { .. }));
    assert!(matches!(tick.renewal, RenewalTick::Nothing));
    let offer = ServerControlMessage::HelloAccepted {
        server_time: NOW,
        tunnels: vec![tunnel("a", "tcp")],
        tunnel_endpoint: Some(TunnelDataEndpoint {
            address: "s.example:1".into(),
            server_name: "nexo-server".into(),
        }),
    };
    match control.message(offer, &mut identity, NOW) {
        Ok(AgentStep::Offer { changed, start_data }) => assert!(changed && start_data),
        _ => panic!(),
    }
    assert!(control.accepted);
    assert_eq!(control.desired.endpoint.address, "s.example:1");
    let due = certificate_info(&identity.certificate_pem).unwrap().1 - RENEW_BEFORE;
    let tick = control.tick(&mut identity, "1", due);
    let RenewalTick::Request {
        message: AgentControlMessage::RenewCertificate { csr_pem },
    } = tick.renewal
    else {
        panic!();
    };
    assert!(check_request_key(&csr_pem, &identity.pending_key.as_ref().unwrap().key_pem));
    let renewed = ServerControlMessage::CertificateRenewed {
        certificate_pem: "pem".into(),
    };
    match control.message(renewed, &mut identity, due) {
        Ok(AgentStep::Install { certificate_pem }) => assert_eq!(certificate_pem, "pem"),
        _ => panic!(),
    }
    let refused = ServerControlMessage::Error {
        message: "已停用".into(),
    };
    match control.message(refused, &mut identity, due) {
        Err(AgentError::Refused { message }) => assert!(message.contains("已停用")),
        _ => panic!(),
    }
    assert!(matches!(
        control.request_failed(&mut identity, "无法发送", due),
        AgentControlMessage::CertificateRenewalFailed { .. }
    ));
}

#[test]
fn overdue_answers_are_reported_and_tried_again_later() {
    let mut identity = identity();
    let due = certificate_info(&identity.certificate_pem).unwrap().1 - RENEW_BEFORE;
    let mut control = AgentControl::new("s.example:9891".into());
    assert!(matches!(
        control.tick(&mut identity, "1", due).renewal,
        RenewalTick::Request { .. }
    ));
    assert_eq!(control.renewal_deadline, Some(due + 30));
    let waiting = control.tick(&mut identity, "1", due + 29);
    assert!(waiting.overdue.is_none() && matches!(waiting.renewal, RenewalTick::Nothing));
    let late = control.tick(&mut identity, "1", due + 30);
    match late.overdue {
        Some(AgentControlMessage::CertificateRenewalFailed {
            error,
            next_retry_at,
        }) => {
            assert_eq!(error, "等待续签响应超时");
            assert_eq!(next_retry_at, due + 60);
        }
        _ => panic!(),
    }
    assert!(matches!(late.renewal, RenewalTick::Nothing));
    assert_eq!(control.renewal_deadline, None);
    assert_eq!(identity.renewal_retry.failures, 1);
    identity.certificate_pem = "damaged".into();
    match control.tick(&mut identity, "1", due + 60).renewal {
        RenewalTick::Report {
            message: AgentControlMessage::CertificateRenewalFailed { error, .. },
        } => assert!(error.starts_with("准备设备续签失败：")),
        _ => panic!(),
    }
    assert_eq!(identity.renewal_retry.failures, 2);
}
