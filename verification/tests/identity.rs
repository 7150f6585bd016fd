use nexo::identity::{
    accept_certificate, device_status, failed, frame_message, initialize_schema, install,
    is_countable, is_founding_time, issue_until, plan_renewal, renew_device, renewal_failed, request, retry_delay_seconds, status,
    Authority, AuthorityState, DeviceCertificate, DeviceIdentity, RenewalPlan, RenewalRetry,
    MAX_CONTROL_FRAME, RENEW_BEFORE,
};
use nexo::protocol::AgentControlMessage;
use nexo::x509::{
    certificate_info, certificates, check_key, check_request_key, check_signature, fingerprint,
    fingerprint_der, read_facts, read_usage, validate_csr, Usage,
};
use rcgen::{CertificateParams, DnType, KeyPair};

const NOW: i64 = 1_800_000_000;

fn request_for(name: &str, key: &KeyPair) -> String {
    CertificateParams::new(vec![name.into()])
        .unwrap()
        .serialize_request(key)
        .unwrap()
        .pem()
        .unwrap()
}

fn device() -> (DeviceCertificate, String, String) {
    let key = KeyPair::generate().unwrap();
    let mut params = CertificateParams::new(vec!["device-mine.nexo".into()]).unwrap();
    params.distinguished_name.push(DnType::CommonName, "mine");
    params.not_after = time::OffsetDateTime::from_unix_timestamp(NOW + 5 * 86400).unwrap();
    let cert = params.self_signed(&key).unwrap().pem();
    let digest = fingerprint(&cert).unwrap();
    let csr = request_for("unused.nexo", &KeyPair::generate().unwrap());
    let row = DeviceCertificate {
        active_digest: digest.clone(),
        certificate_pem: Some(cert),
        pending_csr: None,
        pending_certificate: None,
        retry_failures: 0,
        renewal_error: None,
        next_retry_at: None,
    };
    (row, digest, csr)
}

#[test]
fn renewal_backoff_is_bounded_and_restorable() {
    let mut retry = RenewalRetry::default();
    for delay in [30, 60, 120, 240, 480, 960, 1920, 3600, 3600] {
        retry.failed(1000, "存储暂不可用");
        assert_eq!(retry.next_retry_at, Some(1000 + delay));
        assert!(!retry.ready(1000 + delay - 1));
        let RenewalRetry { failures, error, next_retry_at } = retry;
        retry = RenewalRetry { failures, error, next_retry_at };
        assert!(retry.ready(1000 + delay));
    }
    assert_eq!(retry_delay_seconds(u32::MAX), 3600);
}

#[test]
fn renewal_retries_preserve_identity_until_install_and_revoke_old_certificate() {
    let authority = Authority::generate(NOW).ok().unwrap();
    let (mut row, old, csr) = device();
    assert!(renew_device(&authority, &mut row, "mine", "foreign-fingerprint", &csr, NOW).is_err());
    assert!(renew_device(&authority, &mut row, "mine", &old, &csr, NOW + 6 * 86400).is_err());
    let next = renew_device(&authority, &mut row, "mine", &old, &csr, NOW).unwrap();
    assert_eq!(
        next,
        renew_device(&authority, &mut row, "mine", &old, &csr, NOW).unwrap()
    );
    let digest = fingerprint(&next).unwrap();
    assert_ne!(digest, old);
    let row = accept_certificate(Some(row), &old).ok().unwrap();
    assert!(accept_certificate(None, &digest).is_err());
    let row = accept_certificate(Some(row), &digest).ok().unwrap();
    assert_eq!(row.active_digest, digest);
    assert_eq!(row.certificate_pem.as_deref(), Some(next.as_str()));
    assert!(row.pending_certificate.is_none());
    assert_eq!(
        device_status(row.certificate_pem.as_deref(), None, None, NOW).status,
        "valid"
    );
    assert!(accept_certificate(Some(row), &old).is_err());
}

#[test]
fn device_failures_are_persisted_and_early_retries_are_rejected() {
    let authority = Authority::generate(NOW).ok().unwrap();
    let (mut row, old, csr) = device();
    let (retry, next) = renewal_failed(row.retry_failures, "磁盘已满", None, NOW);
    row.retry_failures = retry.failures;
    row.renewal_error = retry.error;
    row.next_retry_at = retry.next_retry_at;
    assert!(renew_device(&authority, &mut row, "mine", &old, &csr, NOW).is_err());
    let snapshot = device_status(
        row.certificate_pem.as_deref(),
        row.renewal_error.clone(),
        row.next_retry_at,
        NOW,
    );
    assert_eq!(snapshot.status, "retry_wait");
    assert_eq!(snapshot.next_retry_at, Some(next));
    assert_eq!(snapshot.error.as_deref(), Some("磁盘已满"));
}

#[test]
fn reported_retries_stay_within_limits() {
    assert_eq!(renewal_failed(0, "e", Some(0), NOW).1, NOW + 30);
    assert_eq!(renewal_failed(0, "e", Some(i64::MAX), NOW).1, NOW + 3600);
    assert_eq!(renewal_failed(0, "e", Some(NOW + 77), NOW).1, NOW + 77);
    assert_eq!(renewal_failed(3, "e", None, NOW).1, NOW + 240);
}

#[test]
fn pending_key_survives_restart_and_failed_install_preserves_old_identity() {
    let authority = Authority::generate(NOW).ok().unwrap();
    let key = KeyPair::generate().unwrap();
    let csr = request_for("agent.nexo", &key);
    let old_cert = authority.issue_device(&csr, "same-id", NOW).unwrap();
    let mut agent = DeviceIdentity {
        device_id: "same-id".into(),
        server_url: "https://server.example".into(),
        certificate_pem: old_cert.clone(),
        ca_pem: authority.ca_pem.clone(),
        key_pem: key.serialize_pem(),
        pending_key: None,
        renewal_retry: Default::default(),
    };
    let due = certificate_info(&old_cert).unwrap().1 - RENEW_BEFORE;
    assert!(request(&mut agent, due - 1).unwrap().is_none());
    let AgentControlMessage::RenewCertificate { csr_pem } =
        request(&mut agent, due).unwrap().unwrap()
    else {
        panic!("缺少续签请求");
    };
    let mut restored = agent.clone();
    assert!(request(&mut restored, due + 1).unwrap().is_none());
    let AgentControlMessage::RenewCertificate { csr_pem: retry_csr } =
        request(&mut restored, due + 30).unwrap().unwrap()
    else {
        panic!("缺少重试请求");
    };
    assert_eq!(csr_pem, retry_csr);
    let waiting = restored.pending_key.as_ref().unwrap();
    assert!(check_request_key(&csr_pem, &waiting.key_pem));
    assert!(!check_request_key(&csr_pem, &restored.key_pem));
    let new_cert = authority.issue_device(&csr_pem, "same-id", due).unwrap();
    let wrong_device = authority.issue_device(&csr_pem, "foreign-id", due).unwrap();
    assert!(install(&restored, &wrong_device, due + 30).is_err());
    let installed = install(&restored, &new_cert, due + 30).ok().unwrap();
    assert_eq!(restored.certificate_pem, old_cert);
    assert_eq!(installed.device_id, "same-id");
    assert_eq!(installed.server_url, agent.server_url);
    assert_ne!(installed.key_pem, agent.key_pem);
    assert!(installed.pending_key.is_none());
    assert_eq!(installed.certificate_pem, new_cert);
    assert!(check_key(&installed.certificate_pem, &installed.key_pem));
    assert!(!check_key(&installed.certificate_pem, &agent.key_pem));
}

#[test]
fn expired_identities_ask_for_nothing_and_failures_are_reported() {
    let authority = Authority::generate(NOW).ok().unwrap();
    let csr = request_for("agent.nexo", &KeyPair::generate().unwrap());
    let cert = authority.issue_device(&csr, "id", NOW).unwrap();
    let expiry = certificate_info(&cert).unwrap().1;
    let mut identity = DeviceIdentity {
        device_id: "id".into(),
        server_url: "https://server.example".into(),
        certificate_pem: cert.clone(),
        ca_pem: authority.ca_pem.clone(),
        key_pem: String::new(),
        pending_key: None,
        renewal_retry: Default::default(),
    };
    assert!(request(&mut identity, expiry).is_err());
    assert!(identity.pending_key.is_none());
    assert!(install(&identity, &cert, expiry - RENEW_BEFORE).is_err());
    let message = failed(&mut identity, "无法保存", None, NOW);
    let AgentControlMessage::CertificateRenewalFailed { error, next_retry_at } = message else {
        panic!();
    };
    assert_eq!(error, "无法保存");
    assert_eq!(next_retry_at, NOW + 30);
    assert_eq!(identity.renewal_retry.next_retry_at, Some(next_retry_at));
    failed(&mut identity, "e", Some(NOW + 9000), NOW);
    assert_eq!(identity.renewal_retry.next_retry_at, Some(NOW + 9000));
}

#[test]
fn server_write_failure_keeps_old_tls_and_retry_survives_restart() {
    let authority = Authority::generate(NOW).ok().unwrap();
    let ca = authority.ca_pem.clone();
    let due = authority.server_expires_at().unwrap() - RENEW_BEFORE;
    let mut runtime = AuthorityState::restore(authority, None);
    assert!(!runtime.renewal_due(due - 1).unwrap());
    assert!(runtime.renewal_due(due).unwrap());
    runtime.renewal_failed(due, "无法保存证书");
    let saved = (due + RENEW_BEFORE, runtime.retry.clone());
    let mut runtime = AuthorityState::restore(runtime.authority, Some(saved));
    assert_eq!(runtime.retry.next_retry_at, Some(due + 30));
    assert!(!runtime.renewal_due(due + 29).unwrap());
    assert_eq!(
        runtime.authority.server_expires_at().unwrap(),
        due + RENEW_BEFORE
    );
    assert!(runtime.renewal_due(due + 30).unwrap());
    let next = runtime.authority.renew_server(due + 30).ok().unwrap();
    runtime.renewed(next);
    assert_eq!(runtime.authority.ca_pem, ca);
    assert!(runtime.authority.server_expires_at().unwrap() > due + RENEW_BEFORE);
    assert!(runtime.retry.error.is_none());
    assert_eq!(runtime.status(due + 31).server.status, "valid");
}

#[test]
fn a_retry_of_an_earlier_certificate_is_forgotten() {
    let authority = Authority::generate(NOW).ok().unwrap();
    let mut retry = RenewalRetry::default();
    retry.failed(NOW, "e");
    let state = AuthorityState::restore(authority, Some((1, retry)));
    assert!(state.retry.error.is_none());
    assert_eq!(state.retry.failures, 0);
}

#[test]
fn issued_certificates_end_before_their_authority() {
    let end = 100 + RENEW_BEFORE + 1;
    assert_eq!(issue_until(100, RENEW_BEFORE + 1, i64::MAX).unwrap(), end);
    assert_eq!(issue_until(100, i64::MAX - 100, end).unwrap(), end);
    assert!(issue_until(100, i64::MAX - 100, end - 1).is_err());
    let authority = Authority::generate(NOW).ok().unwrap();
    let end = authority.ca_expires_at().unwrap();
    let csr = request_for("agent.nexo", &KeyPair::generate().unwrap());
    assert!(authority.issue_device(&csr, "id", end - RENEW_BEFORE).is_err());
    let last = authority
        .issue_device(&csr, "id", end - RENEW_BEFORE - 1)
        .unwrap();
    assert_eq!(certificate_info(&last).unwrap().1, end);
    assert_eq!(certificate_info(&last).unwrap().0, "id");
}

#[test]
fn faulty_certificates_and_requests_are_refused() {
    assert!(certificates("").is_err());
    assert!(certificate_info("no certificate").is_err());
    assert!(validate_csr("no request").is_err());
    let authority = Authority::generate(NOW).ok().unwrap();
    assert!(authority.issue_device("no request", "id", NOW).is_err());
    let key = KeyPair::generate().unwrap();
    let csr = request_for("agent.nexo", &key);
    assert!(validate_csr(&csr).is_ok());
    let der = certificates(&authority.ca_pem).unwrap();
    assert_eq!(der.len(), 1);
    assert_eq!(fingerprint_der(&der[0]), fingerprint(&authority.ca_pem).unwrap());
    assert_eq!(fingerprint(&authority.ca_pem).unwrap().len(), 64);
}

#[test]
fn states_of_a_certificate() {
    let none = RenewalRetry::default();
    assert_eq!(status(None, &none, 0).status, "unknown");
    assert_eq!(status(Some(100), &none, 100).status, "expired");
    assert_eq!(status(Some(RENEW_BEFORE + 10), &none, 10).status, "expiring");
    assert_eq!(status(Some(RENEW_BEFORE + 10), &none, 9).status, "valid");
    let mut retry = RenewalRetry::default();
    retry.failed(0, "e");
    assert_eq!(status(Some(RENEW_BEFORE + 10), &retry, 10).status, "retry_wait");
}

#[test]
fn plans_follow_the_stored_request() {
    let (mut row, digest, csr) = device();
    assert!(matches!(plan_renewal(&row, &digest, &csr, NOW), Ok(RenewalPlan::Issue)));
    row.pending_csr = Some(csr.clone());
    row.pending_certificate = Some("pending".into());
    assert!(matches!(plan_renewal(&row, &digest, &csr, NOW), Ok(RenewalPlan::Issue)));
    let authority = Authority::generate(NOW).ok().unwrap();
    row.pending_certificate = Some(authority.issue_device(&csr, "mine", NOW).unwrap());
    match plan_renewal(&row, &digest, &csr, NOW) {
        Ok(RenewalPlan::Reuse { certificate_pem }) => {
            assert_eq!(Some(certificate_pem), row.pending_certificate)
        }
        _ => panic!(),
    }
}

#[test]
fn control_frames_are_bounded_lines() {
    assert_eq!(frame_message(b"{}".to_vec()), Some(b"{}\n".to_vec()));
    assert!(frame_message(vec![b' '; MAX_CONTROL_FRAME]).is_some());
    assert!(frame_message(vec![b' '; MAX_CONTROL_FRAME + 1]).is_none());
}

#[test]
fn the_schema_of_certificates_can_be_installed_twice() {
    let db = rusqlite::Connection::open_in_memory().unwrap();
    db.execute_batch(
        "CREATE TABLE devices(id TEXT PRIMARY KEY);
        CREATE TABLE pending_enrollments(id TEXT, device_id TEXT);
        CREATE TABLE enrollment_requests(enrollment_id TEXT, certificate_pem TEXT);
        INSERT INTO devices VALUES ('d');
        INSERT INTO pending_enrollments VALUES ('e', 'd');
        INSERT INTO enrollment_requests VALUES ('e', 'pem');",
    )
    .unwrap();
    for _ in 0..2 {
        for statement in initialize_schema() {
            db.execute_batch(&statement).unwrap();
        }
    }
    let pem: String = db
        .query_row(
            "SELECT certificate_pem FROM device_certificates WHERE device_id='d'",
            [],
            |row| row.get(0),
        )
        .unwrap();
    assert_eq!(pem, "pem");
}

#[test]
fn certificates_hold_their_keys_and_the_signature_of_the_authority() {
    let authority = Authority::generate(NOW).ok().unwrap();
    assert!(check_key(&authority.ca_pem, &authority.ca_key));
    assert!(check_key(&authority.server_pem, &authority.server_key));
    assert!(!check_key(&authority.server_pem, &authority.ca_key));
    assert!(check_signature(&authority.ca_pem, &authority.ca_pem));
    assert!(check_signature(&authority.server_pem, &authority.ca_pem));
    assert!(!check_signature(&authority.ca_pem, &authority.server_pem));
    let later = NOW + 800 * 86400;
    let renewed = authority.renew_server(later).ok().unwrap();
    assert_ne!(renewed.server_key, authority.server_key);
    assert!(check_key(&renewed.server_pem, &renewed.server_key));
    assert!(check_signature(&renewed.server_pem, &authority.ca_pem));
    let facts = read_facts(&renewed.server_pem).unwrap();
    assert_eq!((facts.not_before, facts.not_after), (later - 300, later + 825 * 86400));
    assert_eq!(renewed.server_expires_at().unwrap(), later + 825 * 86400);
    let key = KeyPair::generate().unwrap();
    let csr = request_for("other.nexo", &key);
    assert!(check_request_key(&csr, &key.serialize_pem()));
    let device = authority.issue_device(&csr, "mine", NOW).unwrap();
    assert!(check_key(&device, &key.serialize_pem()));
    assert!(check_signature(&device, &authority.ca_pem));
    let other = Authority::generate(NOW).ok().unwrap();
    assert!(!check_signature(&device, &other.ca_pem));
    assert!(!check_key("no certificate", &authority.ca_key));
    assert!(!check_signature("no certificate", &authority.ca_pem));
}

#[test]
fn certificates_are_for_their_purpose_only() {
    let authority = Authority::generate(NOW).ok().unwrap();
    let csr = request_for("other.nexo", &KeyPair::generate().unwrap());
    let device = authority.issue_device(&csr, "mine", NOW).unwrap();
    let leaf = Usage {
        authority: false,
        key_uses: 1,
        server: true,
        client: false,
        names_issuer: true,
    };
    assert_eq!(read_usage(&authority.server_pem), Some(leaf));
    let renewed = authority.renew_server(NOW).ok().unwrap();
    assert_eq!(read_usage(&renewed.server_pem), Some(leaf));
    assert_eq!(read_usage(&device), Some(Usage { server: false, client: true, ..leaf }));
    let own = Usage {
        authority: true,
        key_uses: 1 + 32 + 64,
        server: false,
        client: false,
        names_issuer: false,
    };
    assert_eq!(read_usage(&authority.ca_pem), Some(own));
    assert_eq!(read_usage("no certificate"), None);
    let name = |pem: &str| read_facts(pem).unwrap().common_name.unwrap();
    assert_eq!(name(&authority.ca_pem), "Nexo Device CA");
    assert_eq!(name(&authority.server_pem), "rcgen self signed cert");
    assert_eq!(name(&device), "mine");
}

#[test]
fn certificates_are_issued_from_times_that_leave_room_for_their_end() {
    let last = i64::MAX - 315_360_000;
    for (now, countable) in [(-1, false), (0, true), (NOW, true), (last, true), (last + 1, false)] {
        assert_eq!(is_countable(now), countable, "{}", now);
    }
    let first = 86_400 - 62_167_219_200;
    let last = 253_402_300_799 - 315_360_000;
    for (now, founding) in [(first - 1, false), (first, true), (last, true), (last + 1, false)] {
        assert_eq!(is_founding_time(now), founding, "{}", now);
    }
}

#[test]
fn certificates_end_with_the_last_year_that_they_can_hold() {
    let founded = 253_402_300_799 - 315_360_000;
    let authority = Authority::generate(founded).ok().unwrap();
    assert_eq!(authority.ca_expires_at().unwrap(), 253_402_300_799);
    let late = 253_402_300_799 - RENEW_BEFORE - 1;
    let next = authority.renew_server(late).ok().unwrap();
    assert_eq!(next.server_expires_at().unwrap(), 253_402_300_799);
    assert_eq!(next.ca_expires_at().unwrap(), 253_402_300_799);
    assert!(authority.renew_server(late + 1).is_err());
    assert!(authority.renew_server(i64::MAX - 71_280_000).is_err());
}
