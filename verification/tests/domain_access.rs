use nexo::domain_access::{
    copy_access, is_due, load, resolve, settle, Access, Lookup, Record, Runtime,
};
use nexo::ip::{parse_ip, IpAddr};

fn ip(text: &str) -> IpAddr {
    parse_ip(text).unwrap()
}

fn record(name: &str) -> Record {
    Record {
        hostname: name.into(),
        addresses: vec![],
        status: "unchecked",
        matches_server: None,
        error: None,
    }
}

fn try_names(access: Access, answers: &[Lookup]) -> Access {
    let Access {
        domain,
        expected_addresses,
        records,
        checked_at,
        next_retry_at,
        retries_remaining,
        public_access,
    } = access;
    let records = records
        .into_iter()
        .zip(answers)
        .map(|(one, answer)| resolve(one, answer, &expected_addresses))
        .collect();
    Access {
        domain,
        expected_addresses,
        records,
        checked_at,
        next_retry_at,
        retries_remaining,
        public_access,
    }
}

fn refresh(runtime: &mut Runtime, names: &[&str], answers: &[Lookup], force: bool, now: i64) -> bool {
    let names: Vec<String> = names.iter().map(|name| name.to_string()).collect();
    let access = load(Some("example.com"), &names, &vec![]).unwrap();
    let known = runtime.status("d", copy_access(&access));
    if !is_due(&known, force, now) {
        return false;
    }
    let result = settle(try_names(access, answers), &known, force, now);
    runtime.store("d", result);
    true
}

fn current(runtime: &Runtime, names: &[&str]) -> Access {
    let names: Vec<String> = names.iter().map(|name| name.to_string()).collect();
    runtime.status("d", load(Some("example.com"), &names, &vec![]).unwrap())
}

#[test]
fn background_dns_stops_after_success_and_waits_for_scheduled_retries() {
    let mut runtime = Runtime::default();
    assert!(current(&runtime, &[]).checked_at.is_none());
    assert!(refresh(&mut runtime, &[], &[Lookup::Found(vec![ip("127.0.0.1")])], false, 1000));
    let automatic = current(&runtime, &[]);
    assert_eq!(automatic.records[0].status, "resolved");
    assert_eq!(automatic.public_access, "unverified");
    assert!(automatic.next_retry_at.is_none());
    assert_eq!(automatic.retries_remaining, 0);
    assert!(!refresh(&mut runtime, &[], &[Lookup::TimedOut], false, 1000 + 86400));
    assert_eq!(current(&runtime, &[]).checked_at, Some(1000));
}

#[test]
fn unresolved_dns_has_three_retries_and_config_changes_restart_checks() {
    let mut runtime = Runtime::default();
    assert!(refresh(&mut runtime, &[], &[Lookup::Failed], false, 1000));
    let first = current(&runtime, &[]);
    assert_eq!(first.records[0].status, "unresolved");
    assert_eq!(first.retries_remaining, 3);
    assert_eq!(first.next_retry_at, first.checked_at.map(|at| at + 300));
    let mut now = 1000;
    for remaining in [2, 1, 0] {
        assert!(!refresh(&mut runtime, &[], &[Lookup::Failed], false, now + 299));
        now += 300;
        assert!(refresh(&mut runtime, &[], &[Lookup::Failed], false, now));
        let retried = current(&runtime, &[]);
        assert_eq!(retried.retries_remaining, remaining);
        assert_eq!(retried.next_retry_at.is_some(), remaining > 0);
    }
    assert!(!refresh(&mut runtime, &[], &[Lookup::Failed], false, now + 86400));
    assert!(refresh(&mut runtime, &[], &[Lookup::TimedOut], true, now + 86400));
    let manual = current(&runtime, &[]);
    assert_eq!(manual.retries_remaining, 0);
    assert!(manual.next_retry_at.is_none());
    assert_eq!(manual.checked_at, Some(now + 86400));
    assert!(current(&runtime, &["media"]).checked_at.is_none());
    let answers = [Lookup::Found(vec![ip("::1")]), Lookup::Found(vec![ip("::1")])];
    assert!(refresh(&mut runtime, &["media"], &answers, false, now + 86401));
    let recovered = current(&runtime, &["media"]);
    assert_eq!(recovered.records[1].status, "resolved");
    assert_eq!(recovered.retries_remaining, 0);
}

#[test]
fn resolved_cdn_addresses_do_not_schedule_retries() {
    let access = load(Some("example.com"), &vec![], &vec![ip("203.0.113.10")]).unwrap();
    let known = copy_access(&access);
    let tried = try_names(access, &[Lookup::Found(vec![ip("198.51.100.7"), ip("203.0.113.10")])]);
    let checked = settle(tried, &known, false, 5);
    assert_eq!(checked.records[0].status, "resolved");
    assert_eq!(checked.records[0].matches_server, Some(false));
    assert!(checked.next_retry_at.is_none());
    assert_eq!(checked.retries_remaining, 0);
}

#[test]
fn service_changes_invalidate_dns_snapshot_and_deleted_domains_are_pruned() {
    let mut runtime = Runtime::default();
    let mut cached = load(Some("test.localhost"), &vec![], &vec![]).unwrap();
    cached.checked_at = Some(7);
    runtime.store("domain", cached);
    let names = vec!["media".to_owned()];
    let changed = runtime.status("domain", load(Some("test.localhost"), &names, &vec![]).unwrap());
    assert!(changed.checked_at.is_none());
    assert_eq!(changed.records.len(), 2);
    assert_eq!(changed.records[1].hostname, "media.test.localhost");
    runtime.retain(&vec![]);
    assert!(runtime.entries.is_empty());
    assert_eq!(load(None, &vec![], &vec![]).unwrap_err().status, 404);
}

#[test]
fn dns_resolution_does_not_claim_public_reachability() {
    let one = resolve(record("localhost"), &Lookup::Found(vec![ip("127.0.0.1")]), &vec![]);
    assert_eq!(one.status, "resolved");
    assert_eq!(one.matches_server, None);
    assert!(!one.addresses.is_empty());
}

#[test]
fn every_address_has_to_be_the_one_of_the_server() {
    let expected = vec![ip("203.0.113.10"), ip("2001:db8::1")];
    let answer = Lookup::Found(vec![
        ip("2001:db8::1"),
        ip("203.0.113.10"),
        ip("2001:db8::1"),
    ]);
    let one = resolve(record("a"), &answer, &expected);
    assert_eq!(one.addresses, vec![ip("203.0.113.10"), ip("2001:db8::1")]);
    assert_eq!(one.matches_server, Some(true));
    let none = resolve(record("a"), &Lookup::Found(vec![]), &expected);
    assert_eq!(none.status, "unresolved");
    assert!(none.error.unwrap().contains("未找到"));
    assert_eq!(resolve(record("a"), &Lookup::TimedOut, &expected).error.unwrap(), "DNS 查询超时，请稍后重试");
}
