use nexo::device_networks::{
    change_events, fresh_ids, host_question, recheck, recheck_event, NetworkChange, save, status_reason, ApplyStatus, GatewayHealthStatus, NetworkRow,
    Selection, SharingRequest, SiteNetworkResponse,
};
use nexo::error::ApiError;
use nexo::gateway::{CapabilityState, DetectedLocalNetwork, GatewayCapabilityReport};

fn pick(id: Option<&str>, prefix: &str, enabled: bool) -> Selection {
    Selection {
        id: id.map(str::to_owned),
        interface_id: Some("eth0".into()),
        prefix: prefix.into(),
        enabled,
    }
}

fn share(
    rows: &mut Vec<NetworkRow>,
    device: &str,
    items: Vec<Selection>,
) -> Result<Vec<(String, bool, bool)>, u16> {
    let verdicts: Vec<Option<ApiError>> = items.iter().map(|_| None).collect();
    let fresh = fresh_ids(items.len());
    let fresh_access = fresh_ids(items.len());
    let request = SharingRequest {
        tenant: "default",
        device,
        items: &items,
        verdicts: &verdicts,
        fresh: &fresh,
        fresh_access: &fresh_access,
    };
    save(rows, Some(true), &request)
        .map(|list| list.into_iter().map(|one| (one.id, one.created, one.changed)).collect())
        .map_err(|error| error.status)
}

#[test]
fn repeating_a_request_makes_no_second_network() {
    let mut rows = vec![];
    let first = share(&mut rows, "a", vec![pick(None, "192.168.10.7/24", true)]).unwrap();
    assert!(first[0].1 && first[0].2);
    assert_eq!(rows[0].desired_prefix, "192.168.10.0/24");
    let again = share(&mut rows, "a", vec![pick(None, "192.168.10.0/24", true)]).unwrap();
    assert_eq!(again[0].0, first[0].0);
    assert!(!again[0].1 && !again[0].2);
    assert_eq!(rows.len(), 1);
    let id = first[0].0.as_str();
    let off = share(&mut rows, "a", vec![pick(Some(id), "192.168.10.0/24", false)]).unwrap();
    assert!(off[0].2);
    assert!(!rows[0].enabled);
    assert_eq!(rows[0].desired_revision, 2);
    let none = share(&mut rows, "a", vec![pick(None, "192.168.99.0/24", false)]).unwrap();
    assert!(none.is_empty());
}

#[test]
fn refused_requests_change_nothing() {
    let mut rows = vec![];
    share(&mut rows, "a", vec![pick(None, "192.168.10.0/24", true)]).unwrap();
    let cases = [
        ("b", vec![pick(None, "192.168.0.0/16", true)], 409),
        ("a", vec![pick(None, "nonsense", true)], 400),
        ("a", vec![pick(None, "0.0.0.0/0", true)], 400),
        ("a", vec![pick(Some("none"), "10.0.0.0/24", true)], 404),
        (
            "a",
            vec![pick(None, "10.0.0.0/24", true), pick(None, "10.0.0.1/24", true)],
            409,
        ),
    ];
    for (device, items, status) in cases {
        assert_eq!(share(&mut rows, device, items), Err(status));
        assert_eq!(rows.len(), 1);
        assert_eq!(rows[0].desired_revision, 1);
    }
    let items = vec![pick(None, "10.0.0.0/24", true)];
    let fresh = fresh_ids(1);
    let refused = vec![Some(ApiError::new(409, "无法承载"))];
    let request = SharingRequest {
        tenant: "default",
        device: "a",
        items: &items,
        verdicts: &refused,
        fresh: &fresh,
        fresh_access: &fresh,
    };
    assert_eq!(save(&mut rows, Some(true), &request).unwrap_err().message, "无法承载");
    assert_eq!(save(&mut rows, None, &request).unwrap_err().status, 404);
    assert_eq!(save(&mut rows, Some(false), &request).unwrap_err().status, 409);
}

#[test]
fn checking_again_counts_the_revision() {
    let mut rows = vec![];
    let made = share(&mut rows, "a", vec![pick(None, "192.168.10.0/24", true)]).unwrap();
    let id = made[0].0.clone();
    rows[0].gateway_status = "failed".into();
    rows[0].gateway_error = Some("no route".into());
    rows[0].applied_prefix = Some("192.168.10.0/24".into());
    assert!(recheck(&mut rows, &id, "other").is_err());
    assert!(recheck(&mut rows, &id, "default").is_ok());
    assert_eq!(rows[0].desired_revision, 2);
    assert_eq!(rows[0].gateway_status, "checking");
    assert_eq!(rows[0].gateway_error, None);
    assert_eq!(rows[0].applied_prefix, None);
    let ids = fresh_ids(3);
    assert_eq!(ids.len(), 3);
    assert_ne!(ids[0], ids[1]);
}

#[test]
fn reasons_name_what_is_missing_first() {
    let mut network = SiteNetworkResponse {
        desired_prefix: "192.168.10.0/24".into(),
        source: "detected".into(),
        enabled: true,
        apply_status: ApplyStatus::Ready,
        health_status: GatewayHealthStatus::Ready,
    };
    let mut report = GatewayCapabilityReport {
        platform: "linux".into(),
        tun_available: true,
        net_admin_available: true,
        ipv4_forwarding: true,
        ipv6_forwarding: true,
        local_networks: vec![DetectedLocalNetwork {
            interface_id: "eth0".into(),
            prefix: "192.168.10.0/24".into(),
            gateway_address: None,
        }],
        subnet_gateway: CapabilityState::Ready,
        subnet_gateway_reason: None,
    };
    assert_eq!(status_reason(&network, true, Some(&report)), "ready");
    report.local_networks.clear();
    assert_eq!(status_reason(&network, true, Some(&report)), "network_missing");
    network.source = "manual".into();
    assert_eq!(status_reason(&network, true, Some(&report)), "ready");
    network.apply_status = ApplyStatus::Failed;
    assert_eq!(status_reason(&network, true, Some(&report)), "apply_failed");
    network.apply_status = ApplyStatus::Checking;
    assert_eq!(status_reason(&network, true, Some(&report)), "applying");
    report.ipv4_forwarding = false;
    assert_eq!(status_reason(&network, true, Some(&report)), "ipv4_forwarding_disabled");
    assert_eq!(status_reason(&network, true, None), "applying");
    assert_eq!(status_reason(&network, false, Some(&report)), "device_offline");
    network.enabled = false;
    assert_eq!(status_reason(&network, true, Some(&report)), "disabling");
    network.apply_status = ApplyStatus::Disabled;
    assert_eq!(status_reason(&network, false, None), "disabled");
}

#[test]
fn new_networks_are_stored_whole() {
    let mut rows = vec![];
    let items = vec![pick(None, "192.168.10.7/24", true), pick(None, "fd00:10::7/64", true)];
    let made = share(&mut rows, "a", items).unwrap();
    let first = &rows[0];
    assert_eq!((first.name.as_str(), first.address_family.as_str()), ("192.168.10.0/24", "ipv4"));
    assert_eq!((first.source.as_str(), first.desired_revision), ("direct_interface", 1));
    assert_eq!((first.apply_error.as_deref(), first.applied_prefix.as_deref()), (None, None));
    let access = first.access.as_ref().unwrap();
    assert_eq!((access.network_id.as_str(), access.tenant_id.as_str()), (&*made[0].0, "default"));
    assert_eq!((access.scope.as_str(), access.enabled), ("tenant_mesh", true));
    assert_ne!(access.id, first.id);
    assert_eq!((rows[1].name.as_str(), rows[1].address_family.as_str()), ("fd00:10::/64", "ipv6"));
    rows[0].apply_status = "failed".into();
    rows[0].apply_error = Some("no route".into());
    rows[0].applied_prefix = Some("192.168.10.0/24".into());
    let id = made[0].0.clone();
    share(&mut rows, "a", vec![pick(Some(&id), "192.168.10.0/24", false)]).unwrap();
    assert_eq!((rows[0].enabled, rows[0].apply_status.as_str()), (false, "checking"));
    assert_eq!((rows[0].apply_error.as_deref(), rows[0].applied_prefix.as_deref()), (None, None));
    assert!(rows[0].access.as_ref().unwrap().enabled);
}

#[test]
fn hosts_are_asked_about_networks_that_are_switched_on() {
    let mut rows = vec![];
    let asked = |rows: &Vec<NetworkRow>, item: &Selection| {
        host_question(rows, item, "a", "default")
            .map(|one| (one.interface_id, one.prefix, one.require_detected))
    };
    let on = pick(None, "192.168.10.7/24", true);
    let wanted = |interface: &str, detected: bool| {
        Some((Some(interface.to_owned()), "192.168.10.0/24".to_owned(), detected))
    };
    assert_eq!(asked(&rows, &on), wanted("eth0", true));
    assert_eq!(asked(&rows, &pick(None, "192.168.10.7/24", false)), None);
    assert_eq!(asked(&rows, &pick(None, "nowhere", true)), None);
    share(&mut rows, "a", vec![pick(None, "192.168.10.7/24", true)]).unwrap();
    assert_eq!(asked(&rows, &on), None);
    rows[0].enabled = false;
    rows[0].interface_id = Some("br0".into());
    assert_eq!(asked(&rows, &on), wanted("br0", true));
    rows[0].source = "manual".into();
    rows[0].interface_id = None;
    assert_eq!(asked(&rows, &on), wanted("eth0", false));
}

#[test]
fn changes_of_networks_are_recorded() {
    let change = |id: &str, changed: bool, enabled: bool| NetworkChange {
        id: id.into(),
        created: false,
        changed,
        enabled,
    };
    let changes = vec![change("a", true, true), change("b", false, true), change("c", true, false)];
    let events: Vec<(String, String, String, String)> = change_events(&changes, "default")
        .into_iter()
        .map(|one| (one.tenant_id, one.event_type, one.resource_type, one.resource_id))
        .collect();
    let wanted = |kind: &str, id: &str| {
        ("default".to_owned(), kind.to_owned(), "site_network".to_owned(), id.to_owned())
    };
    assert_eq!(events, [wanted("SUBNET_ENABLED", "a"), wanted("SUBNET_DISABLED", "c")]);
    let again = recheck_event("a", "default");
    assert_eq!(again.event_type, "SUBNET_RECHECK");
    assert_eq!(again.resource_type, "site_network");
    assert_eq!((again.resource_id.as_str(), again.tenant_id.as_str()), ("a", "default"));
}
