use nexo::domains::{load, Settings};
use nexo::protocol::TunnelDesiredState;
use nexo::services::{delete_services, detach_services, StoredService};
use nexo::tunnels::{
    address_at, check_generation, check_owner, delete_device, desired_tunnels, list_devices,
    prepare_tunnel, query_tunnels, require_service, validate_tunnel, DesiredRow, DeviceInfo,
    DomainKey, Owned, TunnelInput, TunnelKey, TunnelRow, TunnelState, TunnelStore, FIRST_PORT, GENERATION, LAST_PORT,
};

fn row(id: &str, protocol: &str) -> TunnelRow {
    TunnelRow {
        id: id.into(),
        tenant_id: "default".into(),
        device_id: None,
        device_name: None,
        name: id.into(),
        protocol: protocol.into(),
        local_address: "127.0.0.1".into(),
        local_port: 1234,
        public_port: None,
        hostname: None,
        enabled: true,
        apply_status: "pending".into(),
        apply_error: None,
        apply_revision: 1,
        public_domain: None,
        deleted: false,
    }
}

#[test]
fn tunnel_addresses_use_service_domains_and_preserve_ipv6_brackets() {
    let mut tcp = row("tcp", "tcp");
    tcp.public_port = Some(20000);
    let mut web = row("web", "https");
    web.local_port = 8080;
    web.hostname = Some("app".into());
    web.public_domain = Some("example.com".into());
    let tunnels = query_tunnels(&vec![tcp, web], "default", None, Some("[2001:db8::1]:8280"));
    assert_eq!(
        tunnels
            .iter()
            .find(|t| t.id == "tcp")
            .unwrap()
            .public_address
            .as_deref(),
        Some("[2001:db8::1]:20000")
    );
    assert_eq!(
        tunnels
            .iter()
            .find(|t| t.id == "web")
            .unwrap()
            .public_address
            .as_deref(),
        Some("https://app.example.com")
    );
}

#[test]
fn old_generation_is_rejected_with_chinese_message() {
    let error = check_generation(false, Some("legacy-v1")).expect_err("旧代际必须拒绝");
    assert!(error.to_string().contains("仅支持全新安装"));
    assert!(check_generation(false, None).is_err());
    assert!(check_generation(false, Some(GENERATION)).is_ok());
    assert!(check_generation(true, None).is_ok());
    assert_eq!(GENERATION, "tunnel-only-v1");
}

#[test]
fn lists_leave_other_workspaces_out() {
    let mut foreign = row("foreign", "tcp");
    foreign.tenant_id = "other".into();
    let rows = vec![row("a", "tcp"), foreign, row("b", "tcp")];
    let all = query_tunnels(&rows, "default", None, None);
    assert_eq!(all.len(), 2);
    assert!(all.iter().all(|t| t.tenant_id == "default"));
    assert_eq!(query_tunnels(&rows, "default", Some("foreign"), None).len(), 0);
    assert_eq!(query_tunnels(&rows, "default", Some("b"), None)[0].id, "b");
}

fn input(device: &str) -> TunnelInput {
    TunnelInput {
        device_id: Some(device.into()),
        name: "test".into(),
        protocol: "tcp".into(),
        local_address: "127.0.0.1".into(),
        local_port: 1234,
        public_port: Some(25000),
        hostname: None,
        enabled: Some(true),
        public_domain_id: None,
    }
}

fn owned(id: &str, tenant: &str) -> Owned {
    Owned { id: id.into(), tenant_id: tenant.into() }
}

fn used(id: &str, port: u16) -> TunnelKey {
    TunnelKey {
        id: id.into(),
        tenant_id: "default".into(),
        protocol: "tcp".into(),
        public_port: Some(port),
        address: None,
        deleted: false,
    }
}

fn store() -> TunnelStore {
    TunnelStore {
        devices: vec![owned("mine", "default"), owned("foreign", "other")],
        tunnels: vec![],
        domains: vec![],
    }
}

fn settings(verified: bool) -> Settings {
    let mut settings = load(None, "example.com").unwrap();
    settings.verification_status = if verified { "verified" } else { "pending" }.into();
    settings
}

#[test]
fn foreign_agent_is_rejected_and_port_conflicts_remain_visible() {
    let mut store = store();
    assert_eq!(
        prepare_tunnel(&store, "default", "new", &mut input("foreign"))
            .unwrap_err()
            .status,
        400
    );
    assert!(prepare_tunnel(&store, "default", "new", &mut input("mine")).is_ok());
    store.tunnels.push(used("taken", 25000));
    let conflict = prepare_tunnel(&store, "default", "new", &mut input("mine")).unwrap_err();
    assert_eq!(conflict.status, 409);
    let mut same = input("mine");
    assert!(prepare_tunnel(&store, "default", "taken", &mut same).is_ok());
    assert_eq!(same.public_port, Some(25000));
}

#[test]
fn the_first_free_port_is_taken() {
    let mut store = store();
    store.tunnels.push(used("a", FIRST_PORT));
    store.tunnels.push(used("b", FIRST_PORT + 1));
    let mut free = input("mine");
    free.public_port = None;
    prepare_tunnel(&store, "default", "new", &mut free).unwrap();
    assert_eq!(free.public_port, Some(FIRST_PORT + 2));
    for port in FIRST_PORT..=LAST_PORT {
        store.tunnels.push(used("many", port));
    }
    let mut none = input("mine");
    none.public_port = None;
    assert_eq!(
        prepare_tunnel(&store, "default", "new", &mut none).unwrap_err().status,
        400
    );
}

#[test]
fn web_services_need_a_domain_of_their_own() {
    let mut web = input("mine");
    web.protocol = "https".into();
    web.public_port = None;
    web.hostname = Some(" App ".into());
    web.public_domain_id = Some("d".into());
    let mut store = store();
    assert!(prepare_tunnel(&store, "default", "new", &mut web.clone()).is_err());
    store.domains.push(DomainKey {
        id: "d".into(),
        tenant_id: "default".into(),
        domain: "example.com".into(),
        https: true,
        settings: settings(true),
    });
    let result = prepare_tunnel(&store, "default", "new", &mut web);
    if let Err(error) = &result {
        panic!("{} {}", error.status, error.message);
    }
    assert_eq!(web.hostname.as_deref(), Some("app"));
}

#[test]
fn inputs_are_checked() {
    assert!(validate_tunnel(&input("mine")).is_ok());
    let mut bad = input("mine");
    bad.name = " ".into();
    assert_eq!(validate_tunnel(&bad).unwrap_err().status, 400);
    let mut bad = input("mine");
    bad.protocol = "udp".into();
    assert_eq!(validate_tunnel(&bad).unwrap_err().status, 400);
    let mut bad = input("mine");
    bad.local_port = 0;
    assert_eq!(validate_tunnel(&bad).unwrap_err().status, 400);
}

#[test]
fn states_of_a_service() {
    let mut state = TunnelState::created(None);
    assert!(state.enabled);
    assert_eq!(state.apply_status, "checking");
    let revision = state.apply_revision;
    state.changed(Some(false));
    assert_eq!(state.apply_revision, revision + 1);
    assert!(!state.enabled);
    state.toggled(true);
    assert_eq!(state.apply_revision, revision + 2);
    assert!(state.enabled);
    state.deleted();
    assert!(state.deleted);
}

#[test]
fn services_and_devices_belong_to_a_workspace() {
    let tunnels = vec![used("a", 20000)];
    assert!(require_service(&tunnels, "a", "default").is_ok());
    assert_eq!(require_service(&tunnels, "a", "other").unwrap_err().status, 404);
    let devices = vec![owned("mine", "default")];
    assert!(check_owner(&devices, "mine", "default"));
    assert!(!check_owner(&devices, "mine", "other"));
    assert!(delete_device(&devices, "mine", "default").is_ok());
    assert_eq!(delete_device(&devices, "mine", "other").unwrap_err().status, 404);
}

#[test]
fn only_services_of_the_device_are_desired() {
    let one = |id: &str, device: &str, deleted, enabled| DesiredRow {
        device_id: Some(device.into()),
        deleted,
        workspace_enabled: enabled,
        state: TunnelDesiredState {
            tunnel_id: id.into(),
            protocol: "tcp".into(),
            local_address: "127.0.0.1".into(),
            local_port: 80,
            hostname: None,
            origin_protocol: None,
            origin_tls_server_name: None,
            origin_tls_verification: None,
            origin_ca_pem: None,
            revision: 1,
            enabled: true,
        },
    };
    let rows = vec![
        one("a", "mine", false, true),
        one("b", "other", false, true),
        one("c", "mine", true, true),
    ];
    let desired = desired_tunnels(&rows, "mine");
    assert_eq!(desired.len(), 1);
    assert_eq!(desired[0].tunnel_id, "a");
}

#[test]
fn addresses_without_a_host() {
    assert_eq!(address_at("tcp", Some(20000), None, None, None), None);
    assert_eq!(address_at("http", None, Some("a"), Some("b.c"), None).as_deref(), Some("http://a.b.c"));
    assert_eq!(address_at("http", None, None, Some("b.c"), None), None);
}

#[test]
fn devices_are_listed_with_their_services_and_certificates() {
    let device = |id: &str, tenant: &str| DeviceInfo {
        id: id.into(),
        tenant_id: tenant.into(),
        name: id.into(),
        os: None,
        architecture: None,
        agent_version: Some("1".into()),
        status: "online".into(),
        enrolled_at: Some(1),
        last_seen_at: Some(2),
        certificate_pem: None,
        renewal_error: Some("offline".into()),
        next_retry_at: Some(3),
    };
    let rows = vec![device("a", "other"), device("b", "default"), device("c", "default")];
    let mut first = row("s1", "tcp");
    first.device_id = Some("b".into());
    let mut gone = row("s2", "tcp");
    gone.device_id = Some("b".into());
    gone.deleted = true;
    let list = list_devices(&rows, &vec![first, gone, row("s3", "tcp")], "default", 1_800_000_000);
    assert_eq!(list.len(), 2);
    assert_eq!((list[0].id.as_str(), list[0].tunnel_count), ("b", 1));
    assert_eq!((list[1].id.as_str(), list[1].tunnel_count), ("c", 0));
    assert_eq!(list[0].certificate.status, "unknown");
    assert_eq!(list[0].certificate.error.as_deref(), Some("offline"));
    assert_eq!(list[0].certificate.next_retry_at, Some(3));
    assert_eq!(list[0].certificate.renew_after, None);
}

#[test]
fn services_of_a_deleted_device_are_switched_off() {
    let mut state = TunnelState::created(Some(true));
    state.detached();
    assert!(!state.enabled && !state.deleted);
    assert_eq!((state.apply_status.as_str(), state.apply_revision), ("disabled", 2));
}

fn stored(id: &str, tenant: &str, device: Option<&str>) -> StoredService {
    StoredService {
        id: id.into(),
        tenant_id: tenant.into(),
        device_id: device.map(str::to_owned),
        reported: true,
        state: TunnelState::created(None),
    }
}

#[test]
fn services_of_a_deleted_device_stay_without_it() {
    let mut rows = vec![stored("a", "t", Some("d")), stored("b", "t", Some("e")), stored("c", "u", Some("d"))];
    detach_services(&mut rows, "d", "t");
    assert_eq!(rows[0].device_id, None);
    assert!(!rows[0].state.enabled);
    assert_eq!(rows[0].state.apply_status, "disabled");
    assert_eq!(rows[0].state.apply_revision, 2);
    assert!(rows[0].reported);
    assert!(!rows[0].state.deleted);
    for (row, device) in rows[1..].iter().zip(["e", "d"]) {
        assert_eq!(row.device_id.as_deref(), Some(device));
        assert!(row.state.enabled);
        assert_eq!(row.state.apply_revision, 1);
    }
}

#[test]
fn services_are_deleted_together_in_one_workspace() {
    let mut rows = vec![stored("a", "t", None), stored("b", "u", None), stored("c", "t", None)];
    let ids: Vec<String> = ["a", "b", "x", "a"].iter().map(|id| id.to_string()).collect();
    assert_eq!(delete_services(&mut rows, &ids, "t"), ["a", "a"]);
    assert!(rows[0].state.deleted);
    assert!(!rows[0].state.enabled);
    assert_eq!(rows[0].state.apply_status, "disabled");
    assert_eq!(rows[0].state.apply_revision, 3);
    for row in &rows[1..] {
        assert!(!row.state.deleted);
        assert_eq!(row.state.apply_revision, 1);
    }
}
