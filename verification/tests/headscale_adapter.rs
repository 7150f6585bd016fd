use nexo::headscale_adapter::{
    approve_routes_path, expire_node_path, find_node_by_pre_auth_key, find_user, fitting,
    node_path, node_route_report, plan_node_routes, plan_routes, summarize, truncate_error,
    urlencoding, AdapterError, ControlPlaneError, HeadscaleAdapter, HeadscaleControlPlane, HeadscaleHttpAdapter, HeadscaleNode,
    HeadscalePreAuthKey, HeadscaleUser, RouteAdvertisement, RouteApplyState, RouteWork,
};

#[test]
fn merge_keeps_non_nexo_routes_and_replaces_owned_routes() {
    let merged = HeadscaleHttpAdapter::merge_approved_routes(
        &["10.0.0.0/24".to_owned(), "192.168.10.0/24".to_owned()],
        &["192.168.20.0/24".to_owned()],
        &["192.168.10.0/24".to_owned()],
    );
    assert_eq!(merged, vec!["10.0.0.0/24", "192.168.20.0/24"]);
}

#[test]
fn pending_prefix_does_not_block_visible_approval_or_failed_withdrawal() {
    let desired = ["192.168.10.0/24".to_owned(), "2001:db8:20::/64".to_owned()];
    let owned = [
        "192.168.10.0/24".to_owned(),
        "2001:db8:20::/64".to_owned(),
        "2001:db8:dead::/64".to_owned(),
    ];
    let node = HeadscaleNode {
        id: "7".into(),
        available_routes: vec!["192.168.10.0/24".into()],
        approved_routes: vec!["10.0.0.0/24".into(), "2001:db8:dead::/64".into()],
        ..Default::default()
    };
    let plan = plan_node_routes(&node, &desired, &owned);
    assert_eq!(plan.routes, vec!["10.0.0.0/24", "192.168.10.0/24"]);
    let approved = HeadscaleNode {
        id: "7".into(),
        available_routes: vec!["192.168.10.0/24".into()],
        approved_routes: vec!["10.0.0.0/24".into(), "192.168.10.0/24".into()],
        subnet_routes: vec!["192.168.10.0/24".into()],
        ..Default::default()
    };
    let report = node_route_report("7", &desired, &plan.pending, &approved);
    assert!(!report.approved);
    assert!(!report.serving);
    assert_eq!(
        report.error_message.as_deref(),
        Some("Headscale 尚未发现路由 2001:db8:20::/64")
    );
    assert!(report
        .approved_routes
        .contains(&"192.168.10.0/24".to_owned()));
    assert!(report.subnet_routes.contains(&"192.168.10.0/24".to_owned()));
    assert!(!report
        .approved_routes
        .contains(&"2001:db8:dead::/64".to_owned()));
}

#[test]
fn adapter_requires_non_empty_bearer_key() {
    assert!(HeadscaleHttpAdapter::new("http://headscale", "").is_err());
    let adapter = HeadscaleHttpAdapter::new("http://headscale/", "secret").ok().unwrap();
    assert_eq!(adapter.base_url, "http://headscale");
}

#[test]
fn keys_are_replaced_but_never_by_nothing() {
    assert_eq!(
        HeadscaleHttpAdapter::new("///", "secret").err(),
        Some(AdapterError::Address)
    );
    assert_eq!(
        HeadscaleHttpAdapter::new("http://h", " ").err(),
        Some(AdapterError::ApiKey)
    );
    let mut adapter = HeadscaleHttpAdapter::new_unconfigured("http://h").ok().unwrap();
    assert!(adapter.request("/api/v1/health").bearer.is_none());
    assert_eq!(adapter.replace_api_key(" "), Err(AdapterError::ApiKey));
    adapter.replace_api_key("key").unwrap();
    let request = adapter.request("/api/v1/health");
    assert_eq!(request.url, "http://h/api/v1/health");
    assert_eq!(request.bearer.as_deref(), Some("key"));
}

#[test]
fn delete_node_uses_official_delete_endpoint() {
    assert_eq!(node_path("42"), "/api/v1/node/42");
    assert_eq!(approve_routes_path("7"), "/api/v1/node/7/approve_routes");
    assert_eq!(expire_node_path("7"), "/api/v1/node/7/expire");
    assert_eq!(urlencoding("../a b~ü"), "..%2Fa%20b%7E%C3%BC");
}

fn route(device: &str, prefix: &str, node: Option<&str>) -> RouteAdvertisement {
    RouteAdvertisement {
        device_id: device.into(),
        network_id: "network-a".into(),
        prefix: prefix.into(),
        headscale_node_id: node.map(str::to_owned),
    }
}

#[test]
fn unconfigured_adapter_never_claims_route_ready() {
    let report = HeadscaleAdapter
        .reconcile_routes(&[route("device-a", "192.168.10.0/24", None)])
        .unwrap();
    assert_eq!(report.state, RouteApplyState::Pending);
    let none = HeadscaleAdapter.reconcile_routes(&[]).unwrap();
    assert_eq!(none.state, RouteApplyState::Ready);
}

#[test]
fn routes_are_grouped_by_node() {
    match plan_routes(&[route("a", "10.1.0.0/16", Some("7")), route("b", "10.2.0.0/16", None)]) {
        RouteWork::Report(report) => {
            assert_eq!(report.state, RouteApplyState::Pending);
            assert_eq!(report.message, "设备 b 尚未绑定组网身份");
        }
        RouteWork::Nodes(_) => panic!(),
    }
    match plan_routes(&[
        route("a", "10.1.0.0/16", Some("9")),
        route("b", "10.2.0.0/16", Some("10")),
        route("a", "10.3.0.0/16", Some("9")),
    ]) {
        RouteWork::Nodes(nodes) => {
            assert_eq!(nodes.len(), 2);
            assert_eq!(nodes[0].node_id, "10");
            assert_eq!(nodes[1].node_id, "9");
            assert_eq!(nodes[1].prefixes, vec!["10.1.0.0/16", "10.3.0.0/16"]);
        }
        RouteWork::Report(_) => panic!(),
    }
    assert!(matches!(
        plan_routes(&[]),
        RouteWork::Report(report) if report.state == RouteApplyState::Ready
    ));
}

#[test]
fn all_nodes_have_to_serve() {
    let approved = HeadscaleNode {
        approved_routes: vec!["10.1.0.0/16".into()],
        subnet_routes: vec!["10.1.0.0/16".into()],
        ..Default::default()
    };
    let desired = ["10.1.0.0/16".to_owned()];
    let ready = node_route_report("7", &desired, &vec![], &approved);
    assert!(ready.approved && ready.serving && ready.error_message.is_none());
    assert_eq!(summarize(vec![ready.clone()]).state, RouteApplyState::Ready);
    let mut waiting = ready.clone();
    waiting.serving = false;
    assert_eq!(summarize(vec![ready, waiting]).state, RouteApplyState::Pending);
}

#[test]
fn users_and_nodes_are_found() {
    let users = vec![HeadscaleUser { id: "1".into(), name: "nexo".into() }];
    assert_eq!(find_user(&users, "nexo").unwrap().id, "1");
    assert!(find_user(&users, "other").is_none());
    let nodes = vec![
        HeadscaleNode::default(),
        HeadscaleNode {
            pre_auth_key: Some(HeadscalePreAuthKey { id: "k".into(), ..Default::default() }),
            ..Default::default()
        },
    ];
    assert_eq!(find_node_by_pre_auth_key(&nodes, "k"), Some(1));
    assert_eq!(find_node_by_pre_auth_key(&nodes, "x"), None);
}

#[test]
fn long_refusals_are_cut() {
    assert_eq!(truncate_error("  short "), "short");
    let long = "a".repeat(600);
    assert_eq!(truncate_error(&long), format!("{}…", "a".repeat(512)));
    assert_eq!(fitting("错误", 3), Some(1));
    assert_eq!(fitting("错误", 4), None);
}

#[test]
fn what_is_not_set_up_says_so() {
    let plane = HeadscaleAdapter;
    let told = |error: ControlPlaneError| error.message();
    assert_eq!(told(plane.health().unwrap_err()), "Headscale 健康 API 尚未配置");
    let routes = plane.reconcile_node_routes("7", &[], &[]);
    assert_eq!(told(routes.unwrap_err()), "Headscale 节点路由 API 尚未配置");
    assert_eq!(told(plane.list_nodes().unwrap_err()), "Headscale 节点 API 尚未配置");
    let node = plane.find_node_by_pre_auth_key("1");
    assert_eq!(told(node.unwrap_err()), "Headscale 节点 API 尚未配置");
    assert_eq!(told(plane.ensure_user("nexo").unwrap_err()), "Headscale 用户 API 尚未配置");
    let key = "Headscale Pre-auth Key API 尚未配置";
    assert_eq!(told(plane.create_pre_auth_key("1", "never").unwrap_err()), key);
    assert_eq!(told(plane.list_pre_auth_keys().unwrap_err()), key);
    assert_eq!(told(plane.expire_pre_auth_key("1").unwrap_err()), key);
    let expiry = plane.expire_node("7", "now");
    assert_eq!(told(expiry.unwrap_err()), "Headscale 节点停用 API 尚未配置");
    assert_eq!(told(plane.delete_node("7").unwrap_err()), "Headscale 节点删除 API 尚未配置");
    assert_eq!(told(plane.set_policy("{}").unwrap_err()), "Headscale Policy API 尚未配置");
    assert_eq!(told(ControlPlaneError::Failed("timeout".into())), "timeout");
}
