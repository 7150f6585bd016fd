//! The boundary to the control plane of the mesh: which requests are made, which routes of a node
//! are approved, and what is reported.
//!
//! A node's routes are approved as a whole list. Routes that belong to others are never touched, and
//! a route that its node has not announced yet keeps no other route waiting.
use vstd::prelude::*;

use crate::order;
use crate::order::{insert_ordered, sort_unique};
use crate::picked;
use crate::text;
use crate::text::{copy_list, holds, join2, join3, same, trim, trim_end};

verus! {

/// A network that a device is to publish.
#[derive(Debug, Clone)]
pub struct RouteAdvertisement {
    pub device_id: String,
    pub network_id: String,
    pub prefix: String,
    /// The node of the device; without one nothing can be ready.
    pub headscale_node_id: Option<String>,
}

/// How far the routes are.
#[derive(Debug, Clone, Copy, PartialEq, Eq, Structural)]
pub enum RouteApplyState {
    Ready,
    Pending,
    Failed,
}

/// How far the routes are, for all nodes.
#[derive(Debug)]
pub struct RouteApplyReport {
    pub state: RouteApplyState,
    pub message: String,
    pub node_reports: Vec<NodeRouteReport>,
}

/// How far the routes of one node are.
#[derive(Debug, Clone)]
pub struct NodeRouteReport {
    pub node_id: String,
    pub available_routes: Vec<String>,
    pub approved_routes: Vec<String>,
    pub subnet_routes: Vec<String>,
    pub approved: bool,
    pub serving: bool,
    pub error_message: Option<String>,
}

/// What is read of a node.
#[derive(Debug, Clone, Default)]
pub struct HeadscaleNode {
    pub id: String,
    pub name: String,
    pub online: bool,
    pub ip_addresses: Vec<String>,
    pub approved_routes: Vec<String>,
    pub available_routes: Vec<String>,
    pub subnet_routes: Vec<String>,
    pub pre_auth_key: Option<HeadscalePreAuthKey>,
}

/// A key with which one device joins the mesh.
#[derive(Debug, Clone, Default)]
pub struct HeadscalePreAuthKey {
    pub id: String,
    pub key: Option<String>,
    pub used: bool,
    pub expiration: Option<String>,
}

/// A user of the mesh.
#[derive(Debug, Clone, Default)]
pub struct HeadscaleUser {
    pub id: String,
    pub name: String,
}

/// Why no adapter is made or its key is not replaced.
#[derive(Debug, Clone, Copy, PartialEq, Eq, Structural)]
pub enum AdapterError {
    /// There is no address.
    Address,
    /// There is no key.
    ApiKey,
}

impl AdapterError {
    pub open spec fn text(self) -> Seq<char> {
        match self {
            AdapterError::Address => "Headscale 地址不能为空"@,
            AdapterError::ApiKey => "Headscale API Key 不能为空"@,
        }
    }

    pub fn message(&self) -> (r: String)
        ensures
            r@ == self.text(),
    {
        match self {
            AdapterError::Address => "Headscale 地址不能为空".to_owned(),
            AdapterError::ApiKey => "Headscale API Key 不能为空".to_owned(),
        }
    }
}

/// The address and the key of the control plane.
pub struct HeadscaleHttpAdapter {
    pub base_url: String,
    pub api_key: String,
}

/// A request to the control plane.
pub struct RequestHead {
    pub url: String,
    /// The key, where there is one.
    pub bearer: Option<String>,
}

/// Whether a key is there.
pub open spec fn has_key(key: Seq<char>) -> bool {
    text::trimmed(key).len() > 0
}

/// Why no adapter is made, if that is so.
pub open spec fn adapter_refusal(base_url: Seq<char>, api_key: Option<Seq<char>>) -> Option<
    AdapterError,
> {
    if text::trimmed_end(base_url, '/').len() == 0 {
        Some(AdapterError::Address)
    } else if api_key matches Some(key) && !has_key(key) {
        Some(AdapterError::ApiKey)
    } else {
        None
    }
}

impl HeadscaleHttpAdapter {
    /// An adapter with its key.
    pub fn new(base_url: &str, api_key: &str) -> (r: Result<HeadscaleHttpAdapter, AdapterError>)
        ensures
            match r {
                Ok(adapter) => adapter_refusal(base_url@, Some(api_key@)) is None
                    && adapter.base_url@ == text::trimmed_end(base_url@, '/') && adapter.api_key@
                    == api_key@,
                Err(e) => adapter_refusal(base_url@, Some(api_key@)) == Some(e),
            },
    {
        let base: String = trim_end(base_url, '/');
        if base.as_str().is_empty() {
            return Err(AdapterError::Address);
        }
        if trim(api_key).as_str().is_empty() {
            return Err(AdapterError::ApiKey);
        }
        Ok(HeadscaleHttpAdapter { base_url: base, api_key: api_key.to_owned() })
    }

    /// An adapter that gets its key later.
    pub fn new_unconfigured(base_url: &str) -> (r: Result<HeadscaleHttpAdapter, AdapterError>)
        ensures
            match r {
                Ok(adapter) => adapter_refusal(base_url@, None) is None && adapter.base_url@
                    == text::trimmed_end(base_url@, '/') && adapter.api_key@.len() == 0,
                Err(e) => adapter_refusal(base_url@, None) == Some(e),
            },
    {
        let base: String = trim_end(base_url, '/');
        if base.as_str().is_empty() {
            return Err(AdapterError::Address);
        }
        Ok(HeadscaleHttpAdapter { base_url: base, api_key: String::new() })
    }

    /// Replaces the key; an empty one is refused and the old one stays.
    pub fn replace_api_key(&mut self, api_key: &str) -> (r: Result<(), AdapterError>)
        ensures
            final(self).base_url == old(self).base_url,
            match r {
                Ok(_) => has_key(api_key@) && final(self).api_key@ == api_key@,
                Err(e) => !has_key(api_key@) && e == AdapterError::ApiKey && final(self).api_key
                    == old(self).api_key,
            },
    {
        if trim(api_key).as_str().is_empty() {
            return Err(AdapterError::ApiKey);
        }
        self.api_key = api_key.to_owned();
        Ok(())
    }

    /// The head of a request: the key goes with it where there is one.
    pub fn request(&self, path: &str) -> (r: RequestHead)
        ensures
            r.url@ == self.base_url@ + path@,
            text::opt(r.bearer) == (if has_key(self.api_key@) {
                Some(self.api_key@)
            } else {
                None
            }),
    {
        RequestHead {
            url: join2(self.base_url.as_str(), path),
            bearer: if trim(self.api_key.as_str()).as_str().is_empty() {
                None
            } else {
                Some(self.api_key.clone())
            },
        }
    }

    /// The routes of a node after those that belong here were replaced: those that belong to others
    /// stay, those that are wanted are there, and no other.
    pub fn merge_approved_routes(
        current: &[String],
        desired: &[String],
        nexo_owned_prefixes: &[String],
    ) -> (r: Vec<String>)
        ensures
            is_merged(
                text::views(r@),
                text::views(current@),
                text::views(desired@),
                text::views(nexo_owned_prefixes@),
            ),
    {
        let mut merged: Vec<String> = Vec::new();
        let ghost before = text::views(current@);
        let ghost wanted = text::views(desired@);
        let ghost owned = text::views(nexo_owned_prefixes@);
        let mut i: usize = 0;
        while i < current.len()
            invariant
                i <= current@.len(),
                before == text::views(current@),
                owned == text::views(nexo_owned_prefixes@),
                order::ordered(text::views(merged@)),
                forall|t: Seq<char>| #[trigger]
                    text::views(merged@).contains(t) <==> before.take(i as int).contains(t)
                        && !owned.contains(t),
            decreases current@.len() - i,
        {
            let ghost held = text::views(merged@);
            let ghost one = current@[i as int]@;
            assert(before[i as int] == one);
            if !listed(nexo_owned_prefixes, current[i].as_str()) {
                insert_ordered(&mut merged, current[i].clone());
            }
            proof {
                lemma_take_contains(before, i as int);
            }
            i = i + 1;
        }
        assert(before.take(before.len() as int) =~= before);
        i = 0;
        while i < desired.len()
            invariant
                i <= desired@.len(),
                wanted == text::views(desired@),
                order::ordered(text::views(merged@)),
                forall|t: Seq<char>| #[trigger]
                    text::views(merged@).contains(t) <==> (before.contains(t) && !owned.contains(t))
                        || wanted.take(i as int).contains(t),
            decreases desired@.len() - i,
        {
            let ghost one = desired@[i as int]@;
            assert(wanted[i as int] == one);
            insert_ordered(&mut merged, desired[i].clone());
            proof {
                lemma_take_contains(wanted, i as int);
            }
            i = i + 1;
        }
        assert(wanted.take(wanted.len() as int) =~= wanted);
        merged
    }
}

proof fn lemma_take_contains(list: Seq<Seq<char>>, i: int)
    requires
        0 <= i < list.len(),
    ensures
        forall|t: Seq<char>| #[trigger]
            list.take(i + 1).contains(t) <==> list.take(i).contains(t) || t == list[i],
{
    let head = list.take(i);
    let longer = list.take(i + 1);
    assert forall|t: Seq<char>| #[trigger] longer.contains(t) <==> head.contains(t) || t
        == list[i] by {
        if longer.contains(t) {
            let k = choose|k: int| 0 <= k < longer.len() && longer[k] == t;
            if k < i {
                assert(head[k] == t);
            }
        }
        if head.contains(t) {
            let k = choose|k: int| 0 <= k < head.len() && head[k] == t;
            assert(longer[k] == t);
        }
        assert(longer[i] == list[i]);
    }
}

fn listed(list: &[String], s: &str) -> (r: bool)
    ensures
        r == text::views(list@).contains(s@),
{
    let ghost all = text::views(list@);
    let mut i: usize = 0;
    while i < list.len()
        invariant
            i <= list@.len(),
            all == text::views(list@),
            forall|j: int| 0 <= j < i ==> (#[trigger] all[j]) != s@,
        decreases list@.len() - i,
    {
        assert(all[i as int] == list@[i as int]@);
        if same(list[i].as_str(), s) {
            return true;
        }
        i = i + 1;
    }
    false
}

/// Whether a list of routes is the merged one: in dictionary order and without repetition.
pub open spec fn is_merged(
    merged: Seq<Seq<char>>,
    current: Seq<Seq<char>>,
    desired: Seq<Seq<char>>,
    owned: Seq<Seq<char>>,
) -> bool {
    order::ordered(merged) && forall|t: Seq<char>| #[trigger]
        merged.contains(t) <==> (current.contains(t) && !owned.contains(t)) || desired.contains(t)
}

/// There is one merged list.
pub proof fn merged_routes_are_determined(
    a: Seq<Seq<char>>,
    b: Seq<Seq<char>>,
    current: Seq<Seq<char>>,
    desired: Seq<Seq<char>>,
    owned: Seq<Seq<char>>,
)
    requires
        is_merged(a, current, desired, owned),
        is_merged(b, current, desired, owned),
    ensures
        a == b,
{
    assert forall|t: Seq<char>| a.contains(t) <==> b.contains(t) by {
        assert(b.contains(t) <==> (current.contains(t) && !owned.contains(t)) || desired.contains(
            t,
        ));
    }
    order::lemma_ordered_unique(a, b);
}

/// Routes of others are never withdrawn, and routes that belong here are withdrawn as soon as they
/// are no longer wanted.
pub proof fn merging_touches_own_routes_only(
    merged: Seq<Seq<char>>,
    current: Seq<Seq<char>>,
    desired: Seq<Seq<char>>,
    owned: Seq<Seq<char>>,
    route: Seq<char>,
)
    requires
        is_merged(merged, current, desired, owned),
    ensures
        current.contains(route) && !owned.contains(route) ==> merged.contains(route),
        owned.contains(route) && !desired.contains(route) ==> !merged.contains(route),
        merged.contains(route) ==> current.contains(route) || desired.contains(route),
{
    assert(merged.contains(route) <==> (current.contains(route) && !owned.contains(route))
        || desired.contains(route));
}

/// Whether a node has announced a route, or has it approved or in service.
pub open spec fn visible(node: HeadscaleNode, route: Seq<char>) -> bool {
    text::views(node.available_routes@).contains(route) || text::views(
        node.approved_routes@,
    ).contains(route) || text::views(node.subnet_routes@).contains(route)
}

/// Those of the first `n` routes that a node shows, or, where `shown` is false, does not show.
pub open spec fn part(node: HeadscaleNode, routes: Seq<Seq<char>>, shown: bool, n: int) -> Seq<
    Seq<char>,
>
    decreases n,
{
    if n <= 0 {
        Seq::empty()
    } else if visible(node, routes[n - 1]) == shown {
        part(node, routes, shown, n - 1).push(routes[n - 1])
    } else {
        part(node, routes, shown, n - 1)
    }
}

/// The wanted routes that a node shows, or, where `shown` is false, does not show, in dictionary
/// order.
pub open spec fn wanted_part(node: HeadscaleNode, desired: Seq<Seq<char>>, shown: bool) -> Seq<
    Seq<char>,
> {
    let sorted = order::sorted_set(desired);
    part(node, sorted, shown, sorted.len() as int)
}

/// What is to be done about the routes of a node.
#[derive(Debug)]
pub struct NodePlan {
    /// The list to approve.
    pub routes: Vec<String>,
    /// The wanted routes that the node has not announced.
    pub pending: Vec<String>,
}

/// Decides which routes of a node are approved: the wanted ones that the node shows, and those of
/// others. The rest of the wanted ones waits.
pub fn plan_node_routes(
    node: &HeadscaleNode,
    desired_prefixes: &[String],
    nexo_owned_prefixes: &[String],
) -> (r: NodePlan)
    ensures
        is_merged(
            text::views(r.routes@),
            text::views(node.approved_routes@),
            wanted_part(*node, text::views(desired_prefixes@), true),
            text::views(nexo_owned_prefixes@),
        ),
        text::views(r.pending@) == wanted_part(*node, text::views(desired_prefixes@), false),
{
    let ghost wanted = text::views(desired_prefixes@);
    let given: Vec<String> = copy_slice(desired_prefixes);
    let sorted: Vec<String> = sort_unique(&given);
    let ghost all = text::views(sorted@);
    proof {
        assert(text::views(given@) =~= wanted);
        assert(order::is_sorted_set(all, wanted));
        order::lemma_sorted_set(all, wanted);
    }
    let mut shown: Vec<String> = Vec::new();
    let mut pending: Vec<String> = Vec::new();
    let mut i: usize = 0;
    assert(text::views(shown@) =~= part(*node, all, true, 0));
    assert(text::views(pending@) =~= part(*node, all, false, 0));
    while i < sorted.len()
        invariant
            i <= sorted@.len(),
            all == text::views(sorted@),
            text::views(shown@) == part(*node, all, true, i as int),
            text::views(pending@) == part(*node, all, false, i as int),
        decreases sorted@.len() - i,
    {
        assert(all[i as int] == sorted@[i as int]@);
        let route: &str = sorted[i].as_str();
        if holds(&node.available_routes, route) || holds(&node.approved_routes, route) || holds(
            &node.subnet_routes,
            route,
        ) {
            let ghost before = text::views(shown@);
            shown.push(sorted[i].clone());
            assert(text::views(shown@) =~= before.push(all[i as int]));
        } else {
            let ghost before = text::views(pending@);
            pending.push(sorted[i].clone());
            assert(text::views(pending@) =~= before.push(all[i as int]));
        }
        i = i + 1;
    }
    let routes: Vec<String> = HeadscaleHttpAdapter::merge_approved_routes(
        node.approved_routes.as_slice(),
        shown.as_slice(),
        nexo_owned_prefixes,
    );
    NodePlan { routes, pending }
}

fn copy_slice(list: &[String]) -> (r: Vec<String>)
    ensures
        text::views(r@) == text::views(list@),
{
    let mut copy: Vec<String> = Vec::new();
    let mut i: usize = 0;
    while i < list.len()
        invariant
            i <= list@.len(),
            copy@.len() == i,
            forall|j: int| 0 <= j < i ==> (#[trigger] copy@[j])@ == list@[j]@,
        decreases list@.len() - i,
    {
        copy.push(list[i].clone());
        i = i + 1;
    }
    assert(text::views(copy@) =~= text::views(list@));
    copy
}

/// Whether each wanted route is in a list.
pub open spec fn all_in(desired: Seq<Seq<char>>, list: Seq<Seq<char>>) -> bool {
    forall|t: Seq<char>| desired.contains(t) ==> #[trigger] list.contains(t)
}

fn check_all(desired: &[String], list: &Vec<String>) -> (r: bool)
    ensures
        r == all_in(text::views(desired@), text::views(list@)),
{
    let ghost all = text::views(desired@);
    let mut i: usize = 0;
    while i < desired.len()
        invariant
            i <= desired@.len(),
            all == text::views(desired@),
            forall|j: int| 0 <= j < i ==> text::views(list@).contains(#[trigger] all[j]),
        decreases desired@.len() - i,
    {
        assert(all[i as int] == desired@[i as int]@);
        if !holds(list, desired[i].as_str()) {
            assert(all.contains(all[i as int]));
            return false;
        }
        i = i + 1;
    }
    assert forall|t: Seq<char>| all.contains(t) implies #[trigger] text::views(list@).contains(
        t,
    ) by {
        let k = choose|k: int| 0 <= k < all.len() && all[k] == t;
        assert(text::views(list@).contains(all[k]));
    }
    true
}

/// Reports on a node after its routes were approved.
pub fn node_route_report(
    node_id: &str,
    desired_prefixes: &[String],
    pending: &Vec<String>,
    approved_node: &HeadscaleNode,
) -> (r: NodeRouteReport)
    ensures
        r.node_id@ == node_id@,
        text::views(r.available_routes@) == text::views(approved_node.available_routes@),
        text::views(r.approved_routes@) == text::views(approved_node.approved_routes@),
        text::views(r.subnet_routes@) == text::views(approved_node.subnet_routes@),
        r.approved == (pending@.len() == 0 && all_in(
            text::views(desired_prefixes@),
            text::views(approved_node.approved_routes@),
        )),
        r.serving == (pending@.len() == 0 && all_in(
            text::views(desired_prefixes@),
            text::views(approved_node.subnet_routes@),
        )),
        text::opt(r.error_message) == (if pending@.len() > 0 {
            Some("Headscale 尚未发现路由 "@ + pending@[0]@)
        } else {
            None
        }),
{
    let approved: bool = pending.len() == 0 && check_all(
        desired_prefixes,
        &approved_node.approved_routes,
    );
    let serving: bool = pending.len() == 0 && check_all(
        desired_prefixes,
        &approved_node.subnet_routes,
    );
    NodeRouteReport {
        node_id: node_id.to_owned(),
        available_routes: copy_list(&approved_node.available_routes),
        approved_routes: copy_list(&approved_node.approved_routes),
        subnet_routes: copy_list(&approved_node.subnet_routes),
        approved,
        serving,
        error_message: if pending.len() > 0 {
            Some(join2("Headscale 尚未发现路由 ", pending[0].as_str()))
        } else {
            None
        },
    }
}

proof fn lemma_part(node: HeadscaleNode, routes: Seq<Seq<char>>, shown: bool, n: int, t: Seq<char>)
    requires
        0 <= n <= routes.len(),
    ensures
        part(node, routes, shown, n).contains(t) <==> routes.take(n).contains(t) && visible(node, t)
            == shown,
    decreases n,
{
    if n > 0 {
        lemma_part(node, routes, shown, n - 1, t);
        let before = part(node, routes, shown, n - 1);
        let after = part(node, routes, shown, n);
        assert(routes.take(n) =~= routes.take(n - 1).push(routes[n - 1]));
        if before.contains(t) {
            let k = choose|k: int| 0 <= k < before.len() && before[k] == t;
            assert(after[k] == t);
        }
        if after.contains(t) {
            let k = choose|k: int| 0 <= k < after.len() && after[k] == t;
            if k < before.len() {
                assert(before[k] == t);
            } else {
                assert(routes.take(n)[n - 1] == t);
            }
        }
        let head = routes.take(n - 1);
        let longer = routes.take(n);
        if head.contains(t) {
            let k = choose|k: int| 0 <= k < head.len() && head[k] == t;
            assert(longer[k] == t);
        }
        if longer.contains(t) && visible(node, t) == shown {
            let k = choose|k: int| 0 <= k < longer.len() && longer[k] == t;
            if k == n - 1 {
                assert(after[after.len() - 1] == t);
            } else {
                assert(head[k] == t);
            }
        }
        assert(routes.take(n)[n - 1] == routes[n - 1]);
    }
}

/// A route that its node has not announced keeps no other one waiting: each wanted route that the
/// node shows is approved, and each one that it does not show waits.
pub proof fn waiting_routes_block_no_other(
    node: HeadscaleNode,
    sorted: Seq<Seq<char>>,
    desired: Seq<Seq<char>>,
    owned: Seq<Seq<char>>,
    merged: Seq<Seq<char>>,
    route: Seq<char>,
)
    requires
        order::is_sorted_set(sorted, desired),
        is_merged(
            merged,
            text::views(node.approved_routes@),
            wanted_part(node, desired, true),
            owned,
        ),
        desired.contains(route),
    ensures
        visible(node, route) ==> merged.contains(route),
        !visible(node, route) ==> wanted_part(node, desired, false).contains(route),
{
    order::lemma_sorted_set(sorted, desired);
    assert(sorted.contains(route));
    assert(sorted.take(sorted.len() as int) =~= sorted);
    lemma_part(node, sorted, true, sorted.len() as int, route);
    lemma_part(node, sorted, false, sorted.len() as int, route);
    assert(merged.contains(route) <==> (text::views(node.approved_routes@).contains(route)
        && !owned.contains(route)) || wanted_part(node, desired, true).contains(route));
}

/// What is to be done about the networks of some devices.
#[derive(Debug)]
pub enum RouteWork {
    /// Nothing: the report is there already.
    Report(RouteApplyReport),
    /// The routes of each node, in the order of the nodes.
    Nodes(Vec<NodeRoutes>),
}

/// The routes of a node.
#[derive(Debug)]
pub struct NodeRoutes {
    pub node_id: String,
    pub prefixes: Vec<String>,
}

/// The nodes of the first `n` networks.
pub open spec fn node_ids(routes: Seq<RouteAdvertisement>, n: int) -> Seq<Seq<char>> {
    Seq::new(n as nat, |i: int| routes[i].headscale_node_id->0@)
}

/// Those of the first `n` networks that a node publishes.
pub open spec fn prefixes_of(routes: Seq<RouteAdvertisement>, node: Seq<char>, n: int) -> Seq<
    Seq<char>,
>
    decreases n,
{
    if n <= 0 {
        Seq::empty()
    } else if text::opt(routes[n - 1].headscale_node_id) == Some(node) {
        prefixes_of(routes, node, n - 1).push(routes[n - 1].prefix@)
    } else {
        prefixes_of(routes, node, n - 1)
    }
}

/// The position of the first network from position `i` on whose device has no node.
pub open spec fn unbound_from(routes: Seq<RouteAdvertisement>, i: int) -> Option<int>
    decreases routes.len() - i,
{
    if i < 0 || i >= routes.len() {
        None
    } else if routes[i].headscale_node_id is None {
        Some(i)
    } else {
        unbound_from(routes, i + 1)
    }
}

/// Whether groups are those of some networks: one for each node, in dictionary order, each with the
/// networks of its node in their order.
pub open spec fn is_grouped(groups: Seq<NodeRoutes>, routes: Seq<RouteAdvertisement>) -> bool {
    let nodes = order::sorted_set(node_ids(routes, routes.len() as int));
    groups.len() == nodes.len() && forall|i: int|
        0 <= i < groups.len() ==> (#[trigger] groups[i]).node_id@ == nodes[i] && text::views(
            groups[i].prefixes@,
        ) == prefixes_of(routes, nodes[i], routes.len() as int)
}

fn group_routes(routes: &[RouteAdvertisement]) -> (r: Vec<NodeRoutes>)
    requires
        forall|i: int| 0 <= i < routes@.len() ==> (#[trigger] routes@[i]).headscale_node_id is Some,
    ensures
        is_grouped(r@, routes@),
{
    let mut ids: Vec<String> = Vec::new();
    let ghost count = routes@.len() as int;
    let mut i: usize = 0;
    assert(text::views(ids@) =~= node_ids(routes@, 0));
    while i < routes.len()
        invariant
            i <= routes@.len(),
            forall|i: int|
                0 <= i < routes@.len() ==> (#[trigger] routes@[i]).headscale_node_id is Some,
            text::views(ids@) == node_ids(routes@, i as int),
        decreases routes@.len() - i,
    {
        let ghost before = text::views(ids@);
        if let Some(id) = &routes[i].headscale_node_id {
            ids.push(id.clone());
        }
        assert(text::views(ids@) =~= before.push(routes@[i as int].headscale_node_id->0@));
        assert(node_ids(routes@, i + 1) =~= before.push(routes@[i as int].headscale_node_id->0@));
        i = i + 1;
    }
    let nodes: Vec<String> = sort_unique(&ids);
    let ghost all = text::views(nodes@);
    proof {
        assert(order::is_sorted_set(all, node_ids(routes@, count)));
        order::lemma_sorted_set(all, node_ids(routes@, count));
    }
    let mut groups: Vec<NodeRoutes> = Vec::new();
    i = 0;
    while i < nodes.len()
        invariant
            i <= nodes@.len(),
            count == routes@.len(),
            all == text::views(nodes@),
            groups@.len() == i,
            forall|j: int|
                0 <= j < i ==> (#[trigger] groups@[j]).node_id@ == all[j] && text::views(
                    groups@[j].prefixes@,
                ) == prefixes_of(routes@, all[j], count),
        decreases nodes@.len() - i,
    {
        assert(all[i as int] == nodes@[i as int]@);
        let node: &str = nodes[i].as_str();
        let mut prefixes: Vec<String> = Vec::new();
        let mut j: usize = 0;
        assert(text::views(prefixes@) =~= prefixes_of(routes@, node@, 0));
        while j < routes.len()
            invariant
                j <= routes@.len(),
                text::views(prefixes@) == prefixes_of(routes@, node@, j as int),
            decreases routes@.len() - j,
        {
            let ghost before = text::views(prefixes@);
            if text::is_text(&routes[j].headscale_node_id, node) {
                prefixes.push(routes[j].prefix.clone());
                assert(text::views(prefixes@) =~= before.push(routes@[j as int].prefix@));
            }
            j = j + 1;
        }
        groups.push(NodeRoutes { node_id: nodes[i].clone(), prefixes });
        i = i + 1;
    }
    groups
}

/// Decides what is to be done about the networks of some devices: nothing where there is none or
/// where a device has no node yet.
pub fn plan_routes(routes: &[RouteAdvertisement]) -> (r: RouteWork)
    ensures
        match r {
            RouteWork::Report(report) => report.node_reports@.len() == 0 && (if routes@.len()
                == 0 {
                report.state == RouteApplyState::Ready && report.message@
                    == "没有需要申请的共享网络"@
            } else {
                unbound_from(routes@, 0) matches Some(k) && report.state
                    == RouteApplyState::Pending && report.message@ == "设备 "@
                    + routes@[k].device_id@ + " 尚未绑定组网身份"@
            }),
            RouteWork::Nodes(groups) => routes@.len() > 0 && unbound_from(routes@, 0) is None
                && is_grouped(groups@, routes@),
        },
{
    if routes.len() == 0 {
        return RouteWork::Report(
            RouteApplyReport {
                state: RouteApplyState::Ready,
                message: "没有需要申请的共享网络".to_owned(),
                node_reports: Vec::new(),
            },
        );
    }
    let mut i: usize = 0;
    while i < routes.len()
        invariant
            i <= routes@.len(),
            routes@.len() > 0,
            unbound_from(routes@, 0) == unbound_from(routes@, i as int),
            forall|j: int| 0 <= j < i ==> (#[trigger] routes@[j]).headscale_node_id is Some,
        decreases routes@.len() - i,
    {
        if routes[i].headscale_node_id.is_none() {
            return RouteWork::Report(
                RouteApplyReport {
                    state: RouteApplyState::Pending,
                    message: join3("设备 ", routes[i].device_id.as_str(), " 尚未绑定组网身份"),
                    node_reports: Vec::new(),
                },
            );
        }
        i = i + 1;
    }
    RouteWork::Nodes(group_routes(routes))
}

/// Whether all nodes have their routes approved and in service.
pub open spec fn all_ready(reports: Seq<NodeRouteReport>) -> bool {
    forall|i: int|
        0 <= i < reports.len() ==> (#[trigger] reports[i]).approved && reports[i].serving
}

/// Reports on all nodes.
pub fn summarize(reports: Vec<NodeRouteReport>) -> (r: RouteApplyReport)
    ensures
        r.node_reports == reports,
        r.state == (if all_ready(reports@) {
            RouteApplyState::Ready
        } else {
            RouteApplyState::Pending
        }),
        r.message@ == (if all_ready(reports@) {
            "Headscale 路由已批准并提供服务"@
        } else {
            "Headscale 已收到路由，等待节点提供服务"@
        }),
{
    let mut ready: bool = true;
    let mut i: usize = 0;
    while i < reports.len()
        invariant
            i <= reports@.len(),
            ready == (forall|j: int|
                0 <= j < i ==> (#[trigger] reports@[j]).approved && reports@[j].serving),
        decreases reports@.len() - i,
    {
        if !(reports[i].approved && reports[i].serving) {
            ready = false;
        }
        i = i + 1;
    }
    RouteApplyReport {
        state: if ready {
            RouteApplyState::Ready
        } else {
            RouteApplyState::Pending
        },
        message: if ready {
            "Headscale 路由已批准并提供服务".to_owned()
        } else {
            "Headscale 已收到路由，等待节点提供服务".to_owned()
        },
        node_reports: reports,
    }
}

/// The stand-in while no control plane is set up. It never claims that a route is ready.
#[derive(Debug, Default)]
pub struct HeadscaleAdapter;

/// A part of the interface of the control plane.
#[derive(Debug, Clone, Copy, PartialEq, Eq, Structural)]
pub enum Interface {
    Health,
    NodeRoutes,
    Nodes,
    Users,
    PreAuthKeys,
    NodeExpiry,
    NodeDeletion,
    Policy,
}

impl Interface {
    /// What is told of a part that is not set up.
    pub open spec fn text(self) -> Seq<char> {
        match self {
            Interface::Health => "Headscale 健康 API 尚未配置"@,
            Interface::NodeRoutes => "Headscale 节点路由 API 尚未配置"@,
            Interface::Nodes => "Headscale 节点 API 尚未配置"@,
            Interface::Users => "Headscale 用户 API 尚未配置"@,
            Interface::PreAuthKeys => "Headscale Pre-auth Key API 尚未配置"@,
            Interface::NodeExpiry => "Headscale 节点停用 API 尚未配置"@,
            Interface::NodeDeletion => "Headscale 节点删除 API 尚未配置"@,
            Interface::Policy => "Headscale Policy API 尚未配置"@,
        }
    }
}

/// Why a call of the control plane fails: the part of the interface is not set up, or something else
/// that the implementation tells.
#[derive(Debug, Clone, PartialEq, Eq)]
pub enum ControlPlaneError {
    NotSetUp(Interface),
    Failed(String),
}

impl ControlPlaneError {
    /// The message for the user.
    pub open spec fn text(self) -> Seq<char> {
        match self {
            ControlPlaneError::NotSetUp(part) => part.text(),
            ControlPlaneError::Failed(message) => message@,
        }
    }

    /// The message for the user.
    pub fn message(&self) -> (r: String)
        ensures
            r@ == self.text(),
    {
        let part: Interface = match self {
            ControlPlaneError::Failed(message) => {
                return message.clone();
            },
            ControlPlaneError::NotSetUp(part) => *part,
        };
        match part {
            Interface::Health => "Headscale 健康 API 尚未配置".to_owned(),
            Interface::NodeRoutes => "Headscale 节点路由 API 尚未配置".to_owned(),
            Interface::Nodes => "Headscale 节点 API 尚未配置".to_owned(),
            Interface::Users => "Headscale 用户 API 尚未配置".to_owned(),
            Interface::PreAuthKeys => "Headscale Pre-auth Key API 尚未配置".to_owned(),
            Interface::NodeExpiry => "Headscale 节点停用 API 尚未配置".to_owned(),
            Interface::NodeDeletion => "Headscale 节点删除 API 尚未配置".to_owned(),
            Interface::Policy => "Headscale Policy API 尚未配置".to_owned(),
        }
    }
}

/// Whether a call fails because the part of the interface for it is not set up.
pub open spec fn not_set_up<T>(r: Result<T, ControlPlaneError>, part: Interface) -> bool {
    r == Err::<T, _>(ControlPlaneError::NotSetUp(part))
}

/// The control plane as the server sees it, so that another one can stand in for it. What an
/// implementation does not offer fails with a message of its own.
pub trait HeadscaleControlPlane {
    fn health(&self) -> (r: Result<bool, ControlPlaneError>)
        default_ensures
            not_set_up(r, Interface::Health),
    {
        Err(ControlPlaneError::NotSetUp(Interface::Health))
    }

    fn reconcile_routes(&self, routes: &[RouteAdvertisement]) -> (r: Result<
        RouteApplyReport,
        ControlPlaneError,
    >);

    /// Brings the routes of one node in line. The prefixes that the server has ever published are
    /// withdrawn where they are not wanted any more, and no others.
    fn reconcile_node_routes(
        &self,
        node_id: &str,
        desired: &[String],
        owned: &[String],
    ) -> (r: Result<NodeRouteReport, ControlPlaneError>)
        default_ensures
            not_set_up(r, Interface::NodeRoutes),
    {
        Err(ControlPlaneError::NotSetUp(Interface::NodeRoutes))
    }

    fn list_nodes(&self) -> (r: Result<Vec<HeadscaleNode>, ControlPlaneError>)
        default_ensures
            not_set_up(r, Interface::Nodes),
    {
        Err(ControlPlaneError::NotSetUp(Interface::Nodes))
    }

    fn find_node_by_pre_auth_key(&self, key_id: &str) -> (r: Result<
        Option<HeadscaleNode>,
        ControlPlaneError,
    >)
        default_ensures
            not_set_up(r, Interface::Nodes),
    {
        Err(ControlPlaneError::NotSetUp(Interface::Nodes))
    }

    fn ensure_user(&self, name: &str) -> (r: Result<HeadscaleUser, ControlPlaneError>)
        default_ensures
            not_set_up(r, Interface::Users),
    {
        Err(ControlPlaneError::NotSetUp(Interface::Users))
    }

    fn create_pre_auth_key(&self, user_id: &str, expiration: &str) -> (r: Result<
        HeadscalePreAuthKey,
        ControlPlaneError,
    >)
        default_ensures
            not_set_up(r, Interface::PreAuthKeys),
    {
        Err(ControlPlaneError::NotSetUp(Interface::PreAuthKeys))
    }

    fn list_pre_auth_keys(&self) -> (r: Result<Vec<HeadscalePreAuthKey>, ControlPlaneError>)
        default_ensures
            not_set_up(r, Interface::PreAuthKeys),
    {
        Err(ControlPlaneError::NotSetUp(Interface::PreAuthKeys))
    }

    fn expire_pre_auth_key(&self, key_id: &str) -> (r: Result<(), ControlPlaneError>)
        default_ensures
            not_set_up(r, Interface::PreAuthKeys),
    {
        Err(ControlPlaneError::NotSetUp(Interface::PreAuthKeys))
    }

    fn expire_node(&self, node_id: &str, expiry: &str) -> (r: Result<(), ControlPlaneError>)
        default_ensures
            not_set_up(r, Interface::NodeExpiry),
    {
        Err(ControlPlaneError::NotSetUp(Interface::NodeExpiry))
    }

    fn delete_node(&self, node_id: &str) -> (r: Result<(), ControlPlaneError>)
        default_ensures
            not_set_up(r, Interface::NodeDeletion),
    {
        Err(ControlPlaneError::NotSetUp(Interface::NodeDeletion))
    }

    fn set_policy(&self, policy: &str) -> (r: Result<(), ControlPlaneError>)
        default_ensures
            not_set_up(r, Interface::Policy),
    {
        Err(ControlPlaneError::NotSetUp(Interface::Policy))
    }
}

impl HeadscaleControlPlane for HeadscaleAdapter {
    fn reconcile_routes(&self, routes: &[RouteAdvertisement]) -> (r: Result<
        RouteApplyReport,
        ControlPlaneError,
    >)
        ensures
            r matches Ok(report) && report.node_reports@.len() == 0 && report.state == (
            if routes@.len() == 0 {
                RouteApplyState::Ready
            } else {
                RouteApplyState::Pending
            }) && report.message@ == (if routes@.len() == 0 {
                "没有需要申请的共享网络"@
            } else {
                "Headscale API 尚未配置，路由申请等待适配器接入"@
            }),
    {
        let none: bool = routes.len() == 0;
        Ok(
            RouteApplyReport {
                state: if none {
                    RouteApplyState::Ready
                } else {
                    RouteApplyState::Pending
                },
                message: if none {
                    "没有需要申请的共享网络".to_owned()
                } else {
                    "Headscale API 尚未配置，路由申请等待适配器接入".to_owned()
                },
                node_reports: Vec::new(),
            },
        )
    }
}

/// The position of the first user from position `i` on with a name.
pub open spec fn user_from(users: Seq<HeadscaleUser>, name: Seq<char>, i: int) -> Option<int>
    decreases users.len() - i,
{
    if i < 0 || i >= users.len() {
        None
    } else if users[i].name@ == name {
        Some(i)
    } else {
        user_from(users, name, i + 1)
    }
}

/// The user with a name, who is created where there is none.
pub fn find_user(users: &Vec<HeadscaleUser>, name: &str) -> (r: Option<HeadscaleUser>)
    ensures
        match r {
            Some(user) => user_from(users@, name@, 0) matches Some(k) && user.id@ == users@[k].id@
                && user.name@ == users@[k].name@,
            None => user_from(users@, name@, 0) is None,
        },
{
    let mut i: usize = 0;
    while i < users.len()
        invariant
            i <= users@.len(),
            user_from(users@, name@, 0) == user_from(users@, name@, i as int),
        decreases users@.len() - i,
    {
        if same(users[i].name.as_str(), name) {
            return Some(HeadscaleUser { id: users[i].id.clone(), name: users[i].name.clone() });
        }
        i = i + 1;
    }
    None
}

/// The position of the first node from position `i` on that has joined with a key.
pub open spec fn joined_from(nodes: Seq<HeadscaleNode>, key: Seq<char>, i: int) -> Option<int>
    decreases nodes.len() - i,
{
    if i < 0 || i >= nodes.len() {
        None
    } else if nodes[i].pre_auth_key matches Some(used) && used.id@ == key {
        Some(i)
    } else {
        joined_from(nodes, key, i + 1)
    }
}

/// The node that has joined with a key.
pub fn find_node_by_pre_auth_key(nodes: &Vec<HeadscaleNode>, key_id: &str) -> (r: Option<usize>)
    ensures
        match r {
            Some(k) => k < nodes@.len() && joined_from(nodes@, key_id@, 0) == Some(k as int),
            None => joined_from(nodes@, key_id@, 0) is None,
        },
{
    let mut i: usize = 0;
    while i < nodes.len()
        invariant
            i <= nodes@.len(),
            joined_from(nodes@, key_id@, 0) == joined_from(nodes@, key_id@, i as int),
        decreases nodes@.len() - i,
    {
        if let Some(key) = &nodes[i].pre_auth_key {
            if same(key.id.as_str(), key_id) {
                return Some(i);
            }
        }
        i = i + 1;
    }
    None
}

/// Whether a text can be cut after a number of bytes: some of its characters take just so many.
pub open spec fn cuttable(s: Seq<char>, n: int) -> bool {
    exists|k: int| 0 <= k <= s.len() && text::byte_len(#[trigger] s.take(k)) == n
}

/// The length in bytes that is told of a refusal.
pub const MAX_ERROR: usize = 512;

/// What is told of a refusal, given how many characters fit: an ellipsis stands for the rest.
pub open spec fn told_error(body: Seq<char>, k: int) -> Seq<char> {
    text::trimmed(body).take(k) + "…"@
}

/// How many characters of a text take a number of bytes, where some do.
pub fn fitting(body: &str, n: usize) -> (r: Option<usize>)
    ensures
        match r {
            Some(k) => k <= body@.len() && text::byte_len(body@.take(k as int)) == n,
            None => !cuttable(body@, n as int),
        },
{
    let chars: Vec<char> = text::chars_of(body);
    let mut k: usize = 0;
    while k < chars.len()
        invariant
            k <= chars@.len(),
            chars@ == body@,
            forall|j: int| 0 <= j < k ==> text::byte_len(#[trigger] body@.take(j)) != n,
        decreases chars@.len() - k,
    {
        let head: String = text::text_between(&chars, 0, k);
        assert(head@ =~= body@.take(k as int));
        if text::bytes_of(head.as_str()) == n {
            return Some(k);
        }
        k = k + 1;
    }
    assert(body@.take(k as int) =~= body@);
    if text::bytes_of(body) == n {
        return Some(k);
    }
    None
}

/// What is told of a refusal: at most a fixed number of bytes. A text that cannot be cut there, in
/// the middle of a character, is left out.
pub fn truncate_error(body: &str) -> (r: String)
    requires
        text::byte_len(text::trimmed(body@)) <= MAX_ERROR || cuttable(
            text::trimmed(body@),
            MAX_ERROR as int,
        ),
    ensures
        if text::byte_len(text::trimmed(body@)) <= MAX_ERROR {
            r@ == text::trimmed(body@)
        } else {
            exists|k: int|
                0 <= k <= text::trimmed(body@).len() && text::byte_len(
                    #[trigger] text::trimmed(body@).take(k),
                ) == MAX_ERROR && r@ == told_error(body@, k)
        },
{
    let body: String = trim(body);
    if text::bytes_of(body.as_str()) <= MAX_ERROR {
        return body;
    }
    match fitting(body.as_str(), MAX_ERROR) {
        Some(k) => {
            let head: String = text::shorten(body.as_str(), k);
            assert(head@ =~= body@.take(k as int));
            join2(head.as_str(), "…")
        },
        None => body,
    }
}

/// Whether a byte needs no escape in a path.
pub open spec fn path_safe(b: u8) -> bool {
    (97 <= b <= 122) || (65 <= b <= 90) || (48 <= b <= 57) || b == 45 || b == 95 || b == 46
}

/// The digit that writes a number below sixteen.
pub open spec fn path_digit(n: u8) -> char {
    if n < 10 {
        (48 + n) as char
    } else {
        (55 + n) as char
    }
}

/// The first `n` bytes, escaped for a path.
pub open spec fn path_bytes(bytes: Seq<u8>, n: int) -> Seq<char>
    decreases n,
{
    if n <= 0 {
        Seq::empty()
    } else {
        path_bytes(bytes, n - 1) + (if path_safe(bytes[n - 1]) {
            seq![bytes[n - 1] as char]
        } else {
            seq!['%', path_digit(bytes[n - 1] / 16), path_digit(bytes[n - 1] % 16)]
        })
    }
}

/// A text, escaped for a path: no separator gets through.
pub open spec fn path_text(value: Seq<char>) -> Seq<char> {
    let bytes = vstd::utf8::encode_utf8(value);
    path_bytes(bytes, bytes.len() as int)
}

fn write_path_digit(n: u8) -> (r: char)
    requires
        n < 16,
    ensures
        r == path_digit(n),
{
    if n < 10 {
        (48 + n) as char
    } else {
        (55 + n) as char
    }
}

/// A text, escaped for a path.
pub fn urlencoding(value: &str) -> (r: String)
    ensures
        r@ == path_text(value@),
{
    let bytes: &[u8] = value.as_bytes();
    let ghost all = vstd::utf8::encode_utf8(value@);
    let mut chars: Vec<char> = Vec::new();
    let mut i: usize = 0;
    while i < bytes.len()
        invariant
            i <= bytes@.len(),
            bytes@ == all,
            chars@ == path_bytes(all, i as int),
        decreases bytes@.len() - i,
    {
        let b: u8 = bytes[i];
        let ghost before = chars@;
        if (97 <= b && b <= 122) || (65 <= b && b <= 90) || (48 <= b && b <= 57) || b == 45 || b
            == 95 || b == 46 {
            chars.push(b as char);
            assert(chars@ =~= before + seq![b as char]);
        } else {
            chars.push('%');
            chars.push(write_path_digit(b / 16));
            chars.push(write_path_digit(b % 16));
            assert(chars@ =~= before + seq!['%', path_digit(b / 16), path_digit(b % 16)]);
        }
        i = i + 1;
    }
    text::text_of(&chars)
}

/// A node is reached under its own path alone: an escaped text holds no separator and no mark that
/// ends a path.
pub proof fn escaped_paths_hold_no_separator(bytes: Seq<u8>, n: int, k: int)
    requires
        0 <= n <= bytes.len(),
        0 <= k < path_bytes(bytes, n).len(),
    ensures
        path_bytes(bytes, n)[k] != '/',
        path_bytes(bytes, n)[k] != '?',
        path_bytes(bytes, n)[k] != '#',
    decreases n,
{
    if n > 0 {
        let before = path_bytes(bytes, n - 1);
        if k < before.len() {
            escaped_paths_hold_no_separator(bytes, n - 1, k);
        } else {
            let b = bytes[n - 1];
            assert(b / 16 < 16 && b % 16 < 16);
        }
    }
}

/// The path of a node.
pub fn node_path(node_id: &str) -> (r: String)
    ensures
        r@ == "/api/v1/node/"@ + path_text(node_id@),
{
    let escaped: String = urlencoding(node_id);
    join2("/api/v1/node/", escaped.as_str())
}

/// The path at which the routes of a node are approved.
pub fn approve_routes_path(node_id: &str) -> (r: String)
    ensures
        r@ == "/api/v1/node/"@ + path_text(node_id@) + "/approve_routes"@,
{
    let path: String = node_path(node_id);
    join2(path.as_str(), "/approve_routes")
}

/// The path at which a node is retired.
pub fn expire_node_path(node_id: &str) -> (r: String)
    ensures
        r@ == "/api/v1/node/"@ + path_text(node_id@) + "/expire"@,
{
    let path: String = node_path(node_id);
    join2(path.as_str(), "/expire")
}

/// An address with more than slashes and, where it is given, a key that is not blank are accepted.
pub proof fn adapters_need_an_address_and_a_key(base_url: Seq<char>, api_key: Option<Seq<char>>)
    ensures
        adapter_refusal(base_url, api_key) is None <==> text::trimmed_end(base_url, '/').len() > 0
            && (api_key is Some ==> text::trimmed(api_key->0).len() > 0),
        text::trimmed_end(base_url, '/').len() == 0 ==> adapter_refusal(base_url, api_key) == Some(
            AdapterError::Address,
        ),
{
}

/// The routes that are approved are the wanted ones and the foreign ones that were approved before, in
/// order and each once.
pub proof fn approved_routes_are_wanted_or_foreign(
    merged: Seq<Seq<char>>,
    current: Seq<Seq<char>>,
    desired: Seq<Seq<char>>,
    owned: Seq<Seq<char>>,
)
    requires
        is_merged(merged, current, desired, owned),
    ensures
        forall|k: int| 0 <= k < desired.len() ==> merged.contains(#[trigger] desired[k]),
        forall|k: int|
            0 <= k < current.len() && !owned.contains(#[trigger] current[k]) ==> merged.contains(
                current[k],
            ),
        forall|t: Seq<char>| #[trigger]
            merged.contains(t) ==> desired.contains(t) || (current.contains(t) && !owned.contains(
                t,
            )),
        merged.no_duplicates(),
{
    assert forall|k: int| 0 <= k < desired.len() implies merged.contains(
        #[trigger] desired[k],
    ) by {
        assert(desired.contains(desired[k]));
    }
    assert forall|k: int|
        0 <= k < current.len() && !owned.contains(#[trigger] current[k]) implies merged.contains(
        current[k],
    ) by {
        assert(current.contains(current[k]));
    }
    assert forall|i: int, j: int| 0 <= i < merged.len() && 0 <= j < merged.len() && i
        != j implies merged[i] != merged[j] by {
        order::lemma_irreflexive(merged[i]);
        if i < j {
            assert(order::precedes(merged[i], merged[j]));
        } else {
            assert(order::precedes(merged[j], merged[i]));
        }
    }
}

/// A route is known of a node that announces it, has it approved or serves it.
pub proof fn nodes_show_their_routes(node: HeadscaleNode, route: Seq<char>, k: int)
    ensures
        0 <= k < node.available_routes@.len() && node.available_routes@[k]@ == route ==> visible(
            node,
            route,
        ),
        0 <= k < node.approved_routes@.len() && node.approved_routes@[k]@ == route ==> visible(
            node,
            route,
        ),
        0 <= k < node.subnet_routes@.len() && node.subnet_routes@[k]@ == route ==> visible(
            node,
            route,
        ),
        visible(node, route) ==> (exists|i: int|
            0 <= i < node.available_routes@.len() && (#[trigger] node.available_routes@[i])@
                == route) || (exists|i: int|
            0 <= i < node.approved_routes@.len() && (#[trigger] node.approved_routes@[i])@ == route)
            || (exists|i: int|
            0 <= i < node.subnet_routes@.len() && (#[trigger] node.subnet_routes@[i])@ == route),
{
    let a = text::views(node.available_routes@);
    let b = text::views(node.approved_routes@);
    let c = text::views(node.subnet_routes@);
    if 0 <= k < a.len() && a[k] == route {
        assert(a.contains(route));
    }
    if 0 <= k < b.len() && b[k] == route {
        assert(b.contains(route));
    }
    if 0 <= k < c.len() && c[k] == route {
        assert(c.contains(route));
    }
    if a.contains(route) {
        let i = choose|i: int| 0 <= i < a.len() && a[i] == route;
        assert(node.available_routes@[i]@ == route);
    }
    if b.contains(route) {
        let i = choose|i: int| 0 <= i < b.len() && b[i] == route;
        assert(node.approved_routes@[i]@ == route);
    }
    if c.contains(route) {
        let i = choose|i: int| 0 <= i < c.len() && c[i] == route;
        assert(node.subnet_routes@[i]@ == route);
    }
}

/// The wanted routes fall into those that the node shows and those that it does not, and each into one
/// of them.
pub proof fn wanted_routes_are_shown_or_wait(
    node: HeadscaleNode,
    desired: Seq<Seq<char>>,
    route: Seq<char>,
)
    ensures
        wanted_part(node, desired, true).contains(route) <==> desired.contains(route) && visible(
            node,
            route,
        ),
        wanted_part(node, desired, false).contains(route) <==> desired.contains(route) && !visible(
            node,
            route,
        ),
{
    order::lists_have_a_sorted_set(desired);
    let sorted = order::sorted_set(desired);
    lemma_parts(node, sorted, true, sorted.len() as int, route);
    lemma_parts(node, sorted, false, sorted.len() as int, route);
}

proof fn lemma_parts(
    node: HeadscaleNode,
    routes: Seq<Seq<char>>,
    shown: bool,
    n: int,
    route: Seq<char>,
)
    requires
        0 <= n <= routes.len(),
    ensures
        part(node, routes, shown, n).contains(route) <==> routes.take(n).contains(route) && visible(
            node,
            route,
        ) == shown,
        n == routes.len() ==> (part(node, routes, shown, n).contains(route) <==> routes.contains(
            route,
        ) && visible(node, route) == shown),
    decreases n,
{
    if n > 0 {
        lemma_parts(node, routes, shown, n - 1, route);
        let before = part(node, routes, shown, n - 1);
        let last = routes[n - 1];
        assert(routes.take(n) =~= routes.take(n - 1).push(last));
        assert(routes.take(n - 1).push(last).contains(route) <==> routes.take(n - 1).contains(route)
            || route == last) by {
            lemma_pushed(routes.take(n - 1), last, route);
        }
        lemma_pushed(before, last, route);
    }
    if n == routes.len() {
        assert(routes.take(n) =~= routes);
    }
}

proof fn lemma_pushed(list: Seq<Seq<char>>, last: Seq<char>, t: Seq<char>)
    ensures
        list.push(last).contains(t) <==> list.contains(t) || t == last,
{
    let all = list.push(last);
    assert(all[list.len() as int] == last);
    if list.contains(t) {
        let k = choose|k: int| 0 <= k < list.len() && list[k] == t;
        assert(all[k] == t);
    }
    if all.contains(t) && t != last {
        let k = choose|k: int| 0 <= k < all.len() && all[k] == t;
        assert(list[k] == t);
    }
}

/// All of the wanted routes are in a list where each of them is.
pub proof fn every_wanted_route_is_needed(desired: Seq<Seq<char>>, list: Seq<Seq<char>>, k: int)
    ensures
        all_in(desired, list) && 0 <= k < desired.len() ==> list.contains(desired[k]),
        desired.len() == 0 ==> all_in(desired, list),
        (forall|i: int| 0 <= i < desired.len() ==> list.contains(#[trigger] desired[i])) ==> all_in(
            desired,
            list,
        ),
{
    if all_in(desired, list) && 0 <= k < desired.len() {
        assert(desired.contains(desired[k]));
    }
}

proof fn lemma_picks_prefixes(routes: Seq<RouteAdvertisement>, node: Seq<char>, n: int, keep: spec_fn(int) -> bool, value: spec_fn(int) -> Seq<char>)
    requires
        forall|i: int|
            0 <= i < n ==> #[trigger] keep(i) == (text::opt(routes[i].headscale_node_id) == Some(node)) && value(i) == (routes[i].prefix@),
    ensures
        prefixes_of(routes, node, n) == picked::picked(keep, value, n),
    decreases n,
{
    if n > 0 {
        assert(keep(n - 1) || !keep(n - 1));
        lemma_picks_prefixes(routes, node, n - 1, keep, value);
    }
}

/// The prefixes of a node are those of the routes that name it, and no others.
pub proof fn nodes_get_the_prefixes_that_name_them(routes: Seq<RouteAdvertisement>, node: Seq<char>)
    ensures
        forall|prefix: Seq<char>| #[trigger]
            prefixes_of(routes, node, routes.len() as int).contains(prefix) <==> exists|i: int|
                0 <= i < routes.len() && text::opt((#[trigger] routes[i]).headscale_node_id) == Some(node) && routes[i].prefix@ == prefix,
{
    let n = routes.len() as int;
    let keep = |i: int| text::opt(routes[i].headscale_node_id) == Some(node);
    let value = |i: int| routes[i].prefix@;
    lemma_picks_prefixes(routes, node, n, keep, value);
    assert forall|prefix: Seq<char>| #[trigger] prefixes_of(routes, node, n).contains(prefix) <==> exists|i: int|
        0 <= i < routes.len() && text::opt((#[trigger] routes[i]).headscale_node_id) == Some(node) && routes[i].prefix@ == prefix by {
        picked::lemma_picked_contains(keep, value, n, prefix);
        if prefixes_of(routes, node, n).contains(prefix) {
            let i = choose|i: int| 0 <= i < n && #[trigger] keep(i) && value(i) == prefix;
            assert(routes[i] == routes[i]);
        }
        if exists|i: int| 0 <= i < routes.len() && text::opt((#[trigger] routes[i]).headscale_node_id) == Some(node) && routes[i].prefix@ == prefix {
            let i = choose|i: int| 0 <= i < routes.len() && text::opt((#[trigger] routes[i]).headscale_node_id) == Some(node) && routes[i].prefix@ == prefix;
            assert(keep(i) && value(i) == prefix);
        }
    }
}

/// A route without a node is found where there is one.
pub proof fn routes_without_a_node_are_found(routes: Seq<RouteAdvertisement>, i: int)
    requires
        0 <= i <= routes.len(),
    ensures
        unbound_from(routes, i) is Some ==> i <= unbound_from(routes, i)->0 < routes.len()
            && routes[unbound_from(routes, i)->0].headscale_node_id is None,
        unbound_from(routes, i) is None <==> forall|k: int|
            i <= k < routes.len() ==> (#[trigger] routes[k]).headscale_node_id is Some,
    decreases routes.len() - i,
{
    if i < routes.len() {
        routes_without_a_node_are_found(routes, i + 1);
    }
}

/// Each route is asked for at its own node, and at no other.
pub proof fn routes_are_grouped_by_their_node(
    groups: Seq<NodeRoutes>,
    routes: Seq<RouteAdvertisement>,
    k: int,
)
    requires
        is_grouped(groups, routes),
        0 <= k < routes.len(),
        routes[k].headscale_node_id is Some,
    ensures
        exists|g: int|
            0 <= g < groups.len() && (#[trigger] groups[g]).node_id@
                == routes[k].headscale_node_id->0@ && text::views(groups[g].prefixes@).contains(
                routes[k].prefix@,
            ),
        forall|g: int, prefix: Seq<char>|
            0 <= g < groups.len() && #[trigger] text::views(groups[g].prefixes@).contains(prefix)
                ==> exists|i: int|
                0 <= i < routes.len() && text::opt((#[trigger] routes[i]).headscale_node_id) == Some(
                    groups[g].node_id@,
                ) && routes[i].prefix@ == prefix,
{
    let ids = node_ids(routes, routes.len() as int);
    let nodes = order::sorted_set(ids);
    order::lists_have_a_sorted_set(ids);
    let node = routes[k].headscale_node_id->0@;
    assert(ids[k] == node);
    assert(nodes.contains(node));
    let g = choose|g: int| 0 <= g < nodes.len() && nodes[g] == node;
    assert(groups[g].node_id@ == node);
    nodes_get_the_prefixes_that_name_them(routes, node);
    assert(routes[k].prefix@ == routes[k].prefix@);
    assert(prefixes_of(routes, node, routes.len() as int).contains(routes[k].prefix@));
    assert forall|g: int, prefix: Seq<char>|
        0 <= g < groups.len() && #[trigger] text::views(groups[g].prefixes@).contains(
            prefix,
        ) implies exists|i: int|
        0 <= i < routes.len() && text::opt((#[trigger] routes[i]).headscale_node_id) == Some(
            groups[g].node_id@,
        ) && routes[i].prefix@ == prefix by {
        assert(groups[g].node_id@ == nodes[g]);
        nodes_get_the_prefixes_that_name_them(routes, nodes[g]);
        assert(prefixes_of(routes, nodes[g], routes.len() as int).contains(prefix));
    }
}

/// Routes are ready where every node has approved and serves its own.
pub proof fn routes_are_ready_everywhere_or_not(reports: Seq<NodeRouteReport>, k: int)
    ensures
        0 <= k < reports.len() && (!reports[k].approved || !reports[k].serving) ==> !all_ready(
            reports,
        ),
        (forall|i: int|
            0 <= i < reports.len() ==> (#[trigger] reports[i]).approved && reports[i].serving)
            ==> all_ready(reports),
{
}

/// A user is found by the name, and a node by the key that it joined with.
pub proof fn users_and_nodes_are_found(
    users: Seq<HeadscaleUser>,
    nodes: Seq<HeadscaleNode>,
    name: Seq<char>,
    key: Seq<char>,
)
    ensures
        user_from(users, name, 0) is Some ==> 0 <= user_from(users, name, 0)->0 < users.len()
            && users[user_from(users, name, 0)->0].name@ == name,
        user_from(users, name, 0) is None <==> forall|k: int|
            0 <= k < users.len() ==> (#[trigger] users[k]).name@ != name,
        joined_from(nodes, key, 0) is Some ==> 0 <= joined_from(nodes, key, 0)->0 < nodes.len()
            && nodes[joined_from(nodes, key, 0)->0].pre_auth_key is Some && nodes[joined_from(
            nodes,
            key,
            0,
        )->0].pre_auth_key->0.id@ == key,
        joined_from(nodes, key, 0) is None <==> forall|k: int|
            0 <= k < nodes.len() && (#[trigger] nodes[k]).pre_auth_key is Some
                ==> nodes[k].pre_auth_key->0.id@ != key,
{
    lemma_user_place(users, name, 0);
    lemma_joined_place(nodes, key, 0);
}

proof fn lemma_user_place(users: Seq<HeadscaleUser>, name: Seq<char>, i: int)
    requires
        0 <= i <= users.len(),
    ensures
        user_from(users, name, i) is Some ==> i <= user_from(users, name, i)->0 < users.len()
            && users[user_from(users, name, i)->0].name@ == name,
        user_from(users, name, i) is None <==> forall|k: int|
            i <= k < users.len() ==> (#[trigger] users[k]).name@ != name,
    decreases users.len() - i,
{
    if i < users.len() {
        lemma_user_place(users, name, i + 1);
    }
}

proof fn lemma_joined_place(nodes: Seq<HeadscaleNode>, key: Seq<char>, i: int)
    requires
        0 <= i <= nodes.len(),
    ensures
        joined_from(nodes, key, i) is Some ==> i <= joined_from(nodes, key, i)->0 < nodes.len()
            && nodes[joined_from(nodes, key, i)->0].pre_auth_key is Some && nodes[joined_from(
            nodes,
            key,
            i,
        )->0].pre_auth_key->0.id@ == key,
        joined_from(nodes, key, i) is None <==> forall|k: int|
            i <= k < nodes.len() && (#[trigger] nodes[k]).pre_auth_key is Some
                ==> nodes[k].pre_auth_key->0.id@ != key,
    decreases nodes.len() - i,
{
    if i < nodes.len() {
        lemma_joined_place(nodes, key, i + 1);
    }
}

/// A digit of a byte is written as the character for its value.
pub proof fn path_digits_stand_for_their_value(b: u8)
    ensures
        ({
            let high = path_digit(b / 16) as int;
            let low = path_digit(b % 16) as int;
            &&& 48 <= high <= 57 || 65 <= high <= 70
            &&& 48 <= low <= 57 || 65 <= low <= 70
            &&& b == 16 * (if high <= 57 {
                high - 48
            } else {
                high - 55
            }) + (if low <= 57 {
                low - 48
            } else {
                low - 55
            })
        }),
{
}

/// A name of letters, digits, hyphens, underscores and dots stands in a path as it is.
pub proof fn plain_names_stand_in_paths(bytes: Seq<u8>, n: int)
    requires
        0 <= n <= bytes.len(),
        forall|i: int|
            0 <= i < n ==> {
                let b = #[trigger] bytes[i];
                (97 <= b <= 122) || (65 <= b <= 90) || (48 <= b <= 57) || b == 45 || b == 95 || b
                    == 46
            },
    ensures
        path_bytes(bytes, n) =~= Seq::new(n as nat, |i: int| bytes[i] as char),
    decreases n,
{
    if n > 0 {
        plain_names_stand_in_paths(bytes, n - 1);
        assert(path_safe(bytes[n - 1]));
    }
}

/// Any other byte of a name stands in a path as a percent sign and its two digits.
pub proof fn other_bytes_are_escaped_in_paths(bytes: Seq<u8>, n: int)
    requires
        0 < n <= bytes.len(),
        bytes[n - 1] < 45 || bytes[n - 1] == 47 || bytes[n - 1] >= 123 || 58 <= bytes[n - 1] <= 64,
    ensures
        ({
            let all = path_bytes(bytes, n);
            let before = path_bytes(bytes, n - 1);
            &&& all.len() == before.len() + 3
            &&& all.take(before.len() as int) == before
            &&& all[before.len() as int] == '%'
            &&& all[before.len() as int + 1] == path_digit(bytes[n - 1] / 16)
            &&& all[before.len() as int + 2] == path_digit(bytes[n - 1] % 16)
        }),
{
    let all = path_bytes(bytes, n);
    let before = path_bytes(bytes, n - 1);
    assert(all.take(before.len() as int) =~= before);
}

/// Routes are ready where every node is, and wait otherwise; no report is lost.
pub proof fn reports_are_summed_up(reports: Vec<NodeRouteReport>, r: RouteApplyReport)
    requires
        call_ensures(summarize, (reports,), r),
    ensures
        r.state == RouteApplyState::Ready <==> forall|i: int|
            0 <= i < reports@.len() ==> (#[trigger] reports@[i]).approved && reports@[i].serving,
        r.state == RouteApplyState::Ready || r.state == RouteApplyState::Pending,
        r.node_reports == reports,
{
}

/// A node has approved and serves its routes where none of them waits and all of them are in its lists.
pub proof fn nodes_are_reported_by_their_lists(
    node_id: &str,
    desired_prefixes: &[String],
    pending: &Vec<String>,
    approved_node: &HeadscaleNode,
    r: NodeRouteReport,
)
    requires
        call_ensures(node_route_report, (node_id, desired_prefixes, pending, approved_node), r),
    ensures
        r.node_id@ == node_id@,
        pending@.len() > 0 ==> !r.approved && !r.serving && r.error_message is Some,
        pending@.len() == 0 ==> r.error_message is None,
        r.approved ==> forall|i: int|
            0 <= i < desired_prefixes@.len() ==> text::views(
                approved_node.approved_routes@,
            ).contains((#[trigger] desired_prefixes@[i])@),
        r.serving ==> forall|i: int|
            0 <= i < desired_prefixes@.len() ==> text::views(
                approved_node.subnet_routes@,
            ).contains((#[trigger] desired_prefixes@[i])@),
        pending@.len() == 0 && desired_prefixes@.len() == 0 ==> r.approved && r.serving,
{
    let wanted = text::views(desired_prefixes@);
    assert forall|i: int| 0 <= i < desired_prefixes@.len() implies wanted.contains(
        (#[trigger] desired_prefixes@[i])@,
    ) by {
        assert(wanted[i] == desired_prefixes@[i]@);
    }
}

/// A request goes to the path below the address, with the key where there is one.
pub proof fn requests_carry_the_key(
    adapter: &HeadscaleHttpAdapter,
    path: &str,
    r: RequestHead,
)
    requires
        call_ensures(HeadscaleHttpAdapter::request, (adapter, path), r),
    ensures
        r.url@ == adapter.base_url@ + path@,
        text::trimmed(adapter.api_key@).len() > 0 ==> text::opt(r.bearer) == Some(
            adapter.api_key@,
        ),
        text::trimmed(adapter.api_key@).len() == 0 ==> r.bearer is None,
{
}

} // verus!
