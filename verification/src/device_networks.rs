//! The networks that a device shares: a request changes the rows that it names and no other, and
//! either all of it holds or nothing changes.
use vstd::prelude::*;

use crate::digest;
use crate::digest::new_uuid;
use crate::error;
use crate::error::{ApiError, BAD_REQUEST, CONFLICT, INTERNAL_SERVER_ERROR, NOT_FOUND};
use crate::gateway::{forwarding_enabled_for_prefix, GatewayCapabilityReport};
use crate::ip::IpAddr;
use crate::network;
use crate::network::{networks_overlap, validate_published_network, IpNet};
use crate::picked;
use crate::text;
use crate::text::{copy_opt, holds, same};

verus! {

/// How far a shared network is.
#[derive(Debug, Clone, Copy, PartialEq, Eq, Structural)]
pub enum ApplyStatus {
    Disabled,
    Checking,
    Ready,
    Failed,
}

/// How a gateway does.
#[derive(Debug, Clone, Copy, PartialEq, Eq, Structural)]
pub enum GatewayHealthStatus {
    Checking,
    Ready,
    Failed,
}

/// What is read of a shared network to tell its state.
#[derive(Debug, Clone)]
pub struct SiteNetworkResponse {
    pub desired_prefix: String,
    pub source: String,
    pub enabled: bool,
    pub apply_status: ApplyStatus,
    pub health_status: GatewayHealthStatus,
}

/// Whether an agent has found a network on its host.
pub open spec fn detected(report: GatewayCapabilityReport, prefix: Seq<char>) -> bool {
    exists|i: int|
        0 <= i < report.local_networks@.len() && (#[trigger] report.local_networks@[i]).prefix@
            == prefix
}

/// Why a network cannot be shared by a host, as a word, if that is so.
pub open spec fn host_reason(network: SiteNetworkResponse, report: GatewayCapabilityReport) -> Option<
    Seq<char>,
> {
    let prefix = network::ip_net_of(network.desired_prefix@);
    if prefix matches Some(net) && net.addr is V4 && !report.ipv4_forwarding {
        Some("ipv4_forwarding_disabled"@)
    } else if prefix matches Some(net) && net.addr is V6 && !report.ipv6_forwarding {
        Some("ipv6_forwarding_disabled"@)
    } else if network.source@ == "detected"@ && !detected(report, network.desired_prefix@) {
        Some("network_missing"@)
    } else {
        None
    }
}

/// The state of a shared network as a word. It rests on what the device reports and on how far the
/// network is, never on the text of an error.
pub open spec fn reason(
    network: SiteNetworkResponse,
    online: bool,
    report: Option<GatewayCapabilityReport>,
) -> Seq<char> {
    if network.apply_status == ApplyStatus::Disabled {
        "disabled"@
    } else if !online {
        "device_offline"@
    } else if !network.enabled {
        "disabling"@
    } else if report matches Some(found) && host_reason(network, found) is Some {
        host_reason(network, report->0)->0
    } else if network.apply_status == ApplyStatus::Failed || network.health_status
        == GatewayHealthStatus::Failed {
        "apply_failed"@
    } else if network.apply_status == ApplyStatus::Ready && network.health_status
        == GatewayHealthStatus::Ready {
        "ready"@
    } else {
        "applying"@
    }
}

fn check_detected(report: &GatewayCapabilityReport, prefix: &str) -> (r: bool)
    ensures
        r == detected(*report, prefix@),
{
    let mut i: usize = 0;
    while i < report.local_networks.len()
        invariant
            i <= report.local_networks@.len(),
            forall|j: int|
                0 <= j < i ==> (#[trigger] report.local_networks@[j]).prefix@ != prefix@,
        decreases report.local_networks@.len() - i,
    {
        if same(report.local_networks[i].prefix.as_str(), prefix) {
            return true;
        }
        i = i + 1;
    }
    false
}

/// The state of a shared network as a word.
pub fn status_reason(
    network: &SiteNetworkResponse,
    online: bool,
    report: Option<&GatewayCapabilityReport>,
) -> (r: &'static str)
    ensures
        r@ == reason(
            *network,
            online,
            match report {
                Some(found) => Some(*found),
                None => None,
            },
        ),
{
    if network.apply_status == ApplyStatus::Disabled {
        return "disabled";
    }
    if !online {
        return "device_offline";
    }
    if !network.enabled {
        return "disabling";
    }
    if let Some(found) = report {
        if let Ok(prefix) = IpNet::from_str(network.desired_prefix.as_str()) {
            if !forwarding_enabled_for_prefix(found.ipv4_forwarding, found.ipv6_forwarding, prefix) {
                return match prefix.addr {
                    IpAddr::V4(_) => "ipv4_forwarding_disabled",
                    IpAddr::V6(_) => "ipv6_forwarding_disabled",
                };
            }
        }
        if same(network.source.as_str(), "detected") && !check_detected(
            found,
            network.desired_prefix.as_str(),
        ) {
            return "network_missing";
        }
    }
    if network.apply_status == ApplyStatus::Failed || network.health_status
        == GatewayHealthStatus::Failed {
        return "apply_failed";
    }
    if network.apply_status == ApplyStatus::Ready && network.health_status
        == GatewayHealthStatus::Ready {
        return "ready";
    }
    "applying"
}

/// A network that a request names.
#[derive(Debug)]
pub struct Selection {
    pub id: Option<String>,
    pub interface_id: Option<String>,
    pub prefix: String,
    pub enabled: bool,
}

/// A stored permission to reach a network.
#[derive(Debug)]
pub struct AccessRow {
    pub id: String,
    pub tenant_id: String,
    pub network_id: String,
    pub scope: String,
    pub enabled: bool,
}

/// A stored permission to reach a network.
pub ghost struct AccessView {
    pub id: Seq<char>,
    pub tenant_id: Seq<char>,
    pub network_id: Seq<char>,
    pub scope: Seq<char>,
    pub enabled: bool,
}

impl View for AccessRow {
    type V = AccessView;

    open spec fn view(&self) -> AccessView {
        AccessView {
            id: self.id@,
            tenant_id: self.tenant_id@,
            network_id: self.network_id@,
            scope: self.scope@,
            enabled: self.enabled,
        }
    }
}

/// A stored network, with the state of its gateway and the permission to reach it.
#[derive(Debug)]
pub struct NetworkRow {
    pub id: String,
    pub tenant_id: String,
    pub name: String,
    pub device_id: String,
    pub interface_id: Option<String>,
    pub address_family: String,
    pub source: String,
    pub enabled: bool,
    pub deletion_requested: bool,
    pub apply_status: String,
    pub apply_error: Option<String>,
    pub desired_prefix: String,
    pub desired_revision: u64,
    pub applied_prefix: Option<String>,
    pub gateway_status: String,
    pub gateway_error: Option<String>,
    pub access: Option<AccessRow>,
}

/// A stored network.
pub ghost struct NetworkView {
    pub id: Seq<char>,
    pub tenant_id: Seq<char>,
    pub name: Seq<char>,
    pub device_id: Seq<char>,
    pub interface_id: Option<Seq<char>>,
    pub address_family: Seq<char>,
    pub source: Seq<char>,
    pub enabled: bool,
    pub deletion_requested: bool,
    pub apply_status: Seq<char>,
    pub apply_error: Option<Seq<char>>,
    pub desired_prefix: Seq<char>,
    pub desired_revision: int,
    pub applied_prefix: Option<Seq<char>>,
    pub gateway_status: Seq<char>,
    pub gateway_error: Option<Seq<char>>,
    pub access: Option<AccessView>,
}

impl View for NetworkRow {
    type V = NetworkView;

    open spec fn view(&self) -> NetworkView {
        NetworkView {
            id: self.id@,
            tenant_id: self.tenant_id@,
            name: self.name@,
            device_id: self.device_id@,
            interface_id: text::opt(self.interface_id),
            address_family: self.address_family@,
            source: self.source@,
            enabled: self.enabled,
            deletion_requested: self.deletion_requested,
            apply_status: self.apply_status@,
            apply_error: text::opt(self.apply_error),
            desired_prefix: self.desired_prefix@,
            desired_revision: self.desired_revision as int,
            applied_prefix: text::opt(self.applied_prefix),
            gateway_status: self.gateway_status@,
            gateway_error: text::opt(self.gateway_error),
            access: match self.access {
                Some(access) => Some(access@),
                None => None,
            },
        }
    }
}

fn copy_row(row: &NetworkRow) -> (r: NetworkRow)
    ensures
        r@ == row@,
        r.desired_revision == row.desired_revision,
{
    let access: Option<AccessRow> = match &row.access {
        Some(access) => Some(
            AccessRow {
                id: access.id.clone(),
                tenant_id: access.tenant_id.clone(),
                network_id: access.network_id.clone(),
                scope: access.scope.clone(),
                enabled: access.enabled,
            },
        ),
        None => None,
    };
    NetworkRow {
        id: row.id.clone(),
        tenant_id: row.tenant_id.clone(),
        name: row.name.clone(),
        device_id: row.device_id.clone(),
        interface_id: copy_opt(&row.interface_id),
        address_family: row.address_family.clone(),
        source: row.source.clone(),
        enabled: row.enabled,
        deletion_requested: row.deletion_requested,
        apply_status: row.apply_status.clone(),
        apply_error: copy_opt(&row.apply_error),
        desired_prefix: row.desired_prefix.clone(),
        desired_revision: row.desired_revision,
        applied_prefix: copy_opt(&row.applied_prefix),
        gateway_status: row.gateway_status.clone(),
        gateway_error: copy_opt(&row.gateway_error),
        access,
    }
}

/// A network that is to be applied anew by its gateway.
pub open spec fn requested_again(row: NetworkView) -> NetworkView {
    NetworkView {
        desired_revision: row.desired_revision + 1,
        applied_prefix: None,
        gateway_status: "checking"@,
        gateway_error: None,
        ..row
    }
}

fn request_again(row: &NetworkRow) -> (r: NetworkRow)
    requires
        row.desired_revision < u64::MAX,
    ensures
        r@ == requested_again(row@),
{
    let mut next: NetworkRow = copy_row(row);
    next.desired_revision = row.desired_revision + 1;
    next.applied_prefix = None;
    next.gateway_status = "checking".to_owned();
    next.gateway_error = None;
    next
}

/// A network that was switched on or off: it is checked anew.
pub open spec fn switched(row: NetworkView, enabled: bool) -> NetworkView {
    NetworkView { enabled, apply_status: "checking"@, apply_error: None, ..requested_again(row) }
}

fn switch(row: &NetworkRow, enabled: bool) -> (r: NetworkRow)
    requires
        row.desired_revision < u64::MAX,
    ensures
        r@ == switched(row@, enabled),
{
    let mut next: NetworkRow = request_again(row);
    next.enabled = enabled;
    next.apply_status = "checking".to_owned();
    next.apply_error = None;
    next
}

/// Stored networks.
pub open spec fn networks_of(list: Seq<NetworkRow>) -> Seq<NetworkView> {
    Seq::new(list.len(), |i: int| list[i]@)
}

/// The position of the first network from position `i` on that a device has under an identifier.
pub open spec fn by_id(
    rows: Seq<NetworkView>,
    id: Seq<char>,
    device: Seq<char>,
    tenant: Seq<char>,
    i: int,
) -> Option<int>
    decreases rows.len() - i,
{
    if i < 0 || i >= rows.len() {
        None
    } else if rows[i].id == id && rows[i].device_id == device && rows[i].tenant_id == tenant {
        Some(i)
    } else {
        by_id(rows, id, device, tenant, i + 1)
    }
}

/// The position of the first network from position `i` on that a device has with a prefix.
pub open spec fn by_prefix(
    rows: Seq<NetworkView>,
    prefix: Seq<char>,
    device: Seq<char>,
    tenant: Seq<char>,
    i: int,
) -> Option<int>
    decreases rows.len() - i,
{
    if i < 0 || i >= rows.len() {
        None
    } else if rows[i].desired_prefix == prefix && rows[i].device_id == device && rows[i].tenant_id
        == tenant {
        Some(i)
    } else {
        by_prefix(rows, prefix, device, tenant, i + 1)
    }
}

/// Why a network collides with another one of its workspace, from position `i` on, if it does.
pub open spec fn collision(
    rows: Seq<NetworkView>,
    net: IpNet,
    id: Seq<char>,
    tenant: Seq<char>,
    i: int,
) -> Option<error::Refusal>
    decreases rows.len() - i,
{
    if i < 0 || i >= rows.len() {
        None
    } else if rows[i].tenant_id != tenant || rows[i].id == id || rows[i].deletion_requested {
        collision(rows, net, id, tenant, i + 1)
    } else {
        match network::ip_net_of(rows[i].desired_prefix) {
            None => error::refusal(INTERNAL_SERVER_ERROR, "已保存网段格式无效"),
            Some(other) => if net.overlaps(other) {
                error::refusal(CONFLICT, "网段与已有共享网段重叠")
            } else {
                collision(rows, net, id, tenant, i + 1)
            },
        }
    }
}

/// A network under its first address.
pub open spec fn truncated(net: IpNet) -> IpNet {
    IpNet { addr: net.first_addr(), prefix_len: net.prefix_len }
}

/// The position of the network that a selection is about, where there is one.
pub open spec fn subject(
    rows: Seq<NetworkView>,
    item: Selection,
    prefix: Seq<char>,
    device: Seq<char>,
    tenant: Seq<char>,
) -> Option<int> {
    match item.id {
        Some(id) => by_id(rows, id@, device, tenant, 0),
        None => by_prefix(rows, prefix, device, tenant, 0),
    }
}

/// What a selection comes to: the rows after it, and what is told of it where it counts.
pub ghost struct Selected {
    pub rows: Seq<NetworkView>,
    pub change: Option<ChangeView>,
}

/// A network that a request has dealt with.
#[derive(Debug, Clone)]
pub struct NetworkChange {
    pub id: String,
    pub created: bool,
    /// Whether the network was created, switched on or switched off; this is what is recorded.
    pub changed: bool,
    pub enabled: bool,
}

/// A network that a request has dealt with.
pub ghost struct ChangeView {
    pub id: Seq<char>,
    pub created: bool,
    pub changed: bool,
    pub enabled: bool,
}

impl View for NetworkChange {
    type V = ChangeView;

    open spec fn view(&self) -> ChangeView {
        ChangeView {
            id: self.id@,
            created: self.created,
            changed: self.changed,
            enabled: self.enabled,
        }
    }
}

/// What a request is about: the device, its workspace, and what its host says of each network.
pub struct SharingRequest<'a> {
    pub tenant: &'a str,
    pub device: &'a str,
    pub items: &'a Vec<Selection>,
    /// For each item the refusal of the host, where it cannot share the network.
    pub verdicts: &'a Vec<Option<ApiError>>,
    /// For each item the identifier that a new network gets.
    pub fresh: &'a Vec<String>,
    /// For each item the identifier that the permission to reach a new network gets.
    pub fresh_access: &'a Vec<String>,
}

impl<'a> SharingRequest<'a> {
    pub open spec fn valid(self) -> bool {
        self.verdicts@.len() == self.items@.len() && self.fresh@.len() == self.items@.len()
            && self.fresh_access@.len() == self.items@.len()
    }
}

/// The network that an item of a request creates, under its own prefix as its name. All devices of
/// the workspace may reach it.
pub open spec fn created_network(request: SharingRequest, i: int, net: IpNet) -> NetworkView {
    NetworkView {
        id: request.fresh@[i]@,
        tenant_id: request.tenant@,
        name: net.text(),
        device_id: request.device@,
        interface_id: text::opt(request.items@[i].interface_id),
        address_family: if net.addr is V4 {
            "ipv4"@
        } else {
            "ipv6"@
        },
        source: "direct_interface"@,
        enabled: true,
        deletion_requested: false,
        apply_status: "checking"@,
        apply_error: None,
        desired_prefix: net.text(),
        desired_revision: 1,
        applied_prefix: None,
        gateway_status: "checking"@,
        gateway_error: None,
        access: Some(
            AccessView {
                id: request.fresh_access@[i]@,
                tenant_id: request.tenant@,
                network_id: request.fresh@[i]@,
                scope: "tenant_mesh"@,
                enabled: true,
            },
        ),
    }
}

fn create_network(request: &SharingRequest, i: usize, net: IpNet) -> (r: NetworkRow)
    requires
        request.valid(),
        i < request.items@.len(),
        net.valid(),
    ensures
        r@ == created_network(*request, i as int, net),
{
    let access = AccessRow {
        id: request.fresh_access[i].clone(),
        tenant_id: request.tenant.to_owned(),
        network_id: request.fresh[i].clone(),
        scope: "tenant_mesh".to_owned(),
        enabled: true,
    };
    let family: &'static str = match net.addr {
        IpAddr::V4(_) => "ipv4",
        IpAddr::V6(_) => "ipv6",
    };
    NetworkRow {
        id: request.fresh[i].clone(),
        tenant_id: request.tenant.to_owned(),
        name: net.format(),
        device_id: request.device.to_owned(),
        interface_id: copy_opt(&request.items[i].interface_id),
        address_family: family.to_owned(),
        source: "direct_interface".to_owned(),
        enabled: true,
        deletion_requested: false,
        apply_status: "checking".to_owned(),
        apply_error: None,
        desired_prefix: net.format(),
        desired_revision: 1,
        applied_prefix: None,
        gateway_status: "checking".to_owned(),
        gateway_error: None,
        access: Some(access),
    }
}

/// What a selection comes to once its network is known, or why it is refused.
pub open spec fn select_network(
    rows: Seq<NetworkView>,
    request: SharingRequest,
    i: int,
    net: IpNet,
    found: Option<int>,
) -> Result<Selected, Option<error::Refusal>> {
    let item = request.items@[i];
    let prefix = net.text();
    let id = match found {
        Some(k) => rows[k].id,
        None => request.fresh@[i]@,
    };
    if found matches Some(k) && (rows[k].desired_prefix != prefix || rows[k].deletion_requested) {
        Err(error::refusal(CONFLICT, "网段已变化或正在删除，请刷新后重试"))
    } else if found is None && !item.enabled {
        Ok(Selected { rows, change: None })
    } else {
        let changed = match found {
            Some(k) => rows[k].enabled != item.enabled,
            None => true,
        };
        if item.enabled && changed && request.verdicts@[i] is Some {
            Err(error::told(request.verdicts@[i]->0))
        } else if item.enabled && changed && collision(
            rows,
            net,
            id,
            request.tenant@,
            0,
        ) is Some {
            Err(collision(rows, net, id, request.tenant@, 0))
        } else {
            let change = Some(
                ChangeView { id, created: found is None, changed, enabled: item.enabled },
            );
            match found {
                None => Ok(
                    Selected {
                        rows: rows.push(created_network(request, i, net)),
                        change,
                    },
                ),
                Some(k) => Ok(
                    Selected {
                        rows: if changed {
                            rows.update(k, switched(rows[k], item.enabled))
                        } else {
                            rows
                        },
                        change,
                    },
                ),
            }
        }
    }
}

/// The network that an item names, or why it is refused.
pub open spec fn named_network(item: Selection) -> Result<IpNet, Option<error::Refusal>> {
    match network::ip_net_of(item.prefix@) {
        None => Err(error::refusal(BAD_REQUEST, "网段不是有效 CIDR")),
        Some(net) => match network::publish_refusal(truncated(net)) {
            Some(e) => Err(error::refusal_of(BAD_REQUEST, e.text())),
            None => Ok(truncated(net)),
        },
    }
}

/// What a selection comes to, or why it is refused.
pub open spec fn select(
    rows: Seq<NetworkView>,
    request: SharingRequest,
    seen: Seq<Seq<char>>,
    i: int,
) -> Result<Selected, Option<error::Refusal>> {
    let item = request.items@[i];
    match named_network(item) {
        Err(refusal) => Err(refusal),
        Ok(net) => {
            let found = subject(rows, item, net.text(), request.device@, request.tenant@);
            if item.id is Some && found is None {
                Err(error::refusal(NOT_FOUND, "共享网段不存在或不属于该设备"))
            } else if seen.contains(net.text()) {
                Err(error::refusal(CONFLICT, "提交的网段重复"))
            } else {
                select_network(rows, request, i, net, found)
            }
        },
    }
}

/// The prefixes of the first `n` items.
pub open spec fn seen_prefixes(items: Seq<Selection>, n: int) -> Seq<Seq<char>>
    decreases n,
{
    if n <= 0 {
        Seq::empty()
    } else {
        seen_prefixes(items, n - 1).push(named_network(items[n - 1])->Ok_0.text())
    }
}

/// The rows and the changes after the first `n` items, or why one of them is refused.
pub open spec fn saved(rows: Seq<NetworkView>, request: SharingRequest, n: int) -> Result<
    (Seq<NetworkView>, Seq<ChangeView>),
    Option<error::Refusal>,
>
    decreases n,
{
    if n <= 0 {
        Ok((rows, Seq::empty()))
    } else {
        match saved(rows, request, n - 1) {
            Err(refusal) => Err(refusal),
            Ok((before, changes)) => match select(
                before,
                request,
                seen_prefixes(request.items@, n - 1),
                n - 1,
            ) {
                Err(refusal) => Err(refusal),
                Ok(selected) => Ok(
                    (
                        selected.rows,
                        match selected.change {
                            Some(change) => changes.push(change),
                            None => changes,
                        },
                    ),
                ),
            },
        }
    }
}

proof fn lemma_saved_refused(rows: Seq<NetworkView>, request: SharingRequest, k: int, n: int)
    requires
        0 <= k <= n,
        saved(rows, request, k) is Err,
    ensures
        saved(rows, request, n) == saved(rows, request, k),
    decreases n,
{
    if n > k {
        lemma_saved_refused(rows, request, k, n - 1);
    }
}

fn find_subject(rows: &Vec<NetworkRow>, item: &Selection, prefix: &str, device: &str, tenant: &str) -> (r:
    Option<usize>)
    ensures
        match r {
            Some(k) => k < rows@.len() && subject(
                networks_of(rows@),
                *item,
                prefix@,
                device@,
                tenant@,
            ) == Some(k as int),
            None => subject(networks_of(rows@), *item, prefix@, device@, tenant@) is None,
        },
{
    let ghost all = networks_of(rows@);
    let mut i: usize = 0;
    match &item.id {
        Some(id) => {
            while i < rows.len()
                invariant
                    i <= rows@.len(),
                    all == networks_of(rows@),
                    item.id == Some(*id),
                    by_id(all, id@, device@, tenant@, 0) == by_id(
                        all,
                        id@,
                        device@,
                        tenant@,
                        i as int,
                    ),
                decreases rows@.len() - i,
            {
                assert(all[i as int] == rows@[i as int]@);
                if same(rows[i].id.as_str(), id.as_str()) && same(
                    rows[i].device_id.as_str(),
                    device,
                ) && same(rows[i].tenant_id.as_str(), tenant) {
                    assert(by_id(all, id@, device@, tenant@, 0) == Some(i as int));
                    return Some(i);
                }
                i = i + 1;
            }
        },
        None => {
            while i < rows.len()
                invariant
                    i <= rows@.len(),
                    all == networks_of(rows@),
                    item.id is None,
                    by_prefix(all, prefix@, device@, tenant@, 0) == by_prefix(
                        all,
                        prefix@,
                        device@,
                        tenant@,
                        i as int,
                    ),
                decreases rows@.len() - i,
            {
                assert(all[i as int] == rows@[i as int]@);
                if same(rows[i].desired_prefix.as_str(), prefix) && same(
                    rows[i].device_id.as_str(),
                    device,
                ) && same(rows[i].tenant_id.as_str(), tenant) {
                    assert(by_prefix(all, prefix@, device@, tenant@, 0) == Some(i as int));
                    return Some(i);
                }
                i = i + 1;
            }
        },
    }
    None
}

fn check_collision(rows: &Vec<NetworkRow>, net: IpNet, id: &str, tenant: &str) -> (r: Option<ApiError>)
    requires
        net.valid(),
    ensures
        match r {
            Some(e) => collision(networks_of(rows@), net, id@, tenant@, 0) == error::told(e),
            None => collision(networks_of(rows@), net, id@, tenant@, 0) is None,
        },
{
    let ghost all = networks_of(rows@);
    let mut i: usize = 0;
    while i < rows.len()
        invariant
            i <= rows@.len(),
            net.valid(),
            all == networks_of(rows@),
            collision(all, net, id@, tenant@, 0) == collision(all, net, id@, tenant@, i as int),
        decreases rows@.len() - i,
    {
        assert(all[i as int] == rows@[i as int]@);
        if same(rows[i].tenant_id.as_str(), tenant) && !same(rows[i].id.as_str(), id)
            && !rows[i].deletion_requested {
            match IpNet::from_str(rows[i].desired_prefix.as_str()) {
                Ok(other) => if networks_overlap(net, other) {
                    return Some(ApiError::new(CONFLICT, "网段与已有共享网段重叠"));
                },
                Err(_) => {
                    return Some(
                        ApiError::new(INTERNAL_SERVER_ERROR, "已保存网段格式无效"),
                    );
                },
            }
        }
        i = i + 1;
    }
    None
}

fn name_network(item: &Selection) -> (r: Result<IpNet, ApiError>)
    ensures
        match r {
            Ok(net) => named_network(*item) == Ok::<IpNet, Option<error::Refusal>>(net)
                && net.valid(),
            Err(e) => named_network(*item) == Err::<IpNet, _>(error::told(e)),
        },
{
    let net: IpNet = match IpNet::from_str(item.prefix.as_str()) {
        Ok(net) => net.trunc(),
        Err(_) => {
            return Err(ApiError::new(BAD_REQUEST, "网段不是有效 CIDR"));
        },
    };
    match validate_published_network(net) {
        Ok(_) => Ok(net),
        Err(e) => {
            let message: String = e.message();
            Err(ApiError::new(BAD_REQUEST, message.as_str()))
        },
    }
}

fn copy_error(e: &ApiError) -> (r: ApiError)
    ensures
        error::told(r) == error::told(*e),
{
    ApiError { status: e.status, message: e.message.clone(), code: e.code }
}

fn apply_selection(
    rows: &mut Vec<NetworkRow>,
    request: &SharingRequest,
    i: usize,
    net: IpNet,
    found: Option<usize>,
) -> (r: Result<Option<NetworkChange>, ApiError>)
    requires
        request.valid(),
        i < request.items@.len(),
        net.valid(),
        found matches Some(k) ==> k < old(rows)@.len() && old(rows)@[k as int].desired_revision
            < u64::MAX,
    ensures
        ({
            let place = match found {
                Some(k) => Some(k as int),
                None => None,
            };
            let result = select_network(networks_of(old(rows)@), *request, i as int, net, place);
            match r {
                Err(e) => result == Err::<Selected, _>(error::told(e)) && *final(rows) == *old(rows),
                Ok(change) => result matches Ok(selected) && networks_of(final(rows)@)
                    == selected.rows && selected.change == (match change {
                    Some(change) => Some(change@),
                    None => None,
                }),
            }
        }),
{
    let item: &Selection = &request.items[i];
    let prefix: String = net.format();
    let ghost all = networks_of(rows@);
    let mut changed: bool = true;
    let id: String = match found {
        Some(k) => {
            assert(all[k as int] == rows@[k as int]@);
            if !same(rows[k].desired_prefix.as_str(), prefix.as_str())
                || rows[k].deletion_requested {
                return Err(
                    ApiError::new(CONFLICT, "网段已变化或正在删除，请刷新后重试"),
                );
            }
            changed = rows[k].enabled != item.enabled;
            rows[k].id.clone()
        },
        None => {
            if !item.enabled {
                return Ok(None);
            }
            request.fresh[i].clone()
        },
    };
    if item.enabled && changed {
        if let Some(e) = &request.verdicts[i] {
            return Err(copy_error(e));
        }
        if let Some(e) = check_collision(rows, net, id.as_str(), request.tenant) {
            return Err(e);
        }
    }
    match found {
        None => {
            let row: NetworkRow = create_network(request, i, net);
            let ghost added = row@;
            rows.push(row);
            assert(networks_of(rows@) =~= all.push(added));
            Ok(Some(NetworkChange { id, created: true, changed: true, enabled: item.enabled }))
        },
        Some(k) => {
            if changed {
                let row: NetworkRow = switch(&rows[k], item.enabled);
                let ghost next = row@;
                rows.set(k, row);
                assert(networks_of(rows@) =~= all.update(k as int, next));
            }
            Ok(Some(NetworkChange { id, created: false, changed, enabled: item.enabled }))
        },
    }
}

/// How often a network can still change: each item of a request changes it once at most.
pub open spec fn revisions_left(rows: Seq<NetworkView>, n: int) -> bool {
    forall|i: int| 0 <= i < rows.len() ==> (#[trigger] rows[i]).desired_revision + n <= u64::MAX
}

/// The changes of a list.
pub open spec fn changes_of(list: Seq<NetworkChange>) -> Seq<ChangeView> {
    Seq::new(list.len(), |i: int| list[i]@)
}

fn save_all(rows: &mut Vec<NetworkRow>, request: &SharingRequest) -> (r: Result<
    Vec<NetworkChange>,
    ApiError,
>)
    requires
        request.valid(),
        revisions_left(networks_of(old(rows)@), request.items@.len() as int),
        request.items@.len() < u64::MAX,
    ensures
        match r {
            Err(e) => saved(networks_of(old(rows)@), *request, request.items@.len() as int) == Err::<
                (Seq<NetworkView>, Seq<ChangeView>),
                _,
            >(error::told(e)),
            Ok(changes) => saved(networks_of(old(rows)@), *request, request.items@.len() as int)
                == Ok::<(Seq<NetworkView>, Seq<ChangeView>), Option<error::Refusal>>(
                (networks_of(final(rows)@), changes_of(changes@)),
            ),
        },
{
    let ghost start = networks_of(rows@);
    let ghost total = request.items@.len() as int;
    let mut changes: Vec<NetworkChange> = Vec::new();
    let mut seen: Vec<String> = Vec::new();
    let mut i: usize = 0;
    assert(changes_of(changes@) =~= Seq::<ChangeView>::empty());
    assert(text::views(seen@) =~= seen_prefixes(request.items@, 0));
    while i < request.items.len()
        invariant
            request.valid(),
            i <= request.items@.len(),
            total == request.items@.len(),
            total < u64::MAX,
            start == networks_of(old(rows)@),
            revisions_left(networks_of(rows@), total - i),
            text::views(seen@) == seen_prefixes(request.items@, i as int),
            saved(start, *request, i as int) == Ok::<
                (Seq<NetworkView>, Seq<ChangeView>),
                Option<error::Refusal>,
            >((networks_of(rows@), changes_of(changes@))),
        decreases request.items@.len() - i,
    {
        let item: &Selection = &request.items[i];
        let ghost all = networks_of(rows@);
        let ghost told = changes_of(changes@);
        let net: IpNet = match name_network(item) {
            Ok(net) => net,
            Err(e) => {
                proof {
                    assert(saved(start, *request, i + 1) is Err);
                    lemma_saved_refused(start, *request, i + 1, total);
                }
                return Err(e);
            },
        };
        let prefix: String = net.format();
        let found: Option<usize> = find_subject(
            rows,
            item,
            prefix.as_str(),
            request.device,
            request.tenant,
        );
        if item.id.is_some() && found.is_none() {
            proof {
                assert(saved(start, *request, i + 1) is Err);
                lemma_saved_refused(start, *request, i + 1, total);
            }
            return Err(ApiError::new(NOT_FOUND, "共享网段不存在或不属于该设备"));
        }
        if holds(&seen, prefix.as_str()) {
            proof {
                assert(saved(start, *request, i + 1) is Err);
                lemma_saved_refused(start, *request, i + 1, total);
            }
            return Err(ApiError::new(CONFLICT, "提交的网段重复"));
        }
        proof {
            if found is Some {
                assert(all[found->0 as int].desired_revision + (total - i) <= u64::MAX);
            }
        }
        match apply_selection(rows, request, i, net, found) {
            Ok(change) => {
                if let Some(change) = change {
                    let ghost shown = change@;
                    changes.push(change);
                    assert(changes_of(changes@) =~= told.push(shown));
                }
            },
            Err(e) => {
                proof {
                    assert(saved(start, *request, i + 1) is Err);
                    lemma_saved_refused(start, *request, i + 1, total);
                }
                return Err(e);
            },
        }
        proof {
            let after = networks_of(rows@);
            assert forall|j: int| 0 <= j < after.len() implies (#[trigger] after[j]).desired_revision
                + (total - (i + 1)) <= u64::MAX by {
                if j < all.len() {
                    assert(all[j].desired_revision + (total - i) <= u64::MAX);
                }
            }
        }
        let ghost names = text::views(seen@);
        seen.push(prefix);
        assert(text::views(seen@) =~= names.push(net.text()));
        i = i + 1;
    }
    Ok(changes)
}

/// Why a device cannot share networks at all, if that is so: `agent` says of a device that is there
/// whether it runs the agent.
pub open spec fn device_refusal(agent: Option<bool>) -> Option<error::Refusal> {
    match agent {
        None => error::refusal(NOT_FOUND, "设备不存在"),
        Some(false) => error::refusal(CONFLICT, "请选择 Nexo Agent 承载共享网段"),
        Some(true) => None,
    }
}

fn copy_rows(rows: &Vec<NetworkRow>) -> (r: Vec<NetworkRow>)
    ensures
        networks_of(r@) == networks_of(rows@),
{
    let mut copy: Vec<NetworkRow> = Vec::new();
    let mut i: usize = 0;
    while i < rows.len()
        invariant
            i <= rows@.len(),
            copy@.len() == i,
            forall|j: int| 0 <= j < i ==> (#[trigger] copy@[j])@ == rows@[j]@,
        decreases rows@.len() - i,
    {
        copy.push(copy_row(&rows[i]));
        i = i + 1;
    }
    assert(networks_of(copy@) =~= networks_of(rows@));
    copy
}

/// Deals with the networks that a request names, one after the other. Where one is refused, nothing
/// changes.
pub fn save(rows: &mut Vec<NetworkRow>, agent: Option<bool>, request: &SharingRequest) -> (r: Result<
    Vec<NetworkChange>,
    ApiError,
>)
    requires
        request.valid(),
        revisions_left(networks_of(old(rows)@), request.items@.len() as int),
        request.items@.len() < u64::MAX,
    ensures
        ({
            let result = saved(networks_of(old(rows)@), *request, request.items@.len() as int);
            match r {
                Err(e) => networks_of(final(rows)@) == networks_of(old(rows)@) && (if device_refusal(
                    agent,
                ) is Some {
                    device_refusal(agent) == error::told(e)
                } else {
                    result == Err::<(Seq<NetworkView>, Seq<ChangeView>), _>(error::told(e))
                }),
                Ok(changes) => device_refusal(agent) is None && result == Ok::<
                    (Seq<NetworkView>, Seq<ChangeView>),
                    Option<error::Refusal>,
                >((networks_of(final(rows)@), changes_of(changes@))),
            }
        }),
{
    match agent {
        None => {
            return Err(ApiError::new(NOT_FOUND, "设备不存在"));
        },
        Some(runs) => {
            if !runs {
                return Err(ApiError::new(CONFLICT, "请选择 Nexo Agent 承载共享网段"));
            }
        },
    }
    let mut next: Vec<NetworkRow> = copy_rows(rows);
    match save_all(&mut next, request) {
        Ok(changes) => {
            *rows = next;
            Ok(changes)
        },
        Err(e) => Err(e),
    }
}

/// What is recorded of a network of a workspace.
#[derive(Debug, Clone)]
pub struct NetworkEvent {
    pub tenant_id: String,
    pub event_type: String,
    pub resource_type: String,
    pub resource_id: String,
}

/// What is recorded of a network of a workspace.
pub ghost struct EventView {
    pub tenant_id: Seq<char>,
    pub event_type: Seq<char>,
    pub resource_type: Seq<char>,
    pub resource_id: Seq<char>,
}

impl View for NetworkEvent {
    type V = EventView;

    open spec fn view(&self) -> EventView {
        EventView {
            tenant_id: self.tenant_id@,
            event_type: self.event_type@,
            resource_type: self.resource_type@,
            resource_id: self.resource_id@,
        }
    }
}

/// The event of a kind about a network.
pub open spec fn network_event(kind: Seq<char>, id: Seq<char>, tenant: Seq<char>) -> EventView {
    EventView {
        tenant_id: tenant,
        event_type: kind,
        resource_type: "site_network"@,
        resource_id: id,
    }
}

fn make_event(kind: &str, id: &str, tenant: &str) -> (r: NetworkEvent)
    ensures
        r@ == network_event(kind@, id@, tenant@),
{
    NetworkEvent {
        tenant_id: tenant.to_owned(),
        event_type: kind.to_owned(),
        resource_type: "site_network".to_owned(),
        resource_id: id.to_owned(),
    }
}

/// What is recorded of the first `n` networks that a request has dealt with, in order: each that was
/// created, switched on or switched off.
pub open spec fn events_of(changes: Seq<ChangeView>, tenant: Seq<char>, n: int) -> Seq<EventView>
    decreases n,
{
    if n <= 0 {
        Seq::empty()
    } else if changes[n - 1].changed {
        events_of(changes, tenant, n - 1).push(
            network_event(
                if changes[n - 1].enabled {
                    "SUBNET_ENABLED"@
                } else {
                    "SUBNET_DISABLED"@
                },
                changes[n - 1].id,
                tenant,
            ),
        )
    } else {
        events_of(changes, tenant, n - 1)
    }
}

/// What is recorded of the networks that a request has dealt with.
pub fn change_events(changes: &Vec<NetworkChange>, tenant: &str) -> (r: Vec<NetworkEvent>)
    ensures
        Seq::new(r@.len(), |i: int| r@[i]@) == events_of(
            changes_of(changes@),
            tenant@,
            changes@.len() as int,
        ),
{
    let ghost all = changes_of(changes@);
    let mut events: Vec<NetworkEvent> = Vec::new();
    let mut i: usize = 0;
    assert(Seq::new(events@.len(), |j: int| events@[j]@) =~= events_of(all, tenant@, 0));
    while i < changes.len()
        invariant
            i <= changes@.len(),
            all == changes_of(changes@),
            Seq::new(events@.len(), |j: int| events@[j]@) == events_of(all, tenant@, i as int),
        decreases changes@.len() - i,
    {
        assert(all[i as int] == changes@[i as int]@);
        if changes[i].changed {
            let ghost before = Seq::new(events@.len(), |j: int| events@[j]@);
            let kind: &'static str = if changes[i].enabled {
                "SUBNET_ENABLED"
            } else {
                "SUBNET_DISABLED"
            };
            let event: NetworkEvent = make_event(kind, changes[i].id.as_str(), tenant);
            let ghost shown = event@;
            events.push(event);
            assert(Seq::new(events@.len(), |j: int| events@[j]@) =~= before.push(shown));
        }
        i = i + 1;
    }
    events
}

/// What is recorded of a network that is checked anew.
pub fn recheck_event(id: &str, tenant: &str) -> (r: NetworkEvent)
    ensures
        r@ == network_event("SUBNET_RECHECK"@, id@, tenant@),
{
    make_event("SUBNET_RECHECK", id, tenant)
}

/// As many new identifiers as a request has items.
pub fn fresh_ids(count: usize) -> (r: Vec<String>)
    ensures
        r@.len() == count,
        forall|i: int| 0 <= i < count ==> digest::uuid_text((#[trigger] r@[i])@),
{
    let mut ids: Vec<String> = Vec::new();
    let mut i: usize = 0;
    while i < count
        invariant
            i <= count,
            ids@.len() == i,
            forall|j: int| 0 <= j < i ==> digest::uuid_text((#[trigger] ids@[j])@),
        decreases count - i,
    {
        ids.push(new_uuid());
        i = i + 1;
    }
    ids
}

/// A request leaves every network alone that is not of its device: it stays where it is, as it is.
pub proof fn other_devices_keep_their_networks(
    rows: Seq<NetworkView>,
    request: SharingRequest,
    n: int,
    k: int,
)
    requires
        0 <= k < rows.len(),
        0 <= n,
        rows[k].device_id != request.device@,
        saved(rows, request, n) is Ok,
    ensures
        saved(rows, request, n)->Ok_0.0.len() > k,
        (saved(rows, request, n)->Ok_0).0[k] == rows[k],
    decreases n,
{
    if n > 0 {
        other_devices_keep_their_networks(rows, request, n - 1, k);
        let before = (saved(rows, request, n - 1)->Ok_0).0;
        let item = request.items@[n - 1];
        let net = named_network(item)->Ok_0;
        match item.id {
            Some(id) => {
                lemma_by_id(before, id@, request.device@, request.tenant@, 0);
            },
            None => {
                lemma_by_prefix(before, net.text(), request.device@, request.tenant@, 0);
            },
        }
    }
}

proof fn lemma_by_id(
    rows: Seq<NetworkView>,
    id: Seq<char>,
    device: Seq<char>,
    tenant: Seq<char>,
    i: int,
)
    requires
        0 <= i,
    ensures
        by_id(rows, id, device, tenant, i) matches Some(k) ==> i <= k < rows.len()
            && rows[k].device_id == device && rows[k].id == id && rows[k].tenant_id == tenant,
        by_id(rows, id, device, tenant, i) is None ==> forall|k: int|
            i <= k < rows.len() ==> !((#[trigger] rows[k]).id == id && rows[k].device_id == device
                && rows[k].tenant_id == tenant),
    decreases rows.len() - i,
{
    if i < rows.len() {
        lemma_by_id(rows, id, device, tenant, i + 1);
    }
}

proof fn lemma_by_prefix(
    rows: Seq<NetworkView>,
    prefix: Seq<char>,
    device: Seq<char>,
    tenant: Seq<char>,
    i: int,
)
    requires
        0 <= i,
    ensures
        by_prefix(rows, prefix, device, tenant, i) matches Some(k) ==> i <= k < rows.len()
            && rows[k].device_id == device && rows[k].desired_prefix == prefix && rows[k].tenant_id
            == tenant,
        by_prefix(rows, prefix, device, tenant, i) is None ==> forall|k: int|
            i <= k < rows.len() ==> !((#[trigger] rows[k]).desired_prefix == prefix
                && rows[k].device_id == device && rows[k].tenant_id == tenant),
    decreases rows.len() - i,
{
    if i < rows.len() {
        lemma_by_prefix(rows, prefix, device, tenant, i + 1);
    }
}

/// A network that passes the check for collisions shares no address with any other network of its
/// workspace that is not about to go.
pub proof fn shared_networks_stay_apart(
    rows: Seq<NetworkView>,
    net: IpNet,
    id: Seq<char>,
    tenant: Seq<char>,
    i: int,
    k: int,
)
    requires
        0 <= i <= k < rows.len(),
        collision(rows, net, id, tenant, i) is None,
        rows[k].tenant_id == tenant,
        rows[k].id != id,
        !rows[k].deletion_requested,
    ensures
        network::ip_net_of(rows[k].desired_prefix) matches Some(other) && !net.overlaps(other),
    decreases k - i,
{
    if i < k {
        shared_networks_stay_apart(rows, net, id, tenant, i + 1, k);
    }
}

/// What the host of a device is asked before it shares a network: whether it can carry the prefix on
/// an interface, and whether it has to see the network there itself.
#[derive(Debug, Clone)]
pub struct HostQuestion {
    pub interface_id: Option<String>,
    pub prefix: String,
    pub require_detected: bool,
}

/// What the host of a device is asked.
pub ghost struct QuestionView {
    pub interface_id: Option<Seq<char>>,
    pub prefix: Seq<char>,
    pub require_detected: bool,
}

impl View for HostQuestion {
    type V = QuestionView;

    open spec fn view(&self) -> QuestionView {
        QuestionView {
            interface_id: text::opt(self.interface_id),
            prefix: self.prefix@,
            require_detected: self.require_detected,
        }
    }
}

/// What the host is asked about an item of a request: something only where the network is switched
/// on. A stored network is carried on its own interface, where it has one; only a network that was
/// entered by hand need not be seen by the host.
pub open spec fn question_about(
    rows: Seq<NetworkView>,
    item: Selection,
    device: Seq<char>,
    tenant: Seq<char>,
) -> Option<QuestionView> {
    match named_network(item) {
        Err(_) => None,
        Ok(net) => {
            let found = subject(rows, item, net.text(), device, tenant);
            let changed = match found {
                Some(k) => rows[k].enabled != item.enabled,
                None => true,
            };
            if item.enabled && changed {
                Some(
                    QuestionView {
                        interface_id: match found {
                            Some(k) if rows[k].interface_id is Some => rows[k].interface_id,
                            _ => text::opt(item.interface_id),
                        },
                        prefix: net.text(),
                        require_detected: match found {
                            Some(k) => rows[k].source != "manual"@,
                            None => true,
                        },
                    },
                )
            } else {
                None
            }
        },
    }
}

/// What the host is asked about an item of a request.
pub fn host_question(rows: &Vec<NetworkRow>, item: &Selection, device: &str, tenant: &str) -> (r:
    Option<HostQuestion>)
    ensures
        (match r {
            Some(question) => Some(question@),
            None => None,
        }) == question_about(networks_of(rows@), *item, device@, tenant@),
{
    let net: IpNet = match name_network(item) {
        Ok(net) => net,
        Err(_) => {
            return None;
        },
    };
    let prefix: String = net.format();
    match find_subject(rows, item, prefix.as_str(), device, tenant) {
        Some(k) => {
            let row: &NetworkRow = &rows[k];
            assert(networks_of(rows@)[k as int] == row@);
            if !item.enabled || row.enabled {
                return None;
            }
            let interface_id: Option<String> = match &row.interface_id {
                Some(interface) => Some(interface.clone()),
                None => copy_opt(&item.interface_id),
            };
            let require_detected: bool = !same(row.source.as_str(), "manual");
            Some(HostQuestion { interface_id, prefix, require_detected })
        },
        None => {
            if !item.enabled {
                return None;
            }
            let interface_id: Option<String> = copy_opt(&item.interface_id);
            Some(HostQuestion { interface_id, prefix, require_detected: true })
        },
    }
}

/// The host decides only where it is asked: where there is no question about an item, whatever it
/// says of the item makes no difference.
pub proof fn hosts_decide_only_where_they_are_asked(
    rows: Seq<NetworkView>,
    request: SharingRequest,
    other: SharingRequest,
    seen: Seq<Seq<char>>,
    i: int,
)
    requires
        other.tenant@ == request.tenant@,
        other.device@ == request.device@,
        other.items@ == request.items@,
        other.fresh@ == request.fresh@,
        other.fresh_access@ == request.fresh_access@,
        0 <= i < request.items@.len(),
        question_about(rows, request.items@[i], request.device@, request.tenant@) is None,
    ensures
        select(rows, request, seen, i) == select(rows, other, seen, i),
{
}

/// The position of the first network from position `i` on that a workspace has under an identifier.
pub open spec fn owned_from(rows: Seq<NetworkView>, id: Seq<char>, tenant: Seq<char>, i: int) -> Option<
    int,
>
    decreases rows.len() - i,
{
    if i < 0 || i >= rows.len() {
        None
    } else if rows[i].id == id && rows[i].tenant_id == tenant {
        Some(i)
    } else {
        owned_from(rows, id, tenant, i + 1)
    }
}

/// Has a shared network checked anew: the next revision.
pub fn recheck(rows: &mut Vec<NetworkRow>, id: &str, tenant: &str) -> (r: Result<(), ApiError>)
    requires
        revisions_left(networks_of(old(rows)@), 1),
    ensures
        match r {
            Ok(_) => owned_from(networks_of(old(rows)@), id@, tenant@, 0) matches Some(k)
                && networks_of(final(rows)@) == networks_of(old(rows)@).update(
                k,
                requested_again(networks_of(old(rows)@)[k]),
            ),
            Err(e) => owned_from(networks_of(old(rows)@), id@, tenant@, 0) is None && error::told(e)
                == error::refusal(NOT_FOUND, "共享网段不存在") && *final(rows) == *old(rows),
        },
{
    let ghost all = networks_of(rows@);
    let mut i: usize = 0;
    while i < rows.len()
        invariant
            i <= rows@.len(),
            rows@ == old(rows)@,
            *rows == *old(rows),
            all == networks_of(rows@),
            revisions_left(all, 1),
            owned_from(all, id@, tenant@, 0) == owned_from(all, id@, tenant@, i as int),
        decreases rows@.len() - i,
    {
        assert(all[i as int] == rows@[i as int]@);
        if same(rows[i].id.as_str(), id) && same(rows[i].tenant_id.as_str(), tenant) {
            let row: NetworkRow = request_again(&rows[i]);
            let ghost next = row@;
            rows.set(i, row);
            assert(networks_of(rows@) =~= all.update(i as int, next));
            return Ok(());
        }
        i = i + 1;
    }
    Err(ApiError::new(NOT_FOUND, "共享网段不存在"))
}

/// Whether a network of a device has the prefix that an item is about and the state that it asks for.
spec fn carried_out(row: NetworkView, item: Selection, prefix: Seq<char>, device: Seq<char>, tenant: Seq<char>) -> bool {
    &&& row.device_id == device && row.tenant_id == tenant && row.desired_prefix == prefix
    &&& !row.deletion_requested
    &&& row.enabled == item.enabled
    &&& item.id matches Some(id) ==> row.id == id@
}

/// Whether rows are as an item asks for.
spec fn settled(rows: Seq<NetworkView>, item: Selection, prefix: Seq<char>, device: Seq<char>, tenant: Seq<char>) -> bool {
    (exists|k: int|
        0 <= k < rows.len() && carried_out(#[trigger] rows[k], item, prefix, device, tenant)) || (
    item.id is None && !item.enabled && forall|k: int|
        0 <= k < rows.len() ==> !((#[trigger] rows[k]).desired_prefix == prefix
            && rows[k].device_id == device && rows[k].tenant_id == tenant))
}

/// An item of a request changes at most the row that it is about. A row that it changes is switched as
/// the item says, in its next revision, and everything is checked anew; what else is stored of it
/// stays. A row that it adds is switched on. What is told of the item is what was done.
pub proof fn items_change_their_own_network(
    rows: Seq<NetworkView>,
    request: SharingRequest,
    seen: Seq<Seq<char>>,
    i: int,
)
    requires
        select(rows, request, seen, i) is Ok,
    ensures
        ({
            let item = request.items@[i];
            let done = select(rows, request, seen, i)->Ok_0;
            let after = done.rows;
            let prefix = named_network(item)->Ok_0.text();
            &&& rows.len() <= after.len() <= rows.len() + 1
            &&& forall|k: int|
                0 <= k < rows.len() ==> {
                    let row = #[trigger] rows[k];
                    let next = after[k];
                    &&& next.id == row.id && next.tenant_id == row.tenant_id && next.device_id
                        == row.device_id && next.desired_prefix == row.desired_prefix
                    &&& next.name == row.name && next.source == row.source && next.interface_id
                        == row.interface_id && next.access == row.access
                    &&& next.deletion_requested == row.deletion_requested
                    &&& next != row ==> row.desired_prefix == prefix && row.device_id
                        == request.device@ && row.tenant_id == request.tenant@ && row.enabled
                        != item.enabled && next.enabled == item.enabled && next.desired_revision
                        == row.desired_revision + 1 && next.apply_status == "checking"@
                        && next.gateway_status == "checking"@ && next.apply_error is None
                        && next.gateway_error is None && next.applied_prefix is None
                }
            &&& after.len() > rows.len() ==> item.enabled && item.id is None && ({
                let row = after[rows.len() as int];
                &&& row.enabled && row.desired_prefix == prefix && row.device_id
                    == request.device@ && row.tenant_id == request.tenant@
                &&& row.id == request.fresh@[i]@ && row.desired_revision == 1
                    && !row.deletion_requested && row.apply_status == "checking"@
                    && row.gateway_status == "checking"@ && row.applied_prefix is None
                    && row.apply_error is None && row.gateway_error is None
                &&& row.interface_id == text::opt(item.interface_id) && row.source
                    == "direct_interface"@ && row.name == prefix
                &&& row.access matches Some(access) && access.enabled && access.network_id
                    == row.id && access.tenant_id == request.tenant@ && access.scope
                    == "tenant_mesh"@ && access.id == request.fresh_access@[i]@
            })
            &&& done.change matches Some(change) ==> {
                &&& change.enabled == item.enabled
                &&& change.created <==> after.len() > rows.len()
                &&& change.changed <==> after != rows
                &&& exists|k: int|
                    0 <= k < after.len() && (#[trigger] after[k]).id == change.id
                        && after[k].enabled == change.enabled
            }
            &&& done.change is None ==> after == rows && item.id is None && !item.enabled
        }),
{
    let item = request.items@[i];
    let net = named_network(item)->Ok_0;
    let done = select(rows, request, seen, i)->Ok_0;
    lemma_subject(rows, item, net.text(), request.device@, request.tenant@);
    match subject(rows, item, net.text(), request.device@, request.tenant@) {
        Some(k) => {
            assert(done.rows[k].enabled == item.enabled);
            if rows[k].enabled != item.enabled {
                assert(done.rows[k] != rows[k]);
            }
        },
        None => {
            if item.enabled {
                assert(done.rows[rows.len() as int].enabled);
                assert(done.rows.len() != rows.len());
            }
        },
    }
}

proof fn lemma_subject(
    rows: Seq<NetworkView>,
    item: Selection,
    prefix: Seq<char>,
    device: Seq<char>,
    tenant: Seq<char>,
)
    ensures
        subject(rows, item, prefix, device, tenant) matches Some(k) ==> 0 <= k < rows.len()
            && rows[k].device_id == device && rows[k].tenant_id == tenant && (item.id matches Some(
            id,
        ) ==> rows[k].id == id@) && (item.id is None ==> rows[k].desired_prefix == prefix),
        subject(rows, item, prefix, device, tenant) is None && item.id is None ==> forall|k: int|
            0 <= k < rows.len() ==> !((#[trigger] rows[k]).desired_prefix == prefix
                && rows[k].device_id == device && rows[k].tenant_id == tenant),
{
    match item.id {
        Some(id) => {
            lemma_by_id(rows, id@, device, tenant, 0);
        },
        None => {
            lemma_by_prefix(rows, prefix, device, tenant, 0);
        },
    }
}

proof fn lemma_settled(
    rows: Seq<NetworkView>,
    request: SharingRequest,
    seen: Seq<Seq<char>>,
    i: int,
)
    requires
        select(rows, request, seen, i) is Ok,
    ensures
        settled(
            (select(rows, request, seen, i)->Ok_0).rows,
            request.items@[i],
            named_network(request.items@[i])->Ok_0.text(),
            request.device@,
            request.tenant@,
        ),
        !seen.contains(named_network(request.items@[i])->Ok_0.text()),
{
    let item = request.items@[i];
    let net = named_network(item)->Ok_0;
    let after = (select(rows, request, seen, i)->Ok_0).rows;
    lemma_subject(rows, item, net.text(), request.device@, request.tenant@);
    match subject(rows, item, net.text(), request.device@, request.tenant@) {
        Some(k) => {
            assert(carried_out(after[k], item, net.text(), request.device@, request.tenant@));
        },
        None => {
            if item.enabled {
                assert(carried_out(
                    after[rows.len() as int],
                    item,
                    net.text(),
                    request.device@,
                    request.tenant@,
                ));
            }
        },
    }
}

proof fn lemma_stays_settled(
    rows: Seq<NetworkView>,
    request: SharingRequest,
    seen: Seq<Seq<char>>,
    i: int,
    item: Selection,
    prefix: Seq<char>,
)
    requires
        select(rows, request, seen, i) is Ok,
        seen.contains(prefix),
        settled(rows, item, prefix, request.device@, request.tenant@),
    ensures
        settled(
            (select(rows, request, seen, i)->Ok_0).rows,
            item,
            prefix,
            request.device@,
            request.tenant@,
        ),
{
    items_change_their_own_network(rows, request, seen, i);
    lemma_settled(rows, request, seen, i);
    let after = (select(rows, request, seen, i)->Ok_0).rows;
    if exists|k: int|
        0 <= k < rows.len() && carried_out(
            #[trigger] rows[k],
            item,
            prefix,
            request.device@,
            request.tenant@,
        ) {
        let k = choose|k: int|
            0 <= k < rows.len() && carried_out(
                #[trigger] rows[k],
                item,
                prefix,
                request.device@,
                request.tenant@,
            );
        assert(after[k] == rows[k]);
        assert(carried_out(after[k], item, prefix, request.device@, request.tenant@));
    } else {
        assert forall|k: int| 0 <= k < after.len() implies !((
        #[trigger] after[k]).desired_prefix == prefix && after[k].device_id == request.device@
            && after[k].tenant_id == request.tenant@) by {
            if k < rows.len() {
                assert(rows[k].desired_prefix == after[k].desired_prefix);
            }
        }
    }
}

proof fn lemma_all_settled(rows: Seq<NetworkView>, request: SharingRequest, n: int, i: int)
    requires
        0 <= i < n,
        saved(rows, request, n) is Ok,
    ensures
        named_network(request.items@[i]) is Ok,
        settled(
            (saved(rows, request, n)->Ok_0).0,
            request.items@[i],
            named_network(request.items@[i])->Ok_0.text(),
            request.device@,
            request.tenant@,
        ),
        seen_prefixes(request.items@, n).contains(
            named_network(request.items@[i])->Ok_0.text(),
        ),
    decreases n,
{
    let before = (saved(rows, request, n - 1)->Ok_0).0;
    let seen = seen_prefixes(request.items@, n - 1);
    let all = seen_prefixes(request.items@, n);
    let prefix = named_network(request.items@[i])->Ok_0.text();
    lemma_settled(before, request, seen, n - 1);
    if i < n - 1 {
        lemma_all_settled(rows, request, n - 1, i);
        lemma_stays_settled(before, request, seen, n - 1, request.items@[i], prefix);
        let j = choose|j: int| 0 <= j < seen.len() && seen[j] == prefix;
        assert(all[j] == prefix);
    } else {
        assert(all[all.len() - 1] == prefix);
    }
}

/// After a request that is accepted, every network that it names is switched as it says: an item with
/// an identifier leaves the network of the device under that identifier on or off as the item says;
/// an item without one that switches on leaves a network of the device with its prefix that is on,
/// and one that switches off leaves it off, or there is none.
pub proof fn requests_are_carried_out(rows: Seq<NetworkView>, request: SharingRequest, i: int)
    requires
        0 <= i < request.items@.len(),
        saved(rows, request, request.items@.len() as int) is Ok,
    ensures
        ({
            let item = request.items@[i];
            let after = (saved(rows, request, request.items@.len() as int)->Ok_0).0;
            let prefix = named_network(item)->Ok_0.text();
            &&& item.id matches Some(id) ==> exists|k: int|
                0 <= k < after.len() && (#[trigger] after[k]).id == id@ && after[k].device_id
                    == request.device@ && after[k].tenant_id == request.tenant@
                    && after[k].desired_prefix == prefix && after[k].enabled == item.enabled
            &&& item.enabled ==> exists|k: int|
                0 <= k < after.len() && (#[trigger] after[k]).desired_prefix == prefix
                    && after[k].device_id == request.device@ && after[k].tenant_id
                    == request.tenant@ && after[k].enabled && !after[k].deletion_requested
            &&& !item.enabled && item.id is None ==> (exists|k: int|
                0 <= k < after.len() && (#[trigger] after[k]).desired_prefix == prefix
                    && after[k].device_id == request.device@ && after[k].tenant_id
                    == request.tenant@ && !after[k].enabled) || (forall|k: int|
                0 <= k < after.len() ==> !((#[trigger] after[k]).desired_prefix == prefix
                    && after[k].device_id == request.device@ && after[k].tenant_id
                    == request.tenant@))
        }),
{
    let n = request.items@.len() as int;
    lemma_all_settled(rows, request, n, i);
    let item = request.items@[i];
    let after = (saved(rows, request, n)->Ok_0).0;
    let prefix = named_network(item)->Ok_0.text();
    if exists|k: int|
        0 <= k < after.len() && carried_out(
            #[trigger] after[k],
            item,
            prefix,
            request.device@,
            request.tenant@,
        ) {
        let k = choose|k: int|
            0 <= k < after.len() && carried_out(
                #[trigger] after[k],
                item,
                prefix,
                request.device@,
                request.tenant@,
            );
        assert(after[k].enabled == item.enabled);
    }
}

/// An item is about the network that its prefix writes, under its first address; one that is no
/// network or may not be shared is refused.
pub proof fn items_name_whole_networks(item: Selection)
    ensures
        named_network(item) matches Ok(net) ==> {
            &&& network::ip_net_of(item.prefix@) matches Some(asked) && net.prefix_len
                == asked.prefix_len && net.addr == asked.first_addr()
            &&& network::publish_refusal(net) is None
        },
        network::ip_net_of(item.prefix@) is None ==> named_network(item) is Err,
{
}

/// A network that an item switches on shares no address with another network of the workspace that is
/// not being deleted, whichever device it is of and whether it is on or off.
pub proof fn networks_that_are_switched_on_stay_apart(
    rows: Seq<NetworkView>,
    request: SharingRequest,
    seen: Seq<Seq<char>>,
    i: int,
    k: int,
)
    requires
        select(rows, request, seen, i) is Ok,
        (select(rows, request, seen, i)->Ok_0).rows != rows,
        request.items@[i].enabled,
        0 <= k < rows.len(),
        rows[k].tenant_id == request.tenant@,
        !rows[k].deletion_requested,
        (select(rows, request, seen, i)->Ok_0).change matches Some(change) && change.id
            != rows[k].id,
    ensures
        network::ip_net_of(rows[k].desired_prefix) matches Some(other) && !named_network(
            request.items@[i],
        )->Ok_0.overlaps(other),
{
    let item = request.items@[i];
    let net = named_network(item)->Ok_0;
    lemma_subject(rows, item, net.text(), request.device@, request.tenant@);
    let found = subject(rows, item, net.text(), request.device@, request.tenant@);
    let id = match found {
        Some(at) => rows[at].id,
        None => request.fresh@[i]@,
    };
    shared_networks_stay_apart(rows, net, id, request.tenant@, 0, k);
}

/// A network that is checked anew gets its next revision, and what its gateway reported is forgotten.
/// Whether it is on, its prefix and whose it is stay.
pub proof fn checking_again_keeps_the_network(row: NetworkView)
    ensures
        ({
            let next = requested_again(row);
            &&& next.desired_revision == row.desired_revision + 1
            &&& next.applied_prefix is None && next.gateway_error is None && next.gateway_status
                == "checking"@
            &&& next.enabled == row.enabled && next.desired_prefix == row.desired_prefix
            &&& next.id == row.id && next.tenant_id == row.tenant_id && next.device_id
                == row.device_id && next.name == row.name && next.source == row.source
            &&& next.interface_id == row.interface_id && next.access == row.access
                && next.deletion_requested == row.deletion_requested
            &&& next.apply_status == row.apply_status && next.apply_error == row.apply_error
        }),
{
}

/// What is shown of a network: whether it is off, then whether its device can be reached, then what the
/// host lacks for it, and only then whether it was applied and works.
pub proof fn reasons_name_what_is_missing(
    network: SiteNetworkResponse,
    online: bool,
    report: Option<GatewayCapabilityReport>,
)
    ensures
        network.apply_status is Disabled ==> reason(network, online, report) == "disabled"@,
        !(network.apply_status is Disabled) && !online ==> reason(network, online, report)
            == "device_offline"@,
        !(network.apply_status is Disabled) && online && !network.enabled ==> reason(
            network,
            online,
            report,
        ) == "disabling"@,
        !(network.apply_status is Disabled) && online && network.enabled && report is Some
            && network::ip_net_of(network.desired_prefix@) is Some && network::ip_net_of(
            network.desired_prefix@,
        )->0.addr is V4 && !report->0.ipv4_forwarding ==> reason(network, online, report)
            == "ipv4_forwarding_disabled"@,
        !(network.apply_status is Disabled) && online && network.enabled && report is Some
            && network::ip_net_of(network.desired_prefix@) is Some && network::ip_net_of(
            network.desired_prefix@,
        )->0.addr is V6 && !report->0.ipv6_forwarding ==> reason(network, online, report)
            == "ipv6_forwarding_disabled"@,
        online && network.enabled && report is None && network.apply_status is Ready
            && network.health_status is Ready ==> reason(network, online, report) == "ready"@,
        online && network.enabled && report is None && network.apply_status is Failed ==> reason(
            network,
            online,
            report,
        ) == "apply_failed"@,
        online && network.enabled && report is None && network.apply_status is Checking
            && !(network.health_status is Failed) ==> reason(network, online, report)
            == "applying"@,
{
}

/// A detected network is missing where the host does not report it any more; one that was set by hand
/// never is.
pub proof fn detected_networks_can_be_missing(
    network: SiteNetworkResponse,
    report: GatewayCapabilityReport,
)
    requires
        report.ipv4_forwarding,
        report.ipv6_forwarding,
    ensures
        host_reason(network, report) is Some <==> network.source@ == "detected"@ && forall|i: int|
            0 <= i < report.local_networks@.len() ==> (#[trigger] report.local_networks@[i]).prefix@
                != network.desired_prefix@,
        host_reason(network, report) is Some ==> host_reason(network, report) == Some(
            "network_missing"@,
        ),
{
}

proof fn lemma_owned_place(rows: Seq<NetworkView>, id: Seq<char>, tenant: Seq<char>, i: int)
    requires
        0 <= i <= rows.len(),
    ensures
        owned_from(rows, id, tenant, i) is Some ==> i <= owned_from(rows, id, tenant, i)->0
            < rows.len() && rows[owned_from(rows, id, tenant, i)->0].id == id && rows[owned_from(
            rows,
            id,
            tenant,
            i,
        )->0].tenant_id == tenant,
        owned_from(rows, id, tenant, i) is None <==> forall|k: int|
            i <= k < rows.len() ==> (#[trigger] rows[k]).id != id || rows[k].tenant_id != tenant,
    decreases rows.len() - i,
{
    if i < rows.len() {
        lemma_owned_place(rows, id, tenant, i + 1);
    }
}

/// A network is checked again for the workspace that has it: it keeps what was asked for, is asked for
/// in the next revision, and no other network changes.
pub proof fn networks_are_checked_again_for_their_workspace(
    rows: &mut Vec<NetworkRow>,
    id: &str,
    tenant: &str,
    r: Result<(), ApiError>,
)
    requires
        call_ensures(recheck, (rows, id, tenant), r),
    ensures
        r is Err ==> *final(rows) == *old(rows) && r->Err_0.status == 404,
        r is Ok ==> exists|k: int|
            0 <= k < old(rows)@.len() && (#[trigger] networks_of(old(rows)@)[k]).id == id@
                && networks_of(old(rows)@)[k].tenant_id == tenant@ && networks_of(
                final(rows)@,
            )[k].desired_revision == networks_of(old(rows)@)[k].desired_revision + 1 && networks_of(
                final(rows)@,
            )[k].desired_prefix == networks_of(old(rows)@)[k].desired_prefix && networks_of(
                final(rows)@,
            )[k].enabled == networks_of(old(rows)@)[k].enabled && networks_of(
                final(rows)@,
            )[k].gateway_status == "checking"@ && forall|i: int|
                0 <= i < old(rows)@.len() && i != k ==> #[trigger] networks_of(final(rows)@)[i]
                    == networks_of(old(rows)@)[i],
        (forall|k: int|
            0 <= k < old(rows)@.len() ==> (#[trigger] networks_of(old(rows)@)[k]).id != id@
                || networks_of(old(rows)@)[k].tenant_id != tenant@) ==> r is Err,
{
    let list = networks_of(old(rows)@);
    lemma_owned_place(list, id@, tenant@, 0);
    if r is Ok {
        let k = owned_from(list, id@, tenant@, 0)->0;
        assert(networks_of(old(rows)@)[k].id == id@);
    }
}

proof fn lemma_picks_changes(changes: Seq<ChangeView>, tenant: Seq<char>, n: int, keep: spec_fn(int) -> bool, value: spec_fn(int) -> EventView)
    requires
        forall|i: int|
            0 <= i < n ==> #[trigger] keep(i) == (changes[i].changed) && value(i) == (network_event(if changes[i].enabled { "SUBNET_ENABLED"@ } else { "SUBNET_DISABLED"@ }, changes[i].id, tenant)),
    ensures
        events_of(changes, tenant, n) == picked::picked(keep, value, n),
    decreases n,
{
    if n > 0 {
        assert(keep(n - 1) || !keep(n - 1));
        lemma_picks_changes(changes, tenant, n - 1, keep, value);
    }
}

/// Each network that changed gives an event of its workspace, and no other does.
pub proof fn changes_give_events(changes: Seq<ChangeView>, tenant: Seq<char>)
    ensures
        forall|event: EventView| #[trigger]
            events_of(changes, tenant, changes.len() as int).contains(event) <==> exists|i: int|
                0 <= i < changes.len() && (#[trigger] changes[i]).changed && event.tenant_id == tenant
                    && event.resource_id == changes[i].id && event.resource_type == "site_network"@
                    && event.event_type == (if changes[i].enabled {
                    "SUBNET_ENABLED"@
                } else {
                    "SUBNET_DISABLED"@
                }),
{
    let n = changes.len() as int;
    let keep = |i: int| changes[i].changed;
    let value = |i: int| network_event(if changes[i].enabled { "SUBNET_ENABLED"@ } else { "SUBNET_DISABLED"@ }, changes[i].id, tenant);
    lemma_picks_changes(changes, tenant, n, keep, value);
    assert forall|event: EventView| #[trigger] events_of(changes, tenant, n).contains(event) <==> exists|i: int|
        0 <= i < changes.len() && (#[trigger] changes[i]).changed && event.tenant_id == tenant
                    && event.resource_id == changes[i].id && event.resource_type == "site_network"@
                    && event.event_type == (if changes[i].enabled {
                    "SUBNET_ENABLED"@
                } else {
                    "SUBNET_DISABLED"@
                }) by {
        picked::lemma_picked_contains(keep, value, n, event);
        if events_of(changes, tenant, n).contains(event) {
            let i = choose|i: int| 0 <= i < n && #[trigger] keep(i) && value(i) == event;
            assert(changes[i] == changes[i]);
        }
        if exists|i: int| 0 <= i < changes.len() && (#[trigger] changes[i]).changed && event.tenant_id == tenant
                    && event.resource_id == changes[i].id && event.resource_type == "site_network"@
                    && event.event_type == (if changes[i].enabled {
                    "SUBNET_ENABLED"@
                } else {
                    "SUBNET_DISABLED"@
                }) {
            let i = choose|i: int| 0 <= i < changes.len() && (#[trigger] changes[i]).changed && event.tenant_id == tenant
                    && event.resource_id == changes[i].id && event.resource_type == "site_network"@
                    && event.event_type == (if changes[i].enabled {
                    "SUBNET_ENABLED"@
                } else {
                    "SUBNET_DISABLED"@
                });
            assert(keep(i) && value(i) == event);
        }
    }
}

} // verus!
