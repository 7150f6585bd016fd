//! The connections between the server and its agents: which services are offered, which streams are
//! permitted, and what the messages of an agent come to.
use vstd::prelude::*;

use crate::caddy;
use crate::caddy::join_path;
use crate::domain_runtime;
use crate::domain_runtime::DomainRuntime;
use crate::edge_config;
use crate::edge_config::covers;
use crate::identity;
use crate::identity::{accept_certificate, renewal_failed, DeviceCertificate, RenewalRetry};
use crate::picked;
use crate::protocol;
use crate::protocol::{AgentControlMessage, ServerControlMessage, TunnelApplyResult};
use crate::text;
use crate::text::{copy_opt, holds, is_text, join2, join3, same, shorten};
use crate::x509;
use crate::x509::{fingerprint, fingerprint_der, parse_certificate, IdentityError};

verus! {

/// The seconds without a heartbeat after which a control connection ends.
pub const HEARTBEAT_TIMEOUT: u64 = 45;

/// A service that is offered for a device.
#[derive(Debug, Clone)]
pub struct Service {
    pub id: String,
    pub device: String,
    pub revision: i64,
    pub protocol: String,
    pub port: Option<u16>,
}

/// A service that is offered for a device.
pub ghost struct ServiceView {
    pub id: Seq<char>,
    pub device: Seq<char>,
    pub revision: i64,
    pub protocol: Seq<char>,
    pub port: Option<u16>,
}

impl View for Service {
    type V = ServiceView;

    open spec fn view(&self) -> ServiceView {
        ServiceView {
            id: self.id@,
            device: self.device@,
            revision: self.revision,
            protocol: self.protocol@,
            port: self.port,
        }
    }
}

/// The services of a list.
pub open spec fn service_views(list: Seq<Service>) -> Seq<ServiceView> {
    Seq::new(list.len(), |i: int| list[i]@)
}

fn same_port(a: Option<u16>, b: Option<u16>) -> (r: bool)
    ensures
        r == (a == b),
{
    match (a, b) {
        (Some(a), Some(b)) => a == b,
        (None, None) => true,
        _ => false,
    }
}

impl Service {
    /// A copy of a service.
    pub fn copy(&self) -> (r: Service)
        ensures
            r@ == self@,
    {
        Service {
            id: self.id.clone(),
            device: self.device.clone(),
            revision: self.revision,
            protocol: self.protocol.clone(),
            port: self.port,
        }
    }

    /// Whether two services are the same in every field.
    pub fn equals(&self, other: &Service) -> (r: bool)
        ensures
            r == (self@ == other@),
    {
        same(self.id.as_str(), other.id.as_str()) && same(
            self.device.as_str(),
            other.device.as_str(),
        ) && self.revision == other.revision && same(
            self.protocol.as_str(),
            other.protocol.as_str(),
        ) && same_port(self.port, other.port)
    }
}

/// A stored service with what decides whether it is offered.
pub struct OfferRow {
    pub service: Service,
    /// Whether its device belongs to its workspace.
    pub device_in_workspace: bool,
    pub workspace_enabled: bool,
    pub enabled: bool,
    pub deleted: bool,
    /// Whether its device is connected.
    pub device_online: bool,
}

/// Whether a stored service is offered.
pub open spec fn offered(row: OfferRow) -> bool {
    row.device_in_workspace && row.workspace_enabled && row.enabled && !row.deleted
}

/// The services among the first `n` stored ones that are offered.
pub open spec fn offers(rows: Seq<OfferRow>, n: int) -> Seq<ServiceView>
    decreases n,
{
    if n <= 0 {
        Seq::empty()
    } else if offered(rows[n - 1]) {
        offers(rows, n - 1).push(rows[n - 1].service@)
    } else {
        offers(rows, n - 1)
    }
}

proof fn lemma_services_push(list: Seq<Service>, service: Service)
    ensures
        service_views(list.push(service)) == service_views(list).push(service@),
{
    assert(service_views(list.push(service)) =~= service_views(list).push(service@));
}

/// The services that are offered.
pub fn wanted_services(rows: &Vec<OfferRow>) -> (r: Vec<Service>)
    ensures
        service_views(r@) == offers(rows@, rows@.len() as int),
{
    let mut r: Vec<Service> = Vec::new();
    assert(service_views(r@) =~= offers(rows@, 0));
    let mut i: usize = 0;
    while i < rows.len()
        invariant
            i <= rows@.len(),
            service_views(r@) == offers(rows@, i as int),
        decreases rows@.len() - i,
    {
        let row: &OfferRow = &rows[i];
        if row.device_in_workspace && row.workspace_enabled && row.enabled && !row.deleted {
            let ghost before = r@;
            let service: Service = row.service.copy();
            r.push(service);
            proof {
                lemma_services_push(before, service);
            }
        }
        i = i + 1;
    }
    r
}

/// Whether a stream for a service may be opened to a device: the service is still offered in this
/// revision, and the device is its own and connected.
pub open spec fn stream_allowed(rows: Seq<OfferRow>, service: ServiceView, device: Seq<char>) -> bool {
    exists|i: int|
        #![trigger rows[i]]
        0 <= i < rows.len() && offered(rows[i]) && rows[i].service@.id == service.id
            && rows[i].service@.device == device && rows[i].service@.revision == service.revision
            && rows[i].device_online
}

/// Whether a stream for a service may be opened to a device.
pub fn allowed(rows: &Vec<OfferRow>, service: &Service, device: &str) -> (r: bool)
    ensures
        r == stream_allowed(rows@, service@, device@),
{
    let mut i: usize = 0;
    while i < rows.len()
        invariant
            i <= rows@.len(),
            forall|j: int|
                #![trigger rows@[j]]
                0 <= j < i ==> !(offered(rows@[j]) && rows@[j].service@.id == service@.id
                    && rows@[j].service@.device == device@ && rows@[j].service@.revision
                    == service@.revision && rows@[j].device_online),
        decreases rows@.len() - i,
    {
        let row: &OfferRow = &rows[i];
        if row.device_in_workspace && row.workspace_enabled && row.enabled && !row.deleted
            && row.device_online && same(row.service.id.as_str(), service.id.as_str()) && same(
            row.service.device.as_str(),
            device,
        ) && row.service.revision == service.revision {
            return true;
        }
        i = i + 1;
    }
    false
}

/// A stream that is opened for a service is for a revision that is still in force: once the service
/// has changed, streams for what it was are refused.
pub proof fn changed_services_accept_no_old_stream(
    rows: Seq<OfferRow>,
    service: ServiceView,
    device: Seq<char>,
)
    requires
        forall|i: int|
            0 <= i < rows.len() && (#[trigger] rows[i]).service@.id == service.id
                ==> rows[i].service@.revision != service.revision,
    ensures
        !stream_allowed(rows, service, device),
{
}

proof fn lemma_offers(rows: Seq<OfferRow>, n: int, keep: spec_fn(int) -> bool, value: spec_fn(int) -> ServiceView)
    requires
        forall|i: int|
            0 <= i < n ==> #[trigger] keep(i) == offered(rows[i]) && value(i) == rows[i].service@,
    ensures
        offers(rows, n) == picked::picked(keep, value, n),
    decreases n,
{
    if n > 0 {
        assert(keep(n - 1) == offered(rows[n - 1]));
        lemma_offers(rows, n - 1, keep, value);
    }
}

/// The services that are offered are those of the stored services that are on and not deleted, whose
/// workspace is on and has their device. A service that is switched off, deleted, or of a workspace
/// that is switched off has no entry.
pub proof fn only_services_in_force_are_offered(rows: Seq<OfferRow>)
    ensures
        forall|service: ServiceView| #[trigger]
            offers(rows, rows.len() as int).contains(service) <==> exists|i: int|
                0 <= i < rows.len() && (#[trigger] rows[i]).service@ == service && rows[i].enabled
                    && !rows[i].deleted && rows[i].workspace_enabled && rows[i].device_in_workspace,
{
    let n = rows.len() as int;
    let keep = |i: int|
        rows[i].enabled && !rows[i].deleted && rows[i].workspace_enabled
            && rows[i].device_in_workspace;
    let value = |i: int| rows[i].service@;
    lemma_offers(rows, n, keep, value);
    assert forall|service: ServiceView| #[trigger]
        offers(rows, n).contains(service) <==> exists|i: int|
            0 <= i < rows.len() && (#[trigger] rows[i]).service@ == service && rows[i].enabled
                && !rows[i].deleted && rows[i].workspace_enabled && rows[i].device_in_workspace by {
        picked::lemma_picked_contains(keep, value, n, service);
        if offers(rows, n).contains(service) {
            let i = choose|i: int| 0 <= i < n && #[trigger] keep(i) && value(i) == service;
            assert(rows[i].service@ == service);
        }
        if exists|i: int|
            0 <= i < rows.len() && (#[trigger] rows[i]).service@ == service && rows[i].enabled
                && !rows[i].deleted && rows[i].workspace_enabled && rows[i].device_in_workspace {
            let i = choose|i: int|
                0 <= i < rows.len() && (#[trigger] rows[i]).service@ == service && rows[i].enabled
                    && !rows[i].deleted && rows[i].workspace_enabled && rows[i].device_in_workspace;
            assert(keep(i) && value(i) == service);
        }
    }
}

/// A stream goes to a device exactly where a stored service of that device with the identifier and in
/// the revision asked for is on, not deleted, of a workspace that is on and has the device, and the
/// device is connected.
pub proof fn streams_go_to_services_in_force(
    rows: Seq<OfferRow>,
    service: ServiceView,
    device: Seq<char>,
)
    ensures
        stream_allowed(rows, service, device) <==> exists|i: int|
            0 <= i < rows.len() && (#[trigger] rows[i]).service@.id == service.id
                && rows[i].service@.device == device && rows[i].service@.revision
                == service.revision && rows[i].enabled && !rows[i].deleted
                && rows[i].workspace_enabled && rows[i].device_in_workspace
                && rows[i].device_online,
{
}

/// An entry for a service that is open.
pub struct OpenEntry {
    pub service: Service,
    /// The address under which the edge reaches it, where it has one.
    pub upstream: Option<String>,
    /// Whether it has stopped by itself.
    pub finished: bool,
}

/// Whether an entry is to be closed: it has stopped, or its service is no longer offered as it was.
pub open spec fn stale(entry: OpenEntry, wanted: Seq<ServiceView>) -> bool {
    entry.finished || !wanted.contains(entry.service@)
}

/// The services of the first `n` entries that are to be closed.
pub open spec fn stale_ids(entries: Seq<OpenEntry>, wanted: Seq<ServiceView>, n: int) -> Seq<
    Seq<char>,
>
    decreases n,
{
    if n <= 0 {
        Seq::empty()
    } else if stale(entries[n - 1], wanted) {
        stale_ids(entries, wanted, n - 1).push(entries[n - 1].service@.id)
    } else {
        stale_ids(entries, wanted, n - 1)
    }
}

/// Whether an entry for a service stays open.
pub open spec fn stays_open(entries: Seq<OpenEntry>, wanted: Seq<ServiceView>, id: Seq<char>) -> bool {
    exists|i: int|
        0 <= i < entries.len() && (#[trigger] entries[i]).service@.id == id && !stale(
            entries[i],
            wanted,
        )
}

/// Those of the first `n` services for which an entry is to be opened.
pub open spec fn missing(entries: Seq<OpenEntry>, wanted: Seq<ServiceView>, n: int) -> Seq<
    ServiceView,
>
    decreases n,
{
    if n <= 0 {
        Seq::empty()
    } else if stays_open(entries, wanted, wanted[n - 1].id) {
        missing(entries, wanted, n - 1)
    } else {
        missing(entries, wanted, n - 1).push(wanted[n - 1])
    }
}

/// Those of the first `n` names that are not among the permitted ones.
pub open spec fn outside(names: Seq<Seq<char>>, permitted: Seq<Seq<char>>, n: int) -> Seq<Seq<char>>
    decreases n,
{
    if n <= 0 {
        Seq::empty()
    } else if permitted.contains(names[n - 1]) {
        outside(names, permitted, n - 1)
    } else {
        outside(names, permitted, n - 1).push(names[n - 1])
    }
}

/// What brings the open connections and entries in line with what is offered.
pub struct ReconcilePlan {
    /// The devices whose control connection is closed.
    pub close_control: Vec<String>,
    /// The devices whose data connection is closed.
    pub close_data: Vec<String>,
    /// The services whose entry is closed.
    pub close_entries: Vec<String>,
    /// The services for which an entry is opened.
    pub open: Vec<Service>,
}

proof fn lemma_texts_push(list: Seq<String>, item: String)
    ensures
        text::views(list.push(item)) == text::views(list).push(item@),
{
    assert(text::views(list.push(item)) =~= text::views(list).push(item@));
}

fn find_outside(names: &Vec<String>, permitted: &Vec<String>) -> (r: Vec<String>)
    ensures
        text::views(r@) == outside(
            text::views(names@),
            text::views(permitted@),
            names@.len() as int,
        ),
{
    let ghost all = text::views(names@);
    let ghost known = text::views(permitted@);
    let mut r: Vec<String> = Vec::new();
    assert(text::views(r@) =~= outside(all, known, 0));
    let mut i: usize = 0;
    while i < names.len()
        invariant
            i <= names@.len(),
            all == text::views(names@),
            known == text::views(permitted@),
            text::views(r@) == outside(all, known, i as int),
        decreases names@.len() - i,
    {
        assert(all[i as int] == names@[i as int]@);
        if !holds(permitted, names[i].as_str()) {
            let ghost before = r@;
            let name: String = names[i].clone();
            r.push(name);
            proof {
                lemma_texts_push(before, name);
            }
        }
        i = i + 1;
    }
    r
}

fn holds_service(list: &Vec<Service>, service: &Service) -> (r: bool)
    ensures
        r == service_views(list@).contains(service@),
{
    let ghost all = service_views(list@);
    let mut i: usize = 0;
    while i < list.len()
        invariant
            i <= list@.len(),
            all == service_views(list@),
            forall|j: int| 0 <= j < i ==> #[trigger] all[j] != service@,
        decreases list@.len() - i,
    {
        assert(all[i as int] == list@[i as int]@);
        if list[i].equals(service) {
            return true;
        }
        i = i + 1;
    }
    false
}

fn check_stays(entries: &Vec<OpenEntry>, wanted: &Vec<Service>, id: &str) -> (r: bool)
    ensures
        r == stays_open(entries@, service_views(wanted@), id@),
{
    let mut i: usize = 0;
    while i < entries.len()
        invariant
            i <= entries@.len(),
            forall|j: int|
                0 <= j < i ==> !((#[trigger] entries@[j]).service@.id == id@ && !stale(
                    entries@[j],
                    service_views(wanted@),
                )),
        decreases entries@.len() - i,
    {
        if same(entries[i].service.id.as_str(), id) && !(entries[i].finished || !holds_service(
            wanted,
            &entries[i].service,
        )) {
            return true;
        }
        i = i + 1;
    }
    false
}

/// What brings the open connections and entries in line with what is offered: the connections of
/// devices that are not permitted are closed; entries that have stopped or whose service has
/// changed are closed; and every offered service without an entry gets one.
pub fn plan_reconcile(
    wanted: &Vec<Service>,
    devices: &Vec<String>,
    control: &Vec<String>,
    data: &Vec<String>,
    entries: &Vec<OpenEntry>,
) -> (r: ReconcilePlan)
    ensures
        ({
            let offered = service_views(wanted@);
            let permitted = text::views(devices@);
            &&& text::views(r.close_control@) == outside(
                text::views(control@),
                permitted,
                control@.len() as int,
            )
            &&& text::views(r.close_data@) == outside(
                text::views(data@),
                permitted,
                data@.len() as int,
            )
            &&& text::views(r.close_entries@) == stale_ids(
                entries@,
                offered,
                entries@.len() as int,
            )
            &&& service_views(r.open@) == missing(entries@, offered, wanted@.len() as int)
        }),
{
    let ghost offered = service_views(wanted@);
    let mut close_entries: Vec<String> = Vec::new();
    assert(text::views(close_entries@) =~= stale_ids(entries@, offered, 0));
    let mut i: usize = 0;
    while i < entries.len()
        invariant
            i <= entries@.len(),
            offered == service_views(wanted@),
            text::views(close_entries@) == stale_ids(entries@, offered, i as int),
        decreases entries@.len() - i,
    {
        if entries[i].finished || !holds_service(wanted, &entries[i].service) {
            let ghost before = close_entries@;
            let id: String = entries[i].service.id.clone();
            close_entries.push(id);
            proof {
                lemma_texts_push(before, id);
            }
        }
        i = i + 1;
    }
    let mut open: Vec<Service> = Vec::new();
    assert(service_views(open@) =~= missing(entries@, offered, 0));
    let mut k: usize = 0;
    while k < wanted.len()
        invariant
            k <= wanted@.len(),
            offered == service_views(wanted@),
            service_views(open@) == missing(entries@, offered, k as int),
        decreases wanted@.len() - k,
    {
        assert(offered[k as int] == wanted@[k as int]@);
        if !check_stays(entries, wanted, wanted[k].id.as_str()) {
            let ghost before = open@;
            let service: Service = wanted[k].copy();
            open.push(service);
            proof {
                lemma_services_push(before, service);
            }
        }
        k = k + 1;
    }
    ReconcilePlan {
        close_control: find_outside(control, devices),
        close_data: find_outside(data, devices),
        close_entries,
        open,
    }
}

proof fn lemma_missing(entries: Seq<OpenEntry>, wanted: Seq<ServiceView>, n: int, k: int)
    requires
        0 <= k < n <= wanted.len(),
        !stays_open(entries, wanted, wanted[k].id),
    ensures
        missing(entries, wanted, n).contains(wanted[k]),
    decreases n,
{
    if k < n - 1 {
        lemma_missing(entries, wanted, n - 1, k);
        let before = missing(entries, wanted, n - 1);
        let i = choose|i: int| 0 <= i < before.len() && before[i] == wanted[k];
        assert(missing(entries, wanted, n)[i] == wanted[k]);
    } else {
        let after = missing(entries, wanted, n);
        assert(after[after.len() - 1] == wanted[k]);
    }
}

/// After a reconciliation every offered service has an entry: one that stays open or one that is
/// opened.
pub proof fn every_offered_service_gets_an_entry(
    entries: Seq<OpenEntry>,
    wanted: Seq<ServiceView>,
    k: int,
)
    requires
        0 <= k < wanted.len(),
    ensures
        stays_open(entries, wanted, wanted[k].id) || missing(
            entries,
            wanted,
            wanted.len() as int,
        ).contains(wanted[k]),
{
    if !stays_open(entries, wanted, wanted[k].id) {
        lemma_missing(entries, wanted, wanted.len() as int, k);
    }
}

/// An entry that stays open serves a service exactly as it is offered.
pub proof fn open_entries_serve_what_is_offered(entry: OpenEntry, wanted: Seq<ServiceView>)
    requires
        !stale(entry, wanted),
    ensures
        wanted.contains(entry.service@) && !entry.finished,
{
}

proof fn lemma_stale_ids(
    entries: Seq<OpenEntry>,
    wanted: Seq<ServiceView>,
    n: int,
    keep: spec_fn(int) -> bool,
    value: spec_fn(int) -> Seq<char>,
)
    requires
        forall|i: int|
            0 <= i < n ==> #[trigger] keep(i) == stale(entries[i], wanted) && value(i)
                == entries[i].service@.id,
    ensures
        stale_ids(entries, wanted, n) == picked::picked(keep, value, n),
    decreases n,
{
    if n > 0 {
        assert(keep(n - 1) == stale(entries[n - 1], wanted));
        lemma_stale_ids(entries, wanted, n - 1, keep, value);
    }
}

/// An entry is closed where it has stopped, or where no service is offered that equals its own in
/// every field: one that was switched off, deleted or changed. No other entry is closed.
pub proof fn entries_close_with_their_service(entries: Seq<OpenEntry>, wanted: Seq<ServiceView>)
    ensures
        forall|id: Seq<char>| #[trigger]
            stale_ids(entries, wanted, entries.len() as int).contains(id) <==> exists|i: int|
                0 <= i < entries.len() && (#[trigger] entries[i]).service@.id == id && (entries[i].finished || forall|k: int| 0 <= k < wanted.len() ==> #[trigger] wanted[k] != entries[i].service@),
{
    let n = entries.len() as int;
    let keep = |i: int| entries[i].finished || !wanted.contains(entries[i].service@);
    let value = |i: int| entries[i].service@.id;
    lemma_stale_ids(entries, wanted, n, keep, value);
    assert forall|id: Seq<char>| #[trigger]
        stale_ids(entries, wanted, n).contains(id) <==> exists|i: int|
            0 <= i < entries.len() && (#[trigger] entries[i]).service@.id == id && (entries[i].finished || forall|k: int| 0 <= k < wanted.len() ==> #[trigger] wanted[k] != entries[i].service@) by {
        picked::lemma_picked_contains(keep, value, n, id);
        if stale_ids(entries, wanted, n).contains(id) {
            let i = choose|i: int| 0 <= i < n && #[trigger] keep(i) && value(i) == id;
            assert(entries[i] == entries[i]);
        }
        if exists|i: int| 0 <= i < entries.len() && (#[trigger] entries[i]).service@.id == id && (entries[i].finished || forall|k: int| 0 <= k < wanted.len() ==> #[trigger] wanted[k] != entries[i].service@) {
            let i = choose|i: int| 0 <= i < entries.len() && (#[trigger] entries[i]).service@.id == id && (entries[i].finished || forall|k: int| 0 <= k < wanted.len() ==> #[trigger] wanted[k] != entries[i].service@);
            assert(keep(i) && value(i) == id);
        }
    }
}

proof fn lemma_opened(
    entries: Seq<OpenEntry>,
    wanted: Seq<ServiceView>,
    n: int,
    keep: spec_fn(int) -> bool,
    value: spec_fn(int) -> ServiceView,
)
    requires
        forall|k: int|
            0 <= k < n ==> #[trigger] keep(k) == !stays_open(entries, wanted, wanted[k].id)
                && value(k) == wanted[k],
    ensures
        missing(entries, wanted, n) == picked::picked(keep, value, n),
    decreases n,
{
    if n > 0 {
        assert(keep(n - 1) == !stays_open(entries, wanted, wanted[n - 1].id));
        lemma_opened(entries, wanted, n - 1, keep, value);
    }
}

/// An entry is opened for offered services alone, and only where no entry with the identifier of the
/// service goes on running for a service as it is offered. Every other offered service gets one.
pub proof fn entries_open_for_offered_services(entries: Seq<OpenEntry>, wanted: Seq<ServiceView>)
    ensures
        ({
            let opened = missing(entries, wanted, wanted.len() as int);
            &&& forall|j: int|
                0 <= j < opened.len() ==> wanted.contains(#[trigger] opened[j]) && forall|i: int|
                    0 <= i < entries.len() && (#[trigger] entries[i]).service@.id == opened[j].id
                        ==> entries[i].finished || !wanted.contains(entries[i].service@)
            &&& forall|k: int|
                0 <= k < wanted.len() ==> opened.contains(#[trigger] wanted[k]) || exists|i: int|
                    0 <= i < entries.len() && (#[trigger] entries[i]).service@.id == wanted[k].id
                        && !entries[i].finished && wanted.contains(entries[i].service@)
        }),
{
    let opened = missing(entries, wanted, wanted.len() as int);
    let keep = |k: int| !stays_open(entries, wanted, wanted[k].id);
    let value = |k: int| wanted[k];
    lemma_opened(entries, wanted, wanted.len() as int, keep, value);
    assert forall|j: int| 0 <= j < opened.len() implies wanted.contains(#[trigger] opened[j])
        && forall|i: int|
        0 <= i < entries.len() && (#[trigger] entries[i]).service@.id == opened[j].id
            ==> entries[i].finished || !wanted.contains(entries[i].service@) by {
        let k = picked::lemma_picked_from(keep, value, wanted.len() as int, j);
        assert(wanted[k] == opened[j]);
    }
    assert forall|k: int| 0 <= k < wanted.len() implies opened.contains(#[trigger] wanted[k])
        || exists|i: int|
        0 <= i < entries.len() && (#[trigger] entries[i]).service@.id == wanted[k].id
            && !entries[i].finished && wanted.contains(entries[i].service@) by {
        every_offered_service_gets_an_entry(entries, wanted, k);
    }
}

proof fn lemma_outside(
    names: Seq<Seq<char>>,
    permitted: Seq<Seq<char>>,
    n: int,
    keep: spec_fn(int) -> bool,
    value: spec_fn(int) -> Seq<char>,
)
    requires
        forall|i: int|
            0 <= i < n ==> #[trigger] keep(i) == !permitted.contains(names[i]) && value(i)
                == names[i],
    ensures
        outside(names, permitted, n) == picked::picked(keep, value, n),
    decreases n,
{
    if n > 0 {
        assert(keep(n - 1) == !permitted.contains(names[n - 1]));
        lemma_outside(names, permitted, n - 1, keep, value);
    }
}

/// The connections that a reconciliation closes are those of devices that are not permitted: each of
/// them, and no other.
pub proof fn connections_of_permitted_devices_stay(
    connected: Seq<Seq<char>>,
    permitted: Seq<Seq<char>>,
)
    ensures
        forall|device: Seq<char>| #[trigger]
            outside(connected, permitted, connected.len() as int).contains(device)
                <==> connected.contains(device) && !permitted.contains(device),
{
    let n = connected.len() as int;
    let keep = |i: int| !permitted.contains(connected[i]);
    let value = |i: int| connected[i];
    lemma_outside(connected, permitted, n, keep, value);
    let closed = outside(connected, permitted, connected.len() as int);
    assert forall|device: Seq<char>| #[trigger] closed.contains(device) <==> connected.contains(
        device,
    ) && !permitted.contains(device) by {
        if closed.contains(device) {
            let j = choose|j: int| 0 <= j < closed.len() && closed[j] == device;
            let i = picked::lemma_picked_from(keep, value, n, j);
            assert(connected[i] == device);
        }
        if connected.contains(device) && !permitted.contains(device) {
            let i = choose|i: int| 0 <= i < connected.len() && connected[i] == device;
            assert(keep(i));
            let j = picked::lemma_picked_all(keep, value, n, i);
            assert(closed[j] == device);
        }
    }
}

/// How an entry for a service is opened.
pub enum Entry {
    /// On a public TCP port.
    Tcp { port: u16 },
    /// On a socket of this machine that the edge reaches.
    Socket { path: String, upstream: String },
}

/// How an entry for a service is opened; `None` for a TCP service without a port.
pub fn entry_for(service: &Service, data_dir: &str) -> (r: Option<Entry>)
    ensures
        if service@.protocol == "tcp"@ {
            match service@.port {
                Some(port) => r == Some(Entry::Tcp { port }),
                None => r is None,
            }
        } else {
            r matches Some(Entry::Socket { path, upstream }) && path@ == caddy::below(
                caddy::below(data_dir@, "tunnel-sockets"@),
                service@.id + ".sock"@,
            ) && upstream@ == "unix/"@ + path@
        },
{
    if same(service.protocol.as_str(), "tcp") {
        return match service.port {
            Some(port) => Some(Entry::Tcp { port }),
            None => None,
        };
    }
    let path: String = join_path(
        join_path(data_dir, "tunnel-sockets").as_str(),
        join2(service.id.as_str(), ".sock").as_str(),
    );
    let upstream: String = join2("unix/", path.as_str());
    Some(Entry::Socket { path, upstream })
}

/// The addresses under which the edge reaches the services of the first `n` entries whose device
/// has both connections.
pub open spec fn reachable(
    entries: Seq<OpenEntry>,
    control: Seq<Seq<char>>,
    data: Seq<Seq<char>>,
    n: int,
) -> Seq<(Seq<char>, Seq<char>)>
    decreases n,
{
    if n <= 0 {
        Seq::empty()
    } else {
        let entry = entries[n - 1];
        let before = reachable(entries, control, data, n - 1);
        match entry.upstream {
            Some(upstream) if data.contains(entry.service@.device) && control.contains(
                entry.service@.device,
            ) && !entry.finished => before.push((entry.service@.id, upstream@)),
            _ => before,
        }
    }
}

/// The addresses under which the edge reaches the services: only of entries that are open and whose
/// device has both connections.
pub fn web_upstreams(
    entries: &Vec<OpenEntry>,
    control: &Vec<String>,
    data: &Vec<String>,
) -> (r: Vec<(String, String)>)
    ensures
        domain_runtime::route_views(r@) == reachable(
            entries@,
            text::views(control@),
            text::views(data@),
            entries@.len() as int,
        ),
{
    let ghost controls = text::views(control@);
    let ghost datas = text::views(data@);
    let mut r: Vec<(String, String)> = Vec::new();
    assert(domain_runtime::route_views(r@) =~= reachable(entries@, controls, datas, 0));
    let mut i: usize = 0;
    while i < entries.len()
        invariant
            i <= entries@.len(),
            controls == text::views(control@),
            datas == text::views(data@),
            domain_runtime::route_views(r@) == reachable(entries@, controls, datas, i as int),
        decreases entries@.len() - i,
    {
        let entry: &OpenEntry = &entries[i];
        if let Some(upstream) = &entry.upstream {
            if holds(data, entry.service.device.as_str()) && holds(
                control,
                entry.service.device.as_str(),
            ) && !entry.finished {
                let ghost before = r@;
                let id: String = entry.service.id.clone();
                let address: String = upstream.clone();
                r.push((id, address));
                assert(domain_runtime::route_views(r@) =~= domain_runtime::route_views(before).push(
                    (id@, address@),
                ));
            }
        }
        i = i + 1;
    }
    r
}

proof fn lemma_reachable(
    entries: Seq<OpenEntry>,
    control: Seq<Seq<char>>,
    data: Seq<Seq<char>>,
    n: int,
    keep: spec_fn(int) -> bool,
    value: spec_fn(int) -> (Seq<char>, Seq<char>),
)
    requires
        forall|i: int|
            0 <= i < n ==> #[trigger] keep(i) == (entries[i].upstream is Some
                && !entries[i].finished && control.contains(entries[i].service@.device)
                && data.contains(entries[i].service@.device)) && value(i) == (
                entries[i].service@.id,
                entries[i].upstream->0@,
            ),
    ensures
        reachable(entries, control, data, n) == picked::picked(keep, value, n),
    decreases n,
{
    if n > 0 {
        assert(keep(n - 1) || !keep(n - 1));
        lemma_reachable(entries, control, data, n - 1, keep, value);
    }
}

/// The edge is told an address for a service only where an entry for it is open under that address
/// and its device has both its control and its data connection; and of every such entry it is told.
pub proof fn upstreams_lead_to_connected_devices(entries: Seq<OpenEntry>, control: Seq<Seq<char>>, data: Seq<Seq<char>>)
    ensures
        forall|told: (Seq<char>, Seq<char>)| #[trigger]
            reachable(entries, control, data, entries.len() as int).contains(told) <==> exists|i: int|
                0 <= i < entries.len() && (#[trigger] entries[i]).service@.id == told.0 && text::opt(entries[i].upstream) == Some(told.1) && !entries[i].finished && control.contains(entries[i].service@.device) && data.contains(entries[i].service@.device),
{
    let n = entries.len() as int;
    let keep = |i: int| entries[i].upstream is Some && !entries[i].finished && control.contains(entries[i].service@.device) && data.contains(entries[i].service@.device);
    let value = |i: int| (entries[i].service@.id, entries[i].upstream->0@);
    lemma_reachable(entries, control, data, n, keep, value);
    assert forall|told: (Seq<char>, Seq<char>)| #[trigger]
        reachable(entries, control, data, n).contains(told) <==> exists|i: int|
            0 <= i < entries.len() && (#[trigger] entries[i]).service@.id == told.0 && text::opt(entries[i].upstream) == Some(told.1) && !entries[i].finished && control.contains(entries[i].service@.device) && data.contains(entries[i].service@.device) by {
        picked::lemma_picked_contains(keep, value, n, told);
        if reachable(entries, control, data, n).contains(told) {
            let i = choose|i: int| 0 <= i < n && #[trigger] keep(i) && value(i) == told;
            assert(entries[i] == entries[i]);
        }
        if exists|i: int| 0 <= i < entries.len() && (#[trigger] entries[i]).service@.id == told.0 && text::opt(entries[i].upstream) == Some(told.1) && !entries[i].finished && control.contains(entries[i].service@.device) && data.contains(entries[i].service@.device) {
            let i = choose|i: int| 0 <= i < entries.len() && (#[trigger] entries[i]).service@.id == told.0 && text::opt(entries[i].upstream) == Some(told.1) && !entries[i].finished && control.contains(entries[i].service@.device) && data.contains(entries[i].service@.device);
            assert(keep(i) && value(i) == told);
        }
    }
}

/// The services among the first `n` entries that end with a workspace.
pub open spec fn workspace_entries(
    entries: Seq<OpenEntry>,
    devices: Seq<Seq<char>>,
    services: Seq<Seq<char>>,
    n: int,
) -> Seq<Seq<char>>
    decreases n,
{
    if n <= 0 {
        Seq::empty()
    } else {
        let entry = entries[n - 1];
        let before = workspace_entries(entries, devices, services, n - 1);
        if services.contains(entry.service@.id) || devices.contains(entry.service@.device) {
            before.push(entry.service@.id)
        } else {
            before
        }
    }
}

/// The services whose entries end with a workspace, given its devices and services.
pub fn remove_workspace(
    entries: &Vec<OpenEntry>,
    devices: &Vec<String>,
    services: &Vec<String>,
) -> (r: Vec<String>)
    ensures
        text::views(r@) == workspace_entries(
            entries@,
            text::views(devices@),
            text::views(services@),
            entries@.len() as int,
        ),
{
    let ghost all_devices = text::views(devices@);
    let ghost all_services = text::views(services@);
    let mut r: Vec<String> = Vec::new();
    assert(text::views(r@) =~= workspace_entries(entries@, all_devices, all_services, 0));
    let mut i: usize = 0;
    while i < entries.len()
        invariant
            i <= entries@.len(),
            all_devices == text::views(devices@),
            all_services == text::views(services@),
            text::views(r@) == workspace_entries(entries@, all_devices, all_services, i as int),
        decreases entries@.len() - i,
    {
        let entry: &OpenEntry = &entries[i];
        if holds(services, entry.service.id.as_str()) || holds(
            devices,
            entry.service.device.as_str(),
        ) {
            let ghost before = r@;
            let id: String = entry.service.id.clone();
            r.push(id);
            proof {
                lemma_texts_push(before, id);
            }
        }
        i = i + 1;
    }
    r
}

proof fn lemma_workspace_entries(
    entries: Seq<OpenEntry>,
    devices: Seq<Seq<char>>,
    services: Seq<Seq<char>>,
    n: int,
    keep: spec_fn(int) -> bool,
    value: spec_fn(int) -> Seq<char>,
)
    requires
        forall|i: int|
            0 <= i < n ==> #[trigger] keep(i) == (services.contains(entries[i].service@.id)
                || devices.contains(entries[i].service@.device)) && value(i)
                == entries[i].service@.id,
    ensures
        workspace_entries(entries, devices, services, n) == picked::picked(keep, value, n),
    decreases n,
{
    if n > 0 {
        assert(keep(n - 1) || !keep(n - 1));
        lemma_workspace_entries(entries, devices, services, n - 1, keep, value);
    }
}

/// The entries that end with a workspace are those of its services and those of its devices: each of
/// them, and no other.
pub proof fn entries_end_with_their_workspace(
    entries: Seq<OpenEntry>,
    devices: Seq<Seq<char>>,
    services: Seq<Seq<char>>,
)
    ensures
        forall|id: Seq<char>| #[trigger]
            workspace_entries(entries, devices, services, entries.len() as int).contains(id)
                <==> exists|i: int|
                0 <= i < entries.len() && (#[trigger] entries[i]).service@.id == id && (
                services.contains(id) || devices.contains(entries[i].service@.device)),
{
    let n = entries.len() as int;
    let keep = |i: int|
        services.contains(entries[i].service@.id) || devices.contains(entries[i].service@.device);
    let value = |i: int| entries[i].service@.id;
    lemma_workspace_entries(entries, devices, services, n, keep, value);
    let ended = workspace_entries(entries, devices, services, n);
    assert forall|id: Seq<char>| #[trigger] ended.contains(id) <==> exists|i: int|
        0 <= i < entries.len() && (#[trigger] entries[i]).service@.id == id && (services.contains(
            id,
        ) || devices.contains(entries[i].service@.device)) by {
        picked::lemma_picked_contains(keep, value, n, id);
        if ended.contains(id) {
            let i = choose|i: int| 0 <= i < n && #[trigger] keep(i) && value(i) == id;
            assert(entries[i].service@.id == id);
        }
        if exists|i: int|
            0 <= i < entries.len() && (#[trigger] entries[i]).service@.id == id && (
            services.contains(id) || devices.contains(entries[i].service@.device)) {
            let i = choose|i: int|
                0 <= i < entries.len() && (#[trigger] entries[i]).service@.id == id && (
                services.contains(id) || devices.contains(entries[i].service@.device));
            assert(keep(i) && value(i) == id);
        }
    }
}

/// The connections of one sort: at most one for each device, each with a number of its own.
pub struct Sessions {
    pub entries: Vec<(String, u64)>,
}

/// The connection of a device, from position `i` on.
pub open spec fn session_from(entries: Seq<(String, u64)>, device: Seq<char>, i: int) -> Option<u64>
    decreases entries.len() - i,
{
    if i < 0 || i >= entries.len() {
        None
    } else if entries[i].0@ == device {
        Some(entries[i].1)
    } else {
        session_from(entries, device, i + 1)
    }
}

impl Sessions {
    /// Whether each device is there once.
    pub open spec fn valid(self) -> bool {
        forall|i: int, j: int|
            0 <= i < j < self.entries@.len() ==> (#[trigger] self.entries@[i]).0@ != (
            #[trigger] self.entries@[j]).0@
    }

    /// The connection of a device.
    pub open spec fn of(self, device: Seq<char>) -> Option<u64> {
        session_from(self.entries@, device, 0)
    }

    /// No connections.
    pub fn new() -> (r: Sessions)
        ensures
            r.valid(),
            forall|device: Seq<char>| (#[trigger] r.of(device)) is None,
    {
        Sessions { entries: Vec::new() }
    }

    fn find(&self, device: &str) -> (r: Option<usize>)
        ensures
            match r {
                Some(k) => k < self.entries@.len() && self.entries@[k as int].0@ == device@
                    && self.of(device@) == Some(self.entries@[k as int].1),
                None => self.of(device@) is None && forall|i: int|
                    0 <= i < self.entries@.len() ==> (#[trigger] self.entries@[i]).0@ != device@,
            },
    {
        let mut i: usize = 0;
        while i < self.entries.len()
            invariant
                i <= self.entries@.len(),
                self.of(device@) == session_from(self.entries@, device@, i as int),
                forall|j: int| 0 <= j < i ==> (#[trigger] self.entries@[j]).0@ != device@,
            decreases self.entries@.len() - i,
        {
            if same(self.entries[i].0.as_str(), device) {
                return Some(i);
            }
            i = i + 1;
        }
        None
    }

    /// Puts a new connection of a device in the place of the one it had, which is given back.
    pub fn register(&mut self, device: &str, token: u64) -> (r: Option<u64>)
        requires
            old(self).valid(),
        ensures
            final(self).valid(),
            r == old(self).of(device@),
            forall|other: Seq<char>| #[trigger]
                final(self).of(other) == (if other == device@ {
                    Some(token)
                } else {
                    old(self).of(other)
                }),
    {
        let ghost before = self.entries@;
        match self.find(device) {
            Some(k) => {
                let previous: u64 = self.entries[k].1;
                let name: String = self.entries[k].0.clone();
                self.entries.set(k, (name, token));
                proof {
                    assert(self.entries@ =~= before.update(k as int, (name, token)));
                    assert forall|other: Seq<char>| #[trigger] self.of(other) == (if other
                        == device@ {
                        Some(token)
                    } else {
                        old(self).of(other)
                    }) by {
                        lemma_session_update(before, k as int, name, token, other, 0);
                        lemma_session_at(self.entries@, device@, k as int, 0);
                    }
                }
                Some(previous)
            },
            None => {
                let name: String = device.to_owned();
                self.entries.push((name, token));
                proof {
                    assert forall|other: Seq<char>| #[trigger] self.of(other) == (if other
                        == device@ {
                        Some(token)
                    } else {
                        old(self).of(other)
                    }) by {
                        lemma_session_push(before, (name, token), other, 0);
                    }
                }
                None
            },
        }
    }

    /// Ends a connection of a device: it is removed only where it is still the one in use.
    pub fn finish(&mut self, device: &str, token: u64) -> (r: bool)
        requires
            old(self).valid(),
        ensures
            final(self).valid(),
            r == (old(self).of(device@) == Some(token)),
            forall|other: Seq<char>| #[trigger]
                final(self).of(other) == (if r && other == device@ {
                    None
                } else {
                    old(self).of(other)
                }),
    {
        let ghost before = self.entries@;
        match self.find(device) {
            Some(k) => {
                if self.entries[k].1 != token {
                    return false;
                }
                self.entries.remove(k);
                proof {
                    assert(self.entries@ =~= before.remove(k as int));
                    assert forall|other: Seq<char>| #[trigger] self.of(other) == (if other
                        == device@ {
                        None
                    } else {
                        old(self).of(other)
                    }) by {
                        lemma_session_remove(before, k as int, other, 0);
                    }
                }
                true
            },
            None => false,
        }
    }
}

proof fn lemma_session_at(entries: Seq<(String, u64)>, device: Seq<char>, k: int, i: int)
    requires
        0 <= i <= k < entries.len(),
        entries[k].0@ == device,
        forall|j: int| i <= j < k ==> (#[trigger] entries[j]).0@ != device,
    ensures
        session_from(entries, device, i) == Some(entries[k].1),
    decreases k - i,
{
    if i < k {
        lemma_session_at(entries, device, k, i + 1);
    }
}

proof fn lemma_session_update(
    entries: Seq<(String, u64)>,
    k: int,
    name: String,
    token: u64,
    other: Seq<char>,
    i: int,
)
    requires
        0 <= i <= entries.len(),
        0 <= k < entries.len(),
        name@ == entries[k].0@,
        forall|a: int, b: int|
            0 <= a < b < entries.len() ==> (#[trigger] entries[a]).0@ != (#[trigger] entries[b]).0@,
    ensures
        other != name@ ==> session_from(entries.update(k, (name, token)), other, i)
            == session_from(entries, other, i),
    decreases entries.len() - i,
{
    if i < entries.len() {
        lemma_session_update(entries, k, name, token, other, i + 1);
    }
}

proof fn lemma_session_push(
    entries: Seq<(String, u64)>,
    entry: (String, u64),
    other: Seq<char>,
    i: int,
)
    requires
        0 <= i <= entries.len(),
    ensures
        session_from(entries.push(entry), other, i) == (match session_from(entries, other, i) {
            Some(token) => Some(token),
            None => if entry.0@ == other {
                Some(entry.1)
            } else {
                None
            },
        }),
    decreases entries.len() - i,
{
    if i < entries.len() {
        lemma_session_push(entries, entry, other, i + 1);
    } else {
        assert(session_from(entries.push(entry), other, i + 1) is None);
    }
}

proof fn lemma_session_remove(entries: Seq<(String, u64)>, k: int, other: Seq<char>, i: int)
    requires
        0 <= i <= entries.len(),
        0 <= k < entries.len(),
        forall|a: int, b: int|
            0 <= a < b < entries.len() ==> (#[trigger] entries[a]).0@ != (#[trigger] entries[b]).0@,
    ensures
        i <= k ==> session_from(entries.remove(k), other, i) == (if other == entries[k].0@ {
            None
        } else {
            session_from(entries, other, i)
        }),
        i > k ==> session_from(entries.remove(k), other, i - 1) == session_from(entries, other, i),
        i > k && other == entries[k].0@ ==> session_from(entries, other, i) is None,
    decreases entries.len() - i,
{
    if i < entries.len() {
        lemma_session_remove(entries, k, other, i + 1);
        if i < k {
            assert(entries.remove(k)[i] == entries[i]);
            assert(entries[i].0@ != entries[k].0@);
        } else if i > k {
            assert(entries.remove(k)[i - 1] == entries[i]);
            assert(entries[k].0@ != entries[i].0@);
        }
    }
}

/// A stored service as the reports about it see it.
pub struct ReportRow {
    pub id: String,
    pub device_id: Option<String>,
    pub apply_revision: i64,
    pub enabled: bool,
    pub deleted: bool,
}

/// What is noted of a service after a report.
#[derive(Debug, Clone)]
pub struct AppliedState {
    pub tunnel_id: String,
    pub revision: i64,
    pub status: String,
    pub error: Option<String>,
}

/// What is noted of a service after a report.
pub ghost struct AppliedView {
    pub tunnel_id: Seq<char>,
    pub revision: i64,
    pub status: Seq<char>,
    pub error: Option<Seq<char>>,
}

impl View for AppliedState {
    type V = AppliedView;

    open spec fn view(&self) -> AppliedView {
        AppliedView {
            tunnel_id: self.tunnel_id@,
            revision: self.revision,
            status: self.status@,
            error: text::opt(self.error),
        }
    }
}

/// The status that a report leads to: one that was not applied has failed.
pub open spec fn reported_status(report: protocol::ResultView) -> Seq<char> {
    if report.applied {
        report.status
    } else {
        "failed"@
    }
}

/// Whether a report about a stored service counts: it comes from the device of the service, for the
/// revision in force, and the service is on or reported as off.
pub open spec fn report_counts(report: protocol::ResultView, row: ReportRow, device: Seq<char>) -> bool {
    row.id@ == report.tunnel_id && text::opt(row.device_id) == Some(device) && row.apply_revision
        == report.revision && !row.deleted && (row.enabled || reported_status(report)
        == "disabled"@)
}

/// Whether a report is accepted.
pub open spec fn report_accepted(
    report: protocol::ResultView,
    rows: Seq<ReportRow>,
    device: Seq<char>,
) -> bool {
    (report.status == "ready"@ || report.status == "failed"@ || report.status == "disabled"@)
        && exists|i: int|
        0 <= i < rows.len() && report_counts(report, #[trigger] rows[i], device)
}

/// What is noted after a report.
pub open spec fn noted_report(report: protocol::ResultView) -> AppliedView {
    AppliedView {
        tunnel_id: report.tunnel_id,
        revision: report.revision,
        status: reported_status(report),
        error: match report.error_message {
            Some(text) => Some(text::shortened(text, 512)),
            None => None,
        },
    }
}

/// What is noted after the first `n` reports of a device.
pub open spec fn noted_reports(
    reports: Seq<TunnelApplyResult>,
    rows: Seq<ReportRow>,
    device: Seq<char>,
    n: int,
) -> Seq<AppliedView>
    decreases n,
{
    if n <= 0 {
        Seq::empty()
    } else {
        let before = noted_reports(reports, rows, device, n - 1);
        if report_accepted(reports[n - 1]@, rows, device) {
            before.push(noted_report(reports[n - 1]@))
        } else {
            before
        }
    }
}

fn check_report(report: &TunnelApplyResult, rows: &Vec<ReportRow>, device: &str) -> (r: bool)
    ensures
        r == report_accepted(report@, rows@, device@),
{
    let status: &str = report.status.as_str();
    if !(same(status, "ready") || same(status, "failed") || same(status, "disabled")) {
        return false;
    }
    let off: bool = report.applied && same(status, "disabled");
    proof {
        reveal_strlit("failed");
        reveal_strlit("disabled");
        assert("failed"@.len() != "disabled"@.len());
    }
    let mut i: usize = 0;
    while i < rows.len()
        invariant
            i <= rows@.len(),
            off == (reported_status(report@) == "disabled"@),
            report@.status == "ready"@ || report@.status == "failed"@ || report@.status
                == "disabled"@,
            forall|j: int| 0 <= j < i ==> !report_counts(report@, #[trigger] rows@[j], device@),
        decreases rows@.len() - i,
    {
        let row: &ReportRow = &rows[i];
        if same(row.id.as_str(), report.tunnel_id.as_str()) && is_text(&row.device_id, device)
            && row.apply_revision == report.revision && !row.deleted && (row.enabled || off) {
            assert(report_counts(report@, rows@[i as int], device@));
            return true;
        }
        i = i + 1;
    }
    false
}

/// What is noted after the reports of a device. A report about a service of another device, or about
/// a revision that is no longer in force, is passed over.
pub fn apply_results(
    reports: &Vec<TunnelApplyResult>,
    rows: &Vec<ReportRow>,
    device: &str,
) -> (r: Vec<AppliedState>)
    ensures
        Seq::new(r@.len(), |i: int| r@[i]@) == noted_reports(
            reports@,
            rows@,
            device@,
            reports@.len() as int,
        ),
{
    let mut r: Vec<AppliedState> = Vec::new();
    let mut i: usize = 0;
    while i < reports.len()
        invariant
            i <= reports@.len(),
            Seq::new(r@.len(), |j: int| r@[j]@) == noted_reports(
                reports@,
                rows@,
                device@,
                i as int,
            ),
        decreases reports@.len() - i,
    {
        let report: &TunnelApplyResult = &reports[i];
        if check_report(report, rows, device) {
            let ghost before = Seq::new(r@.len(), |j: int| r@[j]@);
            let state = AppliedState {
                tunnel_id: report.tunnel_id.clone(),
                revision: report.revision,
                status: if report.applied {
                    report.status.clone()
                } else {
                    "failed".to_owned()
                },
                error: match &report.error_message {
                    Some(text) => Some(shorten(text.as_str(), 512)),
                    None => None,
                },
            };
            r.push(state);
            assert(state@ == noted_report(report@));
            assert(Seq::new(r@.len(), |j: int| r@[j]@) =~= before.push(state@));
        }
        i = i + 1;
    }
    r
}

/// A device cannot report on the service of another one, nor on a revision that is not in force.
pub proof fn reports_stay_with_their_device(
    report: protocol::ResultView,
    rows: Seq<ReportRow>,
    device: Seq<char>,
)
    requires
        report_accepted(report, rows, device),
    ensures
        exists|i: int|
            #![trigger rows[i]]
            0 <= i < rows.len() && rows[i].id@ == report.tunnel_id && text::opt(rows[i].device_id)
                == Some(device) && rows[i].apply_revision == report.revision && !rows[i].deleted,
{
    let i = choose|i: int| 0 <= i < rows.len() && report_counts(report, #[trigger] rows[i], device);
    assert(rows[i].id@ == report.tunnel_id);
}

proof fn lemma_noted_reports(
    reports: Seq<TunnelApplyResult>,
    rows: Seq<ReportRow>,
    device: Seq<char>,
    n: int,
    keep: spec_fn(int) -> bool,
    value: spec_fn(int) -> AppliedView,
)
    requires
        forall|i: int|
            0 <= i < n ==> #[trigger] keep(i) == report_accepted(reports[i]@, rows, device)
                && value(i) == noted_report(reports[i]@),
    ensures
        noted_reports(reports, rows, device, n) == picked::picked(keep, value, n),
    decreases n,
{
    if n > 0 {
        assert(keep(n - 1) || !keep(n - 1));
        lemma_noted_reports(reports, rows, device, n - 1, keep, value);
    }
}

/// Each note goes back to a report and to a stored service of the device that reported it. A report
/// that was not applied is noted as failed, whatever status it names; no note says of a service that
/// it is ready unless its device has applied the revision in force and reported it as ready.
pub proof fn notes_say_what_was_reported(
    reports: Seq<TunnelApplyResult>,
    rows: Seq<ReportRow>,
    device: Seq<char>,
    j: int,
)
    requires
        0 <= j < noted_reports(reports, rows, device, reports.len() as int).len(),
    ensures
        ({
            let note = noted_reports(reports, rows, device, reports.len() as int)[j];
            exists|i: int, k: int|
                #![trigger reports[i], rows[k]]
                0 <= i < reports.len() && 0 <= k < rows.len() && note.tunnel_id
                    == reports[i].tunnel_id@ && note.revision == reports[i].revision && note.status
                    == (if reports[i].applied {
                    reports[i].status@
                } else {
                    "failed"@
                }) && (note.status == "ready"@ ==> reports[i].applied && reports[i].status@
                    == "ready"@ && rows[k].enabled) && (reports[i].error_message is None
                    ==> note.error is None) && rows[k].id@ == note.tunnel_id && text::opt(
                    rows[k].device_id,
                ) == Some(device) && rows[k].apply_revision == note.revision && !rows[k].deleted
        }),
{
    let n = reports.len() as int;
    let keep = |i: int| report_accepted(reports[i]@, rows, device);
    let value = |i: int| noted_report(reports[i]@);
    lemma_noted_reports(reports, rows, device, n, keep, value);
    let note = noted_reports(reports, rows, device, n)[j];
    let i = picked::lemma_picked_from(keep, value, n, j);
    let k = choose|k: int|
        0 <= k < rows.len() && report_counts(reports[i]@, #[trigger] rows[k], device);
    reveal_strlit("failed");
    reveal_strlit("ready");
    reveal_strlit("disabled");
    assert("failed"@.len() == 6 && "ready"@.len() == 5 && "disabled"@.len() == 8);
    assert(reports[i].tunnel_id@ == note.tunnel_id && rows[k].id@ == note.tunnel_id);
}

/// What a device says of a service of its own that is on, in the revision in force, is noted: that it
/// is ready where the device has applied it and says so, and that it has failed where the device has
/// not applied it, with the beginning of its message.
pub proof fn reports_on_own_services_are_noted(
    reports: Seq<TunnelApplyResult>,
    rows: Seq<ReportRow>,
    device: Seq<char>,
    i: int,
    k: int,
)
    requires
        0 <= i < reports.len(),
        0 <= k < rows.len(),
        rows[k].id@ == reports[i].tunnel_id@,
        text::opt(rows[k].device_id) == Some(device),
        rows[k].apply_revision == reports[i].revision,
        rows[k].enabled,
        !rows[k].deleted,
        reports[i].status@ == "ready"@ || reports[i].status@ == "failed"@,
    ensures
        exists|j: int|
            0 <= j < noted_reports(reports, rows, device, reports.len() as int).len() && ({
                let note = #[trigger] noted_reports(
                    reports,
                    rows,
                    device,
                    reports.len() as int,
                )[j];
                &&& note.tunnel_id == reports[i].tunnel_id@ && note.revision
                    == reports[i].revision
                &&& reports[i].applied ==> note.status == reports[i].status@
                &&& !reports[i].applied ==> note.status == "failed"@
                &&& reports[i].error_message matches Some(told) ==> note.error == Some(
                    text::shortened(told@, 512),
                )
            }),
{
    assert(report_counts(reports[i]@, rows[k], device));
    let n = reports.len() as int;
    let keep = |i: int| report_accepted(reports[i]@, rows, device);
    let value = |i: int| noted_report(reports[i]@);
    lemma_noted_reports(reports, rows, device, n, keep, value);
    let j = picked::lemma_picked_all(keep, value, n, i);
    assert(noted_reports(reports, rows, device, n)[j] == value(i));
}

/// A stored service with what its agent last reported.
pub struct StatusRow {
    pub id: String,
    pub device: Option<String>,
    /// Whether the service and its workspace are on.
    pub enabled: bool,
    pub protocol: String,
    pub revision: i64,
    pub applied_revision: Option<i64>,
    pub applied_status: Option<String>,
    pub applied_error: Option<String>,
    pub domain_id: Option<String>,
    pub hostname: Option<String>,
    pub domain_name: Option<String>,
}

/// What is known of the connections when the state of a service is shown.
pub struct Observed {
    /// The open entries, each with the address under which the edge reaches it.
    pub listeners: Vec<(String, Option<String>)>,
    pub online: Vec<String>,
    pub data: Vec<String>,
    /// The entries that could not be opened, each with the reason.
    pub failures: Vec<(String, String)>,
}

/// The reason for which the entry of a service could not be opened.
pub open spec fn failure_of(list: Seq<(String, String)>, id: Seq<char>, i: int) -> Option<Seq<char>>
    decreases list.len() - i,
{
    if i < 0 || i >= list.len() {
        None
    } else if list[i].0@ == id {
        Some(list[i].1@)
    } else {
        failure_of(list, id, i + 1)
    }
}

/// The open entry of a service, with the address under which the edge reaches it.
pub open spec fn entry_of(list: Seq<(String, Option<String>)>, id: Seq<char>, i: int) -> Option<
    Option<Seq<char>>,
>
    decreases list.len() - i,
{
    if i < 0 || i >= list.len() {
        None
    } else if list[i].0@ == id {
        Some(text::opt(list[i].1))
    } else {
        entry_of(list, id, i + 1)
    }
}

/// A text that may be missing, or nothing.
pub open spec fn or_empty(value: Option<String>) -> Seq<char> {
    match value {
        Some(text) => text@,
        None => Seq::empty(),
    }
}

/// Whether a certificate serves a host name now.
pub open spec fn serves_now(cert: domain_runtime::CertView, host: Seq<char>, now: i64) -> bool {
    edge_config::covered(cert.hostname, host) && (cert.expires_at matches Some(end) && end > now)
        && (cert.not_before matches Some(start) && start <= now)
}

/// The state of a web service whose agent is ready, given the state of its domain.
pub open spec fn web_status(
    row: StatusRow,
    upstream: Option<Seq<char>>,
    runtime: domain_runtime::RuntimeView,
    now: i64,
) -> (Seq<char>, Option<Seq<char>>) {
    let host = or_empty(row.hostname) + "."@ + or_empty(row.domain_name);
    if runtime.config_status != "applied"@ {
        (
            "checking"@,
            Some(
                match runtime.config_error {
                    Some(error) => error,
                    None => "等待 Caddy 加载配置"@,
                },
            ),
        )
    } else if domain_runtime::last_route_for(
        runtime.loaded_routes,
        row.protocol@ + "://"@ + host,
        runtime.loaded_routes.len() as int,
    ) != upstream {
        ("checking"@, Some("等待 Caddy 更新服务入口"@))
    } else if row.protocol@ == "https"@ && !exists|i: int|
        0 <= i < runtime.certificates.len() && serves_now(
            #[trigger] runtime.certificates[i],
            host,
            now,
        ) {
        ("checking"@, Some("等待 HTTPS 证书签发或续期"@))
    } else {
        ("ready"@, None)
    }
}

/// The state of a service as it is shown, with the reason where it is not ready.
pub open spec fn shown_status(
    row: StatusRow,
    seen: Observed,
    runtime: domain_runtime::RuntimeView,
    now: i64,
) -> (Seq<char>, Option<Seq<char>>) {
    let online = text::views(seen.online@);
    let data = text::views(seen.data@);
    if !row.enabled {
        ("disabled"@, None)
    } else if failure_of(seen.failures@, row.id@, 0) is Some {
        ("failed"@, failure_of(seen.failures@, row.id@, 0))
    } else if row.device matches Some(device) ==> !online.contains(device@) {
        ("checking"@, Some("Agent 未连接控制通道"@))
    } else if row.device matches Some(device) ==> !data.contains(device@) {
        ("checking"@, Some("Agent 数据通道未连接"@))
    } else {
        match entry_of(seen.listeners@, row.id@, 0) {
            None => ("failed"@, Some("服务入口尚未建立"@)),
            Some(upstream) => if row.applied_revision != Some(row.revision) {
                ("checking"@, Some("等待 Agent 应用当前配置"@))
            } else if text::opt(row.applied_status) != Some("ready"@) {
                (
                    "failed"@,
                    Some(
                        match row.applied_error {
                            Some(error) => error@,
                            None => "本地服务无法连接"@,
                        },
                    ),
                )
            } else if row.protocol@ != "tcp"@ {
                web_status(row, upstream, runtime, now)
            } else {
                ("ready"@, None)
            },
        }
    }
}

fn find_failure(list: &Vec<(String, String)>, id: &str) -> (r: Option<String>)
    ensures
        text::opt(r) == failure_of(list@, id@, 0),
{
    let mut i: usize = 0;
    while i < list.len()
        invariant
            i <= list@.len(),
            failure_of(list@, id@, 0) == failure_of(list@, id@, i as int),
        decreases list@.len() - i,
    {
        if same(list[i].0.as_str(), id) {
            return Some(list[i].1.clone());
        }
        i = i + 1;
    }
    None
}

fn find_entry(list: &Vec<(String, Option<String>)>, id: &str) -> (r: Option<Option<String>>)
    ensures
        (match r {
            Some(upstream) => Some(text::opt(upstream)),
            None => None,
        }) == entry_of(list@, id@, 0),
{
    let mut i: usize = 0;
    while i < list.len()
        invariant
            i <= list@.len(),
            entry_of(list@, id@, 0) == entry_of(list@, id@, i as int),
        decreases list@.len() - i,
    {
        if same(list[i].0.as_str(), id) {
            return Some(copy_opt(&list[i].1));
        }
        i = i + 1;
    }
    None
}

fn text_or_empty(value: &Option<String>) -> (r: String)
    ensures
        r@ == or_empty(*value),
{
    match value {
        Some(text) => text.clone(),
        None => String::new(),
    }
}

fn same_opt(a: &Option<String>, b: &Option<String>) -> (r: bool)
    ensures
        r == (text::opt(*a) == text::opt(*b)),
{
    match (a, b) {
        (Some(a), Some(b)) => same(a.as_str(), b.as_str()),
        (None, None) => true,
        _ => false,
    }
}

fn certified(runtime: &DomainRuntime, host: &str, now: i64) -> (r: bool)
    ensures
        r == (exists|i: int|
            0 <= i < runtime@.certificates.len() && serves_now(
                #[trigger] runtime@.certificates[i],
                host@,
                now,
            )),
{
    let ghost certs = runtime@.certificates;
    let mut i: usize = 0;
    while i < runtime.certificates.len()
        invariant
            i <= runtime.certificates@.len(),
            certs == runtime@.certificates,
            forall|j: int| 0 <= j < i ==> !serves_now(#[trigger] certs[j], host@, now),
        decreases runtime.certificates@.len() - i,
    {
        assert(certs[i as int] == runtime.certificates@[i as int]@);
        let cert: &domain_runtime::CertificateStatus = &runtime.certificates[i];
        let lasting: bool = match cert.expires_at {
            Some(end) => end > now,
            None => false,
        };
        let begun: bool = match cert.not_before {
            Some(start) => start <= now,
            None => false,
        };
        if lasting && begun && covers(cert.hostname.as_str(), host) {
            assert(serves_now(certs[i as int], host@, now));
            return true;
        }
        i = i + 1;
    }
    false
}

fn check_web(
    row: &StatusRow,
    upstream: &Option<String>,
    runtime: &DomainRuntime,
    now: i64,
) -> (r: (&'static str, Option<String>))
    ensures
        (r.0@, text::opt(r.1)) == web_status(*row, text::opt(*upstream), runtime@, now),
{
    let host: String = join3(
        text_or_empty(&row.hostname).as_str(),
        ".",
        text_or_empty(&row.domain_name).as_str(),
    );
    if !same(runtime.config_status.as_str(), "applied") {
        let reason: String = match &runtime.config_error {
            Some(error) => error.clone(),
            None => "等待 Caddy 加载配置".to_owned(),
        };
        return ("checking", Some(reason));
    }
    let address: String = join3(row.protocol.as_str(), "://", host.as_str());
    let route: Option<String> = runtime.loaded_route(address.as_str());
    if !same_opt(&route, upstream) {
        return ("checking", Some("等待 Caddy 更新服务入口".to_owned()));
    }
    if same(row.protocol.as_str(), "https") && !certified(runtime, host.as_str(), now) {
        return ("checking", Some("等待 HTTPS 证书签发或续期".to_owned()));
    }
    ("ready", None)
}

/// The state of a service as it is shown. It is ready only where its agent, its connections, its
/// entry and, for a web service, the edge and the certificate are all in place.
pub fn refresh_status(
    row: &StatusRow,
    seen: &Observed,
    runtime: &DomainRuntime,
    now: i64,
) -> (r: (&'static str, Option<String>))
    ensures
        (r.0@, text::opt(r.1)) == shown_status(*row, *seen, runtime@, now),
{
    if !row.enabled {
        return ("disabled", None);
    }
    if let Some(reason) = find_failure(&seen.failures, row.id.as_str()) {
        return ("failed", Some(reason));
    }
    let controlled: bool = match &row.device {
        Some(device) => holds(&seen.online, device.as_str()),
        None => false,
    };
    if !controlled {
        return ("checking", Some("Agent 未连接控制通道".to_owned()));
    }
    let connected: bool = match &row.device {
        Some(device) => holds(&seen.data, device.as_str()),
        None => false,
    };
    if !connected {
        return ("checking", Some("Agent 数据通道未连接".to_owned()));
    }
    let upstream: Option<String> = match find_entry(&seen.listeners, row.id.as_str()) {
        Some(upstream) => upstream,
        None => {
            return ("failed", Some("服务入口尚未建立".to_owned()));
        },
    };
    let current: bool = match row.applied_revision {
        Some(revision) => revision == row.revision,
        None => false,
    };
    if !current {
        return ("checking", Some("等待 Agent 应用当前配置".to_owned()));
    }
    if !is_text(&row.applied_status, "ready") {
        let reason: String = match &row.applied_error {
            Some(error) => error.clone(),
            None => "本地服务无法连接".to_owned(),
        };
        return ("failed", Some(reason));
    }
    if !same(row.protocol.as_str(), "tcp") {
        return check_web(row, &upstream, runtime, now);
    }
    ("ready", None)
}

/// A service is shown as ready only where it is on, its agent has both connections and reports the
/// revision in force as ready, its entry is open, and, for a web service, the edge serves it through
/// that entry and, over HTTPS, with a certificate that is valid now.
pub proof fn ready_means_everything_is_in_place(
    row: StatusRow,
    seen: Observed,
    runtime: domain_runtime::RuntimeView,
    now: i64,
)
    requires
        shown_status(row, seen, runtime, now).0 == "ready"@,
    ensures
        row.enabled,
        row.device matches Some(device) && text::views(seen.online@).contains(device@)
            && text::views(seen.data@).contains(device@),
        entry_of(seen.listeners@, row.id@, 0) is Some,
        row.applied_revision == Some(row.revision),
        text::opt(row.applied_status) == Some("ready"@),
        row.protocol@ != "tcp"@ ==> runtime.config_status == "applied"@
            && domain_runtime::last_route_for(
            runtime.loaded_routes,
            row.protocol@ + "://"@ + (or_empty(row.hostname) + "."@ + or_empty(row.domain_name)),
            runtime.loaded_routes.len() as int,
        ) == entry_of(seen.listeners@, row.id@, 0)->0,
        row.protocol@ == "https"@ ==> exists|i: int|
            0 <= i < runtime.certificates.len() && serves_now(
                #[trigger] runtime.certificates[i],
                or_empty(row.hostname) + "."@ + or_empty(row.domain_name),
                now,
            ),
{
    reveal_strlit("ready");
    reveal_strlit("disabled");
    reveal_strlit("failed");
    reveal_strlit("checking");
    reveal_strlit("tcp");
    reveal_strlit("https");
    assert("ready"@.len() == 5 && "disabled"@.len() == 8 && "failed"@.len() == 6
        && "checking"@.len() == 8 && "tcp"@.len() == 3 && "https"@.len() == 5);
}

proof fn lemma_entry_of(list: Seq<(String, Option<String>)>, id: Seq<char>, i: int)
    requires
        0 <= i,
    ensures
        entry_of(list, id, i) matches Some(found) ==> exists|k: int|
            i <= k < list.len() && (#[trigger] list[k]).0@ == id && text::opt(list[k].1) == found,
        entry_of(list, id, i) is None ==> forall|k: int|
            i <= k < list.len() ==> (#[trigger] list[k]).0@ != id,
    decreases list.len() - i,
{
    if i < list.len() && list[i].0@ != id {
        lemma_entry_of(list, id, i + 1);
    }
}

proof fn lemma_failure_of(list: Seq<(String, String)>, id: Seq<char>, i: int)
    requires
        0 <= i,
    ensures
        failure_of(list, id, i) is None <==> forall|k: int|
            i <= k < list.len() ==> (#[trigger] list[k]).0@ != id,
    decreases list.len() - i,
{
    if i < list.len() && list[i].0@ != id {
        lemma_failure_of(list, id, i + 1);
    }
}

/// A service that is shown as ready has an entry that is open, and none that could not be opened; one
/// that is served over HTTPS has a certificate for its host name that has begun and has not ended.
pub proof fn ready_services_are_open_and_certified(
    row: StatusRow,
    seen: Observed,
    runtime: domain_runtime::RuntimeView,
    now: i64,
)
    requires
        shown_status(row, seen, runtime, now).0 == "ready"@,
    ensures
        shown_status(row, seen, runtime, now).1 is None,
        forall|k: int|
            0 <= k < seen.failures@.len() ==> (#[trigger] seen.failures@[k]).0@ != row.id@,
        exists|k: int|
            0 <= k < seen.listeners@.len() && (#[trigger] seen.listeners@[k]).0@ == row.id@,
        row.protocol@ == "https"@ ==> exists|i: int|
            0 <= i < runtime.certificates.len() && edge_config::covered(
                (#[trigger] runtime.certificates[i]).hostname,
                or_empty(row.hostname) + "."@ + or_empty(row.domain_name),
            ) && (runtime.certificates[i].expires_at matches Some(end) && end > now) && (
            runtime.certificates[i].not_before matches Some(start) && start <= now),
{
    ready_means_everything_is_in_place(row, seen, runtime, now);
    lemma_entry_of(seen.listeners@, row.id@, 0);
    lemma_failure_of(seen.failures@, row.id@, 0);
    reveal_strlit("ready");
    reveal_strlit("disabled");
    reveal_strlit("failed");
    reveal_strlit("checking");
    assert("ready"@.len() == 5 && "disabled"@.len() == 8 && "failed"@.len() == 6
        && "checking"@.len() == 8);
}

/// A TCP service is shown as ready once it is on, its device has both connections and reports the
/// revision in force as ready, and its entry is open. A service that is off is shown as disabled, one
/// whose entry could not be opened as failed, and one whose device is not connected is being checked.
pub proof fn states_of_a_service_follow_what_is_seen(
    row: StatusRow,
    seen: Observed,
    runtime: domain_runtime::RuntimeView,
    now: i64,
    device: Seq<char>,
)
    requires
        text::opt(row.device) == Some(device),
    ensures
        !row.enabled ==> shown_status(row, seen, runtime, now) == ("disabled"@, None::<Seq<char>>),
        ({
            let failed = exists|k: int|
                0 <= k < seen.failures@.len() && (#[trigger] seen.failures@[k]).0@ == row.id@;
            let open = exists|k: int|
                0 <= k < seen.listeners@.len() && (#[trigger] seen.listeners@[k]).0@ == row.id@;
            let connected = text::views(seen.online@).contains(device) && text::views(
                seen.data@,
            ).contains(device);
            let status = shown_status(row, seen, runtime, now).0;
            row.enabled ==> {
                &&& failed ==> status == "failed"@
                &&& !failed && !connected ==> status == "checking"@
                &&& !failed && connected && !open ==> status == "failed"@
                &&& !failed && connected && open && row.applied_revision != Some(row.revision)
                    ==> status == "checking"@
                &&& !failed && connected && open && row.applied_revision == Some(row.revision)
                    && text::opt(row.applied_status) != Some("ready"@) ==> status == "failed"@
                &&& !failed && connected && open && row.applied_revision == Some(row.revision)
                    && text::opt(row.applied_status) == Some("ready"@) && row.protocol@ == "tcp"@
                    ==> status == "ready"@
            }
        }),
{
    lemma_entry_of(seen.listeners@, row.id@, 0);
    lemma_failure_of(seen.failures@, row.id@, 0);
}

/// A web service whose device has everything in place is ready once the edge has taken the
/// configuration in which its address leads to the open entry and, over HTTPS, a certificate for its
/// host name is in force.
pub proof fn web_services_become_ready(
    row: StatusRow,
    seen: Observed,
    runtime: domain_runtime::RuntimeView,
    now: i64,
    device: Seq<char>,
    upstream: Option<Seq<char>>,
    i: int,
)
    requires
        text::opt(row.device) == Some(device),
        row.enabled,
        forall|k: int|
            0 <= k < seen.failures@.len() ==> (#[trigger] seen.failures@[k]).0@ != row.id@,
        text::views(seen.online@).contains(device),
        text::views(seen.data@).contains(device),
        entry_of(seen.listeners@, row.id@, 0) == Some(upstream),
        row.applied_revision == Some(row.revision),
        text::opt(row.applied_status) == Some("ready"@),
        runtime.config_status == "applied"@,
        domain_runtime::last_route_for(
            runtime.loaded_routes,
            row.protocol@ + "://"@ + (or_empty(row.hostname) + "."@ + or_empty(row.domain_name)),
            runtime.loaded_routes.len() as int,
        ) == upstream,
        row.protocol@ == "https"@ ==> 0 <= i < runtime.certificates.len() && edge_config::covered(
            runtime.certificates[i].hostname,
            or_empty(row.hostname) + "."@ + or_empty(row.domain_name),
        ) && (runtime.certificates[i].expires_at matches Some(end) && end > now) && (
        runtime.certificates[i].not_before matches Some(start) && start <= now),
    ensures
        shown_status(row, seen, runtime, now) == ("ready"@, None::<Seq<char>>),
{
    lemma_failure_of(seen.failures@, row.id@, 0);
    if row.protocol@ == "https"@ {
        assert(serves_now(
            runtime.certificates[i],
            or_empty(row.hostname) + "."@ + or_empty(row.domain_name),
            now,
        ));
    }
}

/// Why a connection of an agent is refused or ended.
#[derive(Debug, Clone, Copy, PartialEq, Eq, Structural)]
pub enum ControlError {
    /// The certificate cannot be parsed.
    Certificate,
    /// The certificate names no device.
    Unnamed,
    /// The workspace of the device is off, or the device is gone.
    Disabled,
    /// The first message is not a greeting.
    NoGreeting,
    /// The greeting names another device.
    WrongDevice,
    /// A heartbeat names another device.
    WrongHeartbeat,
    /// A second greeting came.
    RepeatedGreeting,
}

impl ControlError {
    /// The message for the log.
    pub open spec fn text(self) -> Seq<char> {
        match self {
            ControlError::Certificate => "设备证书无效"@,
            ControlError::Unnamed => "设备证书缺少身份"@,
            ControlError::Disabled => "设备所属账号已停用或设备已删除"@,
            ControlError::NoGreeting => "Agent 首帧必须是 Hello"@,
            ControlError::WrongDevice => "Agent ID 与客户端证书不一致"@,
            ControlError::WrongHeartbeat => "心跳设备 ID 与证书不一致"@,
            ControlError::RepeatedGreeting => "不能重复发送 Hello"@,
        }
    }

    /// The message for the log.
    pub fn message(&self) -> (r: String)
        ensures
            r@ == self.text(),
    {
        match self {
            ControlError::Certificate => "设备证书无效".to_owned(),
            ControlError::Unnamed => "设备证书缺少身份".to_owned(),
            ControlError::Disabled => "设备所属账号已停用或设备已删除".to_owned(),
            ControlError::NoGreeting => "Agent 首帧必须是 Hello".to_owned(),
            ControlError::WrongDevice => "Agent ID 与客户端证书不一致".to_owned(),
            ControlError::WrongHeartbeat => "心跳设备 ID 与证书不一致".to_owned(),
            ControlError::RepeatedGreeting => "不能重复发送 Hello".to_owned(),
        }
    }
}

/// The device that a certificate names.
pub open spec fn named_device(der: Seq<u8>) -> Result<Seq<char>, ControlError> {
    match x509::certificate_of(der) {
        None => Err(ControlError::Certificate),
        Some(facts) => match facts.common_name {
            None => Err(ControlError::Unnamed),
            Some(name) => Ok(name),
        },
    }
}

/// The device that a certificate names, and what is stored of the certificate to recognise it.
pub fn authenticated_device(der: &Vec<u8>) -> (r: Result<(String, String), ControlError>)
    ensures
        match r {
            Ok(found) => named_device(der@) == Ok::<Seq<char>, ControlError>(found.0@) && found.1@
                == crate::digest::hex_of(crate::digest::sha256_of(der@)),
            Err(e) => named_device(der@) == Err::<Seq<char>, ControlError>(e),
        },
{
    let digest: String = fingerprint_der(der);
    match parse_certificate(der) {
        None => Err(ControlError::Certificate),
        Some(facts) => match facts.common_name {
            None => Err(ControlError::Unnamed),
            Some(name) => Ok((name, digest)),
        },
    }
}

/// Whether a device may connect: it is there and its workspace is on.
pub fn ensure_device_enabled(workspace_enabled: Option<bool>) -> (r: Result<(), ControlError>)
    ensures
        match r {
            Ok(_) => workspace_enabled == Some(true),
            Err(e) => workspace_enabled != Some(true) && e == ControlError::Disabled,
        },
{
    match workspace_enabled {
        Some(true) => Ok(()),
        _ => Err(ControlError::Disabled),
    }
}

/// The version that an agent greets with; its first message must be a greeting for its own device.
pub fn first_message(message: &AgentControlMessage, device: &str) -> (r: Result<
    String,
    ControlError,
>)
    ensures
        match *message {
            AgentControlMessage::Hello { device_id, agent_version } => if device_id@ == device@ {
                r matches Ok(version) && version@ == agent_version@
            } else {
                r == Err::<String, _>(ControlError::WrongDevice)
            },
            _ => r == Err::<String, _>(ControlError::NoGreeting),
        },
{
    match message {
        AgentControlMessage::Hello { device_id, agent_version } => if same(
            device_id.as_str(),
            device,
        ) {
            Ok(agent_version.clone())
        } else {
            Err(ControlError::WrongDevice)
        },
        _ => Err(ControlError::NoGreeting),
    }
}

/// What the server does upon a message of an agent.
pub enum ControlStep {
    /// Note the time and the version, and answer with the services.
    Acknowledge { agent_version: String },
    /// Note the reports, and answer with those that count.
    Note { results: Vec<TunnelApplyResult> },
    /// Renew the certificate, and answer with the outcome.
    Renew { csr_pem: String },
    /// Take the new certificate as the one in use.
    Install { certificate_pem: String },
    /// Note the failed renewal.
    Delay { error: String, next_retry_at: i64 },
}

/// What the server does upon a message of a connected agent.
pub fn next_message(message: AgentControlMessage, device: &str) -> (r: Result<
    ControlStep,
    ControlError,
>)
    ensures
        match message {
            AgentControlMessage::Heartbeat { device_id, agent_version } => if device_id@
                == device@ {
                r matches Ok(ControlStep::Acknowledge { agent_version: version }) && version
                    == agent_version
            } else {
                r == Err::<ControlStep, _>(ControlError::WrongHeartbeat)
            },
            AgentControlMessage::TunnelApplyReport { results } => r matches Ok(
                ControlStep::Note { results: noted },
            ) && noted == results,
            AgentControlMessage::RenewCertificate { csr_pem } => r matches Ok(
                ControlStep::Renew { csr_pem: csr },
            ) && csr == csr_pem,
            AgentControlMessage::CertificateInstalled { certificate_pem } => r matches Ok(
                ControlStep::Install { certificate_pem: pem },
            ) && pem == certificate_pem,
            AgentControlMessage::CertificateRenewalFailed { error, next_retry_at } => r matches Ok(
                ControlStep::Delay { error: told, next_retry_at: next },
            ) && told == error && next == next_retry_at,
            AgentControlMessage::Hello { device_id: _, agent_version: _ } => r == Err::<
                ControlStep,
                _,
            >(ControlError::RepeatedGreeting),
        },
{
    match message {
        AgentControlMessage::Heartbeat { device_id, agent_version } => if same(
            device_id.as_str(),
            device,
        ) {
            Ok(ControlStep::Acknowledge { agent_version })
        } else {
            Err(ControlError::WrongHeartbeat)
        },
        AgentControlMessage::TunnelApplyReport { results } => Ok(ControlStep::Note { results }),
        AgentControlMessage::RenewCertificate { csr_pem } => Ok(ControlStep::Renew { csr_pem }),
        AgentControlMessage::CertificateInstalled { certificate_pem } => Ok(
            ControlStep::Install { certificate_pem },
        ),
        AgentControlMessage::CertificateRenewalFailed { error, next_retry_at } => Ok(
            ControlStep::Delay { error, next_retry_at },
        ),
        AgentControlMessage::Hello { device_id: _, agent_version: _ } => Err(
            ControlError::RepeatedGreeting,
        ),
    }
}

/// The answer to a request for a new certificate, and what is noted where it failed.
pub fn renewal_reply(
    outcome: Result<String, IdentityError>,
    failures: u32,
    now: i64,
) -> (r: (ServerControlMessage, Option<RenewalRetry>))
    requires
        now + 3600 <= i64::MAX,
    ensures
        match outcome {
            Ok(pem) => (r.0 matches ServerControlMessage::CertificateRenewed { certificate_pem }
                && certificate_pem@ == pem@) && r.1 is None,
            Err(e) => (r.0 matches ServerControlMessage::CertificateRenewalFailed {
                message,
                next_retry_at,
            } && message@ == "设备证书续签失败："@ + e.text() && (r.1 matches Some(retry)
                && retry.failures == identity::one_more(failures) && retry.next_retry_at == Some(next_retry_at) && text::opt(retry.error) == Some(
                text::shortened(message@, 512),
            ) && next_retry_at == identity::next_try(retry.failures, None, now))),
        },
{
    match outcome {
        Ok(certificate_pem) => (ServerControlMessage::CertificateRenewed { certificate_pem }, None),
        Err(e) => {
            let message: String = join2("设备证书续签失败：", e.message().as_str());
            let (retry, next_retry_at): (RenewalRetry, i64) = renewal_failed(
                failures,
                message.as_str(),
                None,
                now,
            );
            (
                ServerControlMessage::CertificateRenewalFailed { message, next_retry_at },
                Some(retry),
            )
        },
    }
}

/// What is stored once an agent says that it has installed a certificate, and the digest that the
/// connection goes on with.
pub fn installed(row: Option<DeviceCertificate>, certificate_pem: &str) -> (r: Result<
    (DeviceCertificate, String),
    IdentityError,
>)
    ensures
        ({
            let stored = match row {
                Some(stored) => Some(stored@),
                None => None,
            };
            match (r, x509::fingerprint_of(certificate_pem@)) {
                (Ok(next), Ok(digest)) => next.1@ == digest && identity::accepted(stored, digest)
                    == Ok::<identity::DeviceCertificateView, IdentityError>(next.0@),
                (Err(e), Ok(digest)) => identity::accepted(stored, digest) == Err::<
                    identity::DeviceCertificateView,
                    _,
                >(e),
                (Err(e), Err(wrong)) => e == wrong,
                (Ok(_), Err(_)) => false,
            }
        }),
{
    let digest: String = match fingerprint(certificate_pem) {
        Ok(digest) => digest,
        Err(e) => {
            return Err(e);
        },
    };
    match accept_certificate(row, digest.as_str()) {
        Ok(next) => Ok((next, digest)),
        Err(e) => Err(e),
    }
}

/// The first message of an agent is a greeting from the device that the connection is for.
pub proof fn agents_greet_with_their_own_device(
    message: &AgentControlMessage,
    device: &str,
    r: Result<String, ControlError>,
)
    requires
        call_ensures(first_message, (message, device), r),
    ensures
        r is Ok <==> message is Hello && message->Hello_device_id@ == device@,
        r is Ok ==> r->Ok_0@ == message->Hello_agent_version@,
        r is Err && message is Hello ==> r->Err_0 is WrongDevice,
{
}

/// What an agent sends is carried out as it was sent; a heartbeat counts for its own device, and a
/// second greeting for none.
pub proof fn messages_are_carried_out_as_sent(
    message: AgentControlMessage,
    device: &str,
    r: Result<ControlStep, ControlError>,
)
    requires
        call_ensures(next_message, (message, device), r),
    ensures
        message matches AgentControlMessage::TunnelApplyReport { results } ==> (r matches Ok(
            ControlStep::Note { results: noted },
        ) && noted == results),
        message matches AgentControlMessage::RenewCertificate { csr_pem } ==> (r matches Ok(
            ControlStep::Renew { csr_pem: csr },
        ) && csr == csr_pem),
        message matches AgentControlMessage::CertificateInstalled { certificate_pem } ==> (
        r matches Ok(ControlStep::Install { certificate_pem: pem }) && pem == certificate_pem),
        message matches AgentControlMessage::CertificateRenewalFailed { error, next_retry_at } ==> (
        r matches Ok(ControlStep::Delay { error: told, next_retry_at: next }) && told == error
            && next == next_retry_at),
        message matches AgentControlMessage::Heartbeat { device_id, agent_version } ==> (r is Ok
            <==> device_id@ == device@),
        message is Hello ==> r is Err,
{
}

/// A renewal is answered with the certificate, or with its failure and the next try, which is noted in
/// the same words.
pub proof fn renewals_are_answered(
    outcome: Result<String, IdentityError>,
    failures: u32,
    now: i64,
    r: (ServerControlMessage, Option<RenewalRetry>),
)
    requires
        call_ensures(renewal_reply, (outcome, failures, now), r),
    ensures
        outcome matches Ok(pem) ==> r.1 is None && (
        r.0 matches ServerControlMessage::CertificateRenewed { certificate_pem }
            && certificate_pem@ == pem@),
        outcome is Err ==> (r.0 matches ServerControlMessage::CertificateRenewalFailed {
            message,
            next_retry_at,
        } && now + 30 <= next_retry_at <= now + 3600 && r.1 is Some && r.1->0.next_retry_at == Some(
            next_retry_at,
        ) && (failures < u32::MAX ==> r.1->0.failures == failures + 1) && r.1->0.error is Some),
{
    identity::tries_are_half_a_minute_to_an_hour_apart(identity::one_more(failures), None, now);
}

/// An installed certificate is the one that waits or the one in force, and is in force from then on.
pub proof fn installed_certificates_are_in_force(
    row: Option<DeviceCertificate>,
    certificate_pem: &str,
    r: Result<(DeviceCertificate, String), IdentityError>,
)
    requires
        call_ensures(installed, (row, certificate_pem), r),
    ensures
        r matches Ok(next) ==> row is Some && x509::fingerprint_of(certificate_pem@) == Ok::<
            Seq<char>,
            IdentityError,
        >(next.1@) && next.0@.active_digest == next.1@,
        row is None ==> r is Err,
{
    if r is Ok {
        identity::devices_are_let_in_with_their_certificates(
            match row {
                Some(stored) => Some(stored@),
                None => None,
            },
            x509::fingerprint_of(certificate_pem@)->Ok_0,
        );
    }
}

/// A TCP service is entered at its own port, and a web service through a socket of its own.
pub proof fn services_are_entered_at_their_place(
    service: &Service,
    data_dir: &str,
    r: Option<Entry>,
)
    requires
        call_ensures(entry_for, (service, data_dir), r),
    ensures
        service@.protocol == "tcp"@ ==> (r is Some <==> service@.port is Some),
        service@.protocol == "tcp"@ && r is Some ==> r == Some(
            Entry::Tcp { port: service@.port->0 },
        ),
        service@.protocol != "tcp"@ ==> (r matches Some(Entry::Socket { path, upstream })
            && text::has_suffix(path@, service@.id + ".sock"@) && upstream@ == "unix/"@ + path@),
{
    if service@.protocol != "tcp"@ {
        let directory = caddy::below(data_dir@, "tunnel-sockets"@);
        let name = service@.id + ".sock"@;
        caddy::paths_lie_below_their_directory(directory, name);
        let path = caddy::below(directory, name);
        if directory.len() == 0 {
            assert(path.skip(0) =~= path);
        }
    }
}

/// The newest connection of a device is the one in force; one that ends later than its successor came
/// ends nothing.
pub proof fn the_newest_connection_is_in_force(
    connections: &mut Sessions,
    device: &str,
    token: u64,
    r: Option<u64>,
)
    requires
        call_ensures(Sessions::register, (connections, device, token), r),
    ensures
        final(connections).of(device@) == Some(token),
        r == old(connections).of(device@),
        forall|other: Seq<char>|
            other != device@ ==> #[trigger] final(connections).of(other) == old(connections).of(
                other,
            ),
{
}

/// A connection is taken out by its own end, and by no other.
pub proof fn connections_end_themselves(
    connections: &mut Sessions,
    device: &str,
    token: u64,
    r: bool,
)
    requires
        call_ensures(Sessions::finish, (connections, device, token), r),
    ensures
        r <==> old(connections).of(device@) == Some(token),
        r ==> final(connections).of(device@) is None,
        !r ==> final(connections).of(device@) == old(connections).of(device@),
        forall|other: Seq<char>|
            other != device@ ==> #[trigger] final(connections).of(other) == old(connections).of(
                other,
            ),
{
}

} // verus!
