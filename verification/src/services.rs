//! The stored services that one request changes together: those of a device that got a new key,
//! those of a device that is deleted, and those that a user deletes in one go.
use vstd::prelude::*;

use crate::picked;
use crate::text;
use crate::text::same;
use crate::tunnels::{StateView, TunnelState};

verus! {

/// A stored service: whose it is, which device offers it, whether a report of that device about it
/// is stored, and its state.
#[derive(Debug, Clone)]
pub struct StoredService {
    pub id: String,
    pub tenant_id: String,
    pub device_id: Option<String>,
    pub reported: bool,
    pub state: TunnelState,
}

/// A stored service.
pub ghost struct ServiceView {
    pub id: Seq<char>,
    pub tenant_id: Seq<char>,
    pub device_id: Option<Seq<char>>,
    pub reported: bool,
    pub state: StateView,
}

impl View for StoredService {
    type V = ServiceView;

    open spec fn view(&self) -> ServiceView {
        ServiceView {
            id: self.id@,
            tenant_id: self.tenant_id@,
            device_id: text::opt(self.device_id),
            reported: self.reported,
            state: self.state@,
        }
    }
}

/// The stored services.
pub open spec fn services_of(rows: Seq<StoredService>) -> Seq<ServiceView> {
    Seq::new(rows.len(), |i: int| rows[i]@)
}

/// Whether a device offers a service.
pub open spec fn offered_by(service: ServiceView, device: Seq<char>) -> bool {
    service.device_id == Some(device)
}

/// Whether the device of a row is the given one.
fn is_offered_by(row: &StoredService, device: &str) -> (r: bool)
    ensures
        r == offered_by(row@, device@),
{
    match &row.device_id {
        Some(id) => same(id.as_str(), device),
        None => false,
    }
}

/// A service after its device got a new key: what was reported about it is forgotten, and one that
/// is not deleted has the next revision, to be checked where it is enabled. Whose it is, which
/// device offers it and whether it is enabled stay.
pub open spec fn after_recovery(service: ServiceView, device: Seq<char>) -> ServiceView {
    if !offered_by(service, device) {
        service
    } else if service.state.deleted {
        ServiceView { reported: false, ..service }
    } else {
        ServiceView {
            reported: false,
            state: StateView {
                apply_status: if service.state.enabled {
                    "checking"@
                } else {
                    "disabled"@
                },
                apply_revision: service.state.apply_revision + 1,
                ..service.state
            },
            ..service
        }
    }
}

/// Asks a device that got a new key to report about its services again.
pub fn recover_services(rows: &mut Vec<StoredService>, device: &str)
    requires
        forall|i: int|
            0 <= i < old(rows)@.len() && offered_by((#[trigger] old(rows)@[i])@, device@)
                ==> old(rows)@[i].state.apply_revision < i64::MAX,
    ensures
        services_of(final(rows)@) == Seq::new(
            old(rows)@.len(),
            |i: int| after_recovery(old(rows)@[i]@, device@),
        ),
{
    let ghost before = rows@;
    let n: usize = rows.len();
    let mut i: usize = 0;
    while i < n
        invariant
            i <= n == rows@.len() == before.len(),
            forall|j: int|
                0 <= j < before.len() && offered_by((#[trigger] before[j])@, device@)
                    ==> before[j].state.apply_revision < i64::MAX,
            forall|j: int| 0 <= j < i ==> (#[trigger] rows@[j])@ == after_recovery(before[j]@, device@),
            forall|j: int| i <= j < n ==> #[trigger] rows@[j] == before[j],
        decreases n - i,
    {
        if is_offered_by(&rows[i], device) {
            let mut state: TunnelState = copy_state(&rows[i].state);
            state.recovered();
            replace(rows, i, false, true, state);
        }
        i = i + 1;
    }
    assert(services_of(rows@) =~= Seq::new(
        before.len(),
        |i: int| after_recovery(before[i]@, device@),
    ));
}

/// A copy of a state.
fn copy_state(state: &TunnelState) -> (r: TunnelState)
    ensures
        r@ == state@,
        r.apply_revision == state.apply_revision,
{
    TunnelState {
        enabled: state.enabled,
        apply_status: state.apply_status.clone(),
        apply_revision: state.apply_revision,
        deleted: state.deleted,
    }
}

/// Stores a new state for one service, with or without its report and its device.
fn replace(rows: &mut Vec<StoredService>, i: usize, keep_report: bool, keep_device: bool, state: TunnelState)
    requires
        i < old(rows)@.len(),
    ensures
        final(rows)@.len() == old(rows)@.len(),
        final(rows)@[i as int]@ == (ServiceView {
            device_id: if keep_device {
                old(rows)@[i as int]@.device_id
            } else {
                None
            },
            reported: keep_report && old(rows)@[i as int]@.reported,
            state: state@,
            ..old(rows)@[i as int]@
        }),
        forall|j: int| 0 <= j < old(rows)@.len() && j != i ==> #[trigger] final(rows)@[j] == old(rows)@[j],
{
    let row: &StoredService = &rows[i];
    let next = StoredService {
        id: row.id.clone(),
        tenant_id: row.tenant_id.clone(),
        device_id: if keep_device {
            text::copy_opt(&row.device_id)
        } else {
            None
        },
        reported: keep_report && row.reported,
        state,
    };
    rows.set(i, next);
}

/// A service after its device was deleted: off, in the next revision, with no device.
pub open spec fn after_detaching(
    service: ServiceView,
    device: Seq<char>,
    tenant: Seq<char>,
) -> ServiceView {
    if offered_by(service, device) && service.tenant_id == tenant {
        ServiceView {
            device_id: None,
            state: StateView {
                enabled: false,
                apply_status: "disabled"@,
                apply_revision: service.state.apply_revision + 1,
                ..service.state
            },
            ..service
        }
    } else {
        service
    }
}

/// Switches off the services of a device that is deleted; they stay stored, with no device.
pub fn detach_services(rows: &mut Vec<StoredService>, device: &str, tenant: &str)
    requires
        forall|i: int|
            0 <= i < old(rows)@.len() && offered_by((#[trigger] old(rows)@[i])@, device@)
                && old(rows)@[i].tenant_id@ == tenant@ ==> old(rows)@[i].state.apply_revision
                < i64::MAX,
    ensures
        services_of(final(rows)@) == Seq::new(
            old(rows)@.len(),
            |i: int| after_detaching(old(rows)@[i]@, device@, tenant@),
        ),
{
    let ghost before = rows@;
    let n: usize = rows.len();
    let mut i: usize = 0;
    while i < n
        invariant
            i <= n == rows@.len() == before.len(),
            forall|j: int|
                0 <= j < before.len() && offered_by((#[trigger] before[j])@, device@)
                    && before[j].tenant_id@ == tenant@ ==> before[j].state.apply_revision
                    < i64::MAX,
            forall|j: int|
                0 <= j < i ==> (#[trigger] rows@[j])@ == after_detaching(
                    before[j]@,
                    device@,
                    tenant@,
                ),
            forall|j: int| i <= j < n ==> #[trigger] rows@[j] == before[j],
        decreases n - i,
    {
        if is_offered_by(&rows[i], device) && same(rows[i].tenant_id.as_str(), tenant) {
            let mut state: TunnelState = copy_state(&rows[i].state);
            state.detached();
            replace(rows, i, true, false, state);
        }
        i = i + 1;
    }
    assert(services_of(rows@) =~= Seq::new(
        before.len(),
        |i: int| after_detaching(before[i]@, device@, tenant@),
    ));
}

/// How often a name is among the first `n` of a list.
pub open spec fn times(list: Seq<String>, name: Seq<char>, n: int) -> int
    decreases n,
{
    if n <= 0 {
        0
    } else if list[n - 1]@ == name {
        times(list, name, n - 1) + 1
    } else {
        times(list, name, n - 1)
    }
}

/// How often a name is in a list.
fn count(list: &Vec<String>, name: &str) -> (r: usize)
    ensures
        r == times(list@, name@, list@.len() as int),
        r <= list@.len(),
{
    let mut n: usize = 0;
    let mut i: usize = 0;
    while i < list.len()
        invariant
            n <= i <= list@.len(),
            n == times(list@, name@, i as int),
        decreases list@.len() - i,
    {
        if same(list[i].as_str(), name) {
            n = n + 1;
        }
        i = i + 1;
    }
    n
}

/// A service after a user of a workspace deleted those of a list: off, and in a revision more for
/// each time that the list names it.
pub open spec fn after_deleting(service: ServiceView, ids: Seq<String>, tenant: Seq<char>) -> ServiceView {
    let n = times(ids, service.id, ids.len() as int);
    if service.tenant_id == tenant && n > 0 {
        ServiceView {
            state: StateView {
                enabled: false,
                apply_status: "disabled"@,
                apply_revision: service.state.apply_revision + n,
                deleted: true,
            },
            ..service
        }
    } else {
        service
    }
}

/// Whether a service of a workspace is stored, deleted or not.
pub open spec fn is_stored(rows: Seq<ServiceView>, id: Seq<char>, tenant: Seq<char>) -> bool {
    exists|i: int| 0 <= i < rows.len() && (#[trigger] rows[i]).id == id && rows[i].tenant_id == tenant
}

/// The first `n` of a list that name a service of a workspace, in order.
pub open spec fn stored_among(
    rows: Seq<ServiceView>,
    ids: Seq<String>,
    tenant: Seq<char>,
    n: int,
) -> Seq<Seq<char>>
    decreases n,
{
    if n <= 0 {
        Seq::empty()
    } else if is_stored(rows, ids[n - 1]@, tenant) {
        stored_among(rows, ids, tenant, n - 1).push(ids[n - 1]@)
    } else {
        stored_among(rows, ids, tenant, n - 1)
    }
}

/// Whether a service of a workspace is stored.
fn has_service(rows: &Vec<StoredService>, id: &str, tenant: &str) -> (r: bool)
    ensures
        r == is_stored(services_of(rows@), id@, tenant@),
{
    let mut i: usize = 0;
    while i < rows.len()
        invariant
            i <= rows@.len(),
            forall|j: int|
                0 <= j < i ==> !((#[trigger] services_of(rows@)[j]).id == id@ && services_of(
                    rows@,
                )[j].tenant_id == tenant@),
        decreases rows@.len() - i,
    {
        assert(services_of(rows@)[i as int] == rows@[i as int]@);
        if same(rows[i].id.as_str(), id) && same(rows[i].tenant_id.as_str(), tenant) {
            return true;
        }
        i = i + 1;
    }
    false
}

/// Deletes the services of a workspace that a list names. Gives those of the list that are stored, in
/// order, as they are recorded; the others are passed over.
pub fn delete_services(rows: &mut Vec<StoredService>, ids: &Vec<String>, tenant: &str) -> (r: Vec<String>)
    requires
        forall|i: int|
            0 <= i < old(rows)@.len() && (#[trigger] old(rows)@[i]).tenant_id@ == tenant@
                ==> old(rows)@[i].state.apply_revision + times(
                ids@,
                old(rows)@[i].id@,
                ids@.len() as int,
            ) <= i64::MAX,
    ensures
        services_of(final(rows)@) == Seq::new(
            old(rows)@.len(),
            |i: int| after_deleting(old(rows)@[i]@, ids@, tenant@),
        ),
        text::views(r@) == stored_among(services_of(old(rows)@), ids@, tenant@, ids@.len() as int),
{
    let mut named: Vec<String> = Vec::new();
    let mut k: usize = 0;
    while k < ids.len()
        invariant
            k <= ids@.len(),
            text::views(named@) == stored_among(services_of(rows@), ids@, tenant@, k as int),
        decreases ids@.len() - k,
    {
        if has_service(rows, ids[k].as_str(), tenant) {
            let ghost had = named@;
            named.push(ids[k].clone());
            assert(text::views(named@) =~= text::views(had).push(ids@[k as int]@));
        }
        k = k + 1;
    }
    let ghost before = rows@;
    let n: usize = rows.len();
    let mut i: usize = 0;
    while i < n
        invariant
            i <= n == rows@.len() == before.len(),
            forall|j: int|
                0 <= j < before.len() && (#[trigger] before[j]).tenant_id@ == tenant@
                    ==> before[j].state.apply_revision + times(
                    ids@,
                    before[j].id@,
                    ids@.len() as int,
                ) <= i64::MAX,
            forall|j: int|
                0 <= j < i ==> (#[trigger] rows@[j])@ == after_deleting(before[j]@, ids@, tenant@),
            forall|j: int| i <= j < n ==> #[trigger] rows@[j] == before[j],
        decreases n - i,
    {
        if same(rows[i].tenant_id.as_str(), tenant) {
            let often: usize = count(ids, rows[i].id.as_str());
            if often > 0 {
                let mut state: TunnelState = copy_state(&rows[i].state);
                let ghost first = state.apply_revision;
                let mut m: usize = 0;
                while m < often
                    invariant
                        m <= often,
                        first + often <= i64::MAX,
                        state.apply_revision == first + m,
                        m > 0 ==> state@ == (StateView {
                            enabled: false,
                            apply_status: "disabled"@,
                            apply_revision: first + m,
                            deleted: true,
                        }),
                    decreases often - m,
                {
                    state.deleted();
                    m = m + 1;
                }
                replace(rows, i, true, true, state);
            }
        }
        i = i + 1;
    }
    assert(services_of(rows@) =~= Seq::new(
        before.len(),
        |i: int| after_deleting(before[i]@, ids@, tenant@),
    ));
    named
}

/// A device that gets a new key keeps its services: each stays stored for the same workspace and the
/// same device, enabled or not as it was. Nothing that was reported under the old key counts any
/// more, and the services of other devices are as they were.
pub proof fn recovery_keeps_services(service: ServiceView, device: Seq<char>)
    ensures
        ({
            let after = after_recovery(service, device);
            &&& after.id == service.id
            &&& after.tenant_id == service.tenant_id
            &&& after.device_id == service.device_id
            &&& after.state.enabled == service.state.enabled
            &&& after.state.deleted == service.state.deleted
            &&& offered_by(service, device) ==> !after.reported
            &&& offered_by(service, device) && !service.state.deleted ==> after.state.apply_revision
                > service.state.apply_revision
            &&& !offered_by(service, device) ==> after == service
        }),
{
}

/// Once a device is deleted, it offers no service of its workspace, and what it offered is off. The
/// services of other devices and of other workspaces are as they were.
pub proof fn deleted_devices_offer_nothing(
    service: ServiceView,
    device: Seq<char>,
    tenant: Seq<char>,
)
    ensures
        ({
            let after = after_detaching(service, device, tenant);
            &&& after.tenant_id == tenant ==> !offered_by(after, device)
            &&& offered_by(service, device) && service.tenant_id == tenant ==> !after.state.enabled
            &&& after.id == service.id
            &&& !offered_by(service, device) || service.tenant_id != tenant ==> after == service
        }),
{
}

/// Deleting services changes those of one workspace alone, and of them those that are named alone.
pub proof fn deleting_stays_in_the_workspace(
    service: ServiceView,
    ids: Seq<String>,
    tenant: Seq<char>,
)
    ensures
        ({
            let after = after_deleting(service, ids, tenant);
            &&& service.tenant_id != tenant ==> after == service
            &&& (forall|i: int| 0 <= i < ids.len() ==> (#[trigger] ids[i])@ != service.id)
                ==> after == service
            &&& after.id == service.id
            &&& after.tenant_id == service.tenant_id
            &&& after.device_id == service.device_id
        }),
{
    if forall|i: int| 0 <= i < ids.len() ==> (#[trigger] ids[i])@ != service.id {
        lemma_never(ids, service.id, ids.len() as int);
    }
}

/// A name that is not in a list is in it no time.
proof fn lemma_never(list: Seq<String>, name: Seq<char>, n: int)
    requires
        n <= list.len(),
        forall|i: int| 0 <= i < list.len() ==> (#[trigger] list[i])@ != name,
    ensures
        times(list, name, n) == 0,
    decreases n,
{
    if n > 0 {
        lemma_never(list, name, n - 1);
    }
}

proof fn lemma_times(list: Seq<String>, name: Seq<char>, n: int)
    requires
        0 <= n <= list.len(),
    ensures
        0 <= times(list, name, n) <= n,
        times(list, name, n) > 0 <==> exists|i: int| 0 <= i < n && (#[trigger] list[i])@ == name,
    decreases n,
{
    if n > 0 {
        lemma_times(list, name, n - 1);
        if times(list, name, n - 1) > 0 {
            let i = choose|i: int| 0 <= i < n - 1 && (#[trigger] list[i])@ == name;
            assert(list[i]@ == name);
        }
    }
}

/// A service of the workspace that is named for deletion is deleted, off and in a new revision; what is
/// stored of it stays otherwise.
pub proof fn named_services_are_deleted(
    service: ServiceView,
    ids: Seq<String>,
    tenant: Seq<char>,
    k: int,
)
    requires
        0 <= k < ids.len(),
        ids[k]@ == service.id,
        service.tenant_id == tenant,
    ensures
        ({
            let after = after_deleting(service, ids, tenant);
            &&& after.state.deleted
            &&& !after.state.enabled
            &&& after.state.apply_status == "disabled"@
            &&& after.state.apply_revision > service.state.apply_revision
            &&& after.reported == service.reported
        }),
{
    lemma_times(ids, service.id, ids.len() as int);
}

/// A service of a device that is taken away is off, of no device and in a new revision.
pub proof fn services_of_a_device_are_detached(
    service: ServiceView,
    device: Seq<char>,
    tenant: Seq<char>,
)
    requires
        service.device_id == Some(device),
        service.tenant_id == tenant,
    ensures
        ({
            let after = after_detaching(service, device, tenant);
            &&& after.device_id is None
            &&& !after.state.enabled
            &&& after.state.apply_status == "disabled"@
            &&& after.state.apply_revision == service.state.apply_revision + 1
            &&& after.state.deleted == service.state.deleted
            &&& after.tenant_id == tenant
            &&& after.reported == service.reported
        }),
{
}

/// A service of a recovered device is checked again where it is on, and shown as off where it is not.
pub proof fn services_of_a_recovered_device_are_checked(service: ServiceView, device: Seq<char>)
    requires
        service.device_id == Some(device),
    ensures
        ({
            let after = after_recovery(service, device);
            &&& !after.reported
            &&& !service.state.deleted && service.state.enabled ==> after.state.apply_status
                == "checking"@
            &&& !service.state.deleted && !service.state.enabled ==> after.state.apply_status
                == "disabled"@
            &&& !service.state.deleted ==> after.state.apply_revision
                == service.state.apply_revision + 1
            &&& service.state.deleted ==> after.state == service.state
        }),
{
}

proof fn lemma_picks_stored(rows: Seq<ServiceView>, ids: Seq<String>, tenant: Seq<char>, n: int, keep: spec_fn(int) -> bool, value: spec_fn(int) -> Seq<char>)
    requires
        forall|i: int|
            0 <= i < n ==> #[trigger] keep(i) == (is_stored(rows, ids[i]@, tenant)) && value(i) == (ids[i]@),
    ensures
        stored_among(rows, ids, tenant, n) == picked::picked(keep, value, n),
    decreases n,
{
    if n > 0 {
        assert(keep(n - 1) || !keep(n - 1));
        lemma_picks_stored(rows, ids, tenant, n - 1, keep, value);
    }
}

/// The services that are told to be deleted are the named ones of the workspace, and no others.
pub proof fn named_services_of_the_workspace_are_told(rows: Seq<ServiceView>, ids: Seq<String>, tenant: Seq<char>)
    ensures
        forall|id: Seq<char>| #[trigger]
            stored_among(rows, ids, tenant, ids.len() as int).contains(id) <==> exists|i: int|
                0 <= i < ids.len() && (#[trigger] ids[i])@ == id && is_stored(rows, id, tenant),
{
    let n = ids.len() as int;
    let keep = |i: int| is_stored(rows, ids[i]@, tenant);
    let value = |i: int| ids[i]@;
    lemma_picks_stored(rows, ids, tenant, n, keep, value);
    assert forall|id: Seq<char>| #[trigger] stored_among(rows, ids, tenant, n).contains(id) <==> exists|i: int|
        0 <= i < ids.len() && (#[trigger] ids[i])@ == id && is_stored(rows, id, tenant) by {
        picked::lemma_picked_contains(keep, value, n, id);
        if stored_among(rows, ids, tenant, n).contains(id) {
            let i = choose|i: int| 0 <= i < n && #[trigger] keep(i) && value(i) == id;
            assert(ids[i] == ids[i]);
        }
        if exists|i: int| 0 <= i < ids.len() && (#[trigger] ids[i])@ == id && is_stored(rows, id, tenant) {
            let i = choose|i: int| 0 <= i < ids.len() && (#[trigger] ids[i])@ == id && is_stored(rows, id, tenant);
            assert(keep(i) && value(i) == id);
        }
    }
}

} // verus!
