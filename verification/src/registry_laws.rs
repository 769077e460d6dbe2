//! What holds of registries over many calls: generations that have gone never
//! come back, listeners are told once, and listings are complete and in order.

use vstd::prelude::*;

use crate::context::{chain_of, resolved, shown_from, ContextModel};
use crate::ids::{Generation, ResourceId, ServiceKeyModel};
use crate::json::{lookup, lookup_finds_a_member};
use crate::registry::{
    committed, concerns, entry_of, holds_generation, joined, joining_keeps_order, listening,
    lookup_needs_a_member, provided, readiness, removed, removed_services_are_gone, sorted,
    told_from, visible, with_service, with_services, RegistryModel,
};
use crate::service::{
    other_services_are_untouched, provided_services_are_found, service_before, snapshot_of,
    DependencyModel, ReadinessModel, ServiceEntry, ServiceModel,
};
use crate::service_order::{
    in_service_order, providing_keeps_order, removing_keeps_order, service_order_is_total,
};

verus! {

/// Registry `r` is open and its provider of `service` has that generation.
pub open spec fn holds(
    records: Seq<RegistryModel>,
    r: int,
    service: ServiceModel,
    generation: Generation,
) -> bool {
    &&& 0 <= r < records.len()
    &&& !records[r].committed
    &&& holds_generation(records, r, service, generation)
}

/// No open registry has a provider of that generation.
pub open spec fn gone(records: Seq<RegistryModel>, generation: Generation) -> bool {
    forall|r: int, service: ServiceModel| !#[trigger] holds(records, r, service, generation)
}

/// Every generation is held once at most, and is one of those before `next`.
pub open spec fn apart(records: Seq<RegistryModel>, next: u64) -> bool {
    &&& forall|r: int, s: ServiceModel, g: Generation| #[trigger]
        holds(records, r, s, g) ==> g.0 < next
    &&& forall|r: int, s: ServiceModel, q: int, t: ServiceModel, g: Generation|
        #[trigger] holds(records, r, s, g) && #[trigger] holds(records, q, t, g) ==> r == q && s
            == t
}

/// What can happen to registries.
pub enum Change {
    /// A registry is opened or staged.
    Opened(Option<usize>),
    /// A service is provided in a registry.
    Provided(int, ServiceModel, ServiceEntry),
    /// A service is removed from a registry.
    Removed(int, ServiceModel),
    /// A staged registry is committed into its parent.
    Committed(int, int),
    /// The listeners of a registry come or go.
    Listeners(int, Seq<(ResourceId, Seq<DependencyModel>)>),
}

/// Registries after a change.
pub open spec fn changed(records: Seq<RegistryModel>, change: Change) -> Seq<RegistryModel> {
    match change {
        Change::Opened(parent) => records.push(
            RegistryModel {
                providers: Seq::empty(),
                listeners: Seq::empty(),
                committed: false,
                parent,
            },
        ),
        Change::Provided(t, service, entry) => provided(records, t, service, entry),
        Change::Removed(t, service) => removed(records, t, service),
        Change::Committed(r, p) => committed(records, r, p),
        Change::Listeners(t, listeners) => records.update(
            t,
            RegistryModel { listeners, ..records[t] },
        ),
    }
}

/// The change can happen: it speaks of registries that there are, provides
/// under the fresh generation `next`, and commits what was not committed.
pub open spec fn can_happen(records: Seq<RegistryModel>, next: u64, change: Change) -> bool {
    match change {
        Change::Opened(_) => true,
        Change::Provided(t, _, entry) => 0 <= t < records.len() && entry.generation.0 == next,
        Change::Removed(t, _) => 0 <= t < records.len(),
        Change::Committed(r, p) => 0 <= p < r < records.len() && records[r].parent == Some(
            p as usize,
        ) && !records[r].committed,
        Change::Listeners(t, _) => 0 <= t < records.len(),
    }
}

/// The next generation after a change.
pub open spec fn next_after(next: u64, change: Change) -> int {
    if change is Provided {
        next + 1
    } else {
        next as int
    }
}

/// A joined provider was among the ones before or among the added.
proof fn joined_come_from(
    providers: Seq<(ServiceModel, ServiceEntry)>,
    added: Seq<(ServiceModel, ServiceEntry)>,
    count: int,
    service: ServiceModel,
)
    requires
        in_service_order(added),
        0 <= count <= added.len(),
    ensures
        lookup(joined(providers, added, count), service) == lookup(providers, service) || lookup(
            joined(providers, added, count),
            service,
        ) == lookup(added, service),
    decreases count,
{
    if count > 0 {
        let before = joined(providers, added, count - 1);
        let (last, entry) = added[count - 1];
        joined_come_from(providers, added, count - 1, service);
        if last == service {
            provided_services_are_found(before, last, entry);
            listed_services_are_found(added, count - 1);
        } else {
            other_services_are_untouched(before, last, entry, service);
        }
    }
}

proof fn listed_services_are_found(providers: Seq<(ServiceModel, ServiceEntry)>, k: int)
    requires
        in_service_order(providers),
        0 <= k < providers.len(),
    ensures
        lookup(providers, providers[k].0) == Some(providers[k].1),
    decreases providers.len(),
{
    if k > 0 {
        let rest = providers.drop_first();
        assert forall|i: int, j: int| 0 <= i < j < rest.len() implies service_before(
            (#[trigger] rest[i]).0,
            (#[trigger] rest[j]).0,
        ) by {
            assert(rest[i] == providers[i + 1] && rest[j] == providers[j + 1]);
        }
        listed_services_are_found(rest, k - 1);
        service_order_is_total(providers[k].0, providers[k].0, providers[k].0);
        assert(service_before(providers[0].0, providers[k].0));
        assert(rest[k - 1] == providers[k]);
    }
}

/// Where a provider that is held after a change was before it: nowhere, when it
/// is the one that was just provided.
proof fn held_before(
    records: Seq<RegistryModel>,
    next: u64,
    change: Change,
    r: int,
    service: ServiceModel,
    generation: Generation,
) -> (at: int)
    requires
        sorted(records),
        can_happen(records, next, change),
        holds(changed(records, change), r, service, generation),
    ensures
        change is Provided && change->Provided_0 == r && change->Provided_1 == service
            && generation.0 == next || {
            &&& holds(records, at, service, generation)
            &&& at == r || (change is Committed && at == change->Committed_0 && r
                == change->Committed_1)
        },
        change is Provided && generation.0 != next ==> !(change->Provided_0 == r
            && change->Provided_1 == service),
        change matches Change::Removed(t, s) ==> !(t == r && s == service),
        change matches Change::Committed(q, _) ==> r != q,
{
    let after = changed(records, change);
    match change {
        Change::Opened(_) => {
            if r < records.len() {
                assert(after[r] == records[r]);
            }
            r
        },
        Change::Provided(t, s, entry) => {
            if r == t {
                provided_services_are_found(records[t].providers, s, entry);
                if s != service {
                    other_services_are_untouched(records[t].providers, s, entry, service);
                }
            }
            r
        },
        Change::Removed(t, s) => {
            if r == t {
                removed_services_are_gone(records[t].providers, s);
                if s != service {
                    let any = ServiceEntry { generation, kind: 0, value: 0 };
                    other_services_are_untouched(records[t].providers, s, any, service);
                }
            }
            r
        },
        Change::Committed(q, p) => {
            let added = records[q].providers;
            if r == p {
                joined_come_from(records[p].providers, added, added.len() as int, service);
                if lookup(after[p].providers, service) == lookup(records[p].providers, service) {
                    p
                } else {
                    q
                }
            } else {
                r
            }
        },
        Change::Listeners(t, _) => r,
    }
}

/// Every change keeps generations apart.
pub proof fn changes_keep_generations_apart(
    records: Seq<RegistryModel>,
    next: u64,
    change: Change,
)
    requires
        sorted(records),
        apart(records, next),
        next < u64::MAX,
        can_happen(records, next, change),
    ensures
        apart(changed(records, change), next_after(next, change) as u64),
{
    let after = changed(records, change);
    assert forall|r: int, s: ServiceModel, g: Generation| #[trigger] holds(after, r, s, g) implies g.0
        < next_after(next, change) by {
        let at = held_before(records, next, change, r, s, g);
    }
    assert forall|r: int, s: ServiceModel, q: int, t: ServiceModel, g: Generation|
        #[trigger] holds(after, r, s, g) && #[trigger] holds(after, q, t, g) implies r == q && s
        == t by {
        let a = held_before(records, next, change, r, s, g);
        let b = held_before(records, next, change, q, t, g);
    }
}

/// A generation that has gone stays gone, whatever happens afterwards, so a
/// handle of it stays stale.
pub proof fn stale_handles_stay_stale(
    records: Seq<RegistryModel>,
    next: u64,
    change: Change,
    generation: Generation,
)
    requires
        sorted(records),
        can_happen(records, next, change),
        generation.0 < next,
        gone(records, generation),
    ensures
        gone(changed(records, change), generation),
        generation.0 < next_after(next, change),
{
    let after = changed(records, change);
    assert forall|r: int, s: ServiceModel| !#[trigger] holds(after, r, s, generation) by {
        if holds(after, r, s, generation) {
            let at = held_before(records, next, change, r, s, generation);
        }
    }
}

/// A generation that has gone is current nowhere.
pub proof fn gone_generations_are_not_current(
    records: Seq<RegistryModel>,
    r: int,
    service: ServiceModel,
    generation: Generation,
)
    requires
        gone(records, generation),
    ensures
        entry_of(records, r, service) matches Some(entry) ==> entry.generation != generation,
    decreases r,
{
    if 0 <= r < records.len() {
        assert(!holds(records, r, service, generation));
        match records[r].parent {
            Some(p) => {
                if p < r {
                    gone_generations_are_not_current(records, p as int, service, generation);
                }
            },
            None => {},
        }
    }
}

/// When a provider is removed, or another takes its place, its generation is
/// gone.
pub proof fn replaced_generations_are_gone(
    records: Seq<RegistryModel>,
    next: u64,
    t: int,
    service: ServiceModel,
    entry: ServiceEntry,
    generation: Generation,
)
    requires
        sorted(records),
        apart(records, next),
        holds(records, t, service, generation),
        entry.generation.0 == next,
    ensures
        gone(removed(records, t, service), generation),
        gone(provided(records, t, service, entry), generation),
{
    let away = Change::Removed(t, service);
    let anew = Change::Provided(t, service, entry);
    assert forall|r: int, s: ServiceModel| !#[trigger] holds(
        removed(records, t, service),
        r,
        s,
        generation,
    ) by {
        if holds(changed(records, away), r, s, generation) {
            let at = held_before(records, next, away, r, s, generation);
        }
    }
    assert forall|r: int, s: ServiceModel| !#[trigger] holds(
        provided(records, t, service, entry),
        r,
        s,
        generation,
    ) by {
        if holds(changed(records, anew), r, s, generation) {
            let at = held_before(records, next, anew, r, s, generation);
        }
    }
}

/// Every change keeps providers in order.
proof fn changes_keep_order(records: Seq<RegistryModel>, next: u64, change: Change)
    requires
        sorted(records),
        can_happen(records, next, change),
    ensures
        sorted(changed(records, change)),
{
    let after = changed(records, change);
    assert forall|i: int| 0 <= i < after.len() implies in_service_order(
        (#[trigger] after[i]).providers,
    ) by {
        if i < records.len() {
            assert(in_service_order(records[i].providers));
        }
        match change {
            Change::Opened(_) => {},
            Change::Provided(t, service, entry) => {
                assert(in_service_order(records[t].providers));
                providing_keeps_order(records[t].providers, service, entry);
            },
            Change::Removed(t, service) => {
                assert(in_service_order(records[t].providers));
                removing_keeps_order(records[t].providers, service);
            },
            Change::Committed(r, p) => {
                let added = records[r].providers;
                assert(in_service_order(records[p].providers));
                joining_keeps_order(records[p].providers, added, added.len() as int);
            },
            Change::Listeners(_, _) => {},
        }
    }
}

/// Registries after the changes `changes[..count]`.
pub open spec fn changed_by(records: Seq<RegistryModel>, changes: Seq<Change>, count: nat) -> Seq<
    RegistryModel,
>
    decreases count,
{
    if count == 0 {
        records
    } else {
        changed(changed_by(records, changes, (count - 1) as nat), changes[count - 1])
    }
}

/// The next generation after the changes `changes[..count]`.
pub open spec fn next_by(next: u64, changes: Seq<Change>, count: nat) -> u64
    decreases count,
{
    if count == 0 {
        next
    } else {
        next_after(next_by(next, changes, (count - 1) as nat), changes[count - 1]) as u64
    }
}

/// The changes can happen one after the other, and generations do not run out.
pub open spec fn can_follow(records: Seq<RegistryModel>, next: u64, changes: Seq<Change>) -> bool {
    &&& next + changes.len() <= u64::MAX
    &&& forall|i: nat|
        i < changes.len() ==> can_happen(
            #[trigger] changed_by(records, changes, i),
            next_by(next, changes, i),
            changes[i as int],
        )
}

proof fn gone_generations_stay_gone(
    records: Seq<RegistryModel>,
    next: u64,
    changes: Seq<Change>,
    count: nat,
    generation: Generation,
)
    requires
        sorted(records),
        can_follow(records, next, changes),
        count <= changes.len(),
        generation.0 < next,
        gone(records, generation),
    ensures
        gone(changed_by(records, changes, count), generation),
        sorted(changed_by(records, changes, count)),
        generation.0 < next_by(next, changes, count) <= next + count,
    decreases count,
{
    if count > 0 {
        let i = (count - 1) as nat;
        gone_generations_stay_gone(records, next, changes, i, generation);
        let before = changed_by(records, changes, i);
        changes_keep_order(before, next_by(next, changes, i), changes[i as int]);
        stale_handles_stay_stale(before, next_by(next, changes, i), changes[i as int], generation);
    }
}

/// A handle whose provider was replaced or removed is stale for good: after any
/// number of further changes its generation is current nowhere.
pub proof fn replaced_handles_are_stale_for_good(
    records: Seq<RegistryModel>,
    next: u64,
    t: int,
    service: ServiceModel,
    generation: Generation,
    change: Change,
    changes: Seq<Change>,
    r: int,
    asked: ServiceModel,
)
    requires
        sorted(records),
        apart(records, next),
        next < u64::MAX,
        holds(records, t, service, generation),
        change == Change::Removed(t, service) || (change matches Change::Provided(at, what, entry)
            && at == t && what == service && entry.generation.0 == next),
        can_follow(changed(records, change), next_after(next, change) as u64, changes),
    ensures
        entry_of(
            changed_by(changed(records, change), changes, changes.len()),
            r,
            asked,
        ) matches Some(entry) ==> entry.generation != generation,
{
    let after = changed(records, change);
    let then = next_after(next, change) as u64;
    let fresh = ServiceEntry { generation: Generation(next), kind: 0, value: 0 };
    match change {
        Change::Provided(_, _, entry) => {
            replaced_generations_are_gone(records, next, t, service, entry, generation);
        },
        _ => {
            replaced_generations_are_gone(records, next, t, service, fresh, generation);
        },
    }
    changes_keep_order(records, next, change);
    gone_generations_stay_gone(after, then, changes, changes.len(), generation);
    gone_generations_are_not_current(
        changed_by(after, changes, changes.len()),
        r,
        asked,
        generation,
    );
}

/// The listeners have distinct identifiers, all of them before `next`.
pub open spec fn listeners_apart(
    listeners: Seq<(ResourceId, Seq<DependencyModel>)>,
    next: u64,
) -> bool {
    &&& forall|i: int| 0 <= i < listeners.len() ==> (#[trigger] listeners[i]).0.0 < next
    &&& forall|i: int, j: int|
        0 <= i < listeners.len() && 0 <= j < listeners.len() && i != j ==> (
        #[trigger] listeners[i]).0 != (#[trigger] listeners[j]).0
}

/// Listeners stay distinct when one with the next identifier comes, and when
/// one leaves.
pub proof fn listeners_stay_apart(
    listeners: Seq<(ResourceId, Seq<DependencyModel>)>,
    next: u64,
    dependencies: Seq<DependencyModel>,
    at: int,
)
    requires
        listeners_apart(listeners, next),
        next < u64::MAX,
        0 <= at < listeners.len(),
    ensures
        listeners_apart(listeners.push((ResourceId(next), dependencies)), (next + 1) as u64),
        listeners_apart(listeners.remove(at), next),
        !listening(listeners.remove(at), listeners[at].0),
{
    let fewer = listeners.remove(at);
    assert forall|i: int| 0 <= i < fewer.len() implies (#[trigger] fewer[i]).0.0 < next
        && fewer[i].0 != listeners[at].0 by {
        if i < at {
            assert(fewer[i] == listeners[i]);
        } else {
            assert(fewer[i] == listeners[i + 1]);
        }
    }
    assert forall|i: int, j: int|
        0 <= i < fewer.len() && 0 <= j < fewer.len() && i != j implies (#[trigger] fewer[i]).0 != (
    #[trigger] fewer[j]).0 by {
        let a = if i < at {
            i
        } else {
            i + 1
        };
        let b = if j < at {
            j
        } else {
            j + 1
        };
        assert(fewer[i] == listeners[a] && fewer[j] == listeners[b]);
    }
}

/// Message `j` is for listener `id`, tells it what `dependencies` show, and is
/// its only one.
pub open spec fn told_once_at(
    told: Seq<(ResourceId, ReadinessModel)>,
    id: ResourceId,
    shown: ReadinessModel,
    j: int,
) -> bool {
    &&& 0 <= j < told.len()
    &&& told[j] == (id, shown)
    &&& forall|m: int| 0 <= m < told.len() && (#[trigger] told[m]).0 == id ==> m == j
}

/// A listener gets no message.
pub open spec fn untold(
    told: Seq<(ResourceId, ReadinessModel)>,
    id: ResourceId,
) -> bool {
    forall|m: int| 0 <= m < told.len() ==> (#[trigger] told[m]).0 != id
}

proof fn told_from_is_complete(
    records: Seq<RegistryModel>,
    r: int,
    from: int,
    service: ServiceModel,
    id: ResourceId,
) -> (j: int)
    requires
        0 <= from <= records[r].listeners.len(),
        forall|a: int, b: int|
            0 <= a < records[r].listeners.len() && 0 <= b < records[r].listeners.len() && a != b
                ==> (#[trigger] records[r].listeners[a]).0 != (#[trigger] records[r].listeners[b]).0,
    ensures
        forall|k: int|
            from <= k < records[r].listeners.len() && (#[trigger] records[r].listeners[k]).0 == id
                && concerns(records[r].listeners[k].1, service) ==> told_once_at(
                told_from(records, r, from, service),
                id,
                readiness(records, r, records[r].listeners[k].1),
                j,
            ),
        (forall|k: int|
            from <= k < records[r].listeners.len() && concerns(
                (#[trigger] records[r].listeners[k]).1,
                service,
            ) ==> records[r].listeners[k].0 != id) ==> untold(
            told_from(records, r, from, service),
            id,
        ),
    decreases records[r].listeners.len() - from,
{
    let listeners = records[r].listeners;
    if from >= listeners.len() {
        0
    } else {
        let rest = told_from(records, r, from + 1, service);
        let all = told_from(records, r, from, service);
        let j = told_from_is_complete(records, r, from + 1, service, id);
        if concerns(listeners[from].1, service) {
            assert(forall|m: int| 1 <= m < all.len() ==> #[trigger] all[m] == rest[m - 1]);
            if listeners[from].0 == id {
                assert(untold(rest, id));
                0
            } else {
                assert forall|k: int|
                    from <= k < listeners.len() && (#[trigger] listeners[k]).0 == id && concerns(
                        listeners[k].1,
                        service,
                    ) implies told_once_at(
                    all,
                    id,
                    readiness(records, r, listeners[k].1),
                    j + 1,
                ) by {
                    assert(told_once_at(rest, id, readiness(records, r, listeners[k].1), j));
                    assert(all[j + 1] == rest[j]);
                }
                j + 1
            }
        } else {
            j
        }
    }
}

/// After a service changed, each listener that it concerns gets exactly one
/// message, which says what its dependencies show now. The others, and those
/// that have left, get none.
pub proof fn listeners_are_told_once(
    records: Seq<RegistryModel>,
    r: int,
    service: ServiceModel,
    next: u64,
)
    requires
        0 <= r < records.len(),
        listeners_apart(records[r].listeners, next),
    ensures
        forall|k: int|
            0 <= k < records[r].listeners.len() ==> if concerns(
                (#[trigger] records[r].listeners[k]).1,
                service,
            ) {
                exists|j: int| #[trigger]
                    told_once_at(
                        told_from(records, r, 0, service),
                        records[r].listeners[k].0,
                        readiness(records, r, records[r].listeners[k].1),
                        j,
                    )
            } else {
                untold(told_from(records, r, 0, service), records[r].listeners[k].0)
            },
        forall|id: ResourceId|
            !listening(records[r].listeners, id) ==> #[trigger] untold(
                told_from(records, r, 0, service),
                id,
            ),
{
    let listeners = records[r].listeners;
    let told = told_from(records, r, 0, service);
    assert forall|k: int| 0 <= k < listeners.len() implies if concerns(
        (#[trigger] listeners[k]).1,
        service,
    ) {
        exists|j: int| #[trigger]
            told_once_at(told, listeners[k].0, readiness(records, r, listeners[k].1), j)
    } else {
        untold(told, listeners[k].0)
    } by {
        let j = told_from_is_complete(records, r, 0, service, listeners[k].0);
        if concerns(listeners[k].1, service) {
            assert(told_once_at(told, listeners[k].0, readiness(records, r, listeners[k].1), j));
        }
    }
    assert forall|id: ResourceId| !listening(listeners, id) implies #[trigger] untold(told, id) by {
        let j = told_from_is_complete(records, r, 0, service, id);
    }
}

/// The services are in order, so none comes twice.
pub open spec fn ascending(services: Seq<ServiceModel>) -> bool {
    forall|i: int, j: int|
        0 <= i < j < services.len() ==> service_before(
            #[trigger] services[i],
            #[trigger] services[j],
        )
}

proof fn one_more_service(services: Seq<ServiceModel>, service: ServiceModel)
    requires
        ascending(services),
    ensures
        ascending(with_service(services, service)),
        forall|other: ServiceModel| #[trigger]
            with_service(services, service).contains(other) <==> services.contains(other) || other
                == service,
    decreases services.len(),
{
    let result = with_service(services, service);
    if services.len() == 0 {
        assert(result[0] == service);
    } else if services[0] == service {
        assert(services.contains(service));
    } else {
        let rest = services.drop_first();
        assert forall|i: int, j: int| 0 <= i < j < rest.len() implies service_before(
            #[trigger] rest[i],
            #[trigger] rest[j],
        ) by {
            assert(rest[i] == services[i + 1] && rest[j] == services[j + 1]);
        }
        assert forall|other: ServiceModel| #[trigger] services.contains(other) <==> other
            == services[0] || rest.contains(other) by {
            if services.contains(other) && other != services[0] {
                let i = choose|i: int| 0 <= i < services.len() && services[i] == other;
                assert(rest[i - 1] == other);
            }
            if rest.contains(other) {
                let i = choose|i: int| 0 <= i < rest.len() && rest[i] == other;
                assert(services[i + 1] == other);
            }
            assert(services[0] == services[0]);
        }
        let tail = if service_before(service, services[0]) {
            services
        } else {
            with_service(rest, service)
        };
        let head = result[0];
        assert(result =~= seq![head] + tail);
        if !service_before(service, services[0]) {
            one_more_service(rest, service);
            service_order_is_total(services[0], service, service);
        }
        assert forall|other: ServiceModel| tail.contains(other) implies service_before(
            head,
            other,
        ) by {
            if service_before(service, services[0]) {
                let i = choose|i: int| 0 <= i < services.len() && services[i] == other;
                service_order_is_total(service, services[0], other);
                if i > 0 {
                    assert(service_before(services[0], services[i]));
                }
            } else if other != service {
                let i = choose|i: int| 0 <= i < rest.len() && rest[i] == other;
                assert(services[i + 1] == other);
                assert(service_before(services[0], services[i + 1]));
            }
        }
        assert forall|i: int, j: int| 0 <= i < j < result.len() implies service_before(
            #[trigger] result[i],
            #[trigger] result[j],
        ) by {
            assert(result[j] == tail[j - 1]);
            if i == 0 {
                assert(tail.contains(tail[j - 1]));
            } else {
                assert(result[i] == tail[i - 1]);
            }
        }
        assert forall|other: ServiceModel| #[trigger] result.contains(other) <==> services.contains(
            other,
        ) || other == service by {
            if result.contains(other) {
                let i = choose|i: int| 0 <= i < result.len() && result[i] == other;
                if i > 0 {
                    assert(tail[i - 1] == other);
                }
            }
            if tail.contains(other) {
                let i = choose|i: int| 0 <= i < tail.len() && tail[i] == other;
                assert(result[i + 1] == other);
            }
            assert(result[0] == head);
        }
    }
}

proof fn more_services(
    services: Seq<ServiceModel>,
    providers: Seq<(ServiceModel, ServiceEntry)>,
    count: int,
)
    requires
        ascending(services),
        0 <= count <= providers.len(),
    ensures
        ascending(with_services(services, providers, count)),
        forall|other: ServiceModel| #[trigger]
            with_services(services, providers, count).contains(other) <==> services.contains(other)
                || exists|k: int| 0 <= k < count && (#[trigger] providers[k]).0 == other,
    decreases count,
{
    if count > 0 {
        more_services(services, providers, count - 1);
        let before = with_services(services, providers, count - 1);
        one_more_service(before, providers[count - 1].0);
        let after = with_services(services, providers, count);
        assert forall|other: ServiceModel| #[trigger] after.contains(other) <==> services.contains(
            other,
        ) || exists|k: int| 0 <= k < count && (#[trigger] providers[k]).0 == other by {
            assert(after.contains(other) <==> before.contains(other) || other == providers[count
                - 1].0);
            if exists|k: int| 0 <= k < count && (#[trigger] providers[k]).0 == other {
                let k = choose|k: int| 0 <= k < count && (#[trigger] providers[k]).0 == other;
                if k < count - 1 {
                    assert(before.contains(other));
                }
            }
        }
    }
}

/// The services seen from a registry are listed in order and each once, and
/// they are those that have a provider there.
pub proof fn visible_services_are_those_provided(records: Seq<RegistryModel>, r: int)
    requires
        sorted(records),
    ensures
        ascending(visible(records, r)),
        forall|service: ServiceModel| #[trigger]
            visible(records, r).contains(service) <==> entry_of(records, r, service) is Some,
    decreases r,
{
    if 0 <= r < records.len() {
        let record = records[r];
        let above = match record.parent {
            Some(p) => if p < r {
                visible(records, p as int)
            } else {
                Seq::empty()
            },
            None => Seq::empty(),
        };
        match record.parent {
            Some(p) => {
                if p < r {
                    visible_services_are_those_provided(records, p as int);
                }
            },
            None => {},
        }
        let own = record.providers;
        if !record.committed {
            more_services(above, own, own.len() as int);
            assert forall|service: ServiceModel| #[trigger] visible(records, r).contains(
                service,
            ) <==> entry_of(records, r, service) is Some by {
                lookup_finds_a_member(own, service);
                lookup_needs_a_member(own, service);
                if exists|k: int| 0 <= k < own.len() && (#[trigger] own[k]).0 == service {
                    let k = choose|k: int| 0 <= k < own.len() && (#[trigger] own[k]).0 == service;
                    listed_services_are_found(own, k);
                }
                assert(above.contains(service) <==> above.contains(service));
            }
        }
    }
}

/// The services of `services[from..]` that the context itself would look up
/// there, in order.
pub open spec fn own_services(
    context: ContextModel,
    services: Seq<ServiceModel>,
    from: int,
) -> Seq<ServiceModel>
    decreases services.len() - from,
{
    if from < 0 || from >= services.len() {
        Seq::empty()
    } else if resolved(context, services[from].key) == services[from] {
        seq![services[from]] + own_services(context, services, from + 1)
    } else {
        own_services(context, services, from + 1)
    }
}

proof fn own_services_are_shown(
    context: ContextModel,
    records: Seq<RegistryModel>,
    services: Seq<ServiceModel>,
    from: int,
)
    requires
        ascending(services),
        0 <= from <= services.len(),
    ensures
        ascending(own_services(context, services, from)),
        forall|service: ServiceModel| #[trigger]
            own_services(context, services, from).contains(service) <==> resolved(
                context,
                service.key,
            ) == service && exists|k: int|
                from <= k < services.len() && #[trigger] services[k] == service,
        shown_from(context, records, services, from).len() == own_services(
            context,
            services,
            from,
        ).len(),
        forall|i: int|
            0 <= i < own_services(context, services, from).len() ==> #[trigger] shown_from(
                context,
                records,
                services,
                from,
            )[i] == snapshot_of(
                own_services(context, services, from)[i],
                entry_of(
                    records,
                    context.registry.index as int,
                    own_services(context, services, from)[i],
                ),
                chain_of(context, own_services(context, services, from)[i].key),
            ),
    decreases services.len() - from,
{
    if from < services.len() {
        own_services_are_shown(context, records, services, from + 1);
        let rest = own_services(context, services, from + 1);
        let all = own_services(context, services, from);
        let first = services[from];
        if resolved(context, first.key) == first {
            assert(all[0] == first);
            assert(forall|i: int| 1 <= i < all.len() ==> #[trigger] all[i] == rest[i - 1]);
            assert forall|i: int, j: int| 0 <= i < j < all.len() implies service_before(
                #[trigger] all[i],
                #[trigger] all[j],
            ) by {
                assert(rest.contains(rest[j - 1]));
                if i == 0 {
                    let k = choose|k: int|
                        from + 1 <= k < services.len() && #[trigger] services[k] == rest[j - 1];
                    assert(service_before(services[from], services[k]));
                }
            }
            assert forall|service: ServiceModel| #[trigger] all.contains(service) <==> resolved(
                context,
                service.key,
            ) == service && exists|k: int|
                from <= k < services.len() && #[trigger] services[k] == service by {
                if all.contains(service) {
                    let i = choose|i: int| 0 <= i < all.len() && all[i] == service;
                    if i > 0 {
                        assert(rest.contains(service));
                    }
                }
                if rest.contains(service) {
                    let i = choose|i: int| 0 <= i < rest.len() && rest[i] == service;
                    assert(all[i + 1] == service);
                }
                if service != first && resolved(context, service.key) == service && exists|k: int|
                    from <= k < services.len() && #[trigger] services[k] == service {
                    assert(rest.contains(service));
                }
            }
        } else {
            assert forall|service: ServiceModel| #[trigger] all.contains(service) <==> resolved(
                context,
                service.key,
            ) == service && exists|k: int|
                from <= k < services.len() && #[trigger] services[k] == service by {
                assert(all.contains(service) <==> rest.contains(service));
            }
        }
    }
}

/// The snapshots of a context list each key that has a provider there once,
/// in order of the keys, and no other.
pub proof fn snapshots_list_each_key_once(context: ContextModel, records: Seq<RegistryModel>)
    requires
        sorted(records),
    ensures
        ({
            let r = context.registry.index as int;
            let services = own_services(context, visible(records, r), 0);
            let shown = shown_from(context, records, visible(records, r), 0);
            &&& ascending(services)
            &&& forall|key: ServiceKeyModel|
                services.contains(#[trigger] resolved(context, key)) <==> entry_of(
                    records,
                    r,
                    resolved(context, key),
                ) is Some
            &&& shown.len() == services.len()
            &&& forall|i: int|
                0 <= i < services.len() ==> #[trigger] shown[i] == snapshot_of(
                    services[i],
                    entry_of(records, r, services[i]),
                    chain_of(context, services[i].key),
                )
        }),
{
    let r = context.registry.index as int;
    let all = visible(records, r);
    let services = own_services(context, all, 0);
    visible_services_are_those_provided(records, r);
    own_services_are_shown(context, records, all, 0);
    assert forall|key: ServiceKeyModel|
        services.contains(#[trigger] resolved(context, key)) <==> entry_of(
            records,
            r,
            resolved(context, key),
        ) is Some by {
        let service = resolved(context, key);
        assert(service.key == key);
        assert(all.contains(service) <==> entry_of(records, r, service) is Some);
        if all.contains(service) {
            let k = choose|k: int| 0 <= k < all.len() && all[k] == service;
            assert(0 <= k < all.len() && all[k] == service);
        }
    }
}

}
