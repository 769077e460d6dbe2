//! What holds of service views over many calls: who sees an isolated service,
//! which handles are stale, how often a subscriber is told, and what a listing
//! shows.

use vstd::prelude::*;

use crate::context::{
    assigned, assigned_values_are_found, chain_of, isolation_follows_labels,
    isolation_leaves_other_services, resolved, shown_from, ContextModel, ServiceHandle,
};
use crate::ids::{Generation, ResourceId, ServiceKeyModel};
use crate::json::lookup;
use crate::registry::{
    concerns, entry_of, listening, provided, provided_services_are_current,
    provided_services_leave_others, readiness, rooted, sorted, target, told_all, told_from,
    visible, RegistryModel,
};
use crate::registry_laws::{
    apart, can_follow, can_happen, changed, changed_by, holds, next_after, own_services,
    replaced_handles_are_stale_for_good, snapshots_list_each_key_once, Change,
};
use crate::service::{
    service_before, snapshot_of, DependencyModel, ReadinessModel, RealmModel, ServiceEntry,
    ServiceModel, SnapshotModel,
};
use crate::service_order::service_order_is_total;
use crate::text::text_before;

verus! {

/// The realm that isolating a service chooses: that of a label, or a private
/// one under a fresh generation.
pub open spec fn chosen_realm(label: Option<Seq<char>>, generation: Generation) -> RealmModel {
    match label {
        Some(label) => RealmModel::Shared(label),
        None => RealmModel::Private(generation),
    }
}

/// The view that isolating a service in a context gives.
pub open spec fn isolated(
    context: ContextModel,
    key: ServiceKeyModel,
    label: Option<Seq<char>>,
    generation: Generation,
) -> ContextModel {
    ContextModel {
        realms: assigned(context.realms, key, chosen_realm(label, generation)),
        ..context
    }
}

/// The provider that a context sees under a key.
pub open spec fn seen(
    records: Seq<RegistryModel>,
    context: ContextModel,
    key: ServiceKeyModel,
) -> Option<ServiceEntry> {
    entry_of(records, context.registry.index as int, resolved(context, key))
}

/// A service that is provided through an isolated view is seen through that
/// view, and through another view isolated from the same context exactly when
/// both have the same label. The context itself and every other key, through
/// each of them, see what they saw before.
pub proof fn isolated_services_are_seen_by_label(
    records: Seq<RegistryModel>,
    context: ContextModel,
    key: ServiceKeyModel,
    first: Option<Seq<char>>,
    second: Option<Seq<char>>,
    one: Generation,
    two: Generation,
    entry: ServiceEntry,
    other: ServiceKeyModel,
)
    requires
        rooted(records),
        context.registry.index < records.len(),
        !records[target(records, context.registry.index as int)].committed,
        lookup(context.realms, key) is None,
        one != two,
        other != key,
    ensures
        ({
            let r = context.registry.index as int;
            let a = isolated(context, key, first, one);
            let b = isolated(context, key, second, two);
            let after = provided(records, target(records, r), resolved(a, key), entry);
            &&& seen(after, a, key) == Some(entry)
            &&& if first is Some && first == second {
                seen(after, b, key) == Some(entry)
            } else {
                seen(after, b, key) == seen(records, b, key)
            }
            &&& seen(after, context, key) == seen(records, context, key)
            &&& seen(after, a, other) == seen(records, context, other)
            &&& seen(after, b, other) == seen(records, context, other)
            &&& seen(after, context, other) == seen(records, context, other)
        }),
{
    let r = context.registry.index as int;
    let t = target(records, r);
    let a = isolated(context, key, first, one);
    let b = isolated(context, key, second, two);
    let here = resolved(a, key);
    let x = chosen_realm(first, one);
    let y = chosen_realm(second, two);
    isolation_follows_labels(context, context, key, x, y);
    assigned_values_are_found(context.realms, key, x, key);
    isolation_leaves_other_services(context, key, x, other);
    isolation_leaves_other_services(context, key, y, other);
    provided_services_are_current(records, r, here, entry);
    assert(x == y <==> first is Some && first == second);
    if x != y {
        provided_services_leave_others(records, t, r, here, entry, resolved(b, key));
    }
    assert(resolved(context, key) != here);
    provided_services_leave_others(records, t, r, here, entry, resolved(context, key));
    provided_services_leave_others(records, t, r, here, entry, resolved(context, other));
}

/// A registry without providers and without a parent shows no service.
pub proof fn fresh_registries_show_nothing(
    records: Seq<RegistryModel>,
    context: ContextModel,
    key: ServiceKeyModel,
)
    requires
        context.registry.index < records.len(),
        records[context.registry.index as int].providers.len() == 0,
        records[context.registry.index as int].parent is None,
    ensures
        seen(records, context, key) is None,
{
}

/// A current handle names a provider that some open registry holds.
pub proof fn current_handles_are_held(records: Seq<RegistryModel>, handle: ServiceHandle)
    requires
        handle.current(records),
    ensures
        exists|t: int| #[trigger] holds(records, t, handle.service@, handle.generation),
{
    held_from(records, handle.registry.index as int, handle.service@, handle.generation);
}

proof fn held_from(
    records: Seq<RegistryModel>,
    r: int,
    service: ServiceModel,
    generation: Generation,
)
    requires
        entry_of(records, r, service) matches Some(entry) && entry.generation == generation,
    ensures
        exists|t: int| #[trigger] holds(records, t, service, generation),
    decreases r,
{
    let own = if records[r].committed {
        None
    } else {
        lookup(records[r].providers, service)
    };
    match own {
        Some(_) => {
            assert(holds(records, r, service, generation));
        },
        None => {
            held_from(records, records[r].parent->0 as int, service, generation);
        },
    }
}

/// Once the provider that a handle names was replaced by a later one, or was
/// removed with its owner, the handle is stale for good: after any further
/// changes it is not current, so that it gives no value.
pub proof fn handles_stay_stale(
    records: Seq<RegistryModel>,
    next: u64,
    handle: ServiceHandle,
    t: int,
    change: Change,
    changes: Seq<Change>,
)
    requires
        sorted(records),
        apart(records, next),
        next < u64::MAX,
        holds(records, t, handle.service@, handle.generation),
        change == Change::Removed(t, handle.service@) || (change matches Change::Provided(
            at,
            what,
            entry,
        ) && at == t && what == handle.service@ && entry.generation.0 == next),
        can_follow(changed(records, change), next_after(next, change) as u64, changes),
    ensures
        !handle.current(changed_by(changed(records, change), changes, changes.len())),
{
    replaced_handles_are_stale_for_good(
        records,
        next,
        t,
        handle.service@,
        handle.generation,
        change,
        changes,
        handle.registry.index as int,
        handle.service@,
    );
}

/// How many of the messages are for a listener.
pub open spec fn times(told: Seq<(ResourceId, ReadinessModel)>, id: ResourceId) -> nat
    decreases told.len(),
{
    if told.len() == 0 {
        0
    } else {
        times(told.drop_last(), id) + (if told.last().0 == id {
            1nat
        } else {
            0
        })
    }
}

proof fn times_join(
    a: Seq<(ResourceId, ReadinessModel)>,
    b: Seq<(ResourceId, ReadinessModel)>,
    id: ResourceId,
)
    ensures
        times(a + b, id) == times(a, id) + times(b, id),
    decreases b.len(),
{
    if b.len() == 0 {
        assert(a + b =~= a);
    } else {
        assert((a + b).drop_last() =~= a + b.drop_last());
        times_join(a, b.drop_last(), id);
    }
}

/// No two listeners, in whatever registries, have the same identifier.
pub open spec fn all_listeners_apart(records: Seq<RegistryModel>) -> bool {
    forall|r: int, k: int, q: int, l: int|
        0 <= r < records.len() && 0 <= k < records[r].listeners.len() && 0 <= q < records.len() && 0
            <= l < records[q].listeners.len() && (#[trigger] records[r].listeners[k]).0 == (
        #[trigger] records[q].listeners[l]).0 ==> r == q && k == l
}

/// Listener `id` waits in registry `r` for these dependencies.
pub open spec fn waits(
    records: Seq<RegistryModel>,
    r: int,
    id: ResourceId,
    dependencies: Seq<DependencyModel>,
) -> bool {
    0 <= r < records.len() && exists|k: int|
        0 <= k < records[r].listeners.len() && #[trigger] records[r].listeners[k] == (
            id,
            dependencies,
        )
}

/// One for a service that the dependencies hold, else nothing.
pub open spec fn once_for(dependencies: Seq<DependencyModel>, service: ServiceModel) -> nat {
    if concerns(dependencies, service) {
        1
    } else {
        0
    }
}

proof fn told_as_often(
    records: Seq<RegistryModel>,
    t: int,
    from: int,
    service: ServiceModel,
    r: int,
    k: int,
)
    requires
        all_listeners_apart(records),
        0 <= t < records.len(),
        0 <= r < records.len(),
        0 <= k < records[r].listeners.len(),
        0 <= from <= records[t].listeners.len(),
    ensures
        times(told_from(records, t, from, service), records[r].listeners[k].0) == (if t == r && from
            <= k {
            once_for(records[r].listeners[k].1, service)
        } else {
            0
        }),
    decreases records[t].listeners.len() - from,
{
    let listeners = records[t].listeners;
    let id = records[r].listeners[k].0;
    if from < listeners.len() {
        told_as_often(records, t, from + 1, service, r, k);
        if concerns(listeners[from].1, service) {
            let first = seq![(listeners[from].0, readiness(records, t, listeners[from].1))];
            let rest = told_from(records, t, from + 1, service);
            times_join(first, rest, id);
            assert(first.drop_last() =~= Seq::empty());
            assert(times(first.drop_last(), id) == 0);
            assert(times(first, id) == (if first.last().0 == id {
                1nat
            } else {
                0
            }));
            assert(listeners[from].0 == id ==> t == r && from == k);
        } else if t == r && from == k {
            assert(listeners[from] == records[r].listeners[k]);
        }
    }
}

/// How many of the services of `added[..count]` the dependencies hold.
pub open spec fn held_among(
    dependencies: Seq<DependencyModel>,
    added: Seq<(ServiceModel, ServiceEntry)>,
    count: int,
) -> nat
    decreases count,
{
    if count <= 0 {
        0
    } else {
        held_among(dependencies, added, count - 1) + once_for(dependencies, added[count - 1].0)
    }
}

proof fn told_as_often_of_all(
    records: Seq<RegistryModel>,
    t: int,
    added: Seq<(ServiceModel, ServiceEntry)>,
    count: int,
    r: int,
    k: int,
)
    requires
        all_listeners_apart(records),
        0 <= t < records.len(),
        0 <= r < records.len(),
        0 <= k < records[r].listeners.len(),
        0 <= count <= added.len(),
    ensures
        times(told_all(records, t, added, count), records[r].listeners[k].0) == (if t == r {
            held_among(records[r].listeners[k].1, added, count)
        } else {
            0
        }),
    decreases count,
{
    if count > 0 {
        told_as_often_of_all(records, t, added, count - 1, r, k);
        told_as_often(records, t, 0, added[count - 1].0, r, k);
        times_join(
            told_all(records, t, added, count - 1),
            told_from(records, t, 0, added[count - 1].0),
            records[r].listeners[k].0,
        );
    }
}

/// The messages of a change: what providing, removing and committing tell.
pub open spec fn told_by(records: Seq<RegistryModel>, change: Change) -> Seq<
    (ResourceId, ReadinessModel),
> {
    let after = changed(records, change);
    match change {
        Change::Provided(t, service, _) => told_from(after, t, 0, service),
        Change::Removed(t, service) => told_from(after, t, 0, service),
        Change::Committed(r, p) => told_all(
            after,
            p,
            records[r].providers,
            records[r].providers.len() as int,
        ),
        _ => Seq::empty(),
    }
}

/// How often a change touches dependencies that are waited for in registry `r`:
/// once for a service provided or removed there, and once for each that a
/// staged registry brings there.
pub open spec fn touches(
    records: Seq<RegistryModel>,
    change: Change,
    r: int,
    dependencies: Seq<DependencyModel>,
) -> nat {
    match change {
        Change::Provided(t, service, _) => if t == r {
            once_for(dependencies, service)
        } else {
            0
        },
        Change::Removed(t, service) => if t == r {
            once_for(dependencies, service)
        } else {
            0
        },
        Change::Committed(q, p) => if p == r {
            held_among(dependencies, records[q].providers, records[q].providers.len() as int)
        } else {
            0
        },
        _ => 0,
    }
}

/// A subscriber is told of a change exactly as often as the change touches its
/// dependencies.
pub proof fn subscribers_are_told_of_changes(
    records: Seq<RegistryModel>,
    next: u64,
    change: Change,
    r: int,
    id: ResourceId,
    dependencies: Seq<DependencyModel>,
)
    requires
        all_listeners_apart(records),
        can_happen(records, next, change),
        waits(records, r, id, dependencies),
    ensures
        times(told_by(records, change), id) == touches(records, change, r, dependencies),
{
    let k = choose|k: int|
        0 <= k < records[r].listeners.len() && #[trigger] records[r].listeners[k] == (
            id,
            dependencies,
        );
    let after = changed(records, change);
    if change is Provided || change is Removed || change is Committed {
        assert forall|i: int| 0 <= i < records.len() implies (#[trigger] after[i]).listeners
            == records[i].listeners by {}
        assert(all_listeners_apart(after)) by {
            assert forall|a: int, b: int, c: int, d: int|
                0 <= a < after.len() && 0 <= b < after[a].listeners.len() && 0 <= c < after.len()
                    && 0 <= d < after[c].listeners.len() && (#[trigger] after[a].listeners[b]).0
                    == (#[trigger] after[c].listeners[d]).0 implies a == c && b == d by {
                assert(records[a].listeners[b].0 == records[c].listeners[d].0);
            }
        }
        assert(after[r].listeners == records[r].listeners);
    }
    match change {
        Change::Provided(t, service, _) => told_as_often(after, t, 0, service, r, k),
        Change::Removed(t, service) => told_as_often(after, t, 0, service, r, k),
        Change::Committed(q, p) => told_as_often_of_all(
            after,
            p,
            records[q].providers,
            records[q].providers.len() as int,
            r,
            k,
        ),
        _ => {},
    }
}

/// All messages of the changes `changes[..count]`.
pub open spec fn told_through(
    records: Seq<RegistryModel>,
    changes: Seq<Change>,
    count: nat,
) -> Seq<(ResourceId, ReadinessModel)>
    decreases count,
{
    if count == 0 {
        Seq::empty()
    } else {
        told_through(records, changes, (count - 1) as nat) + told_by(
            changed_by(records, changes, (count - 1) as nat),
            changes[count - 1],
        )
    }
}

/// How often the changes `changes[..count]` touch dependencies.
pub open spec fn touched_through(
    records: Seq<RegistryModel>,
    changes: Seq<Change>,
    count: nat,
    r: int,
    dependencies: Seq<DependencyModel>,
) -> nat
    decreases count,
{
    if count == 0 {
        0
    } else {
        touched_through(records, changes, (count - 1) as nat, r, dependencies) + touches(
            changed_by(records, changes, (count - 1) as nat),
            changes[count - 1],
            r,
            dependencies,
        )
    }
}

/// As long as it has not left, a subscriber is told once for each change of one
/// of its dependencies, and of nothing else.
pub proof fn subscribers_are_told_once_per_change(
    records: Seq<RegistryModel>,
    next: u64,
    changes: Seq<Change>,
    count: nat,
    r: int,
    id: ResourceId,
    dependencies: Seq<DependencyModel>,
)
    requires
        count <= changes.len(),
        can_follow(records, next, changes),
        forall|i: nat|
            i < count ==> all_listeners_apart(#[trigger] changed_by(records, changes, i)) && waits(
                changed_by(records, changes, i),
                r,
                id,
                dependencies,
            ),
    ensures
        times(told_through(records, changes, count), id) == touched_through(
            records,
            changes,
            count,
            r,
            dependencies,
        ),
    decreases count,
{
    if count > 0 {
        let i = (count - 1) as nat;
        let before = changed_by(records, changes, i);
        subscribers_are_told_once_per_change(records, next, changes, i, r, id, dependencies);
        subscribers_are_told_of_changes(
            before,
            crate::registry_laws::next_by(next, changes, i),
            changes[i as int],
            r,
            id,
            dependencies,
        );
        times_join(told_through(records, changes, i), told_by(before, changes[i as int]), id);
    }
}

proof fn absent_listeners_are_not_told(
    records: Seq<RegistryModel>,
    t: int,
    from: int,
    service: ServiceModel,
    id: ResourceId,
)
    requires
        0 <= t < records.len(),
        0 <= from <= records[t].listeners.len(),
        !listening(records[t].listeners, id),
    ensures
        times(told_from(records, t, from, service), id) == 0,
    decreases records[t].listeners.len() - from,
{
    let listeners = records[t].listeners;
    if from < listeners.len() {
        absent_listeners_are_not_told(records, t, from + 1, service, id);
        assert(listeners[from].0 != id);
        if concerns(listeners[from].1, service) {
            let first = seq![(listeners[from].0, readiness(records, t, listeners[from].1))];
            times_join(first, told_from(records, t, from + 1, service), id);
            assert(first.drop_last() =~= Seq::empty());
            assert(times(first.drop_last(), id) == 0);
            assert(times(first, id) == 0);
        }
    }
}

proof fn absent_listeners_are_told_nothing(
    records: Seq<RegistryModel>,
    t: int,
    added: Seq<(ServiceModel, ServiceEntry)>,
    count: int,
    id: ResourceId,
)
    requires
        0 <= t < records.len(),
        !listening(records[t].listeners, id),
        0 <= count <= added.len(),
    ensures
        times(told_all(records, t, added, count), id) == 0,
    decreases count,
{
    if count > 0 {
        absent_listeners_are_told_nothing(records, t, added, count - 1, id);
        absent_listeners_are_not_told(records, t, 0, added[count - 1].0, id);
        times_join(
            told_all(records, t, added, count - 1),
            told_from(records, t, 0, added[count - 1].0),
            id,
        );
    }
}

/// A subscriber that has left is told of no change.
pub proof fn subscribers_that_left_are_not_told(
    records: Seq<RegistryModel>,
    next: u64,
    change: Change,
    id: ResourceId,
)
    requires
        can_happen(records, next, change),
        forall|r: int|
            0 <= r < records.len() ==> !listening((#[trigger] records[r]).listeners, id),
    ensures
        times(told_by(records, change), id) == 0,
{
    let after = changed(records, change);
    match change {
        Change::Provided(t, service, _) => {
            assert(after[t].listeners == records[t].listeners);
            absent_listeners_are_not_told(after, t, 0, service, id);
        },
        Change::Removed(t, service) => {
            assert(after[t].listeners == records[t].listeners);
            absent_listeners_are_not_told(after, t, 0, service, id);
        },
        Change::Committed(q, p) => {
            assert(after[p].listeners == records[p].listeners);
            let added = records[q].providers;
            absent_listeners_are_told_nothing(after, p, added, added.len() as int, id);
        },
        _ => {},
    }
}

/// A key comes before another: by name, then by version.
pub open spec fn key_before(a: ServiceKeyModel, b: ServiceKeyModel) -> bool {
    if a.name != b.name {
        text_before(a.name, b.name)
    } else {
        text_before(a.contract_version, b.contract_version)
    }
}

/// The listing of a context has one snapshot for each key that has a provider
/// there, as the context shows it, and no other. The keys strictly ascend, so
/// none comes twice.
pub proof fn listings_ascend_by_key(context: ContextModel, records: Seq<RegistryModel>)
    requires
        sorted(records),
    ensures
        ({
            let r = context.registry.index as int;
            let services = own_services(context, visible(records, r), 0);
            let shown: Seq<SnapshotModel> = shown_from(context, records, visible(records, r), 0);
            &&& shown.len() == services.len()
            &&& forall|i: int|
                0 <= i < services.len() ==> seen(records, context, (#[trigger] services[i]).key)
                    is Some && shown[i] == snapshot_of(
                    resolved(context, services[i].key),
                    seen(records, context, services[i].key),
                    chain_of(context, services[i].key),
                )
            &&& forall|key: ServiceKeyModel| #[trigger]
                seen(records, context, key) is Some ==> exists|i: int|
                    0 <= i < services.len() && (#[trigger] services[i]).key == key
            &&& forall|i: int, j: int|
                0 <= i < j < services.len() ==> key_before(
                    (#[trigger] services[i]).key,
                    (#[trigger] services[j]).key,
                )
        }),
{
    let r = context.registry.index as int;
    let all = visible(records, r);
    let services = own_services(context, all, 0);
    let shown = shown_from(context, records, all, 0);
    snapshots_list_each_key_once(context, records);
    own_services_resolve(context, all, 0);
    assert forall|i: int| 0 <= i < services.len() implies seen(
        records,
        context,
        (#[trigger] services[i]).key,
    ) is Some && shown[i] == snapshot_of(
        resolved(context, services[i].key),
        seen(records, context, services[i].key),
        chain_of(context, services[i].key),
    ) by {
        assert(services.contains(resolved(context, services[i].key)));
        assert(shown[i] == shown[i]);
    }
    assert forall|key: ServiceKeyModel| #[trigger] seen(
        records,
        context,
        key,
    ) is Some implies exists|i: int|
        0 <= i < services.len() && (#[trigger] services[i]).key == key by {
        assert(services.contains(resolved(context, key)));
        let i = choose|i: int| 0 <= i < services.len() && services[i] == resolved(context, key);
        assert(services[i].key == key);
    }
    assert forall|i: int, j: int| 0 <= i < j < services.len() implies key_before(
        (#[trigger] services[i]).key,
        (#[trigger] services[j]).key,
    ) by {
        assert(service_before(services[i], services[j]));
        if services[i].key =~= services[j].key {
            assert(services[i] == services[j]);
            service_order_is_total(services[i], services[i], services[i]);
        }
    }
}

proof fn own_services_resolve(context: ContextModel, services: Seq<ServiceModel>, from: int)
    ensures
        forall|i: int|
            0 <= i < own_services(context, services, from).len() ==> resolved(
                context,
                (#[trigger] own_services(context, services, from)[i]).key,
            ) == own_services(context, services, from)[i],
    decreases services.len() - from,
{
    if 0 <= from < services.len() {
        own_services_resolve(context, services, from + 1);
        let rest = own_services(context, services, from + 1);
        let all = own_services(context, services, from);
        if resolved(context, services[from].key) == services[from] {
            assert forall|i: int| 0 <= i < all.len() implies resolved(
                context,
                (#[trigger] all[i]).key,
            ) == all[i] by {
                if i > 0 {
                    assert(all[i] == rest[i - 1]);
                }
            }
        }
    }
}

}
