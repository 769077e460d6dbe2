//! In what order services stand, who hears an event, and what plugins and
//! packages need before they are admitted.

use vstd::prelude::*;
use vstd::string::*;

use crate::capability::HostBindings;
use crate::context::{merged_members, resolved, resolved_dependencies, ContextModel};
use crate::engine::{engine_fault, request_of, stray_request_key};
use crate::error::{CoreError, CoreFailure};
use crate::events::{audience, FilterModel, ListenerModel};
use crate::guest::{limits_fault, ResourceLimits};
use crate::ids::ServiceKeyModel;
use crate::instance::{
    free_id, instantiation_fault, steps_to, GuestSlot, InstanceStep, WasmPluginInstance,
};
use crate::json::{lookup, property, Json, JsonValue};
use crate::lifecycle::{FiberState, RecordModel, ScopeTree};
use crate::manifest::{configuration_fault, manifest_fault, module_fault};
use crate::native::{native_config_fault, registration_fault, NativeFailure};
use crate::native_instance::{
    combined, stop_failures, Admission, DependencyGate, NativePluginInstance,
};
use crate::native_update::update_fault;
use crate::package::{package_of, PackageModel};
use crate::registry::{entry_of, provided, target, told_from, Registries, RegistryModel};
use crate::service::{
    service_before, snapshot_of, Dependency, RealmModel, ServiceEntry, ServiceModel,
};
use crate::text::{blank, decimal_text, text_before};
use crate::tree::EntryModel;
use crate::wasm_runtime::{entry_context, host_payload};

verus! {

/// Services stand by name, then by contract version, then by realm: the root
/// first, then the shared ones by label, then the private ones by age.
pub proof fn services_stand_by_name_version_and_realm(a: ServiceModel, b: ServiceModel)
    ensures
        service_before(a, b) <==> {
            ||| text_before(a.key.name, b.key.name) && a.key.name != b.key.name
            ||| a.key.name == b.key.name && a.key.contract_version != b.key.contract_version
                && text_before(a.key.contract_version, b.key.contract_version)
            ||| a.key == b.key && a.realm is Root && !(b.realm is Root)
            ||| a.key == b.key && a.realm is Shared && b.realm is Private
            ||| a.key == b.key && (a.realm matches RealmModel::Shared(x) && (b.realm
                matches RealmModel::Shared(y) && text_before(x, y)))
            ||| a.key == b.key && (a.realm matches RealmModel::Private(x) && (b.realm
                matches RealmModel::Private(y) && x.0 < y.0))
        },
{
    assert(a.key == b.key <==> a.key.name == b.key.name && a.key.contract_version
        == b.key.contract_version);
}

/// A service is shown by its name and version with a sign between them, and by
/// its realm; it is shown as available, with its generation, exactly if it is
/// provided.
pub proof fn services_are_shown_as_provided(
    service: ServiceModel,
    entry: Option<ServiceEntry>,
    intercepts: Seq<Json>,
)
    ensures
        ({
            let shown = snapshot_of(service, entry, intercepts);
            &&& shown.key == service.key.name + "@"@ + service.key.contract_version
            &&& shown.available <==> entry is Some
            &&& shown.generation is Some <==> entry is Some
            &&& entry is Some ==> shown.generation == Some(entry->0.generation)
            &&& shown.intercepts == intercepts
            &&& service.realm is Root ==> shown.realm == "root"@
            &&& service.realm matches RealmModel::Shared(label) ==> shown.realm == label
            &&& service.realm matches RealmModel::Private(generation) ==> shown.realm == "private-"@
                + decimal_text(generation.0 as nat)
        }),
{
}

/// Intercepts that are no objects are left out of what is merged.
pub proof fn other_intercepts_are_left_out(values: Seq<Json>, last: Json)
    requires
        !(last is Object),
    ensures
        merged_members(values.push(last), values.len() as int + 1) == merged_members(
            values,
            values.len() as int,
        ),
        merged_members(values, 0) == Seq::<(Seq<char>, Json)>::empty(),
{
    same_merged(values, last, values.len() as int);
}

proof fn same_merged(values: Seq<Json>, last: Json, count: int)
    requires
        0 <= count <= values.len(),
    ensures
        merged_members(values.push(last), count) == merged_members(values, count),
    decreases count,
{
    if count > 0 {
        same_merged(values, last, count - 1);
        assert(values.push(last)[count - 1] == values[count - 1]);
    }
}

/// The listener takes part in a dispatch of the event through a view.
pub open spec fn takes_part(
    listener: ListenerModel,
    event: Seq<char>,
    filter: FilterModel,
    records: Seq<RecordModel>,
) -> bool {
    &&& listener.event == event
    &&& records[listener.owner.index as int].state == FiberState::Active
    &&& listener.filter matches Some(own) ==> own.context == filter.context && own.realm
        == filter.realm
}

/// Those who hear an event are just the listeners for it whose owner is active
/// and who are everyone's or were made through an equal view; in order.
pub proof fn events_are_heard_by_active_listeners_of_the_view(
    listeners: Seq<ListenerModel>,
    event: Seq<char>,
    filter: FilterModel,
    records: Seq<RecordModel>,
)
    ensures
        audience(listeners, event, filter, records) == listeners.filter(
            |listener: ListenerModel| takes_part(listener, event, filter, records),
        ),
    decreases listeners.len(),
{
    let taken = |listener: ListenerModel| takes_part(listener, event, filter, records);
    reveal(Seq::filter);
    if listeners.len() > 0 {
        events_are_heard_by_active_listeners_of_the_view(
            listeners.drop_last(),
            event,
            filter,
            records,
        );
        let last = listeners.last();
        assert(last.filter == Some(filter) <==> (last.filter is Some && last.filter->0.context
            == filter.context && last.filter->0.realm == filter.realm));
    }
}

/// A plugin with a subscription may start exactly when every service that it
/// requires is provided where it looks for it; what it merely can use does not
/// hold it back.
pub proof fn plugins_wait_for_what_they_require(plugin: NativePluginInstance, registries: Registries)
    requires
        plugin.guarded(),
        plugin.barrier is Some || plugin.descriptor.dependencies@.len() == 0,
    ensures
        plugin.open(registries) <==> forall|i: int|
            0 <= i < plugin.descriptor.dependencies@.len() ==> (
            #[trigger] plugin.descriptor.dependencies@[i] matches Dependency::Required(key)
                ==> entry_of(
                registries@,
                plugin.context@.registry.index as int,
                resolved(plugin.context@, key@),
            ) is Some),
{
    let needs = plugin.descriptor.dependencies@;
    let context = ContextModel { scope: plugin.fiber.scope, ..plugin.context@ };
    let wanted = resolved_dependencies(context, needs);
    let r = plugin.context@.registry.index as int;
    assert(forall|key: ServiceKeyModel| #[trigger]
        resolved(context, key) == resolved(plugin.context@, key));
    if plugin.open(registries) {
        assert forall|i: int| 0 <= i < needs.len() implies (#[trigger] needs[i]
            matches Dependency::Required(key) ==> entry_of(
            registries@,
            r,
            resolved(plugin.context@, key@),
        ) is Some) by {
            assert(wanted[i].required <==> needs[i] is Required);
        }
    }
    if forall|i: int|
        0 <= i < needs.len() ==> (#[trigger] needs[i] matches Dependency::Required(key) ==> entry_of(
            registries@,
            r,
            resolved(plugin.context@, key@),
        ) is Some) {
        assert forall|i: int| 0 <= i < wanted.len() && (#[trigger] wanted[i]).required implies entry_of(
            registries@,
            r,
            wanted[i].service,
        ) is Some by {
            assert(needs[i] is Required);
        }
    }
}

/// What an attempt to start gives: nothing once cancelled, a wait as long as
/// something required is missing, a run for a pending plugin in an active scope,
/// and a refusal for any other. Only a run loads the plugin, and only a run or a
/// refusal is an attempt.
pub proof fn attempts_run_pending_plugins(
    plugin: NativePluginInstance,
    tree: ScopeTree,
    registries: Registries,
    cancelled: bool,
    result: Result<Admission, CoreError>,
    after: NativePluginInstance,
)
    requires
        plugin.admits(tree, registries, cancelled, result, after),
    ensures
        result is Err <==> cancelled,
        result == Ok::<Admission, CoreError>(Admission::Wait) <==> !cancelled && !plugin.open(
            registries,
        ),
        (result matches Ok(Admission::Run(_))) <==> !cancelled && plugin.open(registries)
            && plugin.fiber.state == FiberState::Pending
            && tree@[plugin.fiber.scope.index as int].state == FiberState::Active,
        (result matches Ok(Admission::Run(_))) ==> after.fiber.state == FiberState::Loading
            && after.start_attempted,
        !(result matches Ok(Admission::Run(_))) ==> after.fiber.state == plugin.fiber.state,
        (result is Err || result == Ok::<Admission, CoreError>(Admission::Wait)) ==> after
            == plugin,
        (result matches Ok(Admission::Refused(_))) ==> after.start_attempted,
        after.stopped == plugin.stopped,
        after.config == plugin.config,
        after.fiber.scope == plugin.fiber.scope,
{
}

/// An update is taken exactly if the configuration is accepted, the plugin is
/// shown active, and there is a factory to make its successor.
pub proof fn updates_need_an_active_plugin_and_a_factory(
    plugin: NativePluginInstance,
    tree: ScopeTree,
    config: JsonValue,
)
    ensures
        update_fault(plugin, tree, config) is None <==> native_config_fault(
            plugin.descriptor@,
            config@,
        ) is None && plugin.fiber.state == FiberState::Active && (tree@[
            plugin.fiber.scope.index as int
        ].state == FiberState::Active || tree@[plugin.fiber.scope.index as int].state
            == FiberState::Pending || tree@[plugin.fiber.scope.index as int].state
            == FiberState::Loading) && plugin.factory is Some,
{
}

/// A package can be registered exactly if its manifest is accepted and its
/// specifier shows something and is not taken.
pub proof fn packages_are_registered_once(
    packages: Seq<(Seq<char>, PackageModel)>,
    factories: Seq<(Seq<char>, u64)>,
    specifier: Seq<char>,
    package: PackageModel,
)
    ensures
        crate::wasm_runtime::registration_fault(packages, specifier, package) is None <==>
            manifest_fault(package.manifest) is None && !blank(specifier) && forall|i: int|
            0 <= i < packages.len() ==> (#[trigger] packages[i]).0 != specifier,
        registration_fault(factories, specifier) is None <==> !blank(specifier) && forall|i: int|
            0 <= i < factories.len() ==> (#[trigger] factories[i]).0 != specifier,
{
    crate::json_laws::lookups_find_the_first_member(factories, specifier);
}

/// A package is made of a manifest and a module that are both accepted, and of
/// nothing else.
pub proof fn packages_are_accepted_manifests_with_modules(
    manifest: crate::manifest::ManifestModel,
    wasm: Seq<u8>,
)
    ensures
        package_of(manifest, wasm) is Ok <==> manifest_fault(manifest) is None && module_fault(wasm)
            is None,
        package_of(manifest, wasm) matches Ok(package) ==> package.manifest == manifest
            && package.wasm == Some(wasm),
{
}

/// An instance can be made exactly if manifest, module, limits and
/// configuration are all accepted. An engine needs the module itself.
pub proof fn instances_need_every_part_accepted(
    package: PackageModel,
    limits: ResourceLimits,
    config: Json,
)
    ensures
        instantiation_fault(package, limits, config) is None <==> manifest_fault(package.manifest)
            is None && (package.wasm matches Some(wasm) ==> module_fault(wasm) is None)
            && limits_fault(limits) is None && configuration_fault(package.manifest, config)
            is None,
        engine_fault(package, limits) is None <==> manifest_fault(package.manifest) is None && (
        package.wasm matches Some(wasm) && module_fault(wasm) is None) && limits_fault(limits)
            is None,
{
}

/// An identity is free if neither the plugin nor another instance has it.
pub proof fn free_identities_are_nobodys(taken: Seq<Seq<char>>, plugin_id: Seq<char>, id: Seq<char>)
    ensures
        free_id(taken, plugin_id, id) <==> id != plugin_id && forall|i: int|
            0 <= i < taken.len() ==> #[trigger] taken[i] != id,
{
    if taken.contains(id) {
        let i = choose|i: int| 0 <= i < taken.len() && taken[i] == id;
        assert(taken[i] == id);
    }
}

/// A guest is told of its entry: the identifier, the name or null, and what it
/// asks for, in order.
pub proof fn guests_are_told_of_their_entry(entry: EntryModel)
    ensures
        ({
            let context = entry_context(entry);
            &&& property(context, "entryId"@) == Some(Json::String(entry.options.id))
            &&& entry.options.name matches Some(name) ==> property(context, "entryName"@) == Some(
                Json::String(name),
            )
            &&& entry.options.name is None ==> property(context, "entryName"@) == Some(Json::Null)
            &&& property(context, "inject"@) matches Some(Json::Array(names)) && names.len()
                == entry.options.inject.len() && forall|i: int|
                0 <= i < names.len() ==> #[trigger] names[i] == Json::String(
                    entry.options.inject[i],
                )
        }),
{
    reveal_strlit("entryId");
    reveal_strlit("entryName");
    reveal_strlit("inject");
    assert("entryId"@.len() == 7 && "entryName"@.len() == 9 && "inject"@.len() == 6);
    reveal_with_fuel(lookup, 4);
    let members = entry_context(entry)->Object_0;
    assert(members.drop_first()[0] == members[1]);
    assert(members.drop_first().drop_first()[0] == members[2]);
}

/// A host call takes its payload exactly if it is no longer than the input
/// limit and is a document.
pub proof fn host_calls_take_documents_within_the_limit(
    bindings: HostBindings,
    length: nat,
    document: Result<Json, Seq<char>>,
)
    ensures
        host_payload(bindings, length, document) is Ok <==> length <= bindings.max_input_bytes
            && document is Ok,
        host_payload(bindings, length, document) matches Ok(value) ==> document == Ok::<
            Json,
            Seq<char>,
        >(value),
{
}

proof fn strays_are_found(members: Seq<(Seq<char>, Json)>, from: int)
    requires
        0 <= from,
    ensures
        stray_request_key(members, from) is None <==> forall|i: int|
            from <= i < members.len() ==> {
                let key = (#[trigger] members[i]).0;
                key == "requestId"@ || key == "context"@ || key == "payload"@
            },
    decreases members.len() - from,
{
    if from < members.len() {
        strays_are_found(members, from + 1);
    }
}

/// A request is read exactly if it gives a text for its identity, a context and
/// a payload, and nothing else; it then says what the document says.
pub proof fn requests_are_three_fields(members: Seq<(Seq<char>, Json)>)
    ensures
        request_of(Json::Object(members)) is Ok <==> (lookup(members, "requestId"@) matches Some(
            Json::String(_),
        )) && lookup(members, "context"@) is Some && lookup(members, "payload"@) is Some && forall|
            i: int,
        |
            0 <= i < members.len() ==> {
                let key = (#[trigger] members[i]).0;
                key == "requestId"@ || key == "context"@ || key == "payload"@
            },
        request_of(Json::Object(members)) matches Ok(request) ==> lookup(members, "requestId"@)
            == Some(Json::String(request.request_id)) && lookup(members, "context"@) == Some(
            request.context,
        ) && lookup(members, "payload"@) == Some(request.payload),
{
    strays_are_found(members, 0);
}

/// A scope that was just made is active, was not cancelled, and has nothing in
/// it yet.
pub proof fn fresh_scopes_are_active_and_empty(ids: crate::ids::IdSource)
    ensures
        ({
            let record = crate::lifecycle::fresh_record(ids);
            &&& record.state == FiberState::Active
            &&& !record.cancelled
            &&& record.effects.len() == 0
            &&& record.children.len() == 0
            &&& record.ancestors.len() == 0
            &&& record.outcome is None
            &&& record.id.0 == ids.scope
            &&& record.generation.0 == ids.generation
        }),
{
}

/// What is provided through a registry is seen through it, also when it was
/// committed: then its parent holds it, unless that was committed as well.
pub proof fn provided_services_are_seen_where_they_were_provided(
    records: Seq<RegistryModel>,
    r: int,
    service: ServiceModel,
    entry: ServiceEntry,
)
    requires
        0 <= r < records.len(),
        crate::registry::rooted(records),
        !records[target(records, r)].committed,
    ensures
        entry_of(provided(records, target(records, r), service, entry), r, service) == Some(entry),
        !records[r].committed ==> target(records, r) == r,
{
    let t = target(records, r);
    let after = provided(records, t, service, entry);
    crate::service::provided_services_are_found(records[t].providers, service, entry);
    assert(entry_of(after, t, service) == Some(entry));
}

/// Cancelling interrupts the call of a busy guest and does nothing to others;
/// claiming gives the guest to one caller, and only while calls are accepted.
pub proof fn cancelling_interrupts_the_call_under_way(
    before: WasmPluginInstance,
    cancelled: WasmPluginInstance,
    claimed: WasmPluginInstance,
)
    requires
        steps_to(before, InstanceStep::Cancel, cancelled),
        steps_to(before, InstanceStep::Claim, claimed),
    ensures
        before.active is Some ==> cancelled.active == Some(true),
        before.active is None ==> cancelled == before,
        cancelled.slot == before.slot && cancelled.accepting == before.accepting,
        claimed.slot == GuestSlot::Busy && before.slot != GuestSlot::Busy <==> before.accepting
            && before.slot == GuestSlot::Idle,
        before.accepting && before.slot == GuestSlot::Idle ==> claimed.active == Some(false),
        !(before.accepting && before.slot == GuestSlot::Idle) ==> claimed == before,
{
}

/// A plugin that was started, well or not, is stopped once.
pub proof fn started_plugins_owe_one_stop(plugin: NativePluginInstance)
    ensures
        plugin.owes_stop() ==> plugin.start_attempted,
        plugin.stopped ==> !plugin.owes_stop(),
        plugin.start_attempted && !plugin.stopped ==> plugin.owes_stop(),
{
}

/// Everyone who depends on a service is told when it changes, and nobody else:
/// each listener in its turn, of how ready it is now.
pub proof fn changes_are_told_to_dependents(
    records: Seq<RegistryModel>,
    r: int,
    from: int,
    service: ServiceModel,
)
    requires
        0 <= from <= records[r].listeners.len(),
    ensures
        told_from(records, r, from, service) == Seq::new(
            (records[r].listeners.len() - from) as nat,
            |i: int| told_one(records, r, records[r].listeners[from + i], service),
        ).flatten(),
    decreases records[r].listeners.len() - from,
{
    let listeners = records[r].listeners;
    let parts = Seq::new(
        (listeners.len() - from) as nat,
        |i: int| told_one(records, r, listeners[from + i], service),
    );
    if from < listeners.len() {
        changes_are_told_to_dependents(records, r, from + 1, service);
        let rest = Seq::new(
            (listeners.len() - (from + 1)) as nat,
            |i: int| told_one(records, r, listeners[from + 1 + i], service),
        );
        assert(parts.drop_first() =~= rest);
        assert(parts.first() == told_one(records, r, listeners[from], service));
        assert(parts.flatten() == parts.first() + rest.flatten());
        assert(told_from(records, r, from, service) =~= parts.first() + rest.flatten());
    } else {
        assert(parts.flatten() =~= Seq::empty());
    }
}

/// What one listener is told of a change.
pub open spec fn told_one(
    records: Seq<RegistryModel>,
    r: int,
    listener: (crate::ids::ResourceId, Seq<crate::service::DependencyModel>),
    service: ServiceModel,
) -> Seq<(crate::ids::ResourceId, crate::service::ReadinessModel)> {
    if exists|d: int| 0 <= d < listener.1.len() && (#[trigger] listener.1[d]).service == service {
        seq![(listener.0, crate::registry::readiness(records, r, listener.1))]
    } else {
        Seq::empty()
    }
}

/// A scope that is taken down is cancelled and holds nothing any more; it is
/// unloading until it is done, and then disposed, with its outcome.
pub proof fn closed_scopes_are_cancelled_and_empty(
    records: Seq<RecordModel>,
    at: int,
    ancestors: Seq<crate::ids::ScopeId>,
    failures: Seq<crate::disposal::EffectFailure>,
)
    requires
        0 <= at < records.len(),
        forall|k: int|
            0 <= k < records[at].children.len() ==> at < (
            #[trigger] records[at].children[k]).index < records.len(),
    ensures
        ({
            let record = crate::lifecycle::claimed(records, at, ancestors)[at];
            &&& record.state == FiberState::Unloading
            &&& record.cancelled
            &&& record.effects.len() == 0
            &&& record.children.len() == 0
            &&& record.id == records[at].id
        }),
        ({
            let record = crate::disposal::disposed_record(records, at, failures);
            &&& record.state == FiberState::Disposed
            &&& record.cancelled
            &&& record.effects.len() == 0
            &&& record.children.len() == 0
            &&& record.outcome is Some
            &&& record.id == records[at].id
        }),
{
    let record = records[at];
    let emptied = records.update(
        at,
        RecordModel {
            ancestors: crate::lifecycle::merged(
                record.ancestors,
                ancestors,
                ancestors.len() as int,
            ),
            ..crate::lifecycle::emptied(record, FiberState::Unloading)
        },
    );
    others_stay(
        emptied,
        record.children,
        record.children.len() as int,
        ancestors.push(record.id),
        at,
    );
}

proof fn others_stay(
    records: Seq<RecordModel>,
    children: Seq<crate::lifecycle::Scope>,
    count: int,
    waiting: Seq<crate::ids::ScopeId>,
    at: int,
)
    requires
        0 <= count <= children.len(),
        0 <= at < records.len(),
        forall|k: int|
            0 <= k < children.len() ==> at < (#[trigger] children[k]).index < records.len(),
    ensures
        crate::lifecycle::informed(records, children, count, waiting)[at] == records[at],
        crate::lifecycle::informed(records, children, count, waiting).len() == records.len(),
    decreases count,
{
    if count > 0 {
        others_stay(records, children, count - 1, waiting, at);
        assert(at < children[count - 1].index < records.len());
    }
}

/// A signal cancels one scope and changes nothing else.
pub proof fn signals_cancel_one_scope(records: Seq<RecordModel>, i: int, j: int)
    requires
        0 <= i < records.len(),
        0 <= j < records.len(),
    ensures
        ({
            let after = crate::lifecycle::signalled(records, i);
            &&& after.len() == records.len()
            &&& after[i].cancelled
            &&& after[i] == (RecordModel { cancelled: true, ..records[i] })
            &&& j != i ==> after[j] == records[j]
        }),
{
}

/// What stopping a plugin reports: nothing when all went well, the one failure
/// by itself, or both, that of the plugin before that of its scope.
pub proof fn stops_report_every_failure(
    stop: Result<(), NativeFailure>,
    disposal: Result<(), CoreFailure>,
)
    ensures
        ({
            let report = combined(stop_failures(stop, disposal));
            match (stop, disposal) {
                (Ok(()), Ok(())) => report is Ok,
                (Err(failure), Ok(())) => report == Err::<(), NativeFailure>(failure),
                (Ok(()), Err(failure)) => report == Err::<(), NativeFailure>(
                    NativeFailure::Core(failure),
                ),
                (Err(first), Err(second)) => report matches Err(NativeFailure::Cleanup(failures))
                    && failures == seq![first, NativeFailure::Core(second)],
            }
        }),
{
    let failures = stop_failures(stop, disposal);
    match (stop, disposal) {
        (Err(first), Err(second)) => assert(failures =~= seq![first, NativeFailure::Core(second)]),
        (Err(first), Ok(())) => assert(failures =~= seq![first]),
        (Ok(()), Err(second)) => assert(failures =~= seq![NativeFailure::Core(second)]),
        _ => assert(failures =~= Seq::empty()),
    }
}

/// A stage is a registry of its own below another, and everything in it shows
/// what the other shows until something is provided in it.
pub proof fn stages_start_empty(
    records: Seq<RegistryModel>,
    parent: usize,
    service: ServiceModel,
)
    requires
        parent < records.len(),
        crate::registry::rooted(records),
    ensures
        ({
            let after = crate::native_update::with_stage(records, parent);
            let stage = records.len() as int;
            &&& after.len() == records.len() + 1
            &&& !after[stage].committed
            &&& after[stage].listeners.len() == 0
            &&& entry_of(after, stage, service) == entry_of(after, parent as int, service)
            &&& forall|i: int| 0 <= i < records.len() ==> #[trigger] after[i] == records[i]
        }),
{
}

/// A subscription is made exactly if its scope is active. It waits for the
/// services as the view resolves them, and starts with how they are.
pub proof fn subscriptions_need_an_active_scope(
    context: ContextModel,
    tree: ScopeTree,
    registries: Registries,
    dependencies: Seq<Dependency>,
    result: Result<crate::context::Subscribed, CoreError>,
    tree_after: ScopeTree,
    registries_after: Registries,
)
    requires
        crate::context::subscribes(
            context,
            tree,
            registries,
            dependencies,
            result,
            tree_after,
            registries_after,
        ),
        context.registry.index < registries@.len(),
    ensures
        result is Ok <==> tree@[context.scope.index as int].state == FiberState::Active,
        result is Err ==> tree_after == tree && registries_after == registries,
        result matches Ok(subscribed) ==> registries_after@[context.registry.index as int].listeners
            == registries@[context.registry.index as int].listeners.push(
            (subscribed.subscription.id, resolved_dependencies(context, dependencies)),
        ) && subscribed.snapshot@ == crate::registry::readiness(
            registries_after@,
            context.registry.index as int,
            resolved_dependencies(context, dependencies),
        ),
{
}

/// A plugin without dependencies has nothing to wait for; any other gets a
/// subscription, and a barrier that is there stays.
pub proof fn barriers_are_opened_once(
    plugin: NativePluginInstance,
    tree: ScopeTree,
    registries: Registries,
    result: Result<(), crate::native::NativePluginError>,
    after: NativePluginInstance,
    tree_after: ScopeTree,
    registries_after: Registries,
)
    requires
        plugin.opens_barrier(tree, registries, result, after, tree_after, registries_after),
    ensures
        plugin.barrier is Some ==> result is Ok && after == plugin && tree_after == tree,
        plugin.barrier is None && plugin.descriptor.dependencies@.len() == 0 ==> result is Ok
            && after.barrier == Some(DependencyGate::Open) && tree_after == tree,
        plugin.barrier is None && plugin.descriptor.dependencies@.len() > 0 ==> (result is Ok
            <==> after.barrier is Some) && (result is Ok ==> after.barrier
            matches Some(DependencyGate::Subscribed(_))),
        result is Ok ==> after.barrier is Some,
        after == (NativePluginInstance { barrier: after.barrier, ..plugin }),
{
}

/// A native plugin is made exactly if its descriptor and configuration are
/// accepted and its context is active; it is pending, was not started, and has
/// a scope of its own below that of its context.
pub proof fn new_plugins_are_pending(
    tree: ScopeTree,
    descriptor: crate::native::NativePluginDescriptor,
    factory: Option<u64>,
    context: crate::context::ContextHandle,
    config: JsonValue,
    result: Result<NativePluginInstance, crate::native::NativePluginError>,
    tree_after: ScopeTree,
)
    requires
        NativePluginInstance::instantiated(
            tree,
            descriptor,
            factory,
            context,
            config,
            result,
            tree_after,
        ),
        context.scope.index < tree@.len(),
    ensures
        result is Ok <==> native_config_fault(descriptor@, config@) is None
            && tree@[context.scope.index as int].state == FiberState::Active,
        result matches Ok(plugin) ==> plugin.fiber.state == FiberState::Pending
            && !plugin.start_attempted && !plugin.stopped && plugin.barrier is None
            && plugin.config@ == config@ && plugin.factory == factory && tree_after@.len()
            == tree@.len() + 1 && tree_after@[plugin.fiber.scope.index as int].state
            == FiberState::Active && tree_after@[context.scope.index as int].children.contains(
            plugin.fiber.scope,
        ),
        result is Err ==> tree_after@ == tree@,
{
    match result {
        Ok(plugin) => {
            let before = tree@[context.scope.index as int].children;
            let grown = before.push(plugin.fiber.scope);
            assert(grown[before.len() as int] == plugin.fiber.scope);
            assert(tree_after@[context.scope.index as int].children == grown);
        },
        Err(_) => {},
    }
}

}
