//! The trace of two providers of one service, each in a realm of its own.

use vstd::prelude::*;
use vstd::string::*;

use crate::catalog_lifecycle::run_outcome;
use crate::catalog_services::{is_service_case, services_case, CATALOG_SERVICE};
use crate::conformance::{
    case_ids, cases_of, chosen_text, created_event, input_member, input_text, labelled_event,
    state_event, Trace,
};
use crate::context::{resolved, ContextHandle, ServiceHandle};
use crate::disposal::claimed_scope_is_unloading;
use crate::fixture::{trace_list, Fixture, TraceEvent, TraceEventKind, TraceModel};
use crate::ids::{ResourceId, ScopeId, ServiceKey};
use crate::json::{lookup, Json};
use crate::lifecycle::{
    disposing, CleanupStep, Disposal, Fiber, FiberState, RecordModel, Scope, ScopeTree,
    StartOutcome,
};
use crate::registry::{
    entry_of, provided, provided_services_are_current, removed,
    removed_services_are_unavailable, Registries,
};
use crate::service::{
    other_services_are_untouched, provided_services_are_found, with_provider, without_provider,
    ServiceEntry,
};
use crate::text::{join2, join3, quoted_text, text_list};

verus! {

/// A provider that runs: its fiber, its handle, and the effects that its scope
/// owns.
#[derive(Debug)]
pub struct RunningProvider {
    pub fiber: Fiber,
    pub handle: ServiceHandle,
    pub removed: ResourceId,
    pub provided: ResourceId,
    pub unloading: ResourceId,
}

/// The name of the fiber of a provider.
pub open spec fn provider_name(label: Seq<char>) -> Seq<char> {
    "isolate-realm."@ + label
}

/// What a provider tells when it starts.
pub open spec fn provider_start(service: Seq<char>, label: Seq<char>) -> Seq<TraceModel> {
    let name = provider_name(label);
    seq![
        created_event(name),
        state_event(name, "PENDING"@, "LOADING"@),
        labelled_event(TraceEventKind::ServiceProvided, service, label),
        state_event(name, "LOADING"@, "ACTIVE"@),
    ]
}

/// What a provider tells when it ends.
pub open spec fn provider_end(service: Seq<char>, label: Seq<char>) -> Seq<TraceModel> {
    let name = provider_name(label);
    seq![
        state_event(name, "ACTIVE"@, "UNLOADING"@),
        labelled_event(TraceEventKind::ServiceRemoved, service, label),
        state_event(name, "UNLOADING"@, "DISPOSED"@),
    ]
}

/// The scope of a running provider owns exactly its three effects.
pub open spec fn owns_effects(record: RecordModel, run: RunningProvider) -> bool {
    &&& record.state == FiberState::Active
    &&& record.children.len() == 0
    &&& record.effects.len() == 3
    &&& record.effects[0].id == run.removed
    &&& record.effects[1].id == run.provided
    &&& record.effects[2].id == run.unloading
    &&& run.removed != run.provided
    &&& run.removed != run.unloading
    &&& run.provided != run.unloading
}

/// Starts a provider of a service in a fiber of its own.
fn provider(
    tree: &mut ScopeTree,
    registries: &mut Registries,
    parent: Scope,
    context: &ContextHandle,
    service: &ServiceKey,
    label: &str,
    value: u64,
    trace: &mut Trace,
) -> (result: Result<RunningProvider, String>)
    requires
        old(tree).wf(),
        old(registries).wf(),
        parent.in_tree(old(tree)@),
        old(tree)@[parent.index as int].state == FiberState::Active,
        context.lives(old(tree)@, old(registries)@),
        old(registries)@[context.registry.index as int].parent is None,
        old(tree).ids.scope < u64::MAX,
        old(tree).ids.fiber < u64::MAX,
        old(tree).ids.generation < u64::MAX - 1,
        old(tree).ids.resource < u64::MAX - 2,
    ensures
        final(tree).wf(),
        final(registries).wf(),
        final(trace)@ == old(trace)@ + provider_start(service@.name, label@),
        final(tree).ids.scope == old(tree).ids.scope + 1,
        final(tree).ids.fiber == old(tree).ids.fiber + 1,
        final(tree).ids.generation == old(tree).ids.generation + 2,
        final(tree).ids.resource == old(tree).ids.resource + 3,
        final(tree)@.len() == old(tree)@.len() + 1,
        forall|j: int|
            0 <= j < old(tree)@.len() && j != parent.index ==> (#[trigger] final(tree)@[j])
                == old(tree)@[j],
        final(tree)@[parent.index as int].state == FiberState::Active,
        match result {
            Ok(run) => {
                &&& run.fiber.scope.index == old(tree)@.len()
                &&& run.fiber.name@ == provider_name(label@)
                &&& run.fiber.state == FiberState::Active
                &&& owns_effects(final(tree)@[run.fiber.scope.index as int], run)
                &&& run.handle.registry == context.registry
                &&& run.handle.service@ == resolved(context@, service@)
                &&& run.handle.generation.0 == old(tree).ids.generation + 1
                &&& run.handle.value == value
                &&& final(registries)@ == provided(
                    old(registries)@,
                    context.registry.index as int,
                    resolved(context@, service@),
                    ServiceEntry {
                        generation: run.handle.generation,
                        kind: CATALOG_SERVICE,
                        value,
                    },
                )
            },
            Err(_) => false,
        },
{
    let ghost started = trace@;
    let name = join2("isolate-realm.", label);
    let mut fiber = match Fiber::new(tree, parent, name) {
        Ok(fiber) => fiber,
        Err(error) => return Err(error.message()),
    };
    trace.created(fiber.name());
    let scope = match fiber.start(tree) {
        Ok(scope) => scope,
        Err(error) => return Err(error.message()),
    };
    if fiber.state(tree) != FiberState::Loading {
        return Err("service fiber did not enter loading".to_owned());
    }
    trace.state(fiber.name(), "PENDING", "LOADING");
    let removed = match scope.add_effect(tree, "trace-service-removed".to_owned()) {
        Ok(effect) => effect,
        Err(error) => return Err(error.message()),
    };
    let inner = context.with_scope(scope);
    let ghost before = registries@;
    let ghost here = resolved(context@, service@);
    assert(resolved(inner@, service@) == here);
    let (handle, provided_effect) = match inner.provide(
        tree,
        registries,
        service.clone(),
        CATALOG_SERVICE,
        value,
    ).result {
        Ok(pair) => pair,
        Err(error) => return Err(error.message()),
    };
    proof {
        let entry = ServiceEntry { generation: handle.generation, kind: CATALOG_SERVICE, value };
        assert(!before[context.registry.index as int].committed);
        provided_services_are_current(before, context.registry.index as int, here, entry);
    }
    if !handle.is_current(registries) {
        return Err("new service provider was not current".to_owned());
    }
    trace.labelled(TraceEventKind::ServiceProvided, service.name.as_str(), label);
    let unloading = match scope.add_effect(tree, "trace-service-unloading".to_owned()) {
        Ok(effect) => effect,
        Err(error) => return Err(error.message()),
    };
    match fiber.finish_start(tree, Ok(())) {
        StartOutcome::Settled(Ok(())) => {},
        StartOutcome::Settled(Err(error)) => return Err(error.message()),
        StartOutcome::RollBack(_, error) => return Err(error.message()),
    }
    if fiber.state(tree) != FiberState::Active {
        return Err("service fiber did not become active".to_owned());
    }
    trace.state(fiber.name(), "LOADING", "ACTIVE");
    assert(trace@ =~= started + provider_start(service@.name, label@));
    Ok(RunningProvider { fiber, handle, removed, provided: provided_effect, unloading })
}

/// Ends a provider: its effects run in reverse order, and its service is gone.
fn end_provider(
    tree: &mut ScopeTree,
    registries: &mut Registries,
    context: &ContextHandle,
    service: &ServiceKey,
    label: &str,
    run: RunningProvider,
    trace: &mut Trace,
) -> (result: Result<(), String>)
    requires
        old(tree).wf(),
        old(registries).wf(),
        context.lives(old(tree)@, old(registries)@),
        old(registries)@[context.registry.index as int].parent is None,
        run.fiber.scope.in_tree(old(tree)@),
        run.fiber.name@ == provider_name(label@),
        run.fiber.state == FiberState::Active,
        owns_effects(old(tree)@[run.fiber.scope.index as int], run),
        run.handle.registry == context.registry,
        run.handle.service@ == resolved(context@, service@),
        lookup(
            old(registries)@[context.registry.index as int].providers,
            resolved(context@, service@),
        ) matches Some(entry) && entry.generation == run.handle.generation,
    ensures
        final(tree).wf(),
        final(registries).wf(),
        final(tree).ids == old(tree).ids,
        final(tree)@.len() == old(tree)@.len(),
        forall|j: int|
            0 <= j < old(tree)@.len() && j != run.fiber.scope.index ==> (#[trigger] final(
                tree)@[j]) == old(tree)@[j],
        final(trace)@ == old(trace)@ + provider_end(service@.name, label@),
        final(registries)@ == removed(
            old(registries)@,
            context.registry.index as int,
            resolved(context@, service@),
        ),
        result is Ok,
{
    let ghost started = trace@;
    let ghost events = provider_end(service@.name, label@);
    let ghost before = tree@;
    let ghost records = registries@;
    let ghost at = run.fiber.scope.index as int;
    let ghost r = context.registry.index as int;
    let ghost here = resolved(context@, service@);
    let ghost effects = before[at].effects;
    let mut fiber = run.fiber;
    let scope = fiber.dispose();
    let contexts: Vec<Vec<ScopeId>> = Vec::new();
    let nothing: Vec<ScopeId> = Vec::new();
    let mut cleanup = match scope.dispose(tree, &contexts, &nothing) {
        Disposal::Run(cleanup) => cleanup,
        _ => return Err("a provider was not disposed by its first caller".to_owned()),
    };
    proof {
        claimed_scope_is_unloading(before, tree.ids, scope, disposing(contexts@, 0, nothing@));
        removed_services_are_unavailable(records, r, here);
        assert(effects.subrange(0, 3) =~= effects);
        assert(started + events.subrange(0, 0) =~= started);
    }
    loop
        invariant
            tree.wf(),
            registries.wf(),
            tree.ids == old(tree).ids,
            tree@.len() == before.len(),
            scope == run.fiber.scope,
            at == scope.index,
            0 <= at < before.len(),
            tree@[at].state == FiberState::Unloading,
            forall|j: int|
                0 <= j < before.len() && j != at ==> (#[trigger] tree@[j]) == before[j],
            fiber.scope == scope,
            fiber.name@ == provider_name(label@),
            fiber.state == FiberState::Unloading,
            effects == before[at].effects,
            owns_effects(before[at], run),
            cleanup@.children.len() == 0,
            cleanup@.errors.len() == 0,
            cleanup@.effects.len() <= 3,
            cleanup@.effects == effects.subrange(0, cleanup@.effects.len() as int),
            events == provider_end(service@.name, label@),
            trace@ == started + events.subrange(
                0,
                if cleanup@.effects.len() == 3 {
                    0
                } else if cleanup@.effects.len() > 0 {
                    1
                } else {
                    2
                },
            ),
            r == context.registry.index,
            0 <= r < records.len(),
            records[r].parent is None,
            here == resolved(context@, service@),
            run.handle.registry == context.registry,
            run.handle.service@ == here,
            lookup(records[r].providers, here) matches Some(entry) && entry.generation
                == run.handle.generation,
            !records[r].committed,
            entry_of(removed(records, r, here), r, here) is None,
            registries@ == (if cleanup@.effects.len() > 1 {
                records
            } else {
                removed(records, r, here)
            }),
        ensures
            cleanup@.effects.len() == 0,
        decreases cleanup@.effects.len(),
    {
        let ghost n = cleanup@.effects.len() as int;
        let ghost so_far = trace@;
        match cleanup.next() {
            CleanupStep::Effect(effect) => {
                proof {
                    crate::lifecycle::lemma_effect_view(effect);
                    assert(effect@ == effects[n - 1]);
                    assert(cleanup@.effects =~= effects.subrange(0, n - 1));
                }
                if effect.id == run.unloading {
                    if fiber.state(tree) != FiberState::Unloading {
                        return Err("service fiber did not enter unloading".to_owned());
                    }
                    trace.state(fiber.name(), "ACTIVE", "UNLOADING");
                    assert(trace@ =~= started + events.subrange(0, 1));
                } else if effect.id == run.provided {
                    registries.remove_if_current(
                        run.handle.registry,
                        &run.handle.service,
                        run.handle.generation,
                    );
                } else {
                    match context.get(registries, service, CATALOG_SERVICE) {
                        Ok(None) => {},
                        Ok(Some(_)) => {
                            return Err("service survived provider disposal".to_owned());
                        },
                        Err(error) => return Err(error.message()),
                    }
                    trace.labelled(TraceEventKind::ServiceRemoved, service.name.as_str(), label);
                    assert(trace@ =~= started + events.subrange(0, 2));
                }
                cleanup.record(Ok(()));
            },
            CleanupStep::Child(_) => return Err("a provider has no children".to_owned()),
            CleanupStep::Finished => {
                break;
            },
        }
    }
    match cleanup.finish() {
        Ok(()) => {},
        Err(error) => return Err(error.message()),
    }
    scope.finish_disposal(tree, Ok(()));
    fiber.finish_disposal(tree);
    if fiber.state(tree) != FiberState::Disposed {
        return Err("a provider did not become disposed".to_owned());
    }
    trace.state(fiber.name(), "UNLOADING", "DISPOSED");
    assert(trace@ =~= started + events);
    Ok(())
}

/// The name of the service of a service fixture, and the labels of its two
/// providers.
pub open spec fn provider_inputs(input: Option<Json>) -> (Seq<char>, Seq<char>, Seq<char>) {
    (
        chosen_text(input_member(input, "service"@), "storage"@),
        chosen_text(input_member(input, "first"@), "root"@),
        chosen_text(input_member(input, "second"@), "isolated"@),
    )
}

/// The trace of two providers that start one after the other and end in
/// reverse order.
pub open spec fn services_events(input: Option<Json>) -> Seq<TraceModel> {
    let (service, first, second) = provider_inputs(input);
    provider_start(service, first) + provider_start(service, second) + provider_end(
        service,
        second,
    ) + provider_end(service, first)
}

/// Runs two providers of one service, and records what happens.
pub fn services_trace(fixture: &Fixture) -> (result: Result<Vec<TraceEvent>, String>)
    ensures
        match result {
            Ok(trace) => trace_list(trace@) == services_events(fixture@.input),
            Err(_) => false,
        },
{
    let mut trace = Trace::new();
    let mut tree = ScopeTree::new();
    let mut registries = Registries::new();
    let root = ContextHandle::root(&mut tree, &mut registries);
    let root_scope = root.scope();
    let name = input_text(fixture, "service", "storage");
    let service = ServiceKey::new(name, "conformance/v1".to_owned());
    let first = input_text(fixture, "first", "root");
    let second = input_text(fixture, "second", "isolated");
    let ghost start = registries@;
    let ghost here = resolved(root@, service@);
    let root_provider = match provider(
        &mut tree,
        &mut registries,
        root_scope,
        &root,
        &service,
        first.as_str(),
        1,
        &mut trace,
    ) {
        Ok(run) => run,
        Err(message) => return Err(message),
    };
    let ghost one = registries@;
    let isolated = root.isolate(&mut tree.ids, service.clone(), None);
    let ghost there = resolved(isolated@, service@);
    proof {
        crate::context::assigned_values_are_found(
            root@.realms,
            service@,
            lookup(isolated@.realms, service@)->0,
            service@,
        );
        assert(there != here);
    }
    let ghost first_scope = tree@[root_provider.fiber.scope.index as int];
    let isolated_provider = match provider(
        &mut tree,
        &mut registries,
        root_scope,
        &isolated,
        &service,
        second.as_str(),
        2,
        &mut trace,
    ) {
        Ok(run) => run,
        Err(message) => return Err(message),
    };
    let ghost two = registries@;
    let ghost first_entry = ServiceEntry {
        generation: root_provider.handle.generation,
        kind: CATALOG_SERVICE,
        value: 1,
    };
    let ghost second_entry = ServiceEntry {
        generation: isolated_provider.handle.generation,
        kind: CATALOG_SERVICE,
        value: 2,
    };
    proof {
        assert(start[0].providers =~= Seq::empty());
        assert(one[0].providers =~= seq![(here, first_entry)]);
        reveal_with_fuel(with_provider, 3);
        assert(one[0].providers.drop_first() =~= Seq::empty());
        assert(two[0].providers =~= seq![(here, first_entry), (there, second_entry)]
            || two[0].providers =~= seq![(there, second_entry), (here, first_entry)]);
        provided_services_are_found(one[0].providers, there, second_entry);
        other_services_are_untouched(one[0].providers, there, second_entry, here);
        assert(lookup(one[0].providers, here) == Some(first_entry));
    }
    let root_value = match root.get(&registries, &service, CATALOG_SERVICE) {
        Ok(Some(handle)) => match handle.with(&registries) {
            Ok(value) => value,
            Err(error) => return Err(error.message()),
        },
        Ok(None) => return Err("root service is missing".to_owned()),
        Err(error) => return Err(error.message()),
    };
    let isolated_value = match isolated.get(&registries, &service, CATALOG_SERVICE) {
        Ok(Some(handle)) => match handle.with(&registries) {
            Ok(value) => value,
            Err(error) => return Err(error.message()),
        },
        Ok(None) => return Err("isolated service is missing".to_owned()),
        Err(error) => return Err(error.message()),
    };
    if root_value != 1 || isolated_value != 2 {
        return Err("service realm visibility failed".to_owned());
    }
    assert(tree@[root_provider.fiber.scope.index as int] == first_scope);
    if let Err(message) = end_provider(
        &mut tree,
        &mut registries,
        &isolated,
        &service,
        second.as_str(),
        isolated_provider,
        &mut trace,
    ) {
        return Err(message);
    }
    proof {
        let left = registries@[0].providers;
        other_services_are_untouched(two[0].providers, there, second_entry, here);
        reveal_with_fuel(without_provider, 3);
        assert(left =~= seq![(here, first_entry)]);
    }
    if let Err(message) = end_provider(
        &mut tree,
        &mut registries,
        &root,
        &service,
        first.as_str(),
        root_provider,
        &mut trace,
    ) {
        return Err(message);
    }
    assert(trace@ =~= services_events(fixture@.input));
    Ok(trace.events)
}

/// The first of `ids[from..]` that is no service scenario.
pub open spec fn stray_service_case(ids: Seq<Seq<char>>, from: int) -> Option<Seq<char>>
    decreases ids.len() - from,
{
    if from < 0 || from >= ids.len() {
        None
    } else if !is_service_case(ids[from]) {
        Some(ids[from])
    } else {
        stray_service_case(ids, from + 1)
    }
}

/// What a service fixture gives: the trace of two providers, once every
/// scenario that it asks for has passed.
pub open spec fn services_run(input: Option<Json>) -> Result<Seq<TraceModel>, Seq<char>> {
    match cases_of(input) {
        Err(message) => Err(message),
        Ok(ids) => match stray_service_case(ids, 0) {
            Some(id) => Err(
                "service catalog case "@ + id + ": "@ + ("unsupported service catalog case "@
                    + quoted_text(id)),
            ),
            None => Ok(services_events(input)),
        },
    }
}

/// Runs a service fixture.
pub fn services(fixture: &Fixture) -> (result: Result<Vec<TraceEvent>, String>)
    ensures
        run_outcome(result) == services_run(fixture@.input),
{
    let ids = match case_ids(fixture) {
        Ok(ids) => ids,
        Err(message) => return Err(message),
    };
    let ghost model = text_list(ids@);
    let mut i: usize = 0;
    while i < ids.len()
        invariant
            i <= ids@.len(),
            model == text_list(ids@),
            cases_of(fixture@.input) == Ok::<Seq<Seq<char>>, Seq<char>>(model),
            stray_service_case(model, 0) == stray_service_case(model, i as int),
        decreases ids@.len() - i,
    {
        assert(model[i as int] == ids@[i as int]@);
        match services_case(ids[i].as_str()) {
            Ok(()) => {},
            Err(message) => {
                let mut text = join3("service catalog case ", ids[i].as_str(), ": ");
                text.append(message.as_str());
                return Err(text);
            },
        }
        i += 1;
    }
    services_trace(fixture)
}

}
