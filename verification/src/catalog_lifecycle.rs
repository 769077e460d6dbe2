//! The lifecycle part of the conformance catalog: scenarios that every scope
//! and fiber has to pass.

use vstd::prelude::*;
use vstd::string::*;

use crate::conformance::{
    case_ids, cases_of, created_event, effect_label, labelled_event, lifecycle_effect_label,
    state_event, Trace,
};
use crate::disposal::{
    child_at, children_order, claimed_scope_is_unloading, disposal_order, disposal_outcome, disposal_without_failures_succeeds, disposes, effect_order,
    settled, EffectFailure,
};
use crate::error::{CoreError, CoreFailure};
use crate::fixture::{trace_list, Fixture, TraceEvent, TraceEventKind, TraceModel};
use crate::ids::{IdSource, ResourceId, ScopeId};
use crate::json::Json;
use crate::lifecycle::{
    after_scope, disposing, lemma_effect_view, rolled_back, state_failure, CleanupStep, Disposal,
    Fiber, FiberState, RecordModel, Scope, ScopeTree, StartOutcome,
};
use crate::text::{join2, join3, quoted, quoted_text, same_text, text_list};

verus! {

/// A tree without scopes, with identifiers for every scope and resource that a
/// scenario makes.
pub open spec fn unused(tree: ScopeTree) -> bool {
    &&& tree.wf()
    &&& tree@.len() == 0
    &&& tree.ids.scope < u64::MAX - 8
    &&& tree.ids.fiber < u64::MAX - 8
    &&& tree.ids.resource < u64::MAX - 8
    &&& tree.ids.generation < u64::MAX - 8
}

/// The states of scopes.
pub open spec fn states(records: Seq<RecordModel>) -> Seq<FiberState> {
    Seq::new(records.len(), |i: int| records[i].state)
}

/// A scenario fails exactly when it could not observe what it is about.
pub fn verdict<T>(observed: Result<T, String>) -> (result: Result<(), String>)
    ensures
        match observed {
            Ok(_) => result is Ok,
            Err(message) => result is Err && result->Err_0@ == message@,
        },
{
    match observed {
        Ok(_) => Ok(()),
        Err(message) => Err(message),
    }
}

/// Disposes a scope and everything below it with disposers that succeed, and
/// gives the effects in the order in which they ran.
pub fn dispose_all(tree: &mut ScopeTree, scope: Scope) -> (result: Result<Vec<ResourceId>, String>)
    requires
        old(tree).wf(),
        scope.in_tree(old(tree)@),
        settled(old(tree)@),
    ensures
        final(tree).wf(),
        final(tree).ids == old(tree).ids,
        final(tree)@.len() == old(tree)@.len(),
        settled(final(tree)@),
        match result {
            Ok(order) => order@ == disposal_order(
                old(tree)@,
                scope.index as int,
            ),
            Err(_) => false,
        },
        forall|j: int|
            0 <= j < old(tree)@.len() ==> (#[trigger] final(tree)@[j]).state == (if disposes(
                old(tree)@,
                scope.index as int,
                j,
            ) {
                FiberState::Disposed
            } else {
                old(tree)@[j].state
            }),
{
    let failures: Vec<EffectFailure> = Vec::new();
    let ancestors: Vec<ScopeId> = Vec::new();
    let mut order: Vec<ResourceId> = Vec::new();
    proof {
        disposal_without_failures_succeeds(tree@, scope.index as int, failures@);
        assert forall|j: int| 0 <= j < tree@.len() implies disposal_outcome(
            tree@,
            j,
            failures@,
        ) == Ok::<(), crate::error::CoreFailure>(()) by {
            disposal_without_failures_succeeds(tree@, j, failures@);
        }
    }
    let ghost before = tree@;
    match scope.dispose_below(tree, &failures, &ancestors, &mut order) {
        Ok(()) => {
            assert(order@ =~= disposal_order(before, scope.index as int));
            Ok(order)
        },
        Err(error) => Err(error.message()),
    }
}

/// A fiber that was started becomes active, and can be disposed. Gives the
/// state of the fiber after its start, and the fiber after its disposal.
fn starts(tree: &mut ScopeTree, id: &str, complaint: &str) -> (result: Result<
    (FiberState, Fiber),
    String,
>)
    requires
        unused(*old(tree)),
    ensures
        final(tree).wf(),
        states(final(tree)@) == seq![FiberState::Active, FiberState::Disposed],
        final(tree).ids == (IdSource {
            fiber: (old(tree).ids.fiber + 1) as u64,
            ..after_scope(after_scope(old(tree).ids))
        }),
        match result {
            Ok((started, fiber)) => {
                &&& started == FiberState::Active
                &&& fiber.id.0 == old(tree).ids.fiber
                &&& fiber.name@ == id@
                &&& fiber.scope.index == 1
                &&& fiber.state == FiberState::Disposed
            },
            Err(_) => false,
        },
{
    let root = Scope::root(tree);
    let mut fiber = match Fiber::new(tree, root, id.to_owned()) {
        Ok(fiber) => fiber,
        Err(error) => return Err(error.message()),
    };
    if let Err(error) = fiber.start(tree) {
        return Err(error.message());
    }
    match fiber.finish_start(tree, Ok(())) {
        StartOutcome::Settled(Ok(())) => {},
        StartOutcome::Settled(Err(error)) => return Err(error.message()),
        StartOutcome::RollBack(_, error) => return Err(error.message()),
    }
    let started = fiber.state(tree);
    if started != FiberState::Active {
        return Err(complaint.to_owned());
    }
    let scope = fiber.dispose();
    let ghost before = tree@;
    match dispose_all(tree, scope) {
        Ok(_) => {},
        Err(message) => return Err(message),
    }
    proof {
        assert(disposes(before, 1, 1));
        assert(!disposes(before, 1, 0));
        assert(states(tree@) =~= seq![FiberState::Active, FiberState::Disposed]);
    }
    fiber.finish_disposal(tree);
    Ok((started, fiber))
}

/// The disposer of an effect runs exactly once, however often its scope is
/// disposed. Gives the effects that ran, in order.
fn cleans_up(tree: &mut ScopeTree, id: &str, times: u64, complaint: &str) -> (result: Result<
    Vec<ResourceId>,
    String,
>)
    requires
        unused(*old(tree)),
    ensures
        final(tree).wf(),
        states(final(tree)@) == seq![FiberState::Disposed],
        final(tree).ids == (IdSource {
            resource: (old(tree).ids.resource + 1) as u64,
            ..after_scope(old(tree).ids)
        }),
        match result {
            Ok(ran) => ran@ == seq![ResourceId(old(tree).ids.resource)],
            Err(_) => false,
        },
{
    let scope = Scope::root(tree);
    let effect = match scope.add_effect(tree, id.to_owned()) {
        Ok(effect) => effect,
        Err(error) => return Err(error.message()),
    };
    let mut ran = match dispose_all(tree, scope) {
        Ok(order) => order,
        Err(message) => return Err(message),
    };
    proof {
        reveal_with_fuel(effect_order, 2);
        reveal_with_fuel(children_order, 1);
        assert(ran@ =~= seq![effect]);
    }
    let ghost ids = tree.ids;
    let mut i: u64 = 1;
    while i < times
        invariant
            tree.wf(),
            tree.ids == ids,
            tree@.len() == 1,
            scope.index == 0,
            settled(tree@),
            tree@[0].state == FiberState::Disposed,
            ran@ == seq![effect],
        decreases times - i,
    {
        match dispose_all(tree, scope) {
            Ok(order) => {
                let mut again = order;
                ran.append(&mut again);
                assert(ran@ =~= seq![effect]);
            },
            Err(message) => return Err(message),
        }
        i += 1;
    }
    assert(states(tree@) =~= seq![FiberState::Disposed]);
    if ran.len() != 1 || ran[0] != effect {
        return Err(complaint.to_owned());
    }
    Ok(ran)
}

/// The disposers of a scope run in reverse registration order. Gives the
/// effects that ran, in order.
fn disposes_in_reverse(tree: &mut ScopeTree, complaint: &str) -> (result: Result<
    Vec<ResourceId>,
    String,
>)
    requires
        unused(*old(tree)),
    ensures
        final(tree).wf(),
        states(final(tree)@) == seq![FiberState::Disposed],
        final(tree).ids == (IdSource {
            resource: (old(tree).ids.resource + 2) as u64,
            ..after_scope(old(tree).ids)
        }),
        match result {
            Ok(ran) => ran@ == seq![
                ResourceId((old(tree).ids.resource + 1) as u64),
                ResourceId(old(tree).ids.resource),
            ],
            Err(_) => false,
        },
{
    let scope = Scope::root(tree);
    let first = match scope.add_effect(tree, "first".to_owned()) {
        Ok(effect) => effect,
        Err(error) => return Err(error.message()),
    };
    let second = match scope.add_effect(tree, "second".to_owned()) {
        Ok(effect) => effect,
        Err(error) => return Err(error.message()),
    };
    let order = match dispose_all(tree, scope) {
        Ok(order) => order,
        Err(message) => return Err(message),
    };
    proof {
        reveal_with_fuel(effect_order, 3);
        reveal_with_fuel(children_order, 1);
        assert(order@ =~= seq![second, first]);
        assert(states(tree@) =~= seq![FiberState::Disposed]);
    }
    if order.len() != 2 || order[0] != second || order[1] != first {
        return Err(complaint.to_owned());
    }
    Ok(order)
}

/// A parent disposes its child with it, the child's effects before its own.
/// Gives the effects that ran, in order.
fn quiesces_children(tree: &mut ScopeTree, own_effect: bool, complaint: &str) -> (result: Result<
    Vec<ResourceId>,
    String,
>)
    requires
        unused(*old(tree)),
    ensures
        final(tree).wf(),
        states(final(tree)@) == seq![FiberState::Disposed, FiberState::Disposed],
        final(tree).ids == (IdSource {
            resource: (old(tree).ids.resource + if own_effect {
                2int
            } else {
                1int
            }) as u64,
            ..after_scope(after_scope(old(tree).ids))
        }),
        match result {
            Ok(ran) => ran@ == if own_effect {
                seq![
                    ResourceId(old(tree).ids.resource),
                    ResourceId((old(tree).ids.resource + 1) as u64),
                ]
            } else {
                seq![ResourceId(old(tree).ids.resource)]
            },
            Err(_) => false,
        },
{
    let parent = Scope::root(tree);
    let child = match parent.child(tree) {
        Ok(child) => child,
        Err(error) => return Err(error.message()),
    };
    let mut expected: Vec<ResourceId> = Vec::new();
    match child.add_effect(tree, "child".to_owned()) {
        Ok(effect) => expected.push(effect),
        Err(error) => return Err(error.message()),
    }
    if own_effect {
        match parent.add_effect(tree, "parent".to_owned()) {
            Ok(effect) => expected.push(effect),
            Err(error) => return Err(error.message()),
        }
    }
    let ghost before = tree@;
    let order = match dispose_all(tree, parent) {
        Ok(order) => order,
        Err(message) => return Err(message),
    };
    proof {
        assert(before[0].children =~= seq![child]);
        assert(child_at(before, 0, 0) == 1);
        assert(disposes(before, 1, 1));
        assert(disposes(before, 0, 1));
        reveal_with_fuel(effect_order, 2);
        assert(children_order(before, 1, 0) =~= Seq::empty());
        assert(disposal_order(before, 1) =~= seq![expected@[0]]);
        assert(children_order(before, 0, 0) =~= Seq::empty());
        assert(children_order(before, 0, 1) =~= seq![expected@[0]]);
        assert(order@ =~= expected@);
        assert(states(tree@) =~= seq![FiberState::Disposed, FiberState::Disposed]);
    }
    if child.state(tree) != FiberState::Disposed || order.len() != expected.len() {
        return Err(complaint.to_owned());
    }
    let mut i: usize = 0;
    while i < order.len()
        invariant
            i <= order@.len(),
            order@ == expected@,
        decreases order@.len() - i,
    {
        if order[i] != expected[i] {
            return Err(complaint.to_owned());
        }
        i += 1;
    }
    Ok(order)
}

/// A scope whose disposer disposes it again is cleaned up once. Gives the
/// effects that ran, in order.
fn survives_reentrance(tree: &mut ScopeTree, id: &str) -> (result: Result<
    Vec<ResourceId>,
    String,
>)
    requires
        unused(*old(tree)),
    ensures
        final(tree).wf(),
        states(final(tree)@) == seq![FiberState::Disposed],
        final(tree).ids == (IdSource {
            resource: (old(tree).ids.resource + 1) as u64,
            ..after_scope(old(tree).ids)
        }),
        match result {
            Ok(ran) => ran@ == seq![ResourceId(old(tree).ids.resource)],
            Err(_) => false,
        },
{
    let scope = Scope::root(tree);
    let effect = match scope.add_effect(tree, id.to_owned()) {
        Ok(effect) => effect,
        Err(error) => return Err(error.message()),
    };
    let contexts: Vec<Vec<ScopeId>> = Vec::new();
    let nothing: Vec<ScopeId> = Vec::new();
    let mut cleanup = match scope.dispose(tree, &contexts, &nothing) {
        Disposal::Run(cleanup) => cleanup,
        _ => return Err("a scope was not disposed by its first caller".to_owned()),
    };
    let mut inside: Vec<ScopeId> = Vec::new();
    inside.push(scope.id(tree));
    assert(inside@[0] == tree@[0].id);
    assert(inside@.contains(tree@[0].id));
    let mut ran: Vec<ResourceId> = Vec::new();
    match cleanup.next() {
        CleanupStep::Effect(running) => {
            proof {
                lemma_effect_view(running);
            }
            ran.push(running.id);
            match scope.dispose(tree, &contexts, &inside) {
                Disposal::Reentrant => cleanup.record(Ok(())),
                _ => return Err("a disposer waits for its own scope".to_owned()),
            }
        },
        _ => {},
    }
    if let Err(error) = cleanup.finish() {
        return Err(error.message());
    }
    scope.finish_disposal(tree, Ok(()));
    assert(ran@ =~= seq![effect]);
    assert(states(tree@) =~= seq![FiberState::Disposed]);
    if scope.state(tree) != FiberState::Disposed || ran.len() != 1 {
        return Err("reentrant disposal did not converge on one cleanup".to_owned());
    }
    Ok(ran)
}

/// A start that fails takes back what its setup made. Gives the failure of the
/// start, and the effects that were taken back, in order.
fn rolls_back(tree: &mut ScopeTree, id: &str) -> (result: Result<
    (CoreError, Vec<ResourceId>),
    String,
>)
    requires
        unused(*old(tree)),
    ensures
        final(tree).wf(),
        states(final(tree)@) == seq![FiberState::Active, FiberState::Failed],
        final(tree).ids == (IdSource {
            fiber: (old(tree).ids.fiber + 1) as u64,
            resource: (old(tree).ids.resource + 1) as u64,
            ..after_scope(after_scope(old(tree).ids))
        }),
        match result {
            Ok((failure, ran)) => {
                &&& failure@ == CoreFailure::SetupFailed("requested failed start"@)
                &&& ran@ == seq![ResourceId(old(tree).ids.resource)]
            },
            Err(_) => false,
        },
{
    let parent = Scope::root(tree);
    let mut fiber = match Fiber::new(tree, parent, id.to_owned()) {
        Ok(fiber) => fiber,
        Err(error) => return Err(error.message()),
    };
    let scope = match fiber.start(tree) {
        Ok(scope) => scope,
        Err(error) => return Err(error.message()),
    };
    let effect = match scope.add_effect(tree, "rollback".to_owned()) {
        Ok(effect) => effect,
        Err(error) => return Err(error.message()),
    };
    let failure = CoreError::SetupFailed("requested failed start".to_owned());
    let (mut cleanup, failure) = match fiber.finish_start(tree, Err(failure)) {
        StartOutcome::RollBack(cleanup, failure) => (cleanup, failure),
        StartOutcome::Settled(_) => return Err("failed start unexpectedly succeeded".to_owned()),
    };
    let mut ran: Vec<ResourceId> = Vec::new();
    match cleanup.next() {
        CleanupStep::Effect(running) => {
            proof {
                lemma_effect_view(running);
            }
            ran.push(running.id);
            cleanup.record(Ok(()));
        },
        _ => {},
    }
    let failure = rolled_back(failure, cleanup.finish());
    assert(ran@ =~= seq![effect]);
    assert(states(tree@) =~= seq![FiberState::Active, FiberState::Failed]);
    if fiber.state(tree) != FiberState::Failed || ran.len() != 1 {
        return Err("failed start did not roll back its effect".to_owned());
    }
    Ok((failure, ran))
}

/// A scope that is being disposed takes no more effects. Gives the refusal.
fn refuses_late_effects(tree: &mut ScopeTree, id: &str) -> (result: Result<CoreError, String>)
    requires
        unused(*old(tree)),
    ensures
        final(tree).wf(),
        states(final(tree)@) == seq![FiberState::Disposed],
        final(tree).ids == (IdSource {
            resource: (old(tree).ids.resource + 1) as u64,
            ..after_scope(old(tree).ids)
        }),
        match result {
            Ok(refusal) => refusal@ == state_failure("register effect"@, FiberState::Unloading),
            Err(_) => false,
        },
{
    let scope = Scope::root(tree);
    if let Err(error) = scope.add_effect(tree, id.to_owned()) {
        return Err(error.message());
    }
    let contexts: Vec<Vec<ScopeId>> = Vec::new();
    let nothing: Vec<ScopeId> = Vec::new();
    let ghost before = tree@;
    let mut cleanup = match scope.dispose(tree, &contexts, &nothing) {
        Disposal::Run(cleanup) => cleanup,
        _ => return Err("a scope was not disposed by its first caller".to_owned()),
    };
    proof {
        claimed_scope_is_unloading(before, tree.ids, scope, disposing(contexts@, 0, nothing@));
    }
    let refusal = match cleanup.next() {
        CleanupStep::Effect(_) => match scope.add_effect(tree, "late".to_owned()) {
            Ok(_) => return Err("unloading scope accepted a new effect".to_owned()),
            Err(error) => error,
        },
        _ => return Err("a disposal skipped its effect".to_owned()),
    };
    cleanup.record(Ok(()));
    match cleanup.finish() {
        Ok(()) => {},
        Err(error) => return Err(error.message()),
    }
    scope.finish_disposal(tree, Ok(()));
    assert(states(tree@) =~= seq![FiberState::Disposed]);
    Ok(refusal)
}

/// The lifecycle scenarios.
pub open spec fn is_lifecycle_case(id: Seq<char>) -> bool {
    id == "sync-start"@ || id == "async-start"@ || id == "sync-cleanup"@ || id == "async-cleanup"@
        || id == "iterable-cleanup"@ || id == "reverse-disposal"@ || id == "nested-effect"@ || id
        == "repeated-disposal"@ || id == "reentrant-disposal"@ || id == "failed-start-rollback"@
        || id == "parent-child-quiescence"@ || id == "unload-registration-rejection"@
}

/// Runs a lifecycle scenario. All of them pass.
pub fn lifecycle_case(id: &str) -> (result: Result<(), String>)
    ensures
        match result {
            Ok(()) => is_lifecycle_case(id@),
            Err(message) => !is_lifecycle_case(id@) && message@
                == "unsupported lifecycle catalog case "@ + quoted_text(id@),
        },
{
    let mut tree = ScopeTree::new();
    if same_text(id, "sync-start") {
        verdict(starts(&mut tree, id, "synchronous start did not activate the fiber"))
    } else if same_text(id, "async-start") {
        verdict(starts(&mut tree, id, "asynchronous start did not activate the fiber"))
    } else if same_text(id, "sync-cleanup") {
        verdict(cleans_up(&mut tree, id, 1, "sync-cleanup did not run exactly once"))
    } else if same_text(id, "async-cleanup") {
        verdict(cleans_up(&mut tree, id, 1, "async-cleanup did not run exactly once"))
    } else if same_text(id, "iterable-cleanup") {
        verdict(disposes_in_reverse(&mut tree, "iterable-cleanup did not dispose effects in reverse order"))
    } else if same_text(id, "reverse-disposal") {
        verdict(disposes_in_reverse(&mut tree, "reverse-disposal did not dispose effects in reverse order"))
    } else if same_text(id, "nested-effect") {
        verdict(quiesces_children(&mut tree, false, "nested effect did not quiesce with its parent"))
    } else if same_text(id, "repeated-disposal") {
        verdict(cleans_up(&mut tree, id, 2, "repeated disposal ran cleanup more than once"))
    } else if same_text(id, "reentrant-disposal") {
        verdict(survives_reentrance(&mut tree, id))
    } else if same_text(id, "failed-start-rollback") {
        verdict(rolls_back(&mut tree, id))
    } else if same_text(id, "parent-child-quiescence") {
        verdict(quiesces_children(&mut tree, true, "parent disposal did not quiesce its child first"))
    } else if same_text(id, "unload-registration-rejection") {
        verdict(refuses_late_effects(&mut tree, id))
    } else {
        Err(join2("unsupported lifecycle catalog case ", quoted(id).as_str()))
    }
}

/// The trace of a fiber with one effect, from its creation to its disposal.
pub open spec fn lifecycle_events(label: Seq<char>) -> Seq<TraceModel> {
    let subject = "effect-dispose"@;
    seq![
        created_event(subject),
        state_event(subject, "PENDING"@, "LOADING"@),
        labelled_event(TraceEventKind::EffectCreated, "effect-dispose.effect"@, label),
        state_event(subject, "LOADING"@, "ACTIVE"@),
        state_event(subject, "ACTIVE"@, "UNLOADING"@),
        labelled_event(TraceEventKind::EffectDisposed, "effect-dispose.effect"@, label),
        state_event(subject, "UNLOADING"@, "DISPOSED"@),
    ]
}

/// Runs a fiber with one effect and records what happens.
pub fn lifecycle_trace(label: &str) -> (result: Result<Vec<TraceEvent>, String>)
    ensures
        match result {
            Ok(trace) => trace_list(trace@) == lifecycle_events(label@),
            Err(_) => false,
        },
{
    let mut trace = Trace::new();
    let mut tree = ScopeTree::new();
    let root = Scope::root(&mut tree);
    let mut fiber = match Fiber::new(&mut tree, root, "effect-dispose".to_owned()) {
        Ok(fiber) => fiber,
        Err(error) => return Err(error.message()),
    };
    trace.created(fiber.name());
    let scope = match fiber.start(&tree) {
        Ok(scope) => scope,
        Err(error) => return Err(error.message()),
    };
    if fiber.state(&tree) != FiberState::Loading {
        return Err("lifecycle fiber did not enter loading".to_owned());
    }
    trace.state(fiber.name(), "PENDING", "LOADING");
    if let Err(error) = scope.add_effect(&mut tree, label.to_owned()) {
        return Err(error.message());
    }
    trace.labelled(TraceEventKind::EffectCreated, "effect-dispose.effect", label);
    match fiber.finish_start(&mut tree, Ok(())) {
        StartOutcome::Settled(Ok(())) => {},
        StartOutcome::Settled(Err(error)) => return Err(error.message()),
        StartOutcome::RollBack(_, error) => return Err(error.message()),
    }
    if fiber.state(&tree) != FiberState::Active {
        return Err("lifecycle fiber did not become active".to_owned());
    }
    trace.state(fiber.name(), "LOADING", "ACTIVE");
    let scope = fiber.dispose();
    let contexts: Vec<Vec<ScopeId>> = Vec::new();
    let nothing: Vec<ScopeId> = Vec::new();
    let ghost before = tree@;
    let mut cleanup = match scope.dispose(&mut tree, &contexts, &nothing) {
        Disposal::Run(cleanup) => cleanup,
        _ => return Err("a scope was not disposed by its first caller".to_owned()),
    };
    proof {
        claimed_scope_is_unloading(before, tree.ids, scope, disposing(contexts@, 0, nothing@));
    }
    match cleanup.next() {
        CleanupStep::Effect(effect) => {
            if fiber.state(&tree) != FiberState::Unloading {
                return Err("lifecycle fiber did not enter unloading".to_owned());
            }
            trace.state(fiber.name(), "ACTIVE", "UNLOADING");
            proof {
                crate::lifecycle::lemma_effect_view(effect);
            }
            trace.labelled(
                TraceEventKind::EffectDisposed,
                "effect-dispose.effect",
                effect.label.as_str(),
            );
            cleanup.record(Ok(()));
        },
        _ => {},
    }
    match cleanup.finish() {
        Ok(()) => {},
        Err(error) => return Err(error.message()),
    }
    scope.finish_disposal(&mut tree, Ok(()));
    fiber.finish_disposal(&tree);
    if fiber.state(&tree) != FiberState::Disposed {
        return Err("lifecycle fiber did not become disposed".to_owned());
    }
    trace.state(fiber.name(), "UNLOADING", "DISPOSED");
    assert(trace@ =~= lifecycle_events(label@));
    Ok(trace.events)
}

/// The first of `ids[from..]` that is no lifecycle scenario.
pub open spec fn stray_lifecycle_case(ids: Seq<Seq<char>>, from: int) -> Option<Seq<char>>
    decreases ids.len() - from,
{
    if from < 0 || from >= ids.len() {
        None
    } else if !is_lifecycle_case(ids[from]) {
        Some(ids[from])
    } else {
        stray_lifecycle_case(ids, from + 1)
    }
}

/// What a lifecycle fixture gives: the trace of a fiber, once every scenario
/// that it asks for has passed.
pub open spec fn lifecycle_run(input: Option<Json>) -> Result<Seq<TraceModel>, Seq<char>> {
    match cases_of(input) {
        Err(message) => Err(message),
        Ok(ids) => match stray_lifecycle_case(ids, 0) {
            Some(id) => Err(
                "lifecycle catalog case "@ + id + ": "@ + ("unsupported lifecycle catalog case "@
                    + quoted_text(id)),
            ),
            None => Ok(lifecycle_events(effect_label(input))),
        },
    }
}

/// The outcome of a run.
pub open spec fn run_outcome(result: Result<Vec<TraceEvent>, String>) -> Result<
    Seq<TraceModel>,
    Seq<char>,
> {
    match result {
        Ok(trace) => Ok(trace_list(trace@)),
        Err(message) => Err(message@),
    }
}

/// Runs a lifecycle fixture.
pub fn lifecycle(fixture: &Fixture) -> (result: Result<Vec<TraceEvent>, String>)
    ensures
        run_outcome(result) == lifecycle_run(fixture@.input),
{
    let ids = match case_ids(fixture) {
        Ok(ids) => ids,
        Err(message) => return Err(message),
    };
    let ghost model = text_list(ids@);
    let mut i: usize = 0;
    while i < ids.len()
        invariant
            i <= ids@.len(),
            model == text_list(ids@),
            cases_of(fixture@.input) == Ok::<Seq<Seq<char>>, Seq<char>>(model),
            stray_lifecycle_case(model, 0) == stray_lifecycle_case(model, i as int),
        decreases ids@.len() - i,
    {
        assert(model[i as int] == ids@[i as int]@);
        match lifecycle_case(ids[i].as_str()) {
            Ok(()) => {},
            Err(message) => {
                let mut text = join3("lifecycle catalog case ", ids[i].as_str(), ": ");
                text.append(message.as_str());
                return Err(text);
            },
        }
        i += 1;
    }
    let label = lifecycle_effect_label(fixture);
    lifecycle_trace(label.as_str())
}

}
