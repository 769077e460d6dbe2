//! The event part of the conformance catalog: scenarios that every dispatch
//! has to pass.

use vstd::prelude::*;
use vstd::string::*;

use crate::catalog_lifecycle::{dispose_all, states, unused, verdict};
use crate::catalog_services::{single, text, used, values_equal_themselves};
use crate::combine::{
    answers_in, called_in, failures_in, planned, turn_at, waterfall_at, TurnModel, WaterfallStep,
};
use crate::dynamic::{dynamic_event, dynamic_payload, DYNAMIC_EVENT};
use crate::dispatch::{course, effective, reply_from, take_turn, Reply, Turn};
use crate::disposal::settled;
use crate::error::{CoreError, CoreFailure};
use crate::event_laws::registration_order_is_dispatch_order;
use crate::events::{
    audience, hub_sound, without_token, DiagnosticModel, DispatchMode, DispatchOutcome, EventBus,
    EventHub, EventOptions, FilterModel, HubModel, ListenerHandle, ListenerKind, ListenerModel,
};
use crate::ids::ScopeId;
use crate::json::{values_equal, Json, JsonValue};
use crate::lifecycle::{EffectModel, FiberState, RecordModel, Scope, ScopeTree};
use crate::text::{join2, quoted, quoted_text, same_text};

verus! {

/// Registers a listener for value payloads in an active scope.
pub fn listen(
    bus: &EventBus,
    hub: &mut EventHub,
    tree: &mut ScopeTree,
    scope: Scope,
    event: &str,
    options: EventOptions,
    kind: ListenerKind,
) -> (result: Result<ListenerHandle, String>)
    requires
        old(tree).wf(),
        hub_sound(old(hub)@, old(tree)@),
        scope.in_tree(old(tree)@),
        old(tree)@[scope.index as int].state == FiberState::Active,
        old(hub).next_listener < u64::MAX,
        old(tree).ids.resource < u64::MAX,
    ensures
        final(tree).wf(),
        hub_sound(final(hub)@, final(tree)@),
        match result {
            Ok(handle) => {
                let listener = bus.made(
                    old(hub)@,
                    scope,
                    event@,
                    options,
                    false,
                    kind,
                    dynamic_payload(),
                );
                &&& handle.event@ == event@
                &&& handle.token == old(hub).next_listener
                &&& handle.id.0 == old(tree).ids.resource
                &&& final(hub)@ == (HubModel {
                    listeners: if options.prepend {
                        seq![listener] + old(hub)@.listeners
                    } else {
                        old(hub)@.listeners.push(listener)
                    },
                    next_listener: (old(hub).next_listener + 1) as u64,
                    ..old(hub)@
                })
                &&& final(tree).ids == used(old(tree).ids, 0, 1, 0)
                &&& final(tree)@ == old(tree)@.update(
                    scope.index as int,
                    RecordModel {
                        effects: old(tree)@[scope.index as int].effects.push(
                            EffectModel {
                                id: handle.id,
                                label: "listener:"@ + event@,
                                children: Seq::empty(),
                            },
                        ),
                        ..old(tree)@[scope.index as int]
                    },
                )
            },
            Err(_) => false,
        },
{
    match bus.register(
        hub,
        tree,
        scope,
        event.to_owned(),
        options,
        false,
        kind,
        dynamic_event(),
    ) {
        Ok(handle) => Ok(handle),
        Err(error) => Err(error.message()),
    }
}

/// A host without scopes and listeners.
pub open spec fn silent_host(tree: ScopeTree, hub: EventHub) -> bool {
    &&& unused(tree)
    &&& hub_sound(hub@, tree@)
    &&& hub@.listeners.len() == 0
    &&& hub@.claimed.len() == 0
    &&& hub.next_listener < u64::MAX - 8
}

/// A view that is bound to nothing.
pub open spec fn unbound() -> FilterModel {
    FilterModel { context: None, realm: None }
}

/// A lasting listener of the catalog.
pub open spec fn catalog_listener(
    event: Seq<char>,
    token: u64,
    owner: usize,
    filter: FilterModel,
    kind: ListenerKind,
) -> ListenerModel {
    ListenerModel {
        event,
        token,
        owner: Scope { index: owner },
        filter: Some(filter),
        once: false,
        kind,
        expects: dynamic_payload(),
    }
}

/// Listeners of the first scope, with these numbers.
pub open spec fn catalog_listeners(event: Seq<char>, tokens: Seq<u64>, kind: ListenerKind) -> Seq<
    ListenerModel,
> {
    Seq::new(tokens.len(), |i: int| catalog_listener(event, tokens[i], 0, unbound(), kind))
}

/// The numbers from `first` on.
pub open spec fn numbers(first: u64, count: nat) -> Seq<u64> {
    Seq::new(count, |i: int| (first + i) as u64)
}

/// A hub after `made` registrations that left these listeners, and one
/// dispatch that took no time.
pub open spec fn dispatched(
    hub: HubModel,
    made: int,
    listeners: Seq<ListenerModel>,
    event: Seq<char>,
    mode: DispatchMode,
    listener_count: nat,
    outcome: DispatchOutcome,
) -> HubModel {
    HubModel {
        listeners,
        next_listener: (hub.next_listener + made) as u64,
        diagnostics: hub.diagnostics.push(
            DiagnosticModel { event, mode, listener_count, duration_nanos: 0, outcome },
        ),
        ..hub
    }
}

/// The order in which two listeners are called, and the one in front of them,
/// if there is one.
pub open spec fn calling_order(first: u64, prepend: bool) -> Seq<u64> {
    if prepend {
        seq![(first + 2) as u64, first, (first + 1) as u64]
    } else {
        seq![first, (first + 1) as u64]
    }
}

/// Listeners are called in the order of their registration, those in front
/// first. Gives the listeners that were called, in order.
fn keeps_order(
    tree: &mut ScopeTree,
    hub: &mut EventHub,
    id: &str,
    prepend: bool,
    complaint: &str,
) -> (result: Result<Vec<u64>, String>)
    requires
        silent_host(*old(tree), *old(hub)),
    ensures
        final(tree).wf(),
        states(final(tree)@) == seq![FiberState::Active],
        ({
            let order = calling_order(old(hub).next_listener, prepend);
            &&& final(tree).ids == used(old(tree).ids, 1, order.len() as int, 1)
            &&& final(hub)@ == dispatched(
                old(hub)@,
                order.len() as int,
                catalog_listeners(id@, order, ListenerKind::Sync),
                id@,
                DispatchMode::Emit,
                order.len(),
                DispatchOutcome::Completed,
            )
            &&& match result {
                Ok(called) => called@ == order,
                Err(_) => false,
            }
        }),
{
    let scope = Scope::root(tree);
    let bus = EventBus::new();
    let ordinary = EventOptions { prepend: false, global: false };
    let ghost filter = bus.filter@;
    let ghost none = hub@.listeners;
    let first = match listen(&bus, hub, tree, scope, id, ordinary, ListenerKind::Sync) {
        Ok(handle) => handle.token,
        Err(message) => return Err(message),
    };
    let ghost one = hub@.listeners;
    let second = match listen(&bus, hub, tree, scope, id, ordinary, ListenerKind::Sync) {
        Ok(handle) => handle.token,
        Err(message) => return Err(message),
    };
    let ghost two = hub@.listeners;
    let mut expected: Vec<u64> = Vec::new();
    if prepend {
        let front = EventOptions { prepend: true, global: false };
        match listen(&bus, hub, tree, scope, id, front, ListenerKind::Sync) {
            Ok(handle) => expected.push(handle.token),
            Err(message) => return Err(message),
        }
    }
    expected.push(first);
    expected.push(second);
    let ghost all = hub@.listeners;
    let replies: Vec<Reply> = Vec::new();
    proof {
        let records = tree@;
        registration_order_is_dispatch_order(none, one.last(), id@, filter, records);
        registration_order_is_dispatch_order(one, two.last(), id@, filter, records);
        assert(one =~= none.push(one.last()));
        assert(two =~= one.push(two.last()));
        assert(audience(two, id@, filter, records) =~= seq![one.last(), two.last()]);
        if prepend {
            registration_order_is_dispatch_order(two, all[0], id@, filter, records);
            assert(all =~= seq![all[0]] + two);
            assert(audience(all, id@, filter, records) =~= seq![all[0], one.last(), two.last()]);
        }
        reveal_with_fuel(course, 4);
        reveal_with_fuel(reply_from, 1);
        assert(expected@ =~= calling_order(old(hub).next_listener, prepend));
        assert(all =~= catalog_listeners(id@, expected@, ListenerKind::Sync));
        assert(states(records) =~= seq![FiberState::Active]);
    }
    let done = bus.emit(hub, tree, id, DYNAMIC_EVENT, &replies, 0);
    assert(done.called@ =~= expected@);
    if let Err(error) = done.result {
        return Err(error.message());
    }
    if !same_tokens(&done.called, &expected) {
        return Err(complaint.to_owned());
    }
    Ok(done.called)
}

fn same_tokens(left: &Vec<u64>, right: &Vec<u64>) -> (result: bool)
    ensures
        result == (left@ == right@),
{
    if left.len() != right.len() {
        return false;
    }
    let mut i: usize = 0;
    while i < left.len()
        invariant
            i <= left@.len() == right@.len(),
            forall|k: int| 0 <= k < i ==> left@[k] == right@[k],
        decreases left@.len() - i,
    {
        if left[i] != right[i] {
            assert(left@[i as int] != right@[i as int]);
            return false;
        }
        i += 1;
    }
    assert(left@ =~= right@);
    true
}

/// Registers `count` listeners without a name to tell them apart, and gives
/// their tokens.
fn listen_all(
    bus: &EventBus,
    hub: &mut EventHub,
    tree: &mut ScopeTree,
    scope: Scope,
    event: &str,
    kind: ListenerKind,
    count: u64,
) -> (result: Result<Vec<u64>, String>)
    requires
        old(tree).wf(),
        hub_sound(old(hub)@, old(tree)@),
        scope.in_tree(old(tree)@),
        old(tree)@[scope.index as int].state == FiberState::Active,
        old(hub)@.listeners.len() == 0,
        old(hub).next_listener + count <= u64::MAX,
        old(tree).ids.resource + count <= u64::MAX,
    ensures
        final(tree).wf(),
        hub_sound(final(hub)@, final(tree)@),
        final(tree)@.len() == old(tree)@.len(),
        forall|j: int|
            0 <= j < old(tree)@.len() ==> (#[trigger] final(tree)@[j]).state
                == old(tree)@[j].state,
        final(tree).ids == used(old(tree).ids, 0, count as int, 0),
        final(hub)@ == (HubModel {
            listeners: final(hub)@.listeners,
            next_listener: (old(hub).next_listener + count) as u64,
            ..old(hub)@
        }),
        match result {
            Ok(tokens) => {
                let heard_now = audience(
                    final(hub)@.listeners,
                    event@,
                    bus.filter@,
                    final(tree)@,
                );
                &&& tokens@.len() == count
                &&& heard_now.len() == count
                &&& final(hub)@.listeners == heard_now
                &&& forall|i: int|
                    0 <= i < count ==> {
                        &&& #[trigger] tokens@[i] == old(hub).next_listener + i
                        &&& heard_now[i] == (ListenerModel {
                            event: event@,
                            token: tokens@[i],
                            owner: scope,
                            filter: Some(bus.filter@),
                            once: false,
                            kind,
                            expects: dynamic_payload(),
                        })
                    }
            },
            Err(_) => false,
        },
{
    let ordinary = EventOptions { prepend: false, global: false };
    let mut tokens: Vec<u64> = Vec::new();
    let mut i: u64 = 0;
    assert(audience(hub@.listeners, event@, bus.filter@, tree@) =~= hub@.listeners);
    while i < count
        invariant
            tree.wf(),
            hub_sound(hub@, tree@),
            tree@.len() == old(tree)@.len(),
            scope.in_tree(tree@),
            tree@[scope.index as int].state == FiberState::Active,
            forall|j: int|
                0 <= j < old(tree)@.len() ==> (#[trigger] tree@[j]).state == old(tree)@[j].state,
            hub@ == (HubModel {
                listeners: hub@.listeners,
                next_listener: (old(hub).next_listener + i) as u64,
                ..old(hub)@
            }),
            ordinary == (EventOptions { prepend: false, global: false }),
            i <= count,
            old(hub).next_listener + count <= u64::MAX,
            old(tree).ids.resource + count <= u64::MAX,
            tree.ids == used(old(tree).ids, 0, i as int, 0),
            tokens@.len() == i,
            hub@.listeners.len() == i,
            hub@.listeners == audience(hub@.listeners, event@, bus.filter@, tree@),
            forall|k: int|
                0 <= k < i ==> {
                    &&& #[trigger] tokens@[k] == old(hub).next_listener + k
                    &&& hub@.listeners[k] == (ListenerModel {
                        event: event@,
                        token: tokens@[k],
                        owner: scope,
                        filter: Some(bus.filter@),
                        once: false,
                        kind,
                        expects: dynamic_payload(),
                    })
                },
        decreases count - i,
    {
        let ghost before = hub@.listeners;
        let ghost records = tree@;
        match listen(bus, hub, tree, scope, event, ordinary, kind) {
            Ok(handle) => tokens.push(handle.token),
            Err(message) => return Err(message),
        }
        proof {
            let added = hub@.listeners.last();
            assert(hub@.listeners =~= before.push(added));
            registration_order_is_dispatch_order(before, added, event@, bus.filter@, tree@);
            unchanged_owners_are_heard(before, event@, bus.filter@, records, tree@);
        }
        i += 1;
    }
    Ok(tokens)
}

/// What is heard depends only on the states of scopes.
pub proof fn unchanged_owners_are_heard(
    listeners: Seq<ListenerModel>,
    event: Seq<char>,
    filter: FilterModel,
    before: Seq<RecordModel>,
    after: Seq<RecordModel>,
)
    requires
        before.len() == after.len(),
        forall|i: int| 0 <= i < before.len() ==> (#[trigger] after[i]).state == before[i].state,
        forall|i: int|
            0 <= i < listeners.len() ==> (#[trigger] listeners[i]).owner.in_tree(before),
    ensures
        audience(listeners, event, filter, after) == audience(listeners, event, filter, before),
    decreases listeners.len(),
{
    if listeners.len() > 0 {
        let shorter = listeners.drop_last();
        assert forall|i: int| 0 <= i < shorter.len() implies (
        #[trigger] shorter[i]).owner.in_tree(before) by {
            assert(shorter[i] == listeners[i]);
        }
        unchanged_owners_are_heard(shorter, event, filter, before, after);
        assert(listeners[listeners.len() - 1].owner.in_tree(before));
        assert(after[listeners.last().owner.index as int].state
            == before[listeners.last().owner.index as int].state);
    }
}

/// The failure of two listeners.
pub open spec fn two_failures() -> CoreFailure {
    let failure = CoreFailure::SetupFailed("parallel listener failed"@);
    CoreFailure::Cleanup(seq![failure, failure])
}

/// A dispatch to all listeners at once tells every failure. Gives the
/// listeners that were called, in order, and the failure.
fn gathers_failures(tree: &mut ScopeTree, hub: &mut EventHub, id: &str) -> (result: Result<
    (Vec<u64>, CoreError),
    String,
>)
    requires
        silent_host(*old(tree), *old(hub)),
    ensures
        final(tree).wf(),
        states(final(tree)@) == seq![FiberState::Active],
        final(tree).ids == used(old(tree).ids, 1, 3, 1),
        ({
            let all = numbers(old(hub).next_listener, 3);
            &&& final(hub)@ == dispatched(
                old(hub)@,
                3,
                catalog_listeners(id@, all, ListenerKind::Async),
                id@,
                DispatchMode::Parallel,
                3,
                DispatchOutcome::Failed { errors: 2 },
            )
            &&& match result {
                Ok((called, error)) => called@ == all && error@ == two_failures(),
                Err(_) => false,
            }
        }),
{
    let scope = Scope::root(tree);
    let bus = EventBus::new();
    let tokens = match listen_all(&bus, hub, tree, scope, id, ListenerKind::Async, 3) {
        Ok(tokens) => tokens,
        Err(message) => return Err(message),
    };
    let mut replies: Vec<Reply> = Vec::new();
    replies.push(
        Reply {
            token: tokens[0],
            result: Err(CoreError::SetupFailed("parallel listener failed".to_owned())),
        },
    );
    replies.push(
        Reply { token: tokens[1], result: Ok(JsonValue::String("settled".to_owned())) },
    );
    replies.push(
        Reply {
            token: tokens[2],
            result: Err(CoreError::SetupFailed("parallel listener failed".to_owned())),
        },
    );
    let ghost all = numbers(old(hub).next_listener, 3);
    proof {
        let listeners = audience(hub@.listeners, id@, bus.filter@, tree@);
        reveal_with_fuel(planned, 4);
        let whole = planned(hub@, listeners, 0, id@, DYNAMIC_EVENT);
        assert(tokens@ =~= all);
        assert(hub@.listeners =~= catalog_listeners(id@, all, ListenerKind::Async)) by {
            assert(tokens@[0] == all[0] && tokens@[1] == all[1] && tokens@[2] == all[2]);
        }
        assert(whole.turns =~= seq![
            turn_at(listeners, 0, id@, DYNAMIC_EVENT),
            turn_at(listeners, 1, id@, DYNAMIC_EVENT),
            turn_at(listeners, 2, id@, DYNAMIC_EVENT),
        ]);
        reveal_with_fuel(reply_from, 4);
        let answers = answers_in(whole.turns, listeners, replies@);
        assert(answers[0] is Err && answers[1] is Ok && answers[2] is Err);
        three_answers(answers);
        three_calls(whole.turns, listeners);
        assert(called_in(whole.turns, listeners) =~= all);
        assert(states(tree@) =~= seq![FiberState::Active]);
    }
    let done = bus.parallel(hub, tree, id, DYNAMIC_EVENT, &replies, 0);
    let error = match done.result {
        Err(error) => error,
        Ok(_) => return Err("a dispatch hid the failures of its listeners".to_owned()),
    };
    let failures = match error.cleanup_errors() {
        Some(errors) => {
            assert(crate::error::failure_list(errors@).len() == errors@.len());
            errors.len()
        },
        None => 0,
    };
    if failures != 2 || done.called.len() != 3 {
        return Err("parallel dispatch did not aggregate every failure".to_owned());
    }
    Ok((done.called, error))
}

proof fn three_answers(answers: Seq<Result<Json, CoreFailure>>)
    requires
        answers.len() == 3,
        answers[0] is Err,
        answers[1] is Ok,
        answers[2] is Err,
    ensures
        failures_in(answers) == seq![answers[0]->Err_0, answers[2]->Err_0],
{
    reveal_with_fuel(failures_in, 4);
    let two = answers.drop_last();
    let one = two.drop_last();
    assert(one.drop_last() =~= Seq::empty());
    assert(failures_in(one) =~= seq![answers[0]->Err_0]);
    assert(failures_in(two) =~= seq![answers[0]->Err_0]);
    assert(failures_in(answers) =~= seq![answers[0]->Err_0, answers[2]->Err_0]);
}

proof fn three_calls(turns: Seq<TurnModel>, listeners: Seq<ListenerModel>)
    requires
        turns.len() == 3,
        forall|i: int| 0 <= i < 3 ==> #[trigger] turns[i] == TurnModel::Call(i),
    ensures
        called_in(turns, listeners) == seq![
            listeners[0].token,
            listeners[1].token,
            listeners[2].token,
        ],
{
    reveal_with_fuel(called_in, 4);
    let two = turns.drop_last();
    let one = two.drop_last();
    assert(one.drop_last() =~= Seq::empty());
    assert(turns.last() == turns[2] && two.last() == turns[1] && one.last() == turns[0]);
    assert(called_in(one, listeners) =~= seq![listeners[0].token]);
    assert(called_in(two, listeners) =~= seq![listeners[0].token, listeners[1].token]);
}

/// A dispatch that looks for a value stops at the first effective one. Gives
/// the listeners that were called, in order, and the value.
fn stops_at_a_value(
    tree: &mut ScopeTree,
    hub: &mut EventHub,
    id: &str,
    serial: bool,
    complaint: &str,
) -> (result: Result<(Vec<u64>, JsonValue), String>)
    requires
        silent_host(*old(tree), *old(hub)),
    ensures
        final(tree).wf(),
        states(final(tree)@) == seq![FiberState::Active],
        final(tree).ids == used(old(tree).ids, 1, 4, 1),
        final(hub)@ == dispatched(
            old(hub)@,
            4,
            catalog_listeners(
                id@,
                numbers(old(hub).next_listener, 4),
                if serial {
                    ListenerKind::Async
                } else {
                    ListenerKind::Sync
                },
            ),
            id@,
            if serial {
                DispatchMode::Serial
            } else {
                DispatchMode::Bail
            },
            4,
            DispatchOutcome::Bailed,
        ),
        match result {
            Ok((called, value)) => {
                &&& called@ == numbers(old(hub).next_listener, 3)
                &&& value@ == Json::String("stop"@)
            },
            Err(_) => false,
        },
{
    let scope = Scope::root(tree);
    let bus = EventBus::new();
    let kind = if serial {
        ListenerKind::Async
    } else {
        ListenerKind::Sync
    };
    let tokens = match listen_all(&bus, hub, tree, scope, id, kind, 4) {
        Ok(tokens) => tokens,
        Err(message) => return Err(message),
    };
    let mut replies: Vec<Reply> = Vec::new();
    replies.push(Reply { token: tokens[0], result: Ok(JsonValue::Null) });
    replies.push(Reply { token: tokens[1], result: Ok(JsonValue::Bool(false)) });
    replies.push(Reply { token: tokens[2], result: Ok(JsonValue::String("stop".to_owned())) });
    replies.push(Reply { token: tokens[3], result: Ok(JsonValue::String("late".to_owned())) });
    let mut expected: Vec<u64> = Vec::new();
    expected.push(tokens[0]);
    expected.push(tokens[1]);
    expected.push(tokens[2]);
    proof {
        let all = numbers(old(hub).next_listener, 4);
        assert(tokens@ =~= all);
        assert(tokens@[0] == all[0] && tokens@[1] == all[1] && tokens@[2] == all[2] && tokens@[3]
            == all[3]);
        assert(hub@.listeners =~= catalog_listeners(id@, all, kind));
        assert(expected@ =~= numbers(old(hub).next_listener, 3));
        assert(states(tree@) =~= seq![FiberState::Active]);
        reveal_with_fuel(course, 5);
        reveal_with_fuel(reply_from, 5);
    }
    let done = if serial {
        bus.serial(hub, tree, id, DYNAMIC_EVENT, &replies, 0)
    } else {
        bus.bail(hub, tree, id, DYNAMIC_EVENT, &replies, 0)
    };
    assert(done.called@ =~= expected@);
    let value = match done.result {
        Ok(Some(value)) => value,
        Ok(None) => return Err(complaint.to_owned()),
        Err(error) => return Err(error.message()),
    };
    let stopped = match value.as_str() {
        Some(text) => same_text(text, "stop"),
        None => false,
    };
    if !stopped || !same_tokens(&done.called, &expected) {
        return Err(complaint.to_owned());
    }
    Ok((done.called, value))
}

/// What a waterfall of two listeners makes of a value.
#[derive(Clone, Copy, Debug, PartialEq, Eq, Structural)]
enum Flow {
    /// The first hands a new value on and gives back what it gets.
    Next,
    /// The first answers itself.
    Veto,
    /// The first hands a new value on and wraps what it gets.
    Wrap,
}

/// What such a waterfall gives for a value.
spec fn flow_answer(flow: Flow, value: Json) -> Json {
    match flow {
        Flow::Next => Json::Object(seq![("next"@, value)]),
        Flow::Veto => Json::Object(seq![("veto"@, value)]),
        Flow::Wrap => Json::Object(
            seq![
                (
                    "outer"@,
                    Json::Object(seq![("terminal"@, Json::Object(seq![("inner"@, value)]))]),
                ),
            ],
        ),
    }
}

/// Runs a waterfall of two listeners, and gives its value and how often the
/// second one was called.
fn flows(id: &str, flow: Flow, value: JsonValue) -> (result: Result<(JsonValue, u64), String>)
    ensures
        match result {
            Ok((answer, downstream)) => {
                &&& answer@ == flow_answer(flow, value@)
                &&& downstream == (if flow == Flow::Veto {
                    0u64
                } else {
                    1u64
                })
            },
            Err(_) => false,
        },
{
    let mut tree = ScopeTree::new();
    let scope = Scope::root(&mut tree);
    let mut hub = EventHub::new();
    let bus = EventBus::new();
    let tokens = match listen_all(
        &bus,
        &mut hub,
        &mut tree,
        scope,
        id,
        ListenerKind::Waterfall,
        2,
    ) {
        Ok(tokens) => tokens,
        Err(message) => return Err(message),
    };
    assert(tokens@[0] == 1 && tokens@[1] == 2);
    let listeners = bus.snapshot(&hub, &tree, id);
    let mut next = match waterfall_at(&mut hub, &listeners, 0, id, DYNAMIC_EVENT) {
        WaterfallStep::Call(_, next) => next,
        WaterfallStep::Finished(_) => return Err("a waterfall skipped its listener".to_owned()),
    };
    let handed = match flow {
        Flow::Veto => return Ok((single("veto", value), 0)),
        Flow::Next => single("next", value),
        Flow::Wrap => single("inner", value),
    };
    let start = match next.next() {
        Ok(start) => start,
        Err(error) => return Err(error.message()),
    };
    match waterfall_at(&mut hub, &listeners, start, id, DYNAMIC_EVENT) {
        WaterfallStep::Call(_, _) => {},
        WaterfallStep::Finished(_) => return Err("a waterfall ended too early".to_owned()),
    }
    match flow {
        Flow::Wrap => Ok((single("outer", single("terminal", handed)), 1)),
        _ => Ok((handed, 1)),
    }
}

/// A listener can hand a value on, answer itself, or wrap the answer. Gives
/// the answer of the waterfall.
fn flows_as_asked(id: &str, flow: Flow, complaint: &str) -> (result: Result<JsonValue, String>)
    ensures
        match result {
            Ok(answer) => answer@ == flow_answer(
                flow,
                Json::String(
                    if flow == Flow::Veto {
                        "blocked"@
                    } else {
                        "start"@
                    },
                ),
            ),
            Err(_) => false,
        },
{
    let input = match flow {
        Flow::Veto => "blocked",
        _ => "start",
    };
    let (answer, downstream) = match flows(id, flow, text(input)) {
        Ok(pair) => pair,
        Err(message) => return Err(message),
    };
    let (expected, calls) = match flow {
        Flow::Next => (single("next", text("start")), 1u64),
        Flow::Veto => (single("veto", text("blocked")), 0u64),
        Flow::Wrap => (
            single("outer", single("terminal", single("inner", text("start")))),
            1u64,
        ),
    };
    proof {
        values_equal_themselves(expected@);
    }
    if !values_equal(&answer, &expected) || downstream != calls {
        return Err(complaint.to_owned());
    }
    Ok(answer)
}

/// A view that is bound to the context of a scope.
pub open spec fn bound(scope: int) -> FilterModel {
    FilterModel { context: Some(ScopeId(scope as u64)), realm: None }
}

/// A listener of one context is not called from another. Gives the listeners
/// that were called, in order.
fn filters_contexts(tree: &mut ScopeTree, hub: &mut EventHub, id: &str) -> (result: Result<
    Vec<u64>,
    String,
>)
    requires
        silent_host(*old(tree), *old(hub)),
    ensures
        final(tree).wf(),
        states(final(tree)@) == seq![FiberState::Active, FiberState::Active],
        final(tree).ids == used(old(tree).ids, 2, 2, 2),
        ({
            let first = old(hub).next_listener;
            let second = (first + 1) as u64;
            let scope = old(tree).ids.scope;
            &&& final(hub)@ == dispatched(
                old(hub)@,
                2,
                seq![
                    catalog_listener(id@, first, 0, bound(scope as int), ListenerKind::Sync),
                    catalog_listener(id@, second, 1, bound(scope + 1), ListenerKind::Sync),
                ],
                id@,
                DispatchMode::Emit,
                1,
                DispatchOutcome::Completed,
            )
            &&& match result {
                Ok(called) => called@ == seq![first],
                Err(_) => false,
            }
        }),
{
    let alpha_scope = Scope::root(tree);
    let beta_scope = Scope::root(tree);
    let bus = EventBus::new();
    let alpha = bus.in_context(tree, alpha_scope);
    let beta = bus.in_context(tree, beta_scope);
    let ordinary = EventOptions { prepend: false, global: false };
    let ghost none = hub@.listeners;
    assert(tree@[0].id != tree@[1].id);
    let first = match listen(&alpha, hub, tree, alpha_scope, id, ordinary, ListenerKind::Sync) {
        Ok(handle) => handle.token,
        Err(message) => return Err(message),
    };
    let ghost one = hub@.listeners;
    if let Err(message) = listen(
        &beta,
        hub,
        tree,
        beta_scope,
        id,
        ordinary,
        ListenerKind::Sync,
    ) {
        return Err(message);
    }
    let ghost two = hub@.listeners;
    let mut expected: Vec<u64> = Vec::new();
    expected.push(first);
    let replies: Vec<Reply> = Vec::new();
    proof {
        let filter = alpha.filter@;
        registration_order_is_dispatch_order(none, one.last(), id@, filter, tree@);
        registration_order_is_dispatch_order(one, two.last(), id@, filter, tree@);
        assert(one =~= none.push(one.last()));
        assert(two =~= one.push(two.last()));
        assert(beta.filter@ != alpha.filter@);
        assert(audience(two, id@, filter, tree@) =~= seq![one.last()]);
        reveal_with_fuel(course, 2);
        assert(two =~= seq![one.last(), two.last()]);
        assert(states(tree@) =~= seq![FiberState::Active, FiberState::Active]);
    }
    let done = alpha.emit(hub, tree, id, DYNAMIC_EVENT, &replies, 0);
    assert(done.called@ =~= expected@);
    if let Err(error) = done.result {
        return Err(error.message());
    }
    if !same_tokens(&done.called, &expected) {
        return Err("scoped event filter dispatched another context's listener".to_owned());
    }
    Ok(done.called)
}

/// A listener that removes itself is not called again. Gives the listeners
/// that were called by two dispatches, in order.
fn removes_itself(tree: &mut ScopeTree, hub: &mut EventHub, id: &str) -> (result: Result<
    Vec<u64>,
    String,
>)
    requires
        silent_host(*old(tree), *old(hub)),
    ensures
        final(tree).wf(),
        states(final(tree)@) == seq![FiberState::Active],
        final(tree).ids == used(old(tree).ids, 1, 1, 1),
        final(hub)@ == dispatched(
            old(hub)@,
            1,
            Seq::empty(),
            id@,
            DispatchMode::Emit,
            0,
            DispatchOutcome::Completed,
        ),
        match result {
            Ok(called) => called@ == seq![old(hub).next_listener],
            Err(_) => false,
        },
{
    let scope = Scope::root(tree);
    let bus = EventBus::new();
    let ordinary = EventOptions { prepend: false, global: false };
    let handle = match listen(&bus, hub, tree, scope, id, ordinary, ListenerKind::Sync) {
        Ok(handle) => handle,
        Err(message) => return Err(message),
    };
    let ghost listener = hub@.listeners[0];
    proof {
        assert(hub@.listeners =~= seq![listener]);
        assert(seq![listener].drop_last() =~= Seq::empty());
        reveal_with_fuel(audience, 2);
        reveal_with_fuel(without_token, 2);
        assert(audience(hub@.listeners, id@, bus.filter@, tree@) =~= seq![listener]);
        assert(without_token(hub@.listeners, id@, handle.token) =~= Seq::empty());
        assert(states(tree@) =~= seq![FiberState::Active]);
    }
    let listeners = bus.snapshot(hub, tree, id);
    let mut called: Vec<u64> = Vec::new();
    match take_turn(hub, &listeners, 0, DispatchMode::Emit, id, DYNAMIC_EVENT) {
        Turn::Call(at) => {
            if !handle.remove(hub) {
                return Err("listener could not remove itself".to_owned());
            }
            called.push(listeners[at].token);
        },
        _ => return Err("a dispatch skipped its listener".to_owned()),
    }
    let replies: Vec<Reply> = Vec::new();
    assert(audience(hub@.listeners, id@, bus.filter@, tree@) =~= Seq::empty());
    let again = bus.emit(hub, tree, id, DYNAMIC_EVENT, &replies, 0);
    if let Err(error) = again.result {
        return Err(error.message());
    }
    let mut later = again.called;
    called.append(&mut later);
    assert(called@ =~= seq![old(hub).next_listener]);
    if called.len() != 1 {
        return Err("self-removing listener remained dispatchable".to_owned());
    }
    Ok(called)
}

/// A dispatch under way keeps its listeners though their owner is disposed;
/// the next one has none. Gives the listeners that the first one called, in
/// order.
fn outlives_its_owner(tree: &mut ScopeTree, hub: &mut EventHub, id: &str) -> (result: Result<
    Vec<u64>,
    String,
>)
    requires
        silent_host(*old(tree), *old(hub)),
    ensures
        final(tree).wf(),
        states(final(tree)@) == seq![FiberState::Disposed],
        final(tree).ids == used(old(tree).ids, 1, 2, 1),
        final(hub)@ == dispatched(
            old(hub)@,
            2,
            Seq::empty(),
            id@,
            DispatchMode::Serial,
            0,
            DispatchOutcome::Completed,
        ),
        match result {
            Ok(called) => called@ == numbers(old(hub).next_listener, 2),
            Err(_) => false,
        },
{
    let owner = Scope::root(tree);
    let bus = EventBus::new();
    let tokens = match listen_all(&bus, hub, tree, owner, id, ListenerKind::Async, 2) {
        Ok(tokens) => tokens,
        Err(message) => return Err(message),
    };
    let ghost all = hub@.listeners;
    let listeners = bus.snapshot(hub, tree, id);
    assert(all[0].token == tokens@[0] && all[1].token == tokens@[1]);
    let mut called: Vec<u64> = Vec::new();
    match take_turn(hub, &listeners, 0, DispatchMode::Serial, id, DYNAMIC_EVENT) {
        Turn::Call(at) => called.push(listeners[at].token),
        _ => return Err("a dispatch skipped its listener".to_owned()),
    }
    if let Err(message) = dispose_all(tree, owner) {
        return Err(message);
    }
    hub.remove_listener(id, tokens[0]);
    hub.remove_listener(id, tokens[1]);
    proof {
        reveal_with_fuel(without_token, 3);
        assert(all =~= seq![all[0], all[1]]);
        assert(all.drop_last() =~= seq![all[0]]);
        assert(seq![all[0]].drop_last() =~= Seq::empty());
        let left = without_token(all, id@, tokens@[0]);
        assert(left =~= seq![all[1]]);
        assert(left.drop_last() =~= Seq::empty());
        assert(without_token(left, id@, tokens@[1]) =~= Seq::empty());
        assert(states(tree@) =~= seq![FiberState::Disposed]);
    }
    match take_turn(hub, &listeners, 1, DispatchMode::Serial, id, DYNAMIC_EVENT) {
        Turn::Call(at) => called.push(listeners[at].token),
        _ => return Err("owner disposal mutated the current dispatch snapshot".to_owned()),
    }
    let replies: Vec<Reply> = Vec::new();
    assert(audience(hub@.listeners, id@, bus.filter@, tree@) =~= Seq::empty());
    let again = bus.serial(hub, tree, id, DYNAMIC_EVENT, &replies, 0);
    if let Err(error) = again.result {
        return Err(error.message());
    }
    if again.called.len() != 0 {
        return Err("owner disposal left listeners dispatchable".to_owned());
    }
    assert(called@ =~= numbers(old(hub).next_listener, 2));
    Ok(called)
}

/// The event scenarios.
pub open spec fn is_event_case(id: Seq<char>) -> bool {
    id == "emit-ordering"@ || id == "parallel-aggregate"@ || id == "serial-bail"@ || id
        == "sync-bail"@ || id == "waterfall-next"@ || id == "waterfall-short-circuit"@ || id
        == "waterfall-wrap"@ || id == "prepend"@ || id == "scoped-filter"@ || id
        == "listener-self-removal"@ || id == "owner-disposal-during-dispatch"@
}

/// Runs an event scenario. All of them pass.
pub fn events_case(id: &str) -> (result: Result<(), String>)
    ensures
        match result {
            Ok(()) => is_event_case(id@),
            Err(message) => !is_event_case(id@) && message@ == "unsupported event catalog case "@
                + quoted_text(id@),
        },
{
    let mut tree = ScopeTree::new();
    let mut hub = EventHub::new();
    if same_text(id, "emit-ordering") {
        verdict(
            keeps_order(
                &mut tree,
                &mut hub,
                id,
                false,
                "emit did not preserve listener order",
            ),
        )
    } else if same_text(id, "parallel-aggregate") {
        verdict(gathers_failures(&mut tree, &mut hub, id))
    } else if same_text(id, "serial-bail") {
        verdict(
            stops_at_a_value(
                &mut tree,
                &mut hub,
                id,
                true,
                "serial-bail did not stop on its first effective value",
            ),
        )
    } else if same_text(id, "sync-bail") {
        verdict(
            stops_at_a_value(
                &mut tree,
                &mut hub,
                id,
                false,
                "sync-bail did not stop on its first effective value",
            ),
        )
    } else if same_text(id, "waterfall-next") {
        verdict(flows_as_asked(id, Flow::Next, "waterfall next did not transform its value"))
    } else if same_text(id, "waterfall-short-circuit") {
        verdict(
            flows_as_asked(
                id,
                Flow::Veto,
                "waterfall short-circuit invoked a downstream listener",
            ),
        )
    } else if same_text(id, "waterfall-wrap") {
        verdict(
            flows_as_asked(
                id,
                Flow::Wrap,
                "waterfall wrapper did not preserve its downstream result",
            ),
        )
    } else if same_text(id, "prepend") {
        verdict(
            keeps_order(
                &mut tree,
                &mut hub,
                id,
                true,
                "prepend did not move its listener ahead of ordinary registrations",
            ),
        )
    } else if same_text(id, "scoped-filter") {
        verdict(filters_contexts(&mut tree, &mut hub, id))
    } else if same_text(id, "listener-self-removal") {
        verdict(removes_itself(&mut tree, &mut hub, id))
    } else if same_text(id, "owner-disposal-during-dispatch") {
        verdict(outlives_its_owner(&mut tree, &mut hub, id))
    } else {
        Err(join2("unsupported event catalog case ", quoted(id).as_str()))
    }
}

}
