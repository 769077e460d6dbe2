//! The trace of one event that is emitted to the listeners of a fixture.

use vstd::prelude::*;
use vstd::string::*;

use crate::catalog_events::{
    events_case, is_event_case, listen, unchanged_owners_are_heard,
};
use crate::catalog_lifecycle::run_outcome;
use crate::conformance::{
    case_ids, cases_of, chosen_text, event_labels, input_member, input_text, labelled_event,
    listener_labels, Trace,
};
use crate::dispatch::{course, reply_from, Reply};
use crate::dynamic::{dynamic_payload, DYNAMIC_EVENT};
use crate::event_laws::registration_order_is_dispatch_order;
use crate::events::{
    audience, hub_sound, without_token, DispatchMode, EventBus, EventHub, EventOptions, HubModel,
    ListenerHandle, ListenerKind, ListenerModel,
};
use crate::fixture::{bare_event, Fixture, TraceEvent, TraceEventKind, TraceModel};
use crate::json::Json;
use crate::lifecycle::{FiberState, Scope, ScopeTree};
use crate::text::{join2, join3, quoted, quoted_text, same_text, text_list};

verus! {

/// A listener that was called for an emitted event.
pub open spec fn dispatched_event(event: Seq<char>, label: Seq<char>) -> TraceModel {
    TraceModel {
        subject: Some(event),
        label: Some(label),
        phase: Some("emit"@),
        ..bare_event(TraceEventKind::EventDispatched)
    }
}

/// What a fixture's listeners tell: they come in order, are called in order,
/// and go in reverse order.
pub open spec fn emit_events(event: Seq<char>, labels: Seq<Seq<char>>) -> Seq<TraceModel> {
    Seq::new(
        labels.len(),
        |i: int| labelled_event(TraceEventKind::ListenerAdded, event, labels[i]),
    ) + Seq::new(labels.len(), |i: int| dispatched_event(event, labels[i])) + Seq::new(
        labels.len(),
        |i: int|
            labelled_event(TraceEventKind::ListenerRemoved, event, labels[labels.len() - 1 - i]),
    )
}

/// The listener with token `i + 1`.
pub open spec fn numbered(event: Seq<char>, bus: EventBus, scope: Scope, i: int) -> ListenerModel {
    ListenerModel {
        event,
        token: (i + 1) as u64,
        owner: scope,
        filter: Some(bus.filter@),
        once: false,
        kind: ListenerKind::Sync,
        expects: dynamic_payload(),
    }
}

/// The first `count` listeners.
pub open spec fn numbered_list(event: Seq<char>, bus: EventBus, scope: Scope, count: nat) -> Seq<
    ListenerModel,
> {
    Seq::new(count, |i: int| numbered(event, bus, scope, i))
}

/// An event that nobody answers is emitted to every listener.
proof fn everybody_is_called(
    hub: HubModel,
    event: Seq<char>,
    bus: EventBus,
    scope: Scope,
    count: nat,
    from: int,
    replies: Seq<Reply>,
)
    requires
        0 <= from <= count,
        replies.len() == 0,
    ensures
        ({
            let whole = course(
                hub,
                numbered_list(event, bus, scope, count),
                from,
                DispatchMode::Emit,
                event,
                DYNAMIC_EVENT,
                replies,
            );
            &&& whole.hub == hub
            &&& whole.result == Ok::<Option<Json>, crate::error::CoreFailure>(None)
            &&& whole.called == Seq::new((count - from) as nat, |i: int| (from + i + 1) as u64)
        }),
    decreases count - from,
{
    let listeners = numbered_list(event, bus, scope, count);
    let whole = course(
        hub,
        listeners,
        from,
        DispatchMode::Emit,
        event,
        DYNAMIC_EVENT,
        replies,
    );
    if from < count {
        everybody_is_called(hub, event, bus, scope, count, from + 1, replies);
        assert(listeners[from] == numbered(event, bus, scope, from));
        assert(reply_from(replies, listeners[from].token, 0) == Ok::<
            Json,
            crate::error::CoreFailure,
        >(Json::Null));
    }
    assert(whole.called =~= Seq::new((count - from) as nat, |i: int| (from + i + 1) as u64));
}

/// Removing a token that nobody has changes nothing.
proof fn removing_nobody(listeners: Seq<ListenerModel>, event: Seq<char>, token: u64)
    requires
        forall|i: int| 0 <= i < listeners.len() ==> (#[trigger] listeners[i]).token != token,
    ensures
        without_token(listeners, event, token) == listeners,
    decreases listeners.len(),
{
    if listeners.len() > 0 {
        let shorter = listeners.drop_last();
        assert forall|i: int| 0 <= i < shorter.len() implies (#[trigger] shorter[i]).token
            != token by {
            assert(shorter[i] == listeners[i]);
        }
        removing_nobody(shorter, event, token);
        assert(listeners[listeners.len() - 1].token != token);
        assert(shorter.push(listeners.last()) =~= listeners);
    }
}

/// What an event fixture gives once its scenarios have passed.
pub open spec fn emit_run(input: Option<Json>) -> Result<Seq<TraceModel>, Seq<char>> {
    let event = chosen_text(input_member(input, "event"@), "emit"@);
    let labels = listener_labels(input);
    if chosen_text(input_member(input, "mode"@), "emit"@) != "emit"@ {
        Err("emit scenario requires emit mode"@)
    } else if labels.len() >= u64::MAX - 1 {
        Err("too many listeners"@)
    } else {
        Ok(emit_events(event, labels))
    }
}

/// Emits one event to the listeners of a fixture, and records what happens.
pub fn events_trace(fixture: &Fixture) -> (result: Result<Vec<TraceEvent>, String>)
    ensures
        run_outcome(result) == emit_run(fixture@.input),
{
    let mut trace = Trace::new();
    let mut tree = ScopeTree::new();
    let scope = Scope::root(&mut tree);
    let mut hub = EventHub::new();
    let bus = EventBus::new();
    let event = input_text(fixture, "event", "emit");
    let mode = input_text(fixture, "mode", "emit");
    if !same_text(mode.as_str(), "emit") {
        return Err("emit scenario requires emit mode".to_owned());
    }
    let labels = event_labels(fixture);
    let count = labels.len();
    let ghost names = text_list(labels@);
    if count as u64 >= u64::MAX - 1 {
        return Err("too many listeners".to_owned());
    }
    let ordinary = EventOptions { prepend: false, global: false };
    let mut handles: Vec<ListenerHandle> = Vec::new();
    let mut i: usize = 0;
    let ghost whole = emit_events(event@, names);
    proof {
        assert(hub@.listeners =~= numbered_list(event@, bus, scope, 0));
        assert(audience(hub@.listeners, event@, bus.filter@, tree@) =~= hub@.listeners);
        assert(trace@ =~= whole.subrange(0, 0));
    }
    while i < count
        invariant
            tree.wf(),
            hub_sound(hub@, tree@),
            scope.in_tree(tree@),
            tree@[scope.index as int].state == FiberState::Active,
            i <= count == labels@.len(),
            count < u64::MAX - 1,
            names == text_list(labels@),
            ordinary == (EventOptions { prepend: false, global: false }),
            hub.next_listener == i + 1,
            tree.ids.resource == i + 1,
            hub@.claimed.len() == 0,
            hub@.listeners == numbered_list(event@, bus, scope, i as nat),
            audience(hub@.listeners, event@, bus.filter@, tree@) == hub@.listeners,
            handles@.len() == i,
            forall|k: int|
                0 <= k < i ==> (#[trigger] handles@[k]).token == k + 1 && handles@[k].event@
                    == event@,
            whole == emit_events(event@, names),
            trace@ == whole.subrange(0, i as int),
        decreases count - i,
    {
        let ghost before = hub@.listeners;
        let ghost records = tree@;
        let handle = match listen(
            &bus,
            &mut hub,
            &mut tree,
            scope,
            event.as_str(),
            ordinary,
            ListenerKind::Sync,
        ) {
            Ok(handle) => handle,
            Err(message) => return Err(message),
        };
        trace.labelled(TraceEventKind::ListenerAdded, event.as_str(), labels[i].as_str());
        handles.push(handle);
        proof {
            let added = hub@.listeners.last();
            assert(added == numbered(event@, bus, scope, i as int));
            assert(hub@.listeners =~= numbered_list(event@, bus, scope, (i + 1) as nat));
            assert(hub@.listeners =~= before.push(added));
            registration_order_is_dispatch_order(before, added, event@, bus.filter@, tree@);
            unchanged_owners_are_heard(before, event@, bus.filter@, records, tree@);
            assert(trace@ =~= whole.subrange(0, i + 1));
        }
        i += 1;
    }
    let replies: Vec<Reply> = Vec::new();
    let ghost ready = hub@;
    proof {
        everybody_is_called(ready, event@, bus, scope, count as nat, 0, replies@);
    }
    let done = bus.emit(&mut hub, &tree, event.as_str(), DYNAMIC_EVENT, &replies, 0);
    if let Err(error) = done.result {
        return Err(error.message());
    }
    let mut k: usize = 0;
    while k < done.called.len()
        invariant
            k <= done.called@.len() == count,
            count == labels@.len(),
            names == text_list(labels@),
            forall|j: int| 0 <= j < count ==> #[trigger] done.called@[j] == j + 1,
            whole == emit_events(event@, names),
            trace@ == whole.subrange(0, count + k),
        decreases done.called@.len() - k,
    {
        let token = done.called[k];
        assert(done.called@[k as int] == k + 1);
        let mut told = TraceEvent::bare(TraceEventKind::EventDispatched);
        told.subject = Some(event.clone());
        told.label = Some(labels[(token - 1) as usize].clone());
        told.phase = Some("emit".to_owned());
        trace.add(told);
        proof {
            assert(told@ == dispatched_event(event@, names[k as int]));
            assert(trace@ =~= whole.subrange(0, count + k + 1));
        }
        k += 1;
    }
    let mut left: usize = count;
    while left > 0
        invariant
            left <= count == labels@.len(),
            handles@.len() == count,
            names == text_list(labels@),
            forall|j: int|
                0 <= j < count ==> (#[trigger] handles@[j]).token == j + 1 && handles@[j].event@
                    == event@,
            hub@.listeners == numbered_list(event@, bus, scope, left as nat),
            count < u64::MAX - 1,
            emit_run(fixture@.input) == Ok::<Seq<TraceModel>, Seq<char>>(whole),
            whole == emit_events(event@, names),
            trace@ == whole.subrange(0, count + count + (count - left)),
        decreases left,
    {
        let at = left - 1;
        proof {
            let all = hub@.listeners;
            let fewer = numbered_list(event@, bus, scope, at as nat);
            assert(handles@[at as int].token == left);
            assert(all.drop_last() =~= fewer);
            assert(all.last() == numbered(event@, bus, scope, at as int));
            removing_nobody(fewer, event@, left as u64);
            assert(without_token(all, event@, left as u64) == fewer);
            assert(fewer.len() != all.len());
        }
        if !handles[at].remove(&mut hub) {
            let mut message = join2("listener ", quoted(labels[at].as_str()).as_str());
            message.append(" was already removed");
            return Err(message);
        }
        trace.labelled(TraceEventKind::ListenerRemoved, event.as_str(), labels[at].as_str());
        assert(trace@ =~= whole.subrange(0, count + count + (count - left) + 1));
        left = at;
    }
    assert(trace@ =~= whole);
    Ok(trace.events)
}

/// The first of `ids[from..]` that is no event scenario.
pub open spec fn stray_event_case(ids: Seq<Seq<char>>, from: int) -> Option<Seq<char>>
    decreases ids.len() - from,
{
    if from < 0 || from >= ids.len() {
        None
    } else if !is_event_case(ids[from]) {
        Some(ids[from])
    } else {
        stray_event_case(ids, from + 1)
    }
}

/// What an event fixture gives: the trace of an emitted event, once every
/// scenario that it asks for has passed.
pub open spec fn events_run(input: Option<Json>) -> Result<Seq<TraceModel>, Seq<char>> {
    match cases_of(input) {
        Err(message) => Err(message),
        Ok(ids) => match stray_event_case(ids, 0) {
            Some(id) => Err(
                "event catalog case "@ + id + ": "@ + ("unsupported event catalog case "@
                    + quoted_text(id)),
            ),
            None => emit_run(input),
        },
    }
}

/// Runs an event fixture.
pub fn events(fixture: &Fixture) -> (result: Result<Vec<TraceEvent>, String>)
    ensures
        run_outcome(result) == events_run(fixture@.input),
{
    let ids = match case_ids(fixture) {
        Ok(ids) => ids,
        Err(message) => return Err(message),
    };
    let ghost model = text_list(ids@);
    let mut i: usize = 0;
    while i < ids.len()
        invariant
            i <= ids@.len(),
            model == text_list(ids@),
            cases_of(fixture@.input) == Ok::<Seq<Seq<char>>, Seq<char>>(model),
            stray_event_case(model, 0) == stray_event_case(model, i as int),
        decreases ids@.len() - i,
    {
        assert(model[i as int] == ids@[i as int]@);
        match events_case(ids[i].as_str()) {
            Ok(()) => {},
            Err(message) => {
                let mut text = join3("event catalog case ", ids[i].as_str(), ": ");
                text.append(message.as_str());
                return Err(text);
            },
        }
        i += 1;
    }
    events_trace(fixture)
}

}
