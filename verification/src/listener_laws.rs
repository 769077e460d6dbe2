//! What holds of listeners over many calls: a listener that has left does not
//! come back, and it leaves with its owner.

use vstd::prelude::*;

use crate::dispatch::{course, may_turn, next_turn, turned, Reply};
use crate::disposal::{
    disposal_order, disposal_runs_every_effect_once, open_below, owned_below, owns, reaches,
};
use crate::error::CoreError;
use crate::events::{
    audience, without_token, DiagnosticModel, DispatchMode, EventBus, EventHub,
    EventOptions, FilterModel, HubModel, ListenerHandle, ListenerKind, ListenerModel, PayloadModel,
};
use crate::lifecycle::{closed, RecordModel, Scope, ScopeTree};

verus! {

/// A listener for the event is registered under that token.
pub open spec fn listens(listeners: Seq<ListenerModel>, event: Seq<char>, token: u64) -> bool {
    exists|i: int|
        0 <= i < listeners.len() && (#[trigger] listeners[i]).event == event && listeners[i].token
            == token
}

/// Removing a listener changes the list exactly when it was registered; it is
/// gone then, and all others stay.
pub proof fn removal_tells_whether_it_was_there(
    listeners: Seq<ListenerModel>,
    event: Seq<char>,
    token: u64,
)
    ensures
        without_token(listeners, event, token) != listeners <==> listens(listeners, event, token),
        !listens(without_token(listeners, event, token), event, token),
        forall|other: Seq<char>, number: u64|
            !(other == event && number == token) ==> (#[trigger] listens(
                without_token(listeners, event, token),
                other,
                number,
            ) <==> listens(listeners, other, number)),
        without_token(listeners, event, token).len() <= listeners.len(),
    decreases listeners.len(),
{
    if listeners.len() > 0 {
        let shorter = listeners.drop_last();
        let last = listeners.last();
        let rest = without_token(shorter, event, token);
        let kept = without_token(listeners, event, token);
        removal_tells_whether_it_was_there(shorter, event, token);
        assert forall|other: Seq<char>, number: u64| #[trigger]
            listens(listeners, other, number) <==> listens(shorter, other, number) || (last.event
                == other && last.token == number) by {
            if listens(listeners, other, number) {
                let i = choose|i: int|
                    0 <= i < listeners.len() && (#[trigger] listeners[i]).event == other
                        && listeners[i].token == number;
                if i < shorter.len() {
                    assert(shorter[i] == listeners[i]);
                }
            }
            if listens(shorter, other, number) {
                let i = choose|i: int|
                    0 <= i < shorter.len() && (#[trigger] shorter[i]).event == other
                        && shorter[i].token == number;
                assert(listeners[i] == shorter[i]);
            }
            assert(listeners[listeners.len() - 1] == last);
        }
        if last.event == event && last.token == token {
            assert(kept.len() < listeners.len());
            assert forall|other: Seq<char>, number: u64|
                !(other == event && number == token) implies (#[trigger] listens(
                kept,
                other,
                number,
            ) <==> listens(listeners, other, number)) by {
                assert(listens(rest, other, number) <==> listens(shorter, other, number));
            }
        } else {
            assert(kept.drop_last() =~= rest);
            assert forall|other: Seq<char>, number: u64| #[trigger]
                listens(kept, other, number) <==> listens(rest, other, number) || (last.event
                    == other && last.token == number) by {
                if listens(kept, other, number) {
                    let i = choose|i: int|
                        0 <= i < kept.len() && (#[trigger] kept[i]).event == other && kept[i].token
                            == number;
                    if i < rest.len() {
                        assert(rest[i] == kept[i]);
                    }
                }
                if listens(rest, other, number) {
                    let i = choose|i: int|
                        0 <= i < rest.len() && (#[trigger] rest[i]).event == other && rest[i].token
                            == number;
                    assert(kept[i] == rest[i]);
                }
                assert(kept[kept.len() - 1] == last);
            }
            if rest == shorter {
                assert(kept =~= listeners);
            }
            if kept == listeners {
                assert(rest =~= shorter);
            }
        }
    }
}

/// What can happen to an event bus.
pub enum HubChange {
    /// A listener is registered, at the front or at the end.
    Registered(ListenerModel, bool),
    /// A listener is removed, by its handle or with its owner.
    Removed(Seq<char>, u64),
    /// A listener has its turn in a dispatch.
    Turned(ListenerModel),
    /// Observations come or go.
    Observed(Seq<DiagnosticModel>),
}

/// A bus after a change.
pub open spec fn hub_changed(hub: HubModel, change: HubChange) -> HubModel {
    match change {
        HubChange::Registered(listener, prepend) => HubModel {
            listeners: if prepend {
                seq![listener] + hub.listeners
            } else {
                hub.listeners.push(listener)
            },
            next_listener: (hub.next_listener + 1) as u64,
            ..hub
        },
        HubChange::Removed(event, token) => HubModel {
            listeners: without_token(hub.listeners, event, token),
            ..hub
        },
        HubChange::Turned(listener) => turned(hub, listener),
        HubChange::Observed(diagnostics) => HubModel { diagnostics, ..hub },
    }
}

/// The change can happen: a new listener gets the next token.
pub open spec fn hub_can_change(hub: HubModel, change: HubChange) -> bool {
    change matches HubChange::Registered(listener, _) ==> listener.token == hub.next_listener
        && hub.next_listener < u64::MAX
}

/// A bus after the changes `changes[..count]`.
pub open spec fn hub_after(hub: HubModel, changes: Seq<HubChange>, count: nat) -> HubModel
    decreases count,
{
    if count == 0 {
        hub
    } else {
        hub_changed(hub_after(hub, changes, (count - 1) as nat), changes[count - 1])
    }
}

/// The changes can happen one after the other.
pub open spec fn hub_can_follow(hub: HubModel, changes: Seq<HubChange>) -> bool {
    forall|i: nat|
        i < changes.len() ==> hub_can_change(#[trigger] hub_after(hub, changes, i), changes[i as int])
}

proof fn absent_listeners_stay_absent(
    hub: HubModel,
    changes: Seq<HubChange>,
    count: nat,
    event: Seq<char>,
    token: u64,
)
    requires
        hub_can_follow(hub, changes),
        count <= changes.len(),
        token < hub.next_listener,
        !listens(hub.listeners, event, token),
    ensures
        !listens(hub_after(hub, changes, count).listeners, event, token),
        token < hub_after(hub, changes, count).next_listener,
    decreases count,
{
    if count > 0 {
        let before = hub_after(hub, changes, (count - 1) as nat);
        let change = changes[count - 1];
        let after = hub_changed(before, change);
        absent_listeners_stay_absent(hub, changes, (count - 1) as nat, event, token);
        assert(hub_can_change(before, change));
        match change {
            HubChange::Registered(listener, prepend) => {
                let shift: int = if prepend {
                    1
                } else {
                    0
                };
                if listens(after.listeners, event, token) {
                    let i = choose|i: int|
                        0 <= i < after.listeners.len() && (#[trigger] after.listeners[i]).event
                            == event && after.listeners[i].token == token;
                    assert(after.listeners[i] == before.listeners[i - shift]);
                }
            },
            HubChange::Removed(other, number) => {
                removal_tells_whether_it_was_there(before.listeners, other, number);
            },
            HubChange::Turned(listener) => {
                removal_tells_whether_it_was_there(
                    before.listeners,
                    listener.event,
                    listener.token,
                );
            },
            HubChange::Observed(_) => {},
        }
    }
}

/// Removing a listener succeeds once at most: after it was removed, whether by
/// its handle or with its owner, and after a one-time listener had its turn,
/// it is registered no more, whatever happens afterwards, so that removing it
/// changes nothing and no new dispatch calls it.
pub proof fn listeners_leave_once(
    hub: HubModel,
    listener: ListenerModel,
    change: HubChange,
    changes: Seq<HubChange>,
    filter: FilterModel,
    records: Seq<RecordModel>,
)
    requires
        listener.token < hub.next_listener,
        change == HubChange::Removed(listener.event, listener.token) || (change
            == HubChange::Turned(listener) && listener.once && may_turn(listener, hub.claimed)),
        hub_can_follow(hub_changed(hub, change), changes),
    ensures
        ({
            let after = hub_after(hub_changed(hub, change), changes, changes.len());
            &&& !listens(after.listeners, listener.event, listener.token)
            &&& without_token(after.listeners, listener.event, listener.token) == after.listeners
            &&& forall|i: int|
                0 <= i < audience(after.listeners, listener.event, filter, records).len() ==> (
                #[trigger] audience(after.listeners, listener.event, filter, records)[i]).token
                    != listener.token
        }),
{
    let next = hub_changed(hub, change);
    let after = hub_after(next, changes, changes.len());
    removal_tells_whether_it_was_there(hub.listeners, listener.event, listener.token);
    absent_listeners_stay_absent(next, changes, changes.len(), listener.event, listener.token);
    removal_tells_whether_it_was_there(after.listeners, listener.event, listener.token);
    crate::event_laws::removed_listeners_are_silent(
        after.listeners,
        listener.event,
        listener.token,
        filter,
        records,
    );
}

/// A dispatch that began before listeners came or went goes on with those that
/// it began with: the same ones have their turn, and it calls and answers the
/// same. `now` are the listeners that the bus has meanwhile.
pub proof fn dispatches_under_way_keep_their_listeners(
    hub: HubModel,
    now: Seq<ListenerModel>,
    listeners: Seq<ListenerModel>,
    from: int,
    mode: DispatchMode,
    event: Seq<char>,
    payload: u64,
    replies: Seq<Reply>,
)
    ensures
        ({
            let after = HubModel { listeners: now, ..hub };
            let one = course(after, listeners, from, mode, event, payload, replies);
            let two = course(hub, listeners, from, mode, event, payload, replies);
            &&& next_turn(listeners, from, after.claimed) == next_turn(
                listeners,
                from,
                hub.claimed,
            )
            &&& one.called == two.called
            &&& one.result == two.result
        }),
{
    let after = HubModel { listeners: now, ..hub };
    courses_follow_claims(after, hub, listeners, from, mode, event, payload, replies);
}

proof fn courses_follow_claims(
    a: HubModel,
    b: HubModel,
    listeners: Seq<ListenerModel>,
    from: int,
    mode: DispatchMode,
    event: Seq<char>,
    payload: u64,
    replies: Seq<Reply>,
)
    requires
        a.claimed == b.claimed,
    ensures
        ({
            let one = course(a, listeners, from, mode, event, payload, replies);
            let two = course(b, listeners, from, mode, event, payload, replies);
            one.called == two.called && one.result == two.result
        }),
    decreases listeners.len() - from,
{
    if 0 <= from < listeners.len() {
        let listener = listeners[from];
        courses_follow_claims(a, b, listeners, from + 1, mode, event, payload, replies);
        courses_follow_claims(
            turned(a, listener),
            turned(b, listener),
            listeners,
            from + 1,
            mode,
            event,
            payload,
            replies,
        );
    }
}

/// A listener leaves with its owner: registering it gives the owner an effect
/// that disposal of the owner runs exactly once, and that is to remove the
/// listener.
pub proof fn listeners_leave_with_their_owner(
    bus: EventBus,
    hub: EventHub,
    tree: ScopeTree,
    owner: Scope,
    event: Seq<char>,
    options: EventOptions,
    once: bool,
    kind: ListenerKind,
    expects: PayloadModel,
    handle: ListenerHandle,
    hub_then: EventHub,
    tree_then: ScopeTree,
)
    requires
        tree_then.wf(),
        owner.in_tree(tree@),
        open_below(tree_then@, owner.index as int),
        bus.registered(
            hub,
            tree,
            owner,
            event,
            options,
            once,
            kind,
            expects,
            Ok::<ListenerHandle, CoreError>(handle),
            hub_then,
            tree_then,
        ),
    ensures
        listens(hub_then@.listeners, handle.event@, handle.token),
        disposal_order(tree_then@, owner.index as int).contains(handle.id),
        disposal_order(tree_then@, owner.index as int).no_duplicates(),
{
    let at = owner.index as int;
    let records = tree_then@;
    let listener = bus.made(hub@, owner, event, options, once, kind, expects);
    let n = hub@.listeners.len() as int;
    if options.prepend {
        assert(hub_then@.listeners[0] == listener);
    } else {
        assert(hub_then@.listeners[n] == listener);
    }
    disposal_runs_every_effect_once(records, tree_then.ids, owner);
    let effects = records[at].effects;
    assert(effects[effects.len() - 1].id == handle.id);
    assert(owns(records, at, handle.id));
    assert(reaches(records, at, at));
    assert(owned_below(records, at, handle.id));
}

/// A listener whose owner is no longer active is called by no new dispatch,
/// and an owner that is being disposed or was disposed is not active.
pub proof fn listeners_of_others_are_silent(
    listeners: Seq<ListenerModel>,
    event: Seq<char>,
    filter: FilterModel,
    records: Seq<RecordModel>,
    owner: Scope,
)
    requires
        closed(records[owner.index as int].state),
    ensures
        forall|i: int|
            0 <= i < audience(listeners, event, filter, records).len() ==> (#[trigger] audience(
                listeners,
                event,
                filter,
                records,
            )[i]).owner != owner,
    decreases listeners.len(),
{
    if listeners.len() > 0 {
        let shorter = listeners.drop_last();
        listeners_of_others_are_silent(shorter, event, filter, records, owner);
        let rest = audience(shorter, event, filter, records);
        let all = audience(listeners, event, filter, records);
        assert forall|i: int| 0 <= i < all.len() implies (#[trigger] all[i]).owner != owner by {
            if i < rest.len() {
                assert(all[i] == rest[i]);
            }
        }
    }
}

}
