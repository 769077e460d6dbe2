//! What the answers of listeners make of a dispatch.

use vstd::prelude::*;

use crate::combine::{answers_in, fall, planned, TurnModel};
use crate::dispatch::{course, may_turn, refusal, reply_from, turned, weighed, Reply, WeighedModel};
use crate::error::CoreFailure;
use crate::event_laws::tokens_differ;
use crate::events::{DispatchMode, HubModel, ListenerKind, ListenerModel};
use crate::json::Json;

verus! {

/// The answer lets a dispatch that looks for a value go on: it is null or
/// false.
pub open spec fn passed_over(answer: Result<Json, CoreFailure>) -> bool {
    answer == Ok::<Json, CoreFailure>(Json::Null) || answer == Ok::<Json, CoreFailure>(
        Json::Bool(false),
    )
}

/// In a dispatch that looks for a value, null and false let it go on, an error
/// ends it as that error, and every other value, true among them, ends it as
/// that value.
pub proof fn answers_decide_unless_null_or_false(mode: DispatchMode, value: Json, failure: CoreFailure)
    requires
        mode == DispatchMode::Bail || mode == DispatchMode::Serial,
    ensures
        weighed(mode, Ok(Json::Null)) == WeighedModel::Continue,
        weighed(mode, Ok(Json::Bool(false))) == WeighedModel::Continue,
        weighed(mode, Ok(Json::Bool(true))) == WeighedModel::Bailed(Json::Bool(true)),
        value !is Null && value !is Bool ==> weighed(mode, Ok(value)) == WeighedModel::Bailed(
            value,
        ),
        weighed(mode, Err(failure)) == WeighedModel::Failed(failure),
{
}

/// The answer of a listener is the first that is listed for it, and null when
/// none is.
pub proof fn replies_are_the_first_listed(replies: Seq<Reply>, token: u64, from: int, at: int)
    requires
        0 <= from,
    ensures
        (forall|i: int| from <= i < replies.len() ==> (#[trigger] replies[i]).token != token)
            ==> reply_from(replies, token, from) == Ok::<Json, CoreFailure>(Json::Null),
        from <= at < replies.len() && replies[at].token == token && (forall|i: int|
            from <= i < at ==> (#[trigger] replies[i]).token != token) ==> reply_from(
            replies,
            token,
            from,
        ) == (match replies[at].result {
            Ok(value) => Ok::<Json, CoreFailure>(value@),
            Err(error) => Err::<Json, CoreFailure>(error@),
        }),
    decreases replies.len() - from,
{
    if from < replies.len() {
        replies_are_the_first_listed(replies, token, from + 1, at);
    }
}

/// Who can take part: synchronous dispatches call synchronous listeners only,
/// a waterfall calls its own kind only, the others call all but that kind; and
/// a listener takes only the payload that it expects.
pub proof fn listeners_take_part_by_kind_and_payload(
    mode: DispatchMode,
    listener: ListenerModel,
    event: Seq<char>,
    payload: u64,
)
    ensures
        refusal(mode, listener, event, payload) is None <==> listener.expects.kind == payload && (
        match listener.kind {
            ListenerKind::Sync => mode != DispatchMode::Waterfall,
            ListenerKind::Async => mode == DispatchMode::Parallel || mode == DispatchMode::Serial,
            ListenerKind::Waterfall => mode == DispatchMode::Waterfall,
        }),
        refusal(mode, listener, event, payload) matches Some(failure) ==> failure
            is AsyncEventListener || failure == (CoreFailure::EventTypeMismatch {
            event,
            expected: listener.expects.name,
        }),
        refusal(mode, listener, event, payload) matches Some(failure) ==> (failure
            is EventTypeMismatch ==> listener.expects.kind != payload),
{
}

/// Who was called in a dispatch that calls one listener after another: the
/// listeners at these places, in order. Whoever stands before the last of them,
/// and before the end of a dispatch that nothing ended, and was not called, had
/// had its one turn before.
pub open spec fn called_at(
    listeners: Seq<ListenerModel>,
    from: int,
    called: Seq<u64>,
    places: Seq<int>,
) -> bool {
    &&& places.len() == called.len()
    &&& forall|i: int|
        0 <= i < places.len() ==> from <= #[trigger] places[i] < listeners.len()
            && listeners[places[i]].token == called[i]
    &&& forall|i: int, j: int|
        0 <= i < j < places.len() ==> #[trigger] places[i] < #[trigger] places[j]
}

/// Nobody who may have a turn is passed by before place `end`.
pub open spec fn nobody_skipped(
    listeners: Seq<ListenerModel>,
    from: int,
    end: int,
    places: Seq<int>,
    claimed: Seq<u64>,
) -> bool {
    forall|k: int|
        from <= k < end && !places.contains(k) ==> (#[trigger] listeners[k]).once
            && claimed.contains(listeners[k].token)
}

/// One more turn at the front keeps that nobody is passed by.
proof fn one_more_turn(
    hub: HubModel,
    listeners: Seq<ListenerModel>,
    from: int,
    end: int,
    inner: Seq<int>,
)
    requires
        0 <= from < listeners.len(),
        end <= listeners.len(),
        tokens_differ(listeners),
        nobody_skipped(
            listeners,
            from + 1,
            end,
            inner,
            turned(hub, listeners[from]).claimed,
        ),
    ensures
        nobody_skipped(listeners, from, end, seq![from] + inner, hub.claimed),
{
    let places = seq![from] + inner;
    let after = turned(hub, listeners[from]);
    assert forall|k: int| from <= k < end && !places.contains(k) implies (
    #[trigger] listeners[k]).once && hub.claimed.contains(listeners[k].token) by {
        if k == from {
            assert(places[0] == from);
        } else {
            if inner.contains(k) {
                let i = choose|i: int| 0 <= i < inner.len() && inner[i] == k;
                assert(places[i + 1] == k);
            }
            assert(after.claimed.contains(listeners[k].token));
            let i = choose|i: int|
                0 <= i < after.claimed.len() && after.claimed[i] == listeners[k].token;
            if i < hub.claimed.len() {
                assert(hub.claimed[i] == listeners[k].token);
            } else {
                assert(listeners[from].token != listeners[k].token);
            }
        }
    }
}

/// A dispatch calls listeners in their order, only those that can take part,
/// and passes nobody by who may have a turn: not before the last one called,
/// and, when nothing ended it, nobody at all.
pub proof fn dispatches_call_everyone_in_order(
    hub: HubModel,
    listeners: Seq<ListenerModel>,
    from: int,
    mode: DispatchMode,
    event: Seq<char>,
    payload: u64,
    replies: Seq<Reply>,
) -> (places: Seq<int>)
    requires
        0 <= from <= listeners.len(),
        tokens_differ(listeners),
    ensures
        ({
            let whole = course(hub, listeners, from, mode, event, payload, replies);
            &&& called_at(listeners, from, whole.called, places)
            &&& forall|i: int|
                0 <= i < places.len() ==> refusal(
                    mode,
                    listeners[#[trigger] places[i]],
                    event,
                    payload,
                ) is None
            &&& places.len() > 0 ==> nobody_skipped(
                listeners,
                from,
                places.last(),
                places,
                hub.claimed,
            )
            &&& whole.result == Ok::<Option<Json>, CoreFailure>(None) ==> nobody_skipped(
                listeners,
                from,
                listeners.len() as int,
                places,
                hub.claimed,
            )
        }),
    decreases listeners.len() - from,
{
    let whole = course(hub, listeners, from, mode, event, payload, replies);
    if from >= listeners.len() {
        Seq::empty()
    } else {
        let listener = listeners[from];
        let after = turned(hub, listener);
        if !may_turn(listener, hub.claimed) {
            dispatches_call_everyone_in_order(
                hub,
                listeners,
                from + 1,
                mode,
                event,
                payload,
                replies,
            )
        } else if refusal(mode, listener, event, payload) is Some {
            Seq::empty()
        } else if weighed(mode, reply_from(replies, listener.token, 0))
            != WeighedModel::Continue {
            seq![from]
        } else {
            let rest = course(after, listeners, from + 1, mode, event, payload, replies);
            let inner = dispatches_call_everyone_in_order(
                after,
                listeners,
                from + 1,
                mode,
                event,
                payload,
                replies,
            );
            let places = seq![from] + inner;
            assert(whole.called =~= seq![listener.token] + rest.called);
            assert forall|i: int| 0 < i < places.len() implies #[trigger] places[i] == inner[i
                - 1] && whole.called[i] == rest.called[i - 1] by {}
            assert forall|i: int, j: int| 0 <= i < j < places.len() implies #[trigger] places[i]
                < #[trigger] places[j] by {
                if i > 0 {
                    assert(inner[i - 1] < inner[j - 1]);
                }
            }
            if inner.len() > 0 {
                assert(places.last() == inner.last());
                one_more_turn(hub, listeners, from, inner.last(), inner);
            }
            if whole.result == Ok::<Option<Json>, CoreFailure>(None) {
                one_more_turn(hub, listeners, from, listeners.len() as int, inner);
            }
            places
        }
    }
}

/// What the answers of those called make of a dispatch. In the modes that look
/// for a value, each but the last called answered null or false, and the
/// dispatch gives a value exactly if the last one answered one that is neither;
/// in the mode that looks for none, it goes on whatever the value. It fails as
/// the last one called did, or as a listener that could not take part.
pub proof fn dispatches_end_at_the_first_answer_that_counts(
    hub: HubModel,
    listeners: Seq<ListenerModel>,
    from: int,
    mode: DispatchMode,
    event: Seq<char>,
    payload: u64,
    replies: Seq<Reply>,
)
    requires
        0 <= from <= listeners.len(),
    ensures
        ({
            let whole = course(hub, listeners, from, mode, event, payload, replies);
            let count = whole.called.len() as int;
            let looks = mode == DispatchMode::Bail || mode == DispatchMode::Serial;
            &&& forall|i: int|
                0 <= i < count - 1 ==> if looks {
                    passed_over(reply_from(replies, #[trigger] whole.called[i], 0))
                } else {
                    reply_from(replies, whole.called[i], 0) is Ok
                }
            &&& match whole.result {
                Ok(Some(value)) => {
                    &&& looks
                    &&& count > 0
                    &&& value != Json::Null
                    &&& value != Json::Bool(false)
                    &&& reply_from(replies, whole.called.last(), 0) == Ok::<Json, CoreFailure>(
                        value,
                    )
                },
                Ok(None) => count > 0 ==> if looks {
                    passed_over(reply_from(replies, whole.called.last(), 0))
                } else {
                    reply_from(replies, whole.called.last(), 0) is Ok
                },
                Err(failure) => {
                    ||| count > 0 && reply_from(replies, whole.called.last(), 0) == Err::<
                        Json,
                        CoreFailure,
                    >(failure)
                    ||| (exists|k: int|
                        from <= k < listeners.len() && refusal(
                            mode,
                            #[trigger] listeners[k],
                            event,
                            payload,
                        ) == Some(failure)) && (count > 0 ==> if looks {
                        passed_over(reply_from(replies, whole.called.last(), 0))
                    } else {
                        reply_from(replies, whole.called.last(), 0) is Ok
                    })
                },
            }
        }),
    decreases listeners.len() - from,
{
    let whole = course(hub, listeners, from, mode, event, payload, replies);
    if from < listeners.len() {
        let listener = listeners[from];
        let after = turned(hub, listener);
        if !may_turn(listener, hub.claimed) {
            dispatches_end_at_the_first_answer_that_counts(
                hub,
                listeners,
                from + 1,
                mode,
                event,
                payload,
                replies,
            );
        } else if refusal(mode, listener, event, payload) is Some {
            assert(refusal(mode, listeners[from], event, payload) == Some(whole.result->Err_0));
        } else if weighed(mode, reply_from(replies, listener.token, 0))
            == WeighedModel::Continue {
            let rest = course(after, listeners, from + 1, mode, event, payload, replies);
            dispatches_end_at_the_first_answer_that_counts(
                after,
                listeners,
                from + 1,
                mode,
                event,
                payload,
                replies,
            );
            assert(whole.called =~= seq![listener.token] + rest.called);
            assert(forall|i: int|
                0 < i < whole.called.len() ==> #[trigger] whole.called[i] == rest.called[i - 1]);
            assert(whole.called[0] == listener.token);
            if rest.called.len() > 0 {
                assert(whole.called.last() == rest.called.last());
            }
        }
    }
}

/// A dispatch that calls its listeners all at once calls each one that may have
/// a turn and can take part, whatever the others answer, and each answer is
/// that listener's own.
pub proof fn parallel_dispatches_call_everyone(
    hub: HubModel,
    listeners: Seq<ListenerModel>,
    from: int,
    event: Seq<char>,
    payload: u64,
    replies: Seq<Reply>,
) -> (places: Seq<int>)
    requires
        0 <= from <= listeners.len(),
        tokens_differ(listeners),
    ensures
        ({
            let turns = planned(hub, listeners, from, event, payload).turns;
            let answers = answers_in(turns, listeners, replies);
            &&& places.len() == turns.len()
            &&& answers.len() == turns.len()
            &&& nobody_skipped(listeners, from, listeners.len() as int, places, hub.claimed)
            &&& forall|i: int, j: int|
                0 <= i < j < places.len() ==> #[trigger] places[i] < #[trigger] places[j]
            &&& forall|i: int|
                0 <= i < places.len() ==> {
                    let listener = listeners[#[trigger] places[i]];
                    &&& from <= places[i] < listeners.len()
                    &&& match refusal(DispatchMode::Parallel, listener, event, payload) {
                        None => turns[i] == TurnModel::Call(places[i]) && answers[i]
                            == reply_from(replies, listener.token, 0),
                        Some(failure) => turns[i] == TurnModel::Refused(places[i], failure)
                            && answers[i] == Err::<Json, CoreFailure>(failure),
                    }
                }
        }),
    decreases listeners.len() - from,
{
    if from >= listeners.len() {
        Seq::empty()
    } else if !may_turn(listeners[from], hub.claimed) {
        parallel_dispatches_call_everyone(hub, listeners, from + 1, event, payload, replies)
    } else {
        let after = turned(hub, listeners[from]);
        let inner = parallel_dispatches_call_everyone(
            after,
            listeners,
            from + 1,
            event,
            payload,
            replies,
        );
        let places = seq![from] + inner;
        let turns = planned(hub, listeners, from, event, payload).turns;
        let rest = planned(after, listeners, from + 1, event, payload).turns;
        assert forall|i: int| 0 < i < places.len() implies #[trigger] places[i] == inner[i - 1]
            && turns[i] == rest[i - 1] && answers_in(turns, listeners, replies)[i] == answers_in(
            rest,
            listeners,
            replies,
        )[i - 1] by {}
        assert forall|i: int, j: int| 0 <= i < j < places.len() implies #[trigger] places[i]
            < #[trigger] places[j] by {
            if i > 0 {
                assert(inner[i - 1] < inner[j - 1]);
            }
        }
        one_more_turn(hub, listeners, from, listeners.len() as int, inner);
        places
    }
}

/// A waterfall calls listeners in their order, each handing on to the next,
/// until one answers by itself, whose answer is the waterfall's; when none
/// does, the answer is null.
pub proof fn waterfalls_end_at_the_first_own_answer(
    hub: HubModel,
    listeners: Seq<ListenerModel>,
    from: int,
    event: Seq<char>,
    payload: u64,
    replies: Seq<Reply>,
) -> (places: Seq<int>)
    requires
        0 <= from <= listeners.len(),
        tokens_differ(listeners),
    ensures
        ({
            let whole = fall(hub, listeners, from, event, payload, replies);
            let count = whole.called.len() as int;
            &&& called_at(listeners, from, whole.called, places)
            &&& forall|i: int, k: int|
                0 <= i < count - 1 && 0 <= k < replies.len() ==> (#[trigger] replies[k]).token
                    != #[trigger] whole.called[i]
            &&& if count > 0 && exists|k: int|
                0 <= k < replies.len() && (#[trigger] replies[k]).token == whole.called.last() {
                whole.result == reply_from(replies, whole.called.last(), 0)
            } else {
                ||| whole.result == Ok::<Json, CoreFailure>(Json::Null) && nobody_skipped(
                    listeners,
                    from,
                    listeners.len() as int,
                    places,
                    hub.claimed,
                )
                ||| exists|k: int|
                    from <= k < listeners.len() && refusal(
                        DispatchMode::Waterfall,
                        #[trigger] listeners[k],
                        event,
                        payload,
                    ) is Some && whole.result == Err::<Json, CoreFailure>(
                        refusal(DispatchMode::Waterfall, listeners[k], event, payload)->0,
                    ) && (count > 0 ==> places.last() < k)
            }
        }),
    decreases listeners.len() - from,
{
    let whole = fall(hub, listeners, from, event, payload, replies);
    if from >= listeners.len() {
        Seq::empty()
    } else if !may_turn(listeners[from], hub.claimed) {
        waterfalls_end_at_the_first_own_answer(hub, listeners, from + 1, event, payload, replies)
    } else if refusal(DispatchMode::Waterfall, listeners[from], event, payload) is Some {
        Seq::empty()
    } else if exists|k: int|
        0 <= k < replies.len() && (#[trigger] replies[k]).token == listeners[from].token {
        assert(whole.called =~= seq![listeners[from].token]);
        seq![from]
    } else {
        let after = turned(hub, listeners[from]);
        let rest = fall(after, listeners, from + 1, event, payload, replies);
        let inner = waterfalls_end_at_the_first_own_answer(
            after,
            listeners,
            from + 1,
            event,
            payload,
            replies,
        );
        let places = seq![from] + inner;
        assert(whole.called =~= seq![listeners[from].token] + rest.called);
        assert forall|i: int| 0 < i < places.len() implies #[trigger] places[i] == inner[i - 1]
            && whole.called[i] == rest.called[i - 1] by {}
        assert forall|i: int, j: int| 0 <= i < j < places.len() implies #[trigger] places[i]
            < #[trigger] places[j] by {
            if i > 0 {
                assert(inner[i - 1] < inner[j - 1]);
            }
        }
        if rest.called.len() > 0 {
            assert(whole.called.last() == rest.called.last());
            assert(places.last() == inner.last());
        } else {
            assert(whole.called.last() == listeners[from].token);
        }
        assert forall|i: int, k: int|
            0 <= i < whole.called.len() - 1 && 0 <= k < replies.len() implies (
        #[trigger] replies[k]).token != #[trigger] whole.called[i] by {
            if i > 0 {
                assert(whole.called[i] == rest.called[i - 1]);
            }
        }
        if nobody_skipped(
            listeners,
            from + 1,
            listeners.len() as int,
            inner,
            after.claimed,
        ) {
            one_more_turn(hub, listeners, from, listeners.len() as int, inner);
        }
        places
    }
}

}
