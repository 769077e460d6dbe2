//! What holds of every dispatch.

use vstd::prelude::*;

use crate::combine::{failures_in, gathered, values_in};
use crate::dispatch::{
    course, may_turn, refusal, reply_from, turned, weighed, Reply, WeighedModel,
};
use crate::error::CoreFailure;
use crate::events::{
    audience, heard, without_token, DispatchMode, FilterModel, HubModel, ListenerModel,
};
use crate::json::Json;
use crate::lifecycle::RecordModel;

verus! {

/// A dispatch that calls one listener after another goes on exactly until an
/// answer decides it: every listener called before the last one let it go on,
/// a value comes from the last one called, and a failure comes from the last
/// one called or from a listener that cannot take part.
pub proof fn dispatches_stop_at_a_decision(
    hub: HubModel,
    listeners: Seq<ListenerModel>,
    from: int,
    mode: DispatchMode,
    event: Seq<char>,
    payload: u64,
    replies: Seq<Reply>,
)
    requires
        0 <= from,
    ensures
        ({
            let whole = course(hub, listeners, from, mode, event, payload, replies);
            let count = whole.called.len();
            let goes_on = |i: int|
                weighed(mode, reply_from(replies, whole.called[i], 0)) == WeighedModel::Continue;
            &&& forall|i: int| 0 <= i < count - 1 ==> #[trigger] goes_on(i)
            &&& match whole.result {
                Ok(None) => forall|i: int| 0 <= i < count ==> #[trigger] goes_on(i),
                Ok(Some(value)) => count > 0 && weighed(
                    mode,
                    reply_from(replies, whole.called.last(), 0),
                ) == WeighedModel::Bailed(value),
                Err(failure) => {
                    ||| count > 0 && weighed(mode, reply_from(replies, whole.called.last(), 0))
                        == WeighedModel::Failed(failure)
                    ||| (forall|i: int| 0 <= i < count ==> #[trigger] goes_on(i)) && exists|k: int|
                        from <= k < listeners.len() && refusal(
                            mode,
                            #[trigger] listeners[k],
                            event,
                            payload,
                        ) == Some(failure)
                },
            }
        }),
    decreases listeners.len() - from,
{
    if from < listeners.len() {
        let listener = listeners[from];
        let after = turned(hub, listener);
        dispatches_stop_at_a_decision(hub, listeners, from + 1, mode, event, payload, replies);
        dispatches_stop_at_a_decision(after, listeners, from + 1, mode, event, payload, replies);
        let whole = course(hub, listeners, from, mode, event, payload, replies);
        let goes_on = |i: int|
            weighed(mode, reply_from(replies, whole.called[i], 0)) == WeighedModel::Continue;
        if may_turn(listener, hub.claimed) && refusal(mode, listener, event, payload) is None
            && weighed(mode, reply_from(replies, listener.token, 0)) == WeighedModel::Continue {
            let rest = course(after, listeners, from + 1, mode, event, payload, replies);
            let still = |i: int|
                weighed(mode, reply_from(replies, rest.called[i], 0)) == WeighedModel::Continue;
            assert(whole.called == seq![listener.token] + rest.called);
            assert forall|i: int| 0 <= i < whole.called.len() - 1 implies #[trigger] goes_on(i) by {
                if i > 0 {
                    assert(whole.called[i] == rest.called[i - 1]);
                    assert(still(i - 1));
                }
            }
            if forall|i: int| 0 <= i < rest.called.len() ==> #[trigger] still(i) {
                assert forall|i: int| 0 <= i < whole.called.len() implies #[trigger] goes_on(i) by {
                    if i > 0 {
                        assert(whole.called[i] == rest.called[i - 1]);
                        assert(still(i - 1));
                    }
                }
            }
            if rest.called.len() > 0 {
                assert(whole.called.last() == rest.called.last());
            }
        }
    }
}

/// No two listeners share a token.
pub open spec fn tokens_differ(listeners: Seq<ListenerModel>) -> bool {
    forall|i: int, j: int|
        0 <= i < j < listeners.len() ==> (#[trigger] listeners[i]).token != (
        #[trigger] listeners[j]).token
}

/// Claims are kept, a one-time listener that is called has claimed its turn,
/// and nobody is called who claimed it before.
proof fn lemma_course_claims(
    hub: HubModel,
    listeners: Seq<ListenerModel>,
    from: int,
    mode: DispatchMode,
    event: Seq<char>,
    payload: u64,
    replies: Seq<Reply>,
    at: int,
)
    requires
        0 <= from,
        0 <= at < listeners.len(),
        tokens_differ(listeners),
        listeners[at].once,
    ensures
        ({
            let whole = course(hub, listeners, from, mode, event, payload, replies);
            let token = listeners[at].token;
            &&& forall|other: u64|
                #![trigger whole.hub.claimed.contains(other)]
                hub.claimed.contains(other) ==> whole.hub.claimed.contains(other)
            &&& whole.called.contains(token) ==> at >= from && whole.hub.claimed.contains(token)
                && !hub.claimed.contains(token)
        }),
    decreases listeners.len() - from,
{
    let token = listeners[at].token;
    let whole = course(hub, listeners, from, mode, event, payload, replies);
    if from < listeners.len() {
        let listener = listeners[from];
        let after = turned(hub, listener);
        lemma_course_claims(hub, listeners, from + 1, mode, event, payload, replies, at);
        lemma_course_claims(after, listeners, from + 1, mode, event, payload, replies, at);
        let rest = course(after, listeners, from + 1, mode, event, payload, replies);
        assert forall|other: u64| hub.claimed.contains(other) implies after.claimed.contains(
            other,
        ) by {
            if listener.once && may_turn(listener, hub.claimed) {
                let k = choose|k: int| 0 <= k < hub.claimed.len() && hub.claimed[k] == other;
                assert(after.claimed[k] == other);
            }
        }
        if listener.once && may_turn(listener, hub.claimed) {
            assert(after.claimed[hub.claimed.len() as int] == listener.token);
            assert(after.claimed.contains(listener.token));
        }
        assert forall|other: u64|
            #![trigger rest.hub.claimed.contains(other)]
            hub.claimed.contains(other) implies rest.hub.claimed.contains(other) by {
            assert(after.claimed.contains(other));
        }
        if whole.called.contains(token) && may_turn(listener, hub.claimed) {
            let k = choose|k: int| 0 <= k < whole.called.len() && whole.called[k] == token;
            if k == 0 {
                assert(listener.token == token);
                assert(from == at);
            } else {
                assert(rest.called[k - 1] == token);
                assert(rest.called.contains(token));
            }
        }
    } else {
        assert(!whole.called.contains(token));
    }
}

/// A one-time listener that one dispatch called is not called by any dispatch
/// that comes after, not even by one that took its listeners before.
pub proof fn one_time_listeners_are_called_once(
    hub: HubModel,
    listeners: Seq<ListenerModel>,
    mode: DispatchMode,
    event: Seq<char>,
    payload: u64,
    replies: Seq<Reply>,
    at: int,
    later: HubModel,
    others: Seq<ListenerModel>,
    later_mode: DispatchMode,
    later_payload: u64,
    later_replies: Seq<Reply>,
    place: int,
)
    requires
        tokens_differ(listeners),
        tokens_differ(others),
        0 <= at < listeners.len(),
        0 <= place < others.len(),
        listeners[at].once,
        others[place] == listeners[at],
        course(hub, listeners, 0, mode, event, payload, replies).called.contains(
            listeners[at].token,
        ),
        forall|token: u64|
            course(hub, listeners, 0, mode, event, payload, replies).hub.claimed.contains(token)
                ==> #[trigger] later.claimed.contains(token),
    ensures
        !course(later, others, 0, later_mode, event, later_payload, later_replies).called.contains(
            listeners[at].token,
        ),
{
    lemma_course_claims(hub, listeners, 0, mode, event, payload, replies, at);
    lemma_course_claims(
        later,
        others,
        0,
        later_mode,
        event,
        later_payload,
        later_replies,
        place,
    );
    assert(later.claimed.contains(listeners[at].token));
}

/// Listeners are called in the order of their registration, and those that
/// were put in front before all others.
pub proof fn registration_order_is_dispatch_order(
    listeners: Seq<ListenerModel>,
    added: ListenerModel,
    event: Seq<char>,
    filter: FilterModel,
    records: Seq<RecordModel>,
)
    ensures
        audience(listeners.push(added), event, filter, records) == if heard(
            added,
            event,
            filter,
            records,
        ) {
            audience(listeners, event, filter, records).push(added)
        } else {
            audience(listeners, event, filter, records)
        },
        audience(seq![added] + listeners, event, filter, records) == if heard(
            added,
            event,
            filter,
            records,
        ) {
            seq![added] + audience(listeners, event, filter, records)
        } else {
            audience(listeners, event, filter, records)
        },
    decreases listeners.len(),
{
    assert(listeners.push(added).drop_last() =~= listeners);
    let front = seq![added] + listeners;
    if listeners.len() == 0 {
        assert(front.drop_last() =~= Seq::empty());
        assert(front.last() == added);
        assert(audience(Seq::<ListenerModel>::empty(), event, filter, records) =~= Seq::empty());
        assert(audience(front, event, filter, records) =~= if heard(added, event, filter, records) {
            seq![added] + audience(listeners, event, filter, records)
        } else {
            audience(listeners, event, filter, records)
        });
    } else {
        let shorter = listeners.drop_last();
        registration_order_is_dispatch_order(shorter, added, event, filter, records);
        assert(front.drop_last() =~= seq![added] + shorter);
        assert(front.last() == listeners.last());
        let rest = audience(shorter, event, filter, records);
        assert((seq![added] + rest).push(listeners.last()) =~= seq![added] + rest.push(
            listeners.last(),
        ));
    }
}

/// A removed listener is heard no more, and all others as before.
pub proof fn removed_listeners_are_silent(
    listeners: Seq<ListenerModel>,
    event: Seq<char>,
    token: u64,
    filter: FilterModel,
    records: Seq<RecordModel>,
)
    ensures
        ({
            let before = audience(listeners, event, filter, records);
            let after = audience(without_token(listeners, event, token), event, filter, records);
            &&& after == without_token(before, event, token)
            &&& forall|i: int| 0 <= i < after.len() ==> (#[trigger] after[i]).token != token
        }),
        forall|other: Seq<char>|
            other != event ==> #[trigger] audience(
                without_token(listeners, event, token),
                other,
                filter,
                records,
            ) == audience(listeners, other, filter, records),
    decreases listeners.len(),
{
    if listeners.len() > 0 {
        let shorter = listeners.drop_last();
        let last = listeners.last();
        removed_listeners_are_silent(shorter, event, token, filter, records);
        let kept = without_token(shorter, event, token);
        let before = audience(shorter, event, filter, records);
        assert(kept.push(last).drop_last() =~= kept);
        assert(before.push(last).drop_last() =~= before);
        let after = audience(without_token(listeners, event, token), event, filter, records);
        let rest = audience(kept, event, filter, records);
        assert forall|i: int| 0 <= i < after.len() implies (#[trigger] after[i]).token != token by {
            if i < rest.len() {
                assert(after[i] == rest[i]);
            }
        }
        assert forall|other: Seq<char>| other != event implies #[trigger] audience(
            without_token(listeners, event, token),
            other,
            filter,
            records,
        ) == audience(listeners, other, filter, records) by {
            assert(audience(kept, other, filter, records) == audience(
                shorter,
                other,
                filter,
                records,
            ));
        }
    }
}

/// A dispatch that calls its listeners all at once fails if and only if one of
/// them fails, with every failure in order, and else gives every value in order.
pub proof fn parallel_dispatches_report_every_answer(answers: Seq<Result<Json, CoreFailure>>)
    ensures
        (forall|i: int| 0 <= i < answers.len() ==> (#[trigger] answers[i]) is Ok) <==> gathered(
            answers,
        ) is Ok,
        gathered(answers) matches Ok(values) ==> values.len() == answers.len() && forall|i: int|
            0 <= i < answers.len() ==> (#[trigger] answers[i]) == Ok::<Json, CoreFailure>(
                values[i],
            ),
        values_in(answers).len() + failures_in(answers).len() == answers.len(),
    decreases answers.len(),
{
    if answers.len() > 0 {
        let shorter = answers.drop_last();
        parallel_dispatches_report_every_answer(shorter);
        assert(answers[answers.len() - 1] == answers.last());
        assert forall|i: int| 0 <= i < shorter.len() implies #[trigger] shorter[i]
            == answers[i] by {}
        if gathered(answers) is Ok {
            assert forall|i: int| 0 <= i < answers.len() implies (#[trigger] answers[i]) == Ok::<
                Json,
                CoreFailure,
            >(values_in(answers)[i]) by {
                if i < shorter.len() {
                    assert(shorter[i] == answers[i]);
                }
            }
        } else if answers.last() is Ok {
            let i = choose|i: int| 0 <= i < shorter.len() && !((#[trigger] shorter[i]) is Ok);
            assert(answers[i] == shorter[i]);
        }
    }
}

}
