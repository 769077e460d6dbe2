//! Dispatches that combine their listeners: all at once, or each deciding
//! whether the next one is called.

use vstd::prelude::*;

use crate::dispatch::{
    answer_of, audiences_are_known, known, may_turn, next_turn, observed, refusal, refuse,
    reply_for, reply_from, take_turn, turned, Dispatched, Reply, Turn,
};
use crate::error::{failure_list, CoreError, CoreFailure};
use crate::events::{
    audience, hub_sound, listener_list, DispatchMode, DispatchOutcome, EventBus, EventHub,
    HubModel, Listener, ListenerModel,
};
use crate::json::{json_list, Json, JsonValue};
use crate::lifecycle::{RecordModel, ScopeTree};

verus! {

/// The model of a turn.
#[verifier::ext_equal]
pub enum TurnModel {
    Call(int),
    Refused(int, CoreFailure),
    Done,
}

impl View for Turn {
    type V = TurnModel;

    open spec fn view(&self) -> TurnModel {
        match self {
            Turn::Call(at) => TurnModel::Call(*at as int),
            Turn::Refused(at, error) => TurnModel::Refused(*at as int, error@),
            Turn::Done => TurnModel::Done,
        }
    }
}

/// The models of a list of turns.
pub open spec fn turn_list(turns: Seq<Turn>) -> Seq<TurnModel> {
    Seq::new(turns.len(), |i: int| turns[i]@)
}

/// The turns of a dispatch that calls its listeners all at once, and the hub
/// that it leaves.
#[verifier::ext_equal]
pub struct Plan {
    pub hub: HubModel,
    pub turns: Seq<TurnModel>,
}

/// The turn of the listener at a place.
pub open spec fn turn_at(
    listeners: Seq<ListenerModel>,
    at: int,
    event: Seq<char>,
    payload: u64,
) -> TurnModel {
    match refusal(DispatchMode::Parallel, listeners[at], event, payload) {
        Some(failure) => TurnModel::Refused(at, failure),
        None => TurnModel::Call(at),
    }
}

pub open spec fn planned(
    hub: HubModel,
    listeners: Seq<ListenerModel>,
    from: int,
    event: Seq<char>,
    payload: u64,
) -> Plan
    decreases listeners.len() - from,
{
    if from < 0 || from >= listeners.len() {
        Plan { hub, turns: Seq::empty() }
    } else if !may_turn(listeners[from], hub.claimed) {
        planned(hub, listeners, from + 1, event, payload)
    } else {
        let rest = planned(turned(hub, listeners[from]), listeners, from + 1, event, payload);
        Plan {
            turns: seq![turn_at(listeners, from, event, payload)] + rest.turns,
            ..rest
        }
    }
}

/// The turns are calls and refusals of listeners.
pub open spec fn places_fit(turns: Seq<TurnModel>, count: nat) -> bool {
    forall|i: int|
        0 <= i < turns.len() ==> match #[trigger] turns[i] {
            TurnModel::Call(at) => 0 <= at < count,
            TurnModel::Refused(at, _) => 0 <= at < count,
            TurnModel::Done => false,
        }
}

/// Gives every listener its turn, before any of them is called.
pub fn plan(hub: &mut EventHub, listeners: &Vec<Listener>, event: &str, payload: u64) -> (result: Vec<
    Turn,
>)
    requires
        known(listener_list(listeners@), old(hub)@),
    ensures
        ({
            let whole = planned(old(hub)@, listener_list(listeners@), 0, event@, payload);
            &&& final(hub)@ == whole.hub
            &&& turn_list(result@) == whole.turns
        }),
        places_fit(turn_list(result@), listeners@.len()),
        forall|records: Seq<RecordModel>| #[trigger]
            hub_sound(old(hub)@, records) ==> hub_sound(final(hub)@, records),
{
    let ghost models = listener_list(listeners@);
    let ghost whole = planned(hub@, models, 0, event@, payload);
    let mut turns: Vec<Turn> = Vec::new();
    let mut i: usize = 0;
    assert(turn_list(turns@) + whole.turns =~= whole.turns);
    while i < listeners.len()
        invariant
            i <= listeners@.len(),
            models == listener_list(listeners@),
            known(models, hub@),
            places_fit(turn_list(turns@), listeners@.len()),
            ({
                let rest = planned(hub@, models, i as int, event@, payload);
                &&& whole.hub == rest.hub
                &&& whole.turns == turn_list(turns@) + rest.turns
            }),
            forall|records: Seq<RecordModel>| #[trigger]
                hub_sound(old(hub)@, records) ==> hub_sound(hub@, records),
        decreases listeners@.len() - i,
    {
        let listener = &listeners[i];
        assert(models[i as int] == listener@);
        let ghost before = hub@;
        let ghost so_far = turn_list(turns@);
        if hub.claim_once(listener) {
            let turn = match refuse(DispatchMode::Parallel, listener, event, payload) {
                Some(error) => Turn::Refused(i, error),
                None => Turn::Call(i),
            };
            turns.push(turn);
            proof {
                let rest = planned(hub@, models, i + 1, event@, payload);
                assert(turn@ == turn_at(models, i as int, event@, payload));
                assert(turn_list(turns@) =~= so_far.push(turn@));
                assert(so_far + (seq![turn@] + rest.turns) =~= turn_list(turns@) + rest.turns);
                assert forall|k: int| 0 <= k < turn_list(turns@).len() implies match #[trigger]
                turn_list(turns@)[k] {
                    TurnModel::Call(at) => 0 <= at < listeners@.len(),
                    TurnModel::Refused(at, _) => 0 <= at < listeners@.len(),
                    TurnModel::Done => false,
                } by {
                    if k < so_far.len() {
                        assert(turn_list(turns@)[k] == so_far[k]);
                    }
                }
            }
        }
        i += 1;
    }
    assert(turn_list(turns@) =~= whole.turns);
    turns
}

/// The answers of a list of results.
pub open spec fn answer_list(results: Seq<Result<JsonValue, CoreError>>) -> Seq<
    Result<Json, CoreFailure>,
> {
    Seq::new(results.len(), |i: int| answer_of(results[i]))
}

/// The values among the answers, in order.
pub open spec fn values_in(answers: Seq<Result<Json, CoreFailure>>) -> Seq<Json>
    decreases answers.len(),
{
    if answers.len() == 0 {
        Seq::empty()
    } else {
        let rest = values_in(answers.drop_last());
        match answers.last() {
            Ok(value) => rest.push(value),
            Err(_) => rest,
        }
    }
}

/// The failures among the answers, in order.
pub open spec fn failures_in(answers: Seq<Result<Json, CoreFailure>>) -> Seq<CoreFailure>
    decreases answers.len(),
{
    if answers.len() == 0 {
        Seq::empty()
    } else {
        let rest = failures_in(answers.drop_last());
        match answers.last() {
            Ok(_) => rest,
            Err(failure) => rest.push(failure),
        }
    }
}

/// What a dispatch gives that called its listeners all at once: every value,
/// or every failure.
pub open spec fn gathered(answers: Seq<Result<Json, CoreFailure>>) -> Result<
    Seq<Json>,
    CoreFailure,
> {
    if failures_in(answers).len() == 0 {
        Ok(values_in(answers))
    } else {
        Err(CoreFailure::Cleanup(failures_in(answers)))
    }
}

pub open spec fn gathered_outcome(answers: Seq<Result<Json, CoreFailure>>) -> DispatchOutcome {
    if failures_in(answers).len() == 0 {
        DispatchOutcome::Completed
    } else {
        DispatchOutcome::Failed { errors: failures_in(answers).len() as usize }
    }
}

pub open spec fn list_answer(result: Result<Vec<JsonValue>, CoreError>) -> Result<
    Seq<Json>,
    CoreFailure,
> {
    match result {
        Ok(values) => Ok(json_list(values@)),
        Err(error) => Err(error@),
    }
}

/// Combines the answers of listeners that were called all at once.
pub fn gather(results: Vec<Result<JsonValue, CoreError>>) -> (result: (
    DispatchOutcome,
    Result<Vec<JsonValue>, CoreError>,
))
    ensures
        result.0 == gathered_outcome(answer_list(results@)),
        list_answer(result.1) == gathered(answer_list(results@)),
{
    let ghost answers = answer_list(results@);
    let mut values: Vec<JsonValue> = Vec::new();
    let mut errors: Vec<CoreError> = Vec::new();
    let mut i: usize = 0;
    assert(answers.subrange(0, 0) =~= Seq::empty());
    assert(json_list(values@) =~= Seq::empty());
    assert(failure_list(errors@) =~= Seq::empty());
    while i < results.len()
        invariant
            i <= results@.len(),
            answers == answer_list(results@),
            json_list(values@) == values_in(answers.subrange(0, i as int)),
            failure_list(errors@) == failures_in(answers.subrange(0, i as int)),
        decreases results@.len() - i,
    {
        let ghost some = values@;
        let ghost others = errors@;
        let ghost longer = answers.subrange(0, i + 1);
        proof {
            assert(longer.drop_last() =~= answers.subrange(0, i as int));
            assert(longer.last() == answers[i as int]);
        }
        match &results[i] {
            Ok(value) => {
                values.push(value.clone());
                assert(json_list(values@) =~= json_list(some).push(value@));
            },
            Err(error) => {
                errors.push(error.clone());
                assert(failure_list(errors@) =~= failure_list(others).push(error@));
            },
        }
        i += 1;
    }
    assert(answers.subrange(0, answers.len() as int) =~= answers);
    assert(failure_list(errors@).len() == errors@.len());
    if errors.len() == 0 {
        (DispatchOutcome::Completed, Ok(values))
    } else {
        (DispatchOutcome::Failed { errors: errors.len() }, Err(CoreError::cleanup(errors)))
    }
}

/// The listeners that the turns call, in order.
pub open spec fn called_in(turns: Seq<TurnModel>, listeners: Seq<ListenerModel>) -> Seq<u64>
    decreases turns.len(),
{
    if turns.len() == 0 {
        Seq::empty()
    } else {
        let rest = called_in(turns.drop_last(), listeners);
        match turns.last() {
            TurnModel::Call(at) => rest.push(listeners[at].token),
            _ => rest,
        }
    }
}

/// What each turn answers.
pub open spec fn answers_in(
    turns: Seq<TurnModel>,
    listeners: Seq<ListenerModel>,
    replies: Seq<Reply>,
) -> Seq<Result<Json, CoreFailure>> {
    Seq::new(
        turns.len(),
        |i: int|
            match turns[i] {
                TurnModel::Call(at) => reply_from(replies, listeners[at].token, 0),
                TurnModel::Refused(_, failure) => Err(failure),
                TurnModel::Done => Ok(Json::Null),
            },
    )
}

impl EventBus {
    /// Calls every listener, and waits for all of them.
    pub fn parallel(
        &self,
        hub: &mut EventHub,
        tree: &ScopeTree,
        event: &str,
        payload: u64,
        replies: &Vec<Reply>,
        duration_nanos: u64,
    ) -> (result: Dispatched<Vec<JsonValue>>)
        requires
            hub_sound(old(hub)@, tree@),
        ensures
            hub_sound(final(hub)@, tree@),
            ({
                let listeners = audience(old(hub)@.listeners, event@, self.filter@, tree@);
                let whole = planned(old(hub)@, listeners, 0, event@, payload);
                let answers = answers_in(whole.turns, listeners, replies@);
                &&& result.called@ == called_in(whole.turns, listeners)
                &&& list_answer(result.result) == gathered(answers)
                &&& final(hub)@ == observed(
                    whole.hub,
                    event@,
                    DispatchMode::Parallel,
                    listeners.len(),
                    duration_nanos,
                    gathered_outcome(answers),
                )
            }),
    {
        let listeners = self.snapshot(hub, tree, event);
        proof {
            audiences_are_known(hub@, event@, self.filter@, tree@);
        }
        let turns = plan(hub, &listeners, event, payload);
        let ghost models = listener_list(listeners@);
        let ghost all = turn_list(turns@);
        let ghost answers = answers_in(all, models, replies@);
        let mut called: Vec<u64> = Vec::new();
        let mut results: Vec<Result<JsonValue, CoreError>> = Vec::new();
        let mut i: usize = 0;
        assert(all.subrange(0, 0) =~= Seq::empty());
        while i < turns.len()
            invariant
                i <= turns@.len(),
                results@.len() == i,
                models == listener_list(listeners@),
                all == turn_list(turns@),
                answers == answers_in(all, models, replies@),
                places_fit(all, listeners@.len()),
                called@ == called_in(all.subrange(0, i as int), models),
                forall|k: int|
                    0 <= k < i ==> answer_of(#[trigger] results@[k]) == answers[k],
            decreases turns@.len() - i,
        {
            let ghost longer = all.subrange(0, i + 1);
            proof {
                assert(longer.drop_last() =~= all.subrange(0, i as int));
                assert(longer.last() == all[i as int]);
                assert(all[i as int] == turns@[i as int]@);
            }
            match &turns[i] {
                Turn::Call(at) => {
                    let token = listeners[*at].token;
                    assert(models[*at as int].token == token);
                    called.push(token);
                    results.push(reply_for(replies, token));
                },
                Turn::Refused(_, error) => {
                    results.push(Err(error.clone()));
                },
                Turn::Done => {
                    results.push(Ok(JsonValue::Null));
                },
            }
            i += 1;
        }
        assert(all.subrange(0, all.len() as int) =~= all);
        assert(answer_list(results@) =~= answers);
        let (outcome, result) = gather(results);
        hub.record(event, DispatchMode::Parallel, listeners.len(), duration_nanos, outcome);
        Dispatched { called, result }
    }
}

/// The continuation of a waterfall: what follows a listener, once.
#[derive(Debug)]
pub struct WaterfallNext {
    pub start: usize,
    pub used: bool,
}

impl WaterfallNext {
    /// The place at which the waterfall goes on, the first time only.
    pub fn next(&mut self) -> (result: Result<usize, CoreError>)
        ensures
            final(self).used,
            final(self).start == old(self).start,
            match result {
                Ok(start) => !old(self).used && start == old(self).start,
                Err(error) => old(self).used && error@ == CoreFailure::WaterfallContinuationUsed,
            },
    {
        if self.used {
            Err(CoreError::WaterfallContinuationUsed)
        } else {
            self.used = true;
            Ok(self.start)
        }
    }
}

/// What comes next in a waterfall.
#[derive(Debug)]
pub enum WaterfallStep {
    /// Call the listener at this place with the continuation.
    Call(usize, WaterfallNext),
    Finished(Result<JsonValue, CoreError>),
}

/// Goes on with a waterfall at `start`: with the next waterfall listener, or
/// with null when none is left.
pub fn waterfall_at(
    hub: &mut EventHub,
    listeners: &Vec<Listener>,
    start: usize,
    event: &str,
    payload: u64,
) -> (result: WaterfallStep)
    requires
        start <= listeners@.len(),
    ensures
        ({
            let models = listener_list(listeners@);
            match next_turn(models, start as int, old(hub)@.claimed) {
                Some(at) => {
                    &&& final(hub)@ == turned(old(hub)@, models[at])
                    &&& match refusal(DispatchMode::Waterfall, models[at], event@, payload) {
                        Some(failure) => result matches WaterfallStep::Finished(answer)
                            && answer_of(answer) == Err::<Json, CoreFailure>(failure),
                        None => result matches WaterfallStep::Call(place, next) && place == at
                            && start <= place < listeners@.len() && next.start == at + 1
                            && !next.used,
                    }
                },
                None => final(hub)@ == old(hub)@ && (result matches WaterfallStep::Finished(answer)
                    && answer_of(answer) == Ok::<Json, CoreFailure>(Json::Null)),
            }
        }),
        known(listener_list(listeners@), old(hub)@) ==> forall|records: Seq<RecordModel>| #[trigger]
            hub_sound(old(hub)@, records) ==> hub_sound(final(hub)@, records),
{
    match take_turn(hub, listeners, start, DispatchMode::Waterfall, event, payload) {
        Turn::Done => WaterfallStep::Finished(Ok(JsonValue::Null)),
        Turn::Refused(_, error) => WaterfallStep::Finished(Err(error)),
        Turn::Call(at) => {
            assert(at < listeners.len());
            WaterfallStep::Call(at, WaterfallNext { start: at + 1, used: false })
        },
    }
}

/// A waterfall has ended.
pub open spec fn waterfall_outcome(result: Result<Json, CoreFailure>) -> DispatchOutcome {
    match result {
        Ok(_) => DispatchOutcome::Completed,
        Err(_) => DispatchOutcome::Failed { errors: 1 },
    }
}

/// Says how a waterfall ended.
pub fn fall_outcome(result: &Result<JsonValue, CoreError>) -> (outcome: DispatchOutcome)
    ensures
        outcome == waterfall_outcome(answer_of(*result)),
{
    match result {
        Ok(_) => DispatchOutcome::Completed,
        Err(_) => DispatchOutcome::Failed { errors: 1 },
    }
}

/// A waterfall: the hub it leaves, whom it called, and its value.
#[verifier::ext_equal]
pub struct Fall {
    pub hub: HubModel,
    pub called: Seq<u64>,
    pub result: Result<Json, CoreFailure>,
}

/// A listener with an answer listed ends the waterfall with it.
pub open spec fn listed(replies: Seq<Reply>, token: u64) -> bool {
    exists|i: int| 0 <= i < replies.len() && (#[trigger] replies[i]).token == token
}

fn is_listed(replies: &Vec<Reply>, token: u64) -> (result: bool)
    ensures
        result == listed(replies@, token),
{
    let mut i: usize = 0;
    while i < replies.len()
        invariant
            i <= replies@.len(),
            forall|k: int| 0 <= k < i ==> (#[trigger] replies@[k]).token != token,
        decreases replies@.len() - i,
    {
        if replies[i].token == token {
            return true;
        }
        i += 1;
    }
    false
}

/// A waterfall in which a listener without a listed answer hands the payload
/// on and gives back what it gets.
pub open spec fn fall(
    hub: HubModel,
    listeners: Seq<ListenerModel>,
    from: int,
    event: Seq<char>,
    payload: u64,
    replies: Seq<Reply>,
) -> Fall
    decreases listeners.len() - from,
{
    if from < 0 || from >= listeners.len() {
        Fall { hub, called: Seq::empty(), result: Ok(Json::Null) }
    } else if !may_turn(listeners[from], hub.claimed) {
        fall(hub, listeners, from + 1, event, payload, replies)
    } else {
        let after = turned(hub, listeners[from]);
        let token = listeners[from].token;
        match refusal(DispatchMode::Waterfall, listeners[from], event, payload) {
            Some(failure) => Fall { hub: after, called: Seq::empty(), result: Err(failure) },
            None => if listed(replies, token) {
                Fall { hub: after, called: seq![token], result: reply_from(replies, token, 0) }
            } else {
                let rest = fall(after, listeners, from + 1, event, payload, replies);
                Fall { called: seq![token] + rest.called, ..rest }
            },
        }
    }
}

proof fn lemma_fall_skips(
    hub: HubModel,
    listeners: Seq<ListenerModel>,
    from: int,
    event: Seq<char>,
    payload: u64,
    replies: Seq<Reply>,
)
    requires
        0 <= from <= listeners.len(),
    ensures
        fall(hub, listeners, from, event, payload, replies) == fall(
            hub,
            listeners,
            match next_turn(listeners, from, hub.claimed) {
                Some(at) => at,
                None => listeners.len() as int,
            },
            event,
            payload,
            replies,
        ),
        next_turn(listeners, from, hub.claimed) matches Some(at) ==> from <= at < listeners.len()
            && may_turn(listeners[at], hub.claimed),
    decreases listeners.len() - from,
{
    if from < listeners.len() && !may_turn(listeners[from], hub.claimed) {
        lemma_fall_skips(hub, listeners, from + 1, event, payload, replies);
    }
}

impl EventBus {
    /// Calls the first listener with the others as its continuation.
    pub fn waterfall(
        &self,
        hub: &mut EventHub,
        tree: &ScopeTree,
        event: &str,
        payload: u64,
        replies: &Vec<Reply>,
        duration_nanos: u64,
    ) -> (result: Dispatched<JsonValue>)
        requires
            hub_sound(old(hub)@, tree@),
        ensures
            hub_sound(final(hub)@, tree@),
            ({
                let listeners = audience(old(hub)@.listeners, event@, self.filter@, tree@);
                let whole = fall(old(hub)@, listeners, 0, event@, payload, replies@);
                &&& result.called@ == whole.called
                &&& answer_of(result.result) == whole.result
                &&& final(hub)@ == observed(
                    whole.hub,
                    event@,
                    DispatchMode::Waterfall,
                    listeners.len(),
                    duration_nanos,
                    waterfall_outcome(whole.result),
                )
            }),
    {
        let listeners = self.snapshot(hub, tree, event);
        proof {
            audiences_are_known(hub@, event@, self.filter@, tree@);
        }
        let ghost models = listener_list(listeners@);
        let ghost whole = fall(hub@, models, 0, event@, payload, replies@);
        let mut called: Vec<u64> = Vec::new();
        let mut from: usize = 0;
        let mut result: Result<JsonValue, CoreError> = Ok(JsonValue::Null);
        let mut running: bool = true;
        assert(called@ + whole.called =~= whole.called);
        while running
            invariant
                from <= listeners@.len(),
                models == listener_list(listeners@),
                known(models, hub@),
                hub_sound(hub@, tree@),
                running ==> {
                    let rest = fall(hub@, models, from as int, event@, payload, replies@);
                    &&& whole.hub == rest.hub
                    &&& whole.result == rest.result
                    &&& whole.called == called@ + rest.called
                },
                !running ==> hub@ == whole.hub && answer_of(result) == whole.result && called@
                    == whole.called,
            decreases (if running { 1int } else { 0int }), listeners@.len() - from,
        {
            let ghost so_far = called@;
            proof {
                lemma_fall_skips(hub@, models, from as int, event@, payload, replies@);
            }
            match waterfall_at(hub, &listeners, from, event, payload) {
                WaterfallStep::Finished(answer) => {
                    result = answer;
                    running = false;
                    assert(called@ =~= whole.called);
                },
                WaterfallStep::Call(at, next) => {
                    let token = listeners[at].token;
                    assert(models[at as int].token == token);
                    called.push(token);
                    if is_listed(replies, token) {
                        result = reply_for(replies, token);
                        running = false;
                        assert(called@ =~= whole.called);
                    } else {
                        proof {
                            let tail = fall(hub@, models, at + 1, event@, payload, replies@);
                            assert(so_far + (seq![token] + tail.called) =~= called@ + tail.called);
                        }
                        from = next.start;
                    }
                },
            }
        }
        let outcome = fall_outcome(&result);
        hub.record(event, DispatchMode::Waterfall, listeners.len(), duration_nanos, outcome);
        Dispatched { called, result }
    }
}

}
