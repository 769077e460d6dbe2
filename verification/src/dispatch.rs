//! Dispatching an event: which listeners are called, and what comes of it.

use vstd::prelude::*;
use vstd::string::*;

use crate::error::{CoreError, CoreFailure};
use crate::events::{
    audience, heard, hub_sound, listener_list, without_token, DiagnosticModel, DispatchMode,
    DispatchOutcome, EventBus, EventHub, FilterModel, HubModel, Listener, ListenerKind,
    ListenerModel,
};
use crate::json::{Json, JsonValue};
use crate::lifecycle::{RecordModel, ScopeTree};

verus! {

/// What one listener answers.
pub open spec fn answer_of(result: Result<JsonValue, CoreError>) -> Result<Json, CoreFailure> {
    match result {
        Ok(value) => Ok(value@),
        Err(error) => Err(error@),
    }
}

/// An answer that ends a bail or serial dispatch: anything but null and false.
pub open spec fn effective(value: Json) -> bool {
    value != Json::Null && value != Json::Bool(false)
}

pub fn is_effective(value: &JsonValue) -> (result: bool)
    ensures
        result == effective(value@),
{
    match value {
        JsonValue::Null => false,
        JsonValue::Bool(flag) => *flag,
        _ => true,
    }
}

/// Why a listener cannot take part in a dispatch of this mode and payload.
pub open spec fn refusal(
    mode: DispatchMode,
    listener: ListenerModel,
    event: Seq<char>,
    payload: u64,
) -> Option<CoreFailure> {
    if mode == DispatchMode::Emit && listener.kind != ListenerKind::Sync {
        Some(CoreFailure::AsyncEventListener { operation: "emit"@, event })
    } else if mode == DispatchMode::Bail && listener.kind != ListenerKind::Sync {
        Some(CoreFailure::AsyncEventListener { operation: "bail"@, event })
    } else if mode == DispatchMode::Waterfall && listener.kind != ListenerKind::Waterfall {
        Some(CoreFailure::AsyncEventListener { operation: "waterfall"@, event })
    } else if (mode == DispatchMode::Parallel || mode == DispatchMode::Serial) && listener.kind
        == ListenerKind::Waterfall {
        Some(
            CoreFailure::AsyncEventListener {
                operation: "parallel or serial"@,
                event: "waterfall listener"@,
            },
        )
    } else if listener.expects.kind != payload {
        Some(CoreFailure::EventTypeMismatch { event, expected: listener.expects.name })
    } else {
        None
    }
}

fn asynchronous(operation: &str, event: &str) -> (result: CoreError)
    ensures
        result@ == (CoreFailure::AsyncEventListener { operation: operation@, event: event@ }),
{
    CoreError::AsyncEventListener { operation: operation.to_owned(), event: event.to_owned() }
}

/// The error of a payload that has another type than the listener expects.
pub fn type_mismatch(event: &str, expected: &str) -> (result: CoreError)
    ensures
        result@ == (CoreFailure::EventTypeMismatch { event: event@, expected: expected@ }),
{
    CoreError::EventTypeMismatch { event: event.to_owned(), expected: expected.to_owned() }
}

/// Why a listener cannot take part in a dispatch, if it cannot.
pub fn refuse(mode: DispatchMode, listener: &Listener, event: &str, payload: u64) -> (result: Option<
    CoreError,
>)
    ensures
        (match result {
            Some(error) => Some(error@),
            None => None,
        }) == refusal(mode, listener@, event@, payload),
{
    if mode == DispatchMode::Emit && listener.kind != ListenerKind::Sync {
        Some(asynchronous("emit", event))
    } else if mode == DispatchMode::Bail && listener.kind != ListenerKind::Sync {
        Some(asynchronous("bail", event))
    } else if mode == DispatchMode::Waterfall && listener.kind != ListenerKind::Waterfall {
        Some(asynchronous("waterfall", event))
    } else if (mode == DispatchMode::Parallel || mode == DispatchMode::Serial) && listener.kind
        == ListenerKind::Waterfall {
        Some(asynchronous("parallel or serial", "waterfall listener"))
    } else if listener.expects.kind != payload {
        Some(type_mismatch(event, listener.expects.name.as_str()))
    } else {
        None
    }
}

/// A listener may be called: always, or once.
pub open spec fn may_turn(listener: ListenerModel, claimed: Seq<u64>) -> bool {
    !(listener.once && claimed.contains(listener.token))
}

/// The hub after a listener had its turn.
pub open spec fn turned(hub: HubModel, listener: ListenerModel) -> HubModel {
    if listener.once && may_turn(listener, hub.claimed) {
        HubModel {
            listeners: without_token(hub.listeners, listener.event, listener.token),
            claimed: hub.claimed.push(listener.token),
            ..hub
        }
    } else {
        hub
    }
}

/// The first listener at or after `from` whose turn it may be.
pub open spec fn next_turn(listeners: Seq<ListenerModel>, from: int, claimed: Seq<u64>) -> Option<int>
    decreases listeners.len() - from,
{
    if from < 0 || from >= listeners.len() {
        None
    } else if may_turn(listeners[from], claimed) {
        Some(from)
    } else {
        next_turn(listeners, from + 1, claimed)
    }
}

/// What comes next in a dispatch.
#[derive(Debug)]
pub enum Turn {
    /// Call the listener at this place.
    Call(usize),
    /// The listener at this place cannot take part.
    Refused(usize, CoreError),
    /// No listener is left.
    Done,
}

/// The listeners of a dispatch all come from the hub.
pub open spec fn known(listeners: Seq<ListenerModel>, hub: HubModel) -> bool {
    forall|i: int| 0 <= i < listeners.len() ==> (#[trigger] listeners[i]).token < hub.next_listener
}

/// Finds the next listener at or after `from` and gives it its turn.
pub fn take_turn(
    hub: &mut EventHub,
    listeners: &Vec<Listener>,
    from: usize,
    mode: DispatchMode,
    event: &str,
    payload: u64,
) -> (result: Turn)
    requires
        from <= listeners@.len(),
    ensures
        ({
            let models = listener_list(listeners@);
            match next_turn(models, from as int, old(hub)@.claimed) {
                Some(at) => {
                    &&& 0 <= from <= at < models.len()
                    &&& final(hub)@ == turned(old(hub)@, models[at])
                    &&& match refusal(mode, models[at], event@, payload) {
                        Some(failure) => result matches Turn::Refused(place, error) && place == at
                            && error@ == failure,
                        None => result matches Turn::Call(place) && place == at,
                    }
                },
                None => result == Turn::Done && final(hub)@ == old(hub)@,
            }
        }),
        known(listener_list(listeners@), old(hub)@) ==> forall|records: Seq<RecordModel>| #[trigger]
            hub_sound(old(hub)@, records) ==> hub_sound(final(hub)@, records),
{
    let ghost models = listener_list(listeners@);
    let mut i: usize = from;
    while i < listeners.len()
        invariant
            from <= i <= listeners@.len(),
            models == listener_list(listeners@),
            hub@ == old(hub)@,
            next_turn(models, from as int, hub@.claimed) == next_turn(
                models,
                i as int,
                hub@.claimed,
            ),
        decreases listeners@.len() - i,
    {
        let listener = &listeners[i];
        assert(models[i as int] == listener@);
        if hub.claim_once(listener) {
            return match refuse(mode, listener, event, payload) {
                Some(error) => Turn::Refused(i, error),
                None => Turn::Call(i),
            };
        }
        i += 1;
    }
    Turn::Done
}

/// What an answer means for a dispatch that calls one listener after another.
#[derive(Debug)]
pub enum Weighed {
    Failed(CoreError),
    Bailed(JsonValue),
    Continue,
}

/// The model of a weighed answer.
#[verifier::ext_equal]
pub enum WeighedModel {
    Failed(CoreFailure),
    Bailed(Json),
    Continue,
}

impl View for Weighed {
    type V = WeighedModel;

    open spec fn view(&self) -> WeighedModel {
        match self {
            Weighed::Failed(error) => WeighedModel::Failed(error@),
            Weighed::Bailed(value) => WeighedModel::Bailed(value@),
            Weighed::Continue => WeighedModel::Continue,
        }
    }
}

/// An error fails the dispatch; an effective value ends it in the modes that
/// look for one.
pub open spec fn weighed(mode: DispatchMode, answer: Result<Json, CoreFailure>) -> WeighedModel {
    match answer {
        Err(failure) => WeighedModel::Failed(failure),
        Ok(value) => if (mode == DispatchMode::Bail || mode == DispatchMode::Serial) && effective(
            value,
        ) {
            WeighedModel::Bailed(value)
        } else {
            WeighedModel::Continue
        },
    }
}

pub fn weigh(mode: DispatchMode, answer: Result<JsonValue, CoreError>) -> (result: Weighed)
    ensures
        result@ == weighed(mode, answer_of(answer)),
{
    match answer {
        Err(error) => Weighed::Failed(error),
        Ok(value) => {
            if (mode == DispatchMode::Bail || mode == DispatchMode::Serial) && is_effective(
                &value,
            ) {
                Weighed::Bailed(value)
            } else {
                Weighed::Continue
            }
        },
    }
}

/// The answer that a listener gives when it is called.
#[derive(Debug)]
pub struct Reply {
    pub token: u64,
    pub result: Result<JsonValue, CoreError>,
}

/// The answer of the listener `token`; null when none is listed.
pub open spec fn reply_from(replies: Seq<Reply>, token: u64, from: int) -> Result<Json, CoreFailure>
    decreases replies.len() - from,
{
    if from < 0 || from >= replies.len() {
        Ok(Json::Null)
    } else if replies[from].token == token {
        answer_of(replies[from].result)
    } else {
        reply_from(replies, token, from + 1)
    }
}

/// The answer of the listener `token`; null when none is listed.
pub fn reply_for(replies: &Vec<Reply>, token: u64) -> (result: Result<JsonValue, CoreError>)
    ensures
        answer_of(result) == reply_from(replies@, token, 0),
{
    let mut i: usize = 0;
    while i < replies.len()
        invariant
            i <= replies@.len(),
            reply_from(replies@, token, 0) == reply_from(replies@, token, i as int),
        decreases replies@.len() - i,
    {
        if replies[i].token == token {
            return match &replies[i].result {
                Ok(value) => Ok(value.clone()),
                Err(error) => Err(error.clone()),
            };
        }
        i += 1;
    }
    Ok(JsonValue::Null)
}

/// A dispatch that calls one listener after another: the hub it leaves, the
/// listeners that it called in order, and how it ended.
#[verifier::ext_equal]
pub struct Course {
    pub hub: HubModel,
    pub called: Seq<u64>,
    pub result: Result<Option<Json>, CoreFailure>,
}

pub open spec fn course(
    hub: HubModel,
    listeners: Seq<ListenerModel>,
    from: int,
    mode: DispatchMode,
    event: Seq<char>,
    payload: u64,
    replies: Seq<Reply>,
) -> Course
    decreases listeners.len() - from,
{
    if from < 0 || from >= listeners.len() {
        Course { hub, called: Seq::empty(), result: Ok(None) }
    } else {
        let listener = listeners[from];
        let after = turned(hub, listener);
        if !may_turn(listener, hub.claimed) {
            course(hub, listeners, from + 1, mode, event, payload, replies)
        } else if refusal(mode, listener, event, payload) is Some {
            Course {
                hub: after,
                called: Seq::empty(),
                result: Err(refusal(mode, listener, event, payload)->0),
            }
        } else {
            match weighed(mode, reply_from(replies, listener.token, 0)) {
                WeighedModel::Failed(failure) => Course {
                    hub: after,
                    called: seq![listener.token],
                    result: Err(failure),
                },
                WeighedModel::Bailed(value) => Course {
                    hub: after,
                    called: seq![listener.token],
                    result: Ok(Some(value)),
                },
                WeighedModel::Continue => {
                    let rest = course(after, listeners, from + 1, mode, event, payload, replies);
                    Course { called: seq![listener.token] + rest.called, ..rest }
                },
            }
        }
    }
}

/// A course starts with the first listener whose turn it may be.
proof fn lemma_course_skips(
    hub: HubModel,
    listeners: Seq<ListenerModel>,
    from: int,
    mode: DispatchMode,
    event: Seq<char>,
    payload: u64,
    replies: Seq<Reply>,
)
    requires
        0 <= from <= listeners.len(),
    ensures
        course(hub, listeners, from, mode, event, payload, replies) == course(
            hub,
            listeners,
            match next_turn(listeners, from, hub.claimed) {
                Some(at) => at,
                None => listeners.len() as int,
            },
            mode,
            event,
            payload,
            replies,
        ),
        next_turn(listeners, from, hub.claimed) matches Some(at) ==> from <= at < listeners.len()
            && may_turn(listeners[at], hub.claimed),
    decreases listeners.len() - from,
{
    if from < listeners.len() && !may_turn(listeners[from], hub.claimed) {
        lemma_course_skips(hub, listeners, from + 1, mode, event, payload, replies);
    }
}

/// How a dispatch that calls one listener after another ended.
pub open spec fn outcome_after(result: Result<Option<Json>, CoreFailure>) -> DispatchOutcome {
    match result {
        Ok(None) => DispatchOutcome::Completed,
        Ok(Some(_)) => DispatchOutcome::Bailed,
        Err(_) => DispatchOutcome::Failed { errors: 1 },
    }
}

/// Says how a dispatch that calls one listener after another ended.
pub fn turns_outcome(result: &Result<Option<JsonValue>, CoreError>) -> (outcome: DispatchOutcome)
    ensures
        outcome == outcome_after(optional_answer(*result)),
{
    match result {
        Ok(None) => DispatchOutcome::Completed,
        Ok(Some(_)) => DispatchOutcome::Bailed,
        Err(_) => DispatchOutcome::Failed { errors: 1 },
    }
}

/// A finished dispatch.
#[derive(Debug)]
pub struct Dispatched<T> {
    /// The listeners that were called, in order.
    pub called: Vec<u64>,
    pub result: Result<T, CoreError>,
}

pub open spec fn optional_answer(result: Result<Option<JsonValue>, CoreError>) -> Result<
    Option<Json>,
    CoreFailure,
> {
    match result {
        Ok(Some(value)) => Ok(Some(value@)),
        Ok(None) => Ok(None),
        Err(error) => Err(error@),
    }
}

/// Runs a dispatch that calls one listener after another.
fn run(
    hub: &mut EventHub,
    listeners: &Vec<Listener>,
    mode: DispatchMode,
    event: &str,
    payload: u64,
    replies: &Vec<Reply>,
) -> (result: Dispatched<Option<JsonValue>>)
    requires
        known(listener_list(listeners@), old(hub)@),
    ensures
        ({
            let whole = course(
                old(hub)@,
                listener_list(listeners@),
                0,
                mode,
                event@,
                payload,
                replies@,
            );
            &&& final(hub)@ == whole.hub
            &&& result.called@ == whole.called
            &&& optional_answer(result.result) == whole.result
        }),
        final(hub)@.next_listener == old(hub)@.next_listener,
        forall|records: Seq<RecordModel>| #[trigger]
            hub_sound(old(hub)@, records) ==> hub_sound(final(hub)@, records),
{
    let ghost models = listener_list(listeners@);
    let ghost whole = course(hub@, models, 0, mode, event@, payload, replies@);
    let mut called: Vec<u64> = Vec::new();
    let mut from: usize = 0;
    assert(called@ + whole.called =~= whole.called);
    while from < listeners.len()
        invariant
            from <= listeners@.len(),
            models == listener_list(listeners@),
            known(models, hub@),
            hub@.next_listener == old(hub)@.next_listener,
            ({
                let rest = course(hub@, models, from as int, mode, event@, payload, replies@);
                &&& whole.hub == rest.hub
                &&& whole.result == rest.result
                &&& whole.called == called@ + rest.called
            }),
            whole == course(old(hub)@, models, 0, mode, event@, payload, replies@),
            forall|records: Seq<RecordModel>| #[trigger]
                hub_sound(old(hub)@, records) ==> hub_sound(hub@, records),
        decreases listeners@.len() - from,
    {
        let ghost before = hub@;
        let ghost so_far = called@;
        let ghost rest = course(before, models, from as int, mode, event@, payload, replies@);
        proof {
            lemma_course_skips(before, models, from as int, mode, event@, payload, replies@);
        }
        match take_turn(hub, listeners, from, mode, event, payload) {
            Turn::Done => {
                assert(called@ =~= whole.called);
                return Dispatched { called, result: Ok(None) };
            },
            Turn::Refused(_, error) => {
                assert(called@ =~= whole.called);
                return Dispatched { called, result: Err(error) };
            },
            Turn::Call(at) => {
                let token = listeners[at].token;
                assert(models[at as int].token == token);
                called.push(token);
                match weigh(mode, reply_for(replies, token)) {
                    Weighed::Failed(error) => {
                        assert(called@ =~= whole.called);
                        return Dispatched { called, result: Err(error) };
                    },
                    Weighed::Bailed(value) => {
                        assert(called@ =~= whole.called);
                        return Dispatched { called, result: Ok(Some(value)) };
                    },
                    Weighed::Continue => {
                        proof {
                            let tail = course(
                                hub@,
                                models,
                                at + 1,
                                mode,
                                event@,
                                payload,
                                replies@,
                            );
                            assert(so_far + (seq![token] + tail.called) =~= called@ + tail.called);
                        }
                        from = at + 1;
                    },
                }
            },
        }
    }
    assert(called@ =~= whole.called);
    Dispatched { called, result: Ok(None) }
}


/// Everyone in an audience is a listener of the hub that the view hears.
pub proof fn audiences_are_heard(
    listeners: Seq<ListenerModel>,
    event: Seq<char>,
    filter: FilterModel,
    records: Seq<RecordModel>,
)
    ensures
        forall|i: int|
            0 <= i < audience(listeners, event, filter, records).len() ==> listeners.contains(
                #[trigger] audience(listeners, event, filter, records)[i],
            ) && heard(
                audience(listeners, event, filter, records)[i],
                event,
                filter,
                records,
            ),
    decreases listeners.len(),
{
    if listeners.len() > 0 {
        let shorter = listeners.drop_last();
        audiences_are_heard(shorter, event, filter, records);
        let all = audience(listeners, event, filter, records);
        let rest = audience(shorter, event, filter, records);
        assert forall|i: int| 0 <= i < all.len() implies listeners.contains(#[trigger] all[i])
            && heard(all[i], event, filter, records) by {
            if i < rest.len() {
                assert(all[i] == rest[i]);
                let k = choose|k: int| 0 <= k < shorter.len() && shorter[k] == rest[i];
                assert(listeners[k] == rest[i]);
            } else {
                assert(listeners[listeners.len() - 1] == all[i]);
            }
        }
    }
}

/// Everyone in an audience has a token that the hub gave out.
pub proof fn audiences_are_known(
    hub: HubModel,
    event: Seq<char>,
    filter: FilterModel,
    records: Seq<RecordModel>,
)
    requires
        hub_sound(hub, records),
    ensures
        known(audience(hub.listeners, event, filter, records), hub),
{
    audiences_are_heard(hub.listeners, event, filter, records);
    let all = audience(hub.listeners, event, filter, records);
    assert forall|i: int| 0 <= i < all.len() implies (#[trigger] all[i]).token
        < hub.next_listener by {
        let k = choose|k: int| 0 <= k < hub.listeners.len() && hub.listeners[k] == all[i];
        assert(hub.listeners[k].token < hub.next_listener);
    }
}

/// The hub with one more observation.
pub open spec fn observed(
    hub: HubModel,
    event: Seq<char>,
    mode: DispatchMode,
    listener_count: nat,
    duration_nanos: u64,
    outcome: DispatchOutcome,
) -> HubModel {
    HubModel {
        diagnostics: hub.diagnostics.push(
            DiagnosticModel { event, mode, listener_count, duration_nanos, outcome },
        ),
        ..hub
    }
}

impl EventBus {
    /// The course of a dispatch through this view.
    pub open spec fn course(
        &self,
        hub: HubModel,
        records: Seq<RecordModel>,
        mode: DispatchMode,
        event: Seq<char>,
        payload: u64,
        replies: Seq<Reply>,
    ) -> Course {
        course(
            hub,
            audience(hub.listeners, event, self.filter@, records),
            0,
            mode,
            event,
            payload,
            replies,
        )
    }

    fn in_turn(
        &self,
        hub: &mut EventHub,
        tree: &ScopeTree,
        mode: DispatchMode,
        event: &str,
        payload: u64,
        replies: &Vec<Reply>,
        duration_nanos: u64,
    ) -> (result: Dispatched<Option<JsonValue>>)
        requires
            hub_sound(old(hub)@, tree@),
        ensures
            hub_sound(final(hub)@, tree@),
            ({
                let whole = self.course(old(hub)@, tree@, mode, event@, payload, replies@);
                &&& result.called@ == whole.called
                &&& optional_answer(result.result) == whole.result
                &&& final(hub)@ == observed(
                    whole.hub,
                    event@,
                    mode,
                    audience(old(hub)@.listeners, event@, self.filter@, tree@).len(),
                    duration_nanos,
                    outcome_after(whole.result),
                )
            }),
    {
        let listeners = self.snapshot(hub, tree, event);
        proof {
            audiences_are_known(hub@, event@, self.filter@, tree@);
        }
        let done = run(hub, &listeners, mode, event, payload, replies);
        let outcome = turns_outcome(&done.result);
        hub.record(event, mode, listeners.len(), duration_nanos, outcome);
        done
    }

    /// Calls each listener in turn until one fails.
    pub fn emit(
        &self,
        hub: &mut EventHub,
        tree: &ScopeTree,
        event: &str,
        payload: u64,
        replies: &Vec<Reply>,
        duration_nanos: u64,
    ) -> (result: Dispatched<()>)
        requires
            hub_sound(old(hub)@, tree@),
        ensures
            hub_sound(final(hub)@, tree@),
            ({
                let whole = self.course(
                    old(hub)@,
                    tree@,
                    DispatchMode::Emit,
                    event@,
                    payload,
                    replies@,
                );
                &&& result.called@ == whole.called
                &&& match result.result {
                    Ok(()) => whole.result == Ok::<Option<Json>, CoreFailure>(None),
                    Err(error) => whole.result == Err::<Option<Json>, CoreFailure>(error@),
                }
                &&& final(hub)@ == observed(
                    whole.hub,
                    event@,
                    DispatchMode::Emit,
                    audience(old(hub)@.listeners, event@, self.filter@, tree@).len(),
                    duration_nanos,
                    outcome_after(whole.result),
                )
            }),
    {
        proof {
            emitting_gives_no_value(
                hub@,
                audience(hub@.listeners, event@, self.filter@, tree@),
                0,
                event@,
                payload,
                replies@,
            );
        }
        let done = self.in_turn(
            hub,
            tree,
            DispatchMode::Emit,
            event,
            payload,
            replies,
            duration_nanos,
        );
        let result = match done.result {
            Ok(_) => Ok(()),
            Err(error) => Err(error),
        };
        Dispatched { called: done.called, result }
    }
    /// Calls synchronous listeners in turn until one gives an effective value.
    pub fn bail(
        &self,
        hub: &mut EventHub,
        tree: &ScopeTree,
        event: &str,
        payload: u64,
        replies: &Vec<Reply>,
        duration_nanos: u64,
    ) -> (result: Dispatched<Option<JsonValue>>)
        requires
            hub_sound(old(hub)@, tree@),
        ensures
            hub_sound(final(hub)@, tree@),
            ({
                let whole = self.course(
                    old(hub)@,
                    tree@,
                    DispatchMode::Bail,
                    event@,
                    payload,
                    replies@,
                );
                &&& result.called@ == whole.called
                &&& optional_answer(result.result) == whole.result
                &&& final(hub)@ == observed(
                    whole.hub,
                    event@,
                    DispatchMode::Bail,
                    audience(old(hub)@.listeners, event@, self.filter@, tree@).len(),
                    duration_nanos,
                    outcome_after(whole.result),
                )
            }),
    {
        self.in_turn(hub, tree, DispatchMode::Bail, event, payload, replies, duration_nanos)
    }

    /// Calls listeners in turn, waiting for each, until one gives an effective
    /// value.
    pub fn serial(
        &self,
        hub: &mut EventHub,
        tree: &ScopeTree,
        event: &str,
        payload: u64,
        replies: &Vec<Reply>,
        duration_nanos: u64,
    ) -> (result: Dispatched<Option<JsonValue>>)
        requires
            hub_sound(old(hub)@, tree@),
        ensures
            hub_sound(final(hub)@, tree@),
            ({
                let whole = self.course(
                    old(hub)@,
                    tree@,
                    DispatchMode::Serial,
                    event@,
                    payload,
                    replies@,
                );
                &&& result.called@ == whole.called
                &&& optional_answer(result.result) == whole.result
                &&& final(hub)@ == observed(
                    whole.hub,
                    event@,
                    DispatchMode::Serial,
                    audience(old(hub)@.listeners, event@, self.filter@, tree@).len(),
                    duration_nanos,
                    outcome_after(whole.result),
                )
            }),
    {
        self.in_turn(hub, tree, DispatchMode::Serial, event, payload, replies, duration_nanos)
    }
}

/// An emitted event gives no value.
pub proof fn emitting_gives_no_value(
    hub: HubModel,
    listeners: Seq<ListenerModel>,
    from: int,
    event: Seq<char>,
    payload: u64,
    replies: Seq<Reply>,
)
    ensures
        course(hub, listeners, from, DispatchMode::Emit, event, payload, replies).result matches Ok(
            value,
        ) ==> value is None,
    decreases listeners.len() - from,
{
    if 0 <= from < listeners.len() {
        emitting_gives_no_value(hub, listeners, from + 1, event, payload, replies);
        emitting_gives_no_value(
            turned(hub, listeners[from]),
            listeners,
            from + 1,
            event,
            payload,
            replies,
        );
    }
}

}
