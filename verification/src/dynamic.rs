//! Events whose payloads are values.

use vstd::prelude::*;
use vstd::string::*;

use crate::combine::{
    answers_in, called_in, fall, gathered, gathered_outcome, list_answer, planned,
    waterfall_outcome,
};
use crate::dispatch::{
    answer_of, observed, optional_answer, outcome_after, Dispatched, Reply,
};
use crate::error::{CoreError, CoreFailure};
use crate::events::{
    audience, hub_sound, DispatchMode, EventBus, EventHub, EventOptions, ListenerHandle,
    ListenerKind, PayloadModel, PayloadType,
};
use crate::json::{Json, JsonValue};
use crate::lifecycle::{Scope, ScopeTree};

verus! {

/// The type of payloads that are values.
pub const DYNAMIC_EVENT: u64 = 0;

/// The model of the type of payloads that are values.
pub open spec fn dynamic_payload() -> PayloadModel {
    PayloadModel { kind: DYNAMIC_EVENT, name: "DynamicEvent"@ }
}

/// The type of payloads that are values.
pub fn dynamic_event() -> (result: PayloadType)
    ensures
        result@ == dynamic_payload(),
{
    PayloadType { kind: DYNAMIC_EVENT, name: "DynamicEvent".to_owned() }
}

impl EventBus {
    /// Registers a synchronous listener for values.
    pub fn on_dynamic(
        &self,
        hub: &mut EventHub,
        tree: &mut ScopeTree,
        owner: Scope,
        event: String,
        options: EventOptions,
    ) -> (result: Result<ListenerHandle, CoreError>)
        requires
            old(tree).wf(),
            hub_sound(old(hub)@, old(tree)@),
            owner.in_tree(old(tree)@),
            old(hub).next_listener < u64::MAX,
            old(tree).ids.resource < u64::MAX,
        ensures
            final(tree).wf(),
            hub_sound(final(hub)@, final(tree)@),
            self.registered(
                *old(hub),
                *old(tree),
                owner,
                event@,
                options,
                false,
                ListenerKind::Sync,
                dynamic_payload(),
                result,
                *final(hub),
                *final(tree),
            ),
    {
        self.on(hub, tree, owner, event, options, dynamic_event())
    }

    /// Registers a synchronous listener for one value.
    pub fn once_dynamic(
        &self,
        hub: &mut EventHub,
        tree: &mut ScopeTree,
        owner: Scope,
        event: String,
        options: EventOptions,
    ) -> (result: Result<ListenerHandle, CoreError>)
        requires
            old(tree).wf(),
            hub_sound(old(hub)@, old(tree)@),
            owner.in_tree(old(tree)@),
            old(hub).next_listener < u64::MAX,
            old(tree).ids.resource < u64::MAX,
        ensures
            final(tree).wf(),
            hub_sound(final(hub)@, final(tree)@),
            self.registered(
                *old(hub),
                *old(tree),
                owner,
                event@,
                options,
                true,
                ListenerKind::Sync,
                dynamic_payload(),
                result,
                *final(hub),
                *final(tree),
            ),
    {
        self.once(hub, tree, owner, event, options, dynamic_event())
    }

    /// Registers an asynchronous listener for values.
    pub fn on_dynamic_async(
        &self,
        hub: &mut EventHub,
        tree: &mut ScopeTree,
        owner: Scope,
        event: String,
        options: EventOptions,
    ) -> (result: Result<ListenerHandle, CoreError>)
        requires
            old(tree).wf(),
            hub_sound(old(hub)@, old(tree)@),
            owner.in_tree(old(tree)@),
            old(hub).next_listener < u64::MAX,
            old(tree).ids.resource < u64::MAX,
        ensures
            final(tree).wf(),
            hub_sound(final(hub)@, final(tree)@),
            self.registered(
                *old(hub),
                *old(tree),
                owner,
                event@,
                options,
                false,
                ListenerKind::Async,
                dynamic_payload(),
                result,
                *final(hub),
                *final(tree),
            ),
    {
        self.on_async(hub, tree, owner, event, options, dynamic_event())
    }

    /// Registers an asynchronous listener for one value.
    pub fn once_dynamic_async(
        &self,
        hub: &mut EventHub,
        tree: &mut ScopeTree,
        owner: Scope,
        event: String,
        options: EventOptions,
    ) -> (result: Result<ListenerHandle, CoreError>)
        requires
            old(tree).wf(),
            hub_sound(old(hub)@, old(tree)@),
            owner.in_tree(old(tree)@),
            old(hub).next_listener < u64::MAX,
            old(tree).ids.resource < u64::MAX,
        ensures
            final(tree).wf(),
            hub_sound(final(hub)@, final(tree)@),
            self.registered(
                *old(hub),
                *old(tree),
                owner,
                event@,
                options,
                true,
                ListenerKind::Async,
                dynamic_payload(),
                result,
                *final(hub),
                *final(tree),
            ),
    {
        self.once_async(hub, tree, owner, event, options, dynamic_event())
    }

    /// Registers a listener for values that decides whether the next one is called.
    pub fn on_dynamic_waterfall(
        &self,
        hub: &mut EventHub,
        tree: &mut ScopeTree,
        owner: Scope,
        event: String,
        options: EventOptions,
    ) -> (result: Result<ListenerHandle, CoreError>)
        requires
            old(tree).wf(),
            hub_sound(old(hub)@, old(tree)@),
            owner.in_tree(old(tree)@),
            old(hub).next_listener < u64::MAX,
            old(tree).ids.resource < u64::MAX,
        ensures
            final(tree).wf(),
            hub_sound(final(hub)@, final(tree)@),
            self.registered(
                *old(hub),
                *old(tree),
                owner,
                event@,
                options,
                false,
                ListenerKind::Waterfall,
                dynamic_payload(),
                result,
                *final(hub),
                *final(tree),
            ),
    {
        self.on_waterfall(hub, tree, owner, event, options, dynamic_event())
    }

    /// Emits a value.
    pub fn emit_dynamic(
        &self,
        hub: &mut EventHub,
        tree: &ScopeTree,
        event: &str,
        replies: &Vec<Reply>,
        duration_nanos: u64,
    ) -> (result: Dispatched<()>)
        requires
            hub_sound(old(hub)@, tree@),
        ensures
            hub_sound(final(hub)@, tree@),
            ({
                let whole = self.course(
                    old(hub)@,
                    tree@,
                    DispatchMode::Emit,
                    event@,
                    DYNAMIC_EVENT,
                    replies@,
                );
                &&& result.called@ == whole.called
                &&& match result.result {
                    Ok(()) => whole.result == Ok::<Option<Json>, CoreFailure>(None),
                    Err(error) => whole.result == Err::<Option<Json>, CoreFailure>(error@),
                }
                &&& final(hub)@ == observed(
                    whole.hub,
                    event@,
                    DispatchMode::Emit,
                    audience(old(hub)@.listeners, event@, self.filter@, tree@).len(),
                    duration_nanos,
                    outcome_after(whole.result),
                )
            }),
    {
        self.emit(hub, tree, event, DYNAMIC_EVENT, replies, duration_nanos)
    }

    /// Offers a value to synchronous listeners until one answers.
    pub fn bail_dynamic(
        &self,
        hub: &mut EventHub,
        tree: &ScopeTree,
        event: &str,
        replies: &Vec<Reply>,
        duration_nanos: u64,
    ) -> (result: Dispatched<Option<JsonValue>>)
        requires
            hub_sound(old(hub)@, tree@),
        ensures
            hub_sound(final(hub)@, tree@),
            ({
                let whole = self.course(
                    old(hub)@,
                    tree@,
                    DispatchMode::Bail,
                    event@,
                    DYNAMIC_EVENT,
                    replies@,
                );
                &&& result.called@ == whole.called
                &&& optional_answer(result.result) == whole.result
                &&& final(hub)@ == observed(
                    whole.hub,
                    event@,
                    DispatchMode::Bail,
                    audience(old(hub)@.listeners, event@, self.filter@, tree@).len(),
                    duration_nanos,
                    outcome_after(whole.result),
                )
            }),
    {
        self.bail(hub, tree, event, DYNAMIC_EVENT, replies, duration_nanos)
    }

    /// Offers a value to listeners, one after the other, until one answers.
    pub fn serial_dynamic(
        &self,
        hub: &mut EventHub,
        tree: &ScopeTree,
        event: &str,
        replies: &Vec<Reply>,
        duration_nanos: u64,
    ) -> (result: Dispatched<Option<JsonValue>>)
        requires
            hub_sound(old(hub)@, tree@),
        ensures
            hub_sound(final(hub)@, tree@),
            ({
                let whole = self.course(
                    old(hub)@,
                    tree@,
                    DispatchMode::Serial,
                    event@,
                    DYNAMIC_EVENT,
                    replies@,
                );
                &&& result.called@ == whole.called
                &&& optional_answer(result.result) == whole.result
                &&& final(hub)@ == observed(
                    whole.hub,
                    event@,
                    DispatchMode::Serial,
                    audience(old(hub)@.listeners, event@, self.filter@, tree@).len(),
                    duration_nanos,
                    outcome_after(whole.result),
                )
            }),
    {
        self.serial(hub, tree, event, DYNAMIC_EVENT, replies, duration_nanos)
    }

    /// Hands a value to every listener, and waits for all of them.
    pub fn parallel_dynamic(
        &self,
        hub: &mut EventHub,
        tree: &ScopeTree,
        event: &str,
        replies: &Vec<Reply>,
        duration_nanos: u64,
    ) -> (result: Dispatched<Vec<JsonValue>>)
        requires
            hub_sound(old(hub)@, tree@),
        ensures
            hub_sound(final(hub)@, tree@),
            ({
                let listeners = audience(old(hub)@.listeners, event@, self.filter@, tree@);
                let whole = planned(old(hub)@, listeners, 0, event@, DYNAMIC_EVENT);
                let answers = answers_in(whole.turns, listeners, replies@);
                &&& result.called@ == called_in(whole.turns, listeners)
                &&& list_answer(result.result) == gathered(answers)
                &&& final(hub)@ == observed(
                    whole.hub,
                    event@,
                    DispatchMode::Parallel,
                    listeners.len(),
                    duration_nanos,
                    gathered_outcome(answers),
                )
            }),
    {
        self.parallel(hub, tree, event, DYNAMIC_EVENT, replies, duration_nanos)
    }

    /// Hands a value to the first listener with the others as its
    /// continuation.
    pub fn waterfall_dynamic(
        &self,
        hub: &mut EventHub,
        tree: &ScopeTree,
        event: &str,
        replies: &Vec<Reply>,
        duration_nanos: u64,
    ) -> (result: Dispatched<JsonValue>)
        requires
            hub_sound(old(hub)@, tree@),
        ensures
            hub_sound(final(hub)@, tree@),
            ({
                let listeners = audience(old(hub)@.listeners, event@, self.filter@, tree@);
                let whole = fall(old(hub)@, listeners, 0, event@, DYNAMIC_EVENT, replies@);
                &&& result.called@ == whole.called
                &&& answer_of(result.result) == whole.result
                &&& final(hub)@ == observed(
                    whole.hub,
                    event@,
                    DispatchMode::Waterfall,
                    listeners.len(),
                    duration_nanos,
                    waterfall_outcome(whole.result),
                )
            }),
    {
        self.waterfall(hub, tree, event, DYNAMIC_EVENT, replies, duration_nanos)
    }
}

}
