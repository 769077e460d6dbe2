//! Events: who listens, who is called, and what a dispatch gives.

use vstd::prelude::*;
use vstd::string::*;

use crate::error::CoreError;
use crate::ids::{IdSource, RealmLabel, ResourceId, ScopeId};
use crate::lifecycle::{
    state_failure, EffectModel, FiberState, RecordModel, Scope, ScopeTree,
};
use crate::listener_laws::{listens, removal_tells_whether_it_was_there};
use crate::text::{join2, same_text};

verus! {

/// A typed, native event name. Payloads stay native and are never serialized.
#[derive(Debug)]
pub struct EventKey<T> {
    pub name: String,
    pub marker: core::marker::PhantomData<T>,
}

impl<T> EventKey<T> {
    pub fn new(name: String) -> (result: Self)
        ensures
            result.name@ == name@,
    {
        EventKey { name, marker: core::marker::PhantomData }
    }

    pub fn name(&self) -> (result: &str)
        ensures
            result@ == self.name@,
    {
        self.name.as_str()
    }
}

/// Registration controls that alter dispatch ordering and visibility.
#[derive(Clone, Copy, Debug, PartialEq, Eq, Structural)]
pub struct EventOptions {
    /// Inserts this listener before ordinary registrations.
    pub prepend: bool,
    /// Makes this listener visible from every event context and realm.
    pub global: bool,
}

impl Default for EventOptions {
    fn default() -> (result: Self)
        ensures
            !result.prepend,
            !result.global,
    {
        EventOptions { prepend: false, global: false }
    }
}

/// The event combination mode recorded in diagnostics.
#[derive(Clone, Copy, Debug, PartialEq, Eq, Structural)]
pub enum DispatchMode {
    Emit,
    Parallel,
    Serial,
    Bail,
    Waterfall,
}

/// The payload-free terminal state of one event dispatch.
#[derive(Clone, Copy, Debug, PartialEq, Eq, Structural)]
pub enum DispatchOutcome {
    Completed,
    Bailed,
    Failed { errors: usize },
}

/// A payload-free dispatch observation suitable for diagnostics.
#[derive(Debug, PartialEq, Eq)]
pub struct DispatchDiagnostic {
    pub event: String,
    pub mode: DispatchMode,
    pub listener_count: usize,
    pub duration_nanos: u64,
    pub outcome: DispatchOutcome,
}

/// The model of a diagnostic.
#[verifier::ext_equal]
pub struct DiagnosticModel {
    pub event: Seq<char>,
    pub mode: DispatchMode,
    pub listener_count: nat,
    pub duration_nanos: u64,
    pub outcome: DispatchOutcome,
}

impl View for DispatchDiagnostic {
    type V = DiagnosticModel;

    open spec fn view(&self) -> DiagnosticModel {
        DiagnosticModel {
            event: self.event@,
            mode: self.mode,
            listener_count: self.listener_count as nat,
            duration_nanos: self.duration_nanos,
            outcome: self.outcome,
        }
    }
}

/// The models of a list of diagnostics.
pub open spec fn diagnostic_list(diagnostics: Seq<DispatchDiagnostic>) -> Seq<DiagnosticModel> {
    Seq::new(diagnostics.len(), |i: int| diagnostics[i]@)
}

/// The context and the realm that a view of the bus is bound to.
#[derive(Debug)]
pub struct EventFilter {
    pub context: Option<ScopeId>,
    pub realm: Option<RealmLabel>,
}

/// The model of a filter.
#[verifier::ext_equal]
pub struct FilterModel {
    pub context: Option<ScopeId>,
    pub realm: Option<Seq<char>>,
}

impl View for EventFilter {
    type V = FilterModel;

    open spec fn view(&self) -> FilterModel {
        FilterModel {
            context: self.context,
            realm: match self.realm {
                Some(label) => Some(label@),
                None => None,
            },
        }
    }
}

impl Clone for EventFilter {
    fn clone(&self) -> (result: Self)
        ensures
            result@ == self@,
    {
        let realm = match &self.realm {
            Some(label) => Some(label.clone()),
            None => None,
        };
        EventFilter { context: self.context, realm }
    }
}

impl EventFilter {
    fn same(&self, other: &EventFilter) -> (result: bool)
        ensures
            result == (self@ == other@),
    {
        let contexts = match (&self.context, &other.context) {
            (Some(a), Some(b)) => *a == *b,
            (None, None) => true,
            _ => false,
        };
        let realms = match (&self.realm, &other.realm) {
            (Some(a), Some(b)) => a.0 == b.0,
            (None, None) => true,
            _ => false,
        };
        contexts && realms
    }
}

/// How a listener is called.
#[derive(Clone, Copy, Debug, PartialEq, Eq, Structural)]
pub enum ListenerKind {
    Sync,
    Async,
    Waterfall,
}

/// The type of a payload: its identity and its name.
#[derive(Debug)]
pub struct PayloadType {
    pub kind: u64,
    pub name: String,
}

/// The model of a payload type.
#[verifier::ext_equal]
pub struct PayloadModel {
    pub kind: u64,
    pub name: Seq<char>,
}

impl View for PayloadType {
    type V = PayloadModel;

    open spec fn view(&self) -> PayloadModel {
        PayloadModel { kind: self.kind, name: self.name@ }
    }
}

impl Clone for PayloadType {
    fn clone(&self) -> (result: Self)
        ensures
            result@ == self@,
    {
        PayloadType { kind: self.kind, name: self.name.clone() }
    }
}

/// One registered listener.
#[derive(Debug)]
pub struct Listener {
    pub event: String,
    pub token: u64,
    pub owner: Scope,
    /// Who sees the listener; everyone when absent.
    pub filter: Option<EventFilter>,
    pub once: bool,
    pub kind: ListenerKind,
    pub expects: PayloadType,
}

/// The model of a listener.
#[verifier::ext_equal]
pub struct ListenerModel {
    pub event: Seq<char>,
    pub token: u64,
    pub owner: Scope,
    pub filter: Option<FilterModel>,
    pub once: bool,
    pub kind: ListenerKind,
    pub expects: PayloadModel,
}

impl View for Listener {
    type V = ListenerModel;

    open spec fn view(&self) -> ListenerModel {
        ListenerModel {
            event: self.event@,
            token: self.token,
            owner: self.owner,
            filter: match self.filter {
                Some(filter) => Some(filter@),
                None => None,
            },
            once: self.once,
            kind: self.kind,
            expects: self.expects@,
        }
    }
}

impl Clone for Listener {
    fn clone(&self) -> (result: Self)
        ensures
            result@ == self@,
    {
        let filter = match &self.filter {
            Some(filter) => Some(filter.clone()),
            None => None,
        };
        Listener {
            event: self.event.clone(),
            token: self.token,
            owner: self.owner,
            filter,
            once: self.once,
            kind: self.kind,
            expects: self.expects.clone(),
        }
    }
}

/// The models of a list of listeners.
pub open spec fn listener_list(listeners: Seq<Listener>) -> Seq<ListenerModel> {
    Seq::new(listeners.len(), |i: int| listeners[i]@)
}

/// The shared state of an event bus.
#[derive(Debug)]
pub struct EventHub {
    /// In dispatch order, over all events.
    pub listeners: Vec<Listener>,
    /// The one-time listeners that had their turn.
    pub claimed: Vec<u64>,
    pub next_listener: u64,
    pub diagnostics: Vec<DispatchDiagnostic>,
}

/// The model of an event bus.
#[verifier::ext_equal]
pub struct HubModel {
    pub listeners: Seq<ListenerModel>,
    pub claimed: Seq<u64>,
    pub next_listener: u64,
    pub diagnostics: Seq<DiagnosticModel>,
}

impl View for EventHub {
    type V = HubModel;

    open spec fn view(&self) -> HubModel {
        HubModel {
            listeners: listener_list(self.listeners@),
            claimed: self.claimed@,
            next_listener: self.next_listener,
            diagnostics: diagnostic_list(self.diagnostics@),
        }
    }
}

/// Tokens are fresh and distinct, and every owner is a scope of the tree.
pub open spec fn hub_sound(hub: HubModel, records: Seq<RecordModel>) -> bool {
    &&& listeners_sound(hub.listeners, hub.next_listener, records)
    &&& forall|i: int| 0 <= i < hub.claimed.len() ==> #[trigger] hub.claimed[i] < hub.next_listener
}

/// Listeners without those of `token` for `event`.
pub open spec fn without_token(
    listeners: Seq<ListenerModel>,
    event: Seq<char>,
    token: u64,
) -> Seq<ListenerModel>
    decreases listeners.len(),
{
    if listeners.len() == 0 {
        listeners
    } else {
        let rest = without_token(listeners.drop_last(), event, token);
        if listeners.last().event == event && listeners.last().token == token {
            rest
        } else {
            rest.push(listeners.last())
        }
    }
}

/// Every token is below `bound`, every owner is in the tree, and tokens differ.
pub open spec fn listeners_sound(
    listeners: Seq<ListenerModel>,
    bound: u64,
    records: Seq<RecordModel>,
) -> bool {
    &&& forall|i: int|
        0 <= i < listeners.len() ==> (#[trigger] listeners[i]).token < bound
            && listeners[i].owner.in_tree(records)
    &&& forall|i: int, j: int|
        0 <= i < j < listeners.len() ==> (#[trigger] listeners[i]).token != (
        #[trigger] listeners[j]).token
}

/// Removing a listener leaves a sound list, made of listeners that were there.
pub proof fn removal_keeps_soundness(
    listeners: Seq<ListenerModel>,
    event: Seq<char>,
    token: u64,
    bound: u64,
    records: Seq<RecordModel>,
)
    requires
        listeners_sound(listeners, bound, records),
    ensures
        listeners_sound(without_token(listeners, event, token), bound, records),
        forall|i: int|
            0 <= i < without_token(listeners, event, token).len() ==> listeners.contains(
                #[trigger] without_token(listeners, event, token)[i],
            ),
    decreases listeners.len(),
{
    if listeners.len() > 0 {
        let shorter = listeners.drop_last();
        assert forall|i: int, j: int| 0 <= i < j < shorter.len() implies (
        #[trigger] shorter[i]).token != (#[trigger] shorter[j]).token by {
            assert(shorter[i] == listeners[i] && shorter[j] == listeners[j]);
        }
        assert forall|i: int| 0 <= i < shorter.len() implies (#[trigger] shorter[i]).token < bound
            && shorter[i].owner.in_tree(records) by {
            assert(shorter[i] == listeners[i]);
        }
        removal_keeps_soundness(shorter, event, token, bound, records);
        let rest = without_token(shorter, event, token);
        let kept = without_token(listeners, event, token);
        let last = listeners.last();
        assert(listeners[listeners.len() - 1] == last);
        assert forall|i: int| 0 <= i < rest.len() implies listeners.contains(#[trigger] rest[i])
            && rest[i].token != last.token by {
            let k = choose|k: int| 0 <= k < shorter.len() && shorter[k] == rest[i];
            assert(listeners[k] == rest[i]);
        }
        assert forall|i: int| 0 <= i < kept.len() implies listeners.contains(#[trigger] kept[i])
            && kept[i].token < bound && kept[i].owner.in_tree(records) by {
            if i < rest.len() {
                assert(kept[i] == rest[i]);
            }
        }
        assert forall|i: int, j: int| 0 <= i < j < kept.len() implies (#[trigger] kept[i]).token
            != (#[trigger] kept[j]).token by {
            assert(kept[i] == rest[i]);
            if j < rest.len() {
                assert(kept[j] == rest[j]);
            }
        }
    }
}

/// A listener for `event` that a view bound to `filter` sees: its owner is
/// active, and it is visible everywhere or was made by an equal view.
pub open spec fn heard(
    listener: ListenerModel,
    event: Seq<char>,
    filter: FilterModel,
    records: Seq<RecordModel>,
) -> bool {
    &&& listener.event == event
    &&& records[listener.owner.index as int].state == FiberState::Active
    &&& listener.filter is None || listener.filter == Some(filter)
}

/// The listeners that a dispatch of `event` through a view calls on, in order.
pub open spec fn audience(
    listeners: Seq<ListenerModel>,
    event: Seq<char>,
    filter: FilterModel,
    records: Seq<RecordModel>,
) -> Seq<ListenerModel>
    decreases listeners.len(),
{
    if listeners.len() == 0 {
        Seq::empty()
    } else {
        let rest = audience(listeners.drop_last(), event, filter, records);
        if heard(listeners.last(), event, filter, records) {
            rest.push(listeners.last())
        } else {
            rest
        }
    }
}

impl EventHub {
    pub fn new() -> (result: Self)
        ensures
            result@ == (HubModel {
                listeners: Seq::empty(),
                claimed: Seq::empty(),
                next_listener: 1,
                diagnostics: Seq::empty(),
            }),
    {
        let result = EventHub {
            listeners: Vec::new(),
            claimed: Vec::new(),
            next_listener: 1,
            diagnostics: Vec::new(),
        };
        assert(result@.listeners =~= Seq::empty());
        assert(result@.diagnostics =~= Seq::empty());
        result
    }

    /// Removes a listener, and says whether it was there.
    pub fn remove_listener(&mut self, event: &str, token: u64) -> (result: bool)
        ensures
            final(self)@ == (HubModel {
                listeners: without_token(old(self)@.listeners, event@, token),
                ..old(self)@
            }),
            result == (final(self)@.listeners != old(self)@.listeners),
            forall|records: Seq<RecordModel>| #[trigger]
                hub_sound(old(self)@, records) ==> hub_sound(final(self)@, records),
    {
        let ghost model = self@.listeners;
        let mut kept: Vec<Listener> = Vec::new();
        let mut i: usize = 0;
        assert(model.subrange(0, 0) =~= Seq::empty());
        assert(listener_list(kept@) =~= Seq::empty());
        while i < self.listeners.len()
            invariant
                i <= self.listeners@.len(),
                *self == *old(self),
                model == listener_list(self.listeners@),
                listener_list(kept@) == without_token(model.subrange(0, i as int), event@, token),
                kept@.len() <= i,
                kept@.len() == i ==> listener_list(kept@) == model.subrange(0, i as int),
            decreases self.listeners@.len() - i,
        {
            let ghost shorter = model.subrange(0, i as int);
            let ghost longer = model.subrange(0, i + 1);
            let ghost before = listener_list(kept@);
            let listener = &self.listeners[i];
            proof {
                assert(longer.drop_last() =~= shorter);
                assert(longer.last() == listener@);
            }
            if !(same_text(listener.event.as_str(), event) && listener.token == token) {
                kept.push(listener.clone());
                assert(listener_list(kept@) =~= before.push(listener@));
                assert(shorter.push(listener@) =~= longer);
            }
            i += 1;
        }
        assert(model.subrange(0, model.len() as int) =~= model);
        let removed = kept.len() != self.listeners.len();
        self.listeners = kept;
        proof {
            if removed {
                assert(self@.listeners.len() != model.len());
            }
            assert forall|records: Seq<RecordModel>| #[trigger]
                hub_sound(old(self)@, records) implies hub_sound(self@, records) by {
                removal_keeps_soundness(model, event@, token, self.next_listener, records);
            }
        }
        removed
    }

    /// Gives a listener its turn: always, or only the first time for a
    /// one-time listener, which is then removed.
    pub fn claim_once(&mut self, listener: &Listener) -> (result: bool)
        ensures
            result == !(listener@.once && old(self)@.claimed.contains(listener@.token)),
            final(self)@ == (if listener@.once && result {
                HubModel {
                    listeners: without_token(
                        old(self)@.listeners,
                        listener@.event,
                        listener@.token,
                    ),
                    claimed: old(self)@.claimed.push(listener@.token),
                    ..old(self)@
                }
            } else {
                old(self)@
            }),
            forall|records: Seq<RecordModel>|
                #![trigger hub_sound(old(self)@, records)]
                hub_sound(old(self)@, records) && listener@.token < old(self)@.next_listener
                    ==> hub_sound(final(self)@, records),
    {
        if !listener.once {
            return true;
        }
        let mut i: usize = 0;
        while i < self.claimed.len()
            invariant
                i <= self.claimed@.len(),
                *self == *old(self),
                listener.once,
                forall|k: int| 0 <= k < i ==> #[trigger] self.claimed@[k] != listener.token,
            decreases self.claimed@.len() - i,
        {
            if self.claimed[i] == listener.token {
                return false;
            }
            i += 1;
        }
        self.claimed.push(listener.token);
        let ghost middle = self@;
        assert(forall|records: Seq<RecordModel>|
            #![trigger hub_sound(old(self)@, records)]
            hub_sound(old(self)@, records) && listener@.token < old(self)@.next_listener
                ==> hub_sound(middle, records));
        self.remove_listener(listener.event.as_str(), listener.token);
        true
    }

    /// Adds an observation.
    pub fn record(
        &mut self,
        event: &str,
        mode: DispatchMode,
        listener_count: usize,
        duration_nanos: u64,
        outcome: DispatchOutcome,
    )
        ensures
            final(self)@ == (HubModel {
                diagnostics: old(self)@.diagnostics.push(
                    DiagnosticModel {
                        event: event@,
                        mode,
                        listener_count: listener_count as nat,
                        duration_nanos,
                        outcome,
                    },
                ),
                ..old(self)@
            }),
    {
        let ghost before = diagnostic_list(self.diagnostics@);
        let diagnostic = DispatchDiagnostic {
            event: event.to_owned(),
            mode,
            listener_count,
            duration_nanos,
            outcome,
        };
        self.diagnostics.push(diagnostic);
        assert(diagnostic_list(self.diagnostics@) =~= before.push(diagnostic@));
    }

    /// Copies of the observations so far.
    pub fn diagnostics(&self) -> (result: Vec<DispatchDiagnostic>)
        ensures
            diagnostic_list(result@) == self@.diagnostics,
    {
        let mut result: Vec<DispatchDiagnostic> = Vec::new();
        let mut i: usize = 0;
        while i < self.diagnostics.len()
            invariant
                i <= self.diagnostics@.len(),
                result@.len() == i,
                forall|k: int| 0 <= k < i ==> (#[trigger] result@[k])@ == self.diagnostics@[k]@,
            decreases self.diagnostics@.len() - i,
        {
            let diagnostic = &self.diagnostics[i];
            result.push(
                DispatchDiagnostic {
                    event: diagnostic.event.clone(),
                    mode: diagnostic.mode,
                    listener_count: diagnostic.listener_count,
                    duration_nanos: diagnostic.duration_nanos,
                    outcome: diagnostic.outcome,
                },
            );
            i += 1;
        }
        assert(diagnostic_list(result@) =~= diagnostic_list(self.diagnostics@));
        result
    }

    /// Takes the observations so far.
    pub fn take_diagnostics(&mut self) -> (result: Vec<DispatchDiagnostic>)
        ensures
            diagnostic_list(result@) == old(self)@.diagnostics,
            final(self)@ == (HubModel { diagnostics: Seq::empty(), ..old(self)@ }),
    {
        let mut taken: Vec<DispatchDiagnostic> = Vec::new();
        core::mem::swap(&mut self.diagnostics, &mut taken);
        assert(diagnostic_list(self.diagnostics@) =~= Seq::empty());
        taken
    }
}

/// A scope-owned event registration.
#[derive(Debug)]
pub struct ListenerHandle {
    pub id: ResourceId,
    pub event: String,
    pub token: u64,
}

impl ListenerHandle {
    pub fn id(&self) -> (result: ResourceId)
        ensures
            result == self.id,
    {
        self.id
    }

    /// Stops future dispatches, and says whether the listener was registered.
    /// Dispatches under way keep their listeners.
    pub fn remove(&self, hub: &mut EventHub) -> (result: bool)
        ensures
            final(hub)@ == (HubModel {
                listeners: without_token(old(hub)@.listeners, self.event@, self.token),
                ..old(hub)@
            }),
            result == listens(old(hub)@.listeners, self.event@, self.token),
            forall|records: Seq<RecordModel>| #[trigger]
                hub_sound(old(hub)@, records) ==> hub_sound(final(hub)@, records),
    {
        proof {
            removal_tells_whether_it_was_there(hub@.listeners, self.event@, self.token);
        }
        hub.remove_listener(self.event.as_str(), self.token)
    }
}

/// A context-bound view of a shared event hub.
#[derive(Debug)]
pub struct EventBus {
    pub filter: EventFilter,
}

impl EventBus {
    /// A view that is bound to no context and no realm.
    pub fn new() -> (result: Self)
        ensures
            result.filter@ == (FilterModel { context: None, realm: None }),
    {
        EventBus { filter: EventFilter { context: None, realm: None } }
    }

    /// This view bound to the context of a scope.
    pub fn in_context(&self, tree: &ScopeTree, scope: Scope) -> (result: Self)
        requires
            scope.in_tree(tree@),
        ensures
            result.filter@ == (FilterModel {
                context: Some(tree@[scope.index as int].id),
                ..self.filter@
            }),
    {
        let mut filter = self.filter.clone();
        filter.context = Some(scope.id(tree));
        EventBus { filter }
    }

    /// This view bound to a realm.
    pub fn in_realm(&self, realm: RealmLabel) -> (result: Self)
        ensures
            result.filter@ == (FilterModel { realm: Some(realm@), ..self.filter@ }),
    {
        let mut filter = self.filter.clone();
        filter.realm = Some(realm);
        EventBus { filter }
    }

    /// The listener that a registration through this view makes.
    pub open spec fn made(
        &self,
        hub: HubModel,
        owner: Scope,
        event: Seq<char>,
        options: EventOptions,
        once: bool,
        kind: ListenerKind,
        expects: PayloadModel,
    ) -> ListenerModel {
        ListenerModel {
            event,
            token: hub.next_listener,
            owner,
            filter: if options.global {
                None
            } else {
                Some(self.filter@)
            },
            once,
            kind,
            expects,
        }
    }

    /// What a registration gives and changes.
    pub open spec fn registered(
        &self,
        hub: EventHub,
        tree: ScopeTree,
        owner: Scope,
        event: Seq<char>,
        options: EventOptions,
        once: bool,
        kind: ListenerKind,
        expects: PayloadModel,
        result: Result<ListenerHandle, CoreError>,
        hub_after: EventHub,
        tree_after: ScopeTree,
    ) -> bool {
        let at = owner.index as int;
        let record = tree@[at];
        let listener = self.made(hub@, owner, event, options, once, kind, expects);
        match result {
            Ok(handle) => {
                &&& record.state == FiberState::Active
                &&& handle.id.0 == tree.ids.resource
                &&& handle.event@ == event
                &&& handle.token == hub.next_listener
                &&& hub_after@ == (HubModel {
                    listeners: if options.prepend {
                        seq![listener] + hub@.listeners
                    } else {
                        hub@.listeners.push(listener)
                    },
                    next_listener: (hub.next_listener + 1) as u64,
                    ..hub@
                })
                &&& tree_after.ids == (IdSource {
                    resource: (tree.ids.resource + 1) as u64,
                    ..tree.ids
                })
                &&& tree_after@ == tree@.update(
                    at,
                    RecordModel {
                        effects: record.effects.push(
                            EffectModel {
                                id: handle.id,
                                label: "listener:"@ + event,
                                children: Seq::empty(),
                            },
                        ),
                        ..record
                    },
                )
            },
            Err(error) => {
                &&& record.state != FiberState::Active
                &&& error@ == state_failure("register listener"@, record.state)
                &&& hub_after == hub
                &&& tree_after == tree
            },
        }
    }

    /// Registers a listener that `owner` owns: at the end of the line, or at
    /// its front. Refused once the owner is no longer active.
    pub fn register(
        &self,
        hub: &mut EventHub,
        tree: &mut ScopeTree,
        owner: Scope,
        event: String,
        options: EventOptions,
        once: bool,
        kind: ListenerKind,
        expects: PayloadType,
    ) -> (result: Result<ListenerHandle, CoreError>)
        requires
            old(tree).wf(),
            hub_sound(old(hub)@, old(tree)@),
            owner.in_tree(old(tree)@),
            old(hub).next_listener < u64::MAX,
            old(tree).ids.resource < u64::MAX,
        ensures
            final(tree).wf(),
            hub_sound(final(hub)@, final(tree)@),
            self.registered(
                *old(hub),
                *old(tree),
                owner,
                event@,
                options,
                once,
                kind,
                expects@,
                result,
                *final(hub),
                *final(tree),
            ),
    {
        let state = owner.state(tree);
        if state != FiberState::Active {
            return Err(
                CoreError::InvalidState { operation: "register listener".to_owned(), state },
            );
        }
        let ghost before = hub@;
        let ghost records = tree@;
        let label = join2("listener:", event.as_str());
        let id = match owner.add_effect(tree, label) {
            Ok(id) => id,
            Err(error) => return Err(error),
        };
        let token = hub.next_listener;
        hub.next_listener = token + 1;
        let filter = if options.global {
            None
        } else {
            Some(self.filter.clone())
        };
        let listener = Listener {
            event: event.clone(),
            token,
            owner,
            filter,
            once,
            kind,
            expects,
        };
        let ghost model = listener@;
        if options.prepend {
            hub.listeners.insert(0, listener);
            assert(listener_list(hub.listeners@) =~= seq![model] + before.listeners);
        } else {
            hub.listeners.push(listener);
            assert(listener_list(hub.listeners@) =~= before.listeners.push(model));
        }
        proof {
            let after = hub@;
            let shift: int = if options.prepend { 1 } else { 0 };
            assert forall|i: int| 0 <= i < after.listeners.len() implies (
            #[trigger] after.listeners[i]).token < after.next_listener
                && after.listeners[i].owner.in_tree(tree@) by {
                if after.listeners[i] != model {
                    assert(after.listeners[i] == before.listeners[i - shift]);
                }
            }
            assert forall|i: int, j: int| 0 <= i < j < after.listeners.len() implies (
            #[trigger] after.listeners[i]).token != (#[trigger] after.listeners[j]).token by {
                if options.prepend {
                    assert(after.listeners[j] == before.listeners[j - 1]);
                    if i > 0 {
                        assert(after.listeners[i] == before.listeners[i - 1]);
                    }
                } else {
                    assert(after.listeners[i] == before.listeners[i]);
                    if j < before.listeners.len() {
                        assert(after.listeners[j] == before.listeners[j]);
                    }
                }
            }
            assert(listeners_sound(after.listeners, after.next_listener, tree@));
            assert forall|i: int| 0 <= i < after.claimed.len() implies #[trigger] after.claimed[i]
                < after.next_listener by {
                assert(before.claimed[i] < before.next_listener);
            }
        }
        Ok(ListenerHandle { id, event, token })
    }

    /// Registers a synchronous listener.
    pub fn on(
        &self,
        hub: &mut EventHub,
        tree: &mut ScopeTree,
        owner: Scope,
        event: String,
        options: EventOptions,
        expects: PayloadType,
    ) -> (result: Result<ListenerHandle, CoreError>)
        requires
            old(tree).wf(),
            hub_sound(old(hub)@, old(tree)@),
            owner.in_tree(old(tree)@),
            old(hub).next_listener < u64::MAX,
            old(tree).ids.resource < u64::MAX,
        ensures
            final(tree).wf(),
            hub_sound(final(hub)@, final(tree)@),
            self.registered(
                *old(hub),
                *old(tree),
                owner,
                event@,
                options,
                false,
                ListenerKind::Sync,
                expects@,
                result,
                *final(hub),
                *final(tree),
            ),
    {
        self.register(hub, tree, owner, event, options, false, ListenerKind::Sync, expects)
    }

    /// Registers a synchronous listener that is called at most once.
    pub fn once(
        &self,
        hub: &mut EventHub,
        tree: &mut ScopeTree,
        owner: Scope,
        event: String,
        options: EventOptions,
        expects: PayloadType,
    ) -> (result: Result<ListenerHandle, CoreError>)
        requires
            old(tree).wf(),
            hub_sound(old(hub)@, old(tree)@),
            owner.in_tree(old(tree)@),
            old(hub).next_listener < u64::MAX,
            old(tree).ids.resource < u64::MAX,
        ensures
            final(tree).wf(),
            hub_sound(final(hub)@, final(tree)@),
            self.registered(
                *old(hub),
                *old(tree),
                owner,
                event@,
                options,
                true,
                ListenerKind::Sync,
                expects@,
                result,
                *final(hub),
                *final(tree),
            ),
    {
        self.register(hub, tree, owner, event, options, true, ListenerKind::Sync, expects)
    }

    /// Registers an asynchronous listener.
    pub fn on_async(
        &self,
        hub: &mut EventHub,
        tree: &mut ScopeTree,
        owner: Scope,
        event: String,
        options: EventOptions,
        expects: PayloadType,
    ) -> (result: Result<ListenerHandle, CoreError>)
        requires
            old(tree).wf(),
            hub_sound(old(hub)@, old(tree)@),
            owner.in_tree(old(tree)@),
            old(hub).next_listener < u64::MAX,
            old(tree).ids.resource < u64::MAX,
        ensures
            final(tree).wf(),
            hub_sound(final(hub)@, final(tree)@),
            self.registered(
                *old(hub),
                *old(tree),
                owner,
                event@,
                options,
                false,
                ListenerKind::Async,
                expects@,
                result,
                *final(hub),
                *final(tree),
            ),
    {
        self.register(hub, tree, owner, event, options, false, ListenerKind::Async, expects)
    }

    /// Registers an asynchronous listener that is called at most once.
    pub fn once_async(
        &self,
        hub: &mut EventHub,
        tree: &mut ScopeTree,
        owner: Scope,
        event: String,
        options: EventOptions,
        expects: PayloadType,
    ) -> (result: Result<ListenerHandle, CoreError>)
        requires
            old(tree).wf(),
            hub_sound(old(hub)@, old(tree)@),
            owner.in_tree(old(tree)@),
            old(hub).next_listener < u64::MAX,
            old(tree).ids.resource < u64::MAX,
        ensures
            final(tree).wf(),
            hub_sound(final(hub)@, final(tree)@),
            self.registered(
                *old(hub),
                *old(tree),
                owner,
                event@,
                options,
                true,
                ListenerKind::Async,
                expects@,
                result,
                *final(hub),
                *final(tree),
            ),
    {
        self.register(hub, tree, owner, event, options, true, ListenerKind::Async, expects)
    }

    /// Registers a listener that decides whether the next one is called.
    pub fn on_waterfall(
        &self,
        hub: &mut EventHub,
        tree: &mut ScopeTree,
        owner: Scope,
        event: String,
        options: EventOptions,
        expects: PayloadType,
    ) -> (result: Result<ListenerHandle, CoreError>)
        requires
            old(tree).wf(),
            hub_sound(old(hub)@, old(tree)@),
            owner.in_tree(old(tree)@),
            old(hub).next_listener < u64::MAX,
            old(tree).ids.resource < u64::MAX,
        ensures
            final(tree).wf(),
            hub_sound(final(hub)@, final(tree)@),
            self.registered(
                *old(hub),
                *old(tree),
                owner,
                event@,
                options,
                false,
                ListenerKind::Waterfall,
                expects@,
                result,
                *final(hub),
                *final(tree),
            ),
    {
        self.register(hub, tree, owner, event, options, false, ListenerKind::Waterfall, expects)
    }

    /// The listeners that a dispatch through this view calls on, as they are
    /// now. Later registrations and removals do not change them.
    pub fn snapshot(&self, hub: &EventHub, tree: &ScopeTree, event: &str) -> (result: Vec<Listener>)
        requires
            hub_sound(hub@, tree@),
        ensures
            listener_list(result@) == audience(hub@.listeners, event@, self.filter@, tree@),
    {
        let ghost model = hub@.listeners;
        let mut result: Vec<Listener> = Vec::new();
        let mut i: usize = 0;
        assert(model.subrange(0, 0) =~= Seq::empty());
        assert(listener_list(result@) =~= Seq::empty());
        while i < hub.listeners.len()
            invariant
                hub_sound(hub@, tree@),
                i <= hub.listeners@.len(),
                model == hub@.listeners,
                listener_list(result@) == audience(
                    model.subrange(0, i as int),
                    event@,
                    self.filter@,
                    tree@,
                ),
            decreases hub.listeners@.len() - i,
        {
            let ghost shorter = model.subrange(0, i as int);
            let ghost longer = model.subrange(0, i + 1);
            let ghost before = listener_list(result@);
            let listener = &hub.listeners[i];
            proof {
                assert(model[i as int] == listener@);
                assert(longer.drop_last() =~= shorter);
                assert(longer.last() == listener@);
            }
            let visible = match &listener.filter {
                None => true,
                Some(filter) => filter.same(&self.filter),
            };
            if same_text(listener.event.as_str(), event) && listener.owner.state(tree)
                == FiberState::Active && visible {
                result.push(listener.clone());
                assert(listener_list(result@) =~= before.push(listener@));
            }
            i += 1;
        }
        assert(model.subrange(0, model.len() as int) =~= model);
        result
    }
}

}
