//! One native plugin and the fiber that owns all it creates.
//!
//! The plugin's own hooks run outside. Each function here decides what may run
//! next, or turns what a hook gave into the outcome of the operation.

use vstd::prelude::*;
use vstd::string::*;

use crate::context::{
    resolved, resolved_dependencies, subscribes, ContextHandle, ContextModel,
    DependencySubscription, Subscribed,
};
use crate::error::{outcome_of, CoreError, CoreFailure};
use crate::ids::{FiberId, IdSource, ScopeId};
use crate::json::JsonValue;
use crate::lifecycle::{
    after_scope, effect_list, fresh_record, shown_state, state_failure, EffectMeta, Fiber,
    FiberState, RecordModel, Scope, ScopeTree,
};
use crate::native::{
    fiber_failure, lifecycle_error, native_cleanup, native_config_fault, native_failures,
    native_outcome, NativeFailure, NativePluginDescriptor, NativePluginError, NativePluginPhase,
};
use crate::registry::{entry_of, readiness, Registries};
use crate::service::dependency_list;

verus! {

/// The durable diagnostic state of one native plugin fiber.
#[derive(Debug, PartialEq, Eq)]
pub struct NativeFiberSnapshot {
    pub id: FiberId,
    pub name: String,
    pub state: FiberState,
    pub scope: ScopeId,
    pub resources: Vec<EffectMeta>,
}

/// A copyable inspection view of one native plugin instance.
#[derive(Debug)]
pub struct NativePluginSnapshot {
    pub descriptor: NativePluginDescriptor,
    pub config: JsonValue,
    pub fiber: NativeFiberSnapshot,
}

/// What a plugin waits for before it starts.
#[derive(Debug)]
pub enum DependencyGate {
    /// Nothing.
    Open,
    /// The required dependencies of this subscription.
    Subscribed(DependencySubscription),
}

/// What became of the wish to run a plugin's hooks.
#[derive(Debug)]
pub enum Admission {
    /// Run them in this scope.
    Run(Scope),
    /// A required service is missing; ask again when the services change.
    Wait,
    /// The fiber cannot start. The plugin has to be stopped.
    Refused(CoreError),
}

/// One plugin and the fiber which owns every lifecycle-created resource.
#[derive(Debug)]
pub struct NativePluginInstance {
    pub descriptor: NativePluginDescriptor,
    /// The factory for transactional updates, if there is one.
    pub factory: Option<u64>,
    pub context: ContextHandle,
    pub config: JsonValue,
    pub fiber: Fiber,
    pub barrier: Option<DependencyGate>,
    pub start_attempted: bool,
    pub stopped: bool,
}

/// A lifecycle operation that the state of the fiber forbids.
pub open spec fn native_state_failure(operation: Seq<char>, state: FiberState) -> NativeFailure {
    NativeFailure::Core(state_failure(operation, state))
}

fn invalid_state(operation: &str, state: FiberState) -> (result: NativePluginError)
    ensures
        result@ == native_state_failure(operation@, state),
{
    NativePluginError::Core(CoreError::InvalidState { operation: operation.to_owned(), state })
}

impl NativePluginInstance {
    /// The scopes and the registry that this instance works with exist.
    pub open spec fn lives(&self, tree: ScopeTree, registries: Registries) -> bool {
        &&& self.context.lives(tree@, registries@)
        &&& self.fiber.scope.in_tree(tree@)
        &&& self.barrier matches Some(DependencyGate::Subscribed(subscription)) ==>
            subscription.registry.index < registries@.len()
    }

    /// The state that the fiber shows.
    pub open spec fn shown(&self, tree: ScopeTree) -> FiberState {
        shown_state(tree@[self.fiber.scope.index as int].state, self.fiber.state)
    }

    /// What creating an instance gives and changes: a pending instance, once
    /// the descriptor and the configuration pass every rule and the context
    /// takes a fiber.
    pub open spec fn instantiated(
        tree: ScopeTree,
        descriptor: NativePluginDescriptor,
        factory: Option<u64>,
        context: ContextHandle,
        config: JsonValue,
        result: Result<Self, NativePluginError>,
        tree_after: ScopeTree,
    ) -> bool {
        let at = context.scope.index as int;
        let record = tree@[at];
        match result {
            Ok(instance) => {
                &&& native_config_fault(descriptor@, config@) is None
                &&& record.state == FiberState::Active
                &&& instance.descriptor@ == descriptor@
                &&& instance.factory == factory
                &&& instance.context@ == context@
                &&& instance.config@ == config@
                &&& instance.fiber.id.0 == tree.ids.fiber
                &&& instance.fiber.name@ == descriptor@.name
                &&& instance.fiber.state == FiberState::Pending
                &&& instance.fiber.scope.index == tree@.len()
                &&& instance.barrier is None
                &&& !instance.start_attempted
                &&& !instance.stopped
                &&& tree_after@ == tree@.update(
                    at,
                    RecordModel {
                        children: record.children.push(instance.fiber.scope),
                        ..record
                    },
                ).push(fresh_record(tree.ids))
                &&& tree_after.ids == (IdSource {
                    fiber: (tree.ids.fiber + 1) as u64,
                    ..after_scope(tree.ids)
                })
                &&& instance.shown(tree_after) == FiberState::Pending
            },
            Err(error) => tree_after@ == tree@ && match native_config_fault(descriptor@, config@) {
                Some(failure) => error@ == failure && tree_after.ids == tree.ids,
                None => record.state != FiberState::Active && error@ == native_state_failure(
                    "create child scope"@,
                    record.state,
                ) && tree_after.ids == (IdSource {
                    fiber: (tree.ids.fiber + 1) as u64,
                    ..tree.ids
                }),
            },
        }
    }

    /// Creates a pending instance after validating the descriptor and initial
    /// config.
    pub fn instantiate(
        tree: &mut ScopeTree,
        descriptor: NativePluginDescriptor,
        context: ContextHandle,
        config: JsonValue,
    ) -> (result: Result<Self, NativePluginError>)
        requires
            old(tree).wf(),
            context.scope.in_tree(old(tree)@),
            old(tree).has_scope_ids(),
            old(tree).ids.fiber < u64::MAX,
        ensures
            final(tree).wf(),
            Self::instantiated(
                *old(tree),
                descriptor,
                None,
                context,
                config,
                result,
                *final(tree),
            ),
    {
        Self::instantiate_inner(tree, descriptor, None, context, config)
    }

    /// Creates an instance which can stage a fresh plugin during transactional
    /// updates.
    pub fn instantiate_with_factory(
        tree: &mut ScopeTree,
        descriptor: NativePluginDescriptor,
        factory: u64,
        context: ContextHandle,
        config: JsonValue,
    ) -> (result: Result<Self, NativePluginError>)
        requires
            old(tree).wf(),
            context.scope.in_tree(old(tree)@),
            old(tree).has_scope_ids(),
            old(tree).ids.fiber < u64::MAX,
        ensures
            final(tree).wf(),
            Self::instantiated(
                *old(tree),
                descriptor,
                Some(factory),
                context,
                config,
                result,
                *final(tree),
            ),
    {
        Self::instantiate_inner(tree, descriptor, Some(factory), context, config)
    }

    fn instantiate_inner(
        tree: &mut ScopeTree,
        descriptor: NativePluginDescriptor,
        factory: Option<u64>,
        context: ContextHandle,
        config: JsonValue,
    ) -> (result: Result<Self, NativePluginError>)
        requires
            old(tree).wf(),
            context.scope.in_tree(old(tree)@),
            old(tree).has_scope_ids(),
            old(tree).ids.fiber < u64::MAX,
        ensures
            final(tree).wf(),
            Self::instantiated(
                *old(tree),
                descriptor,
                factory,
                context,
                config,
                result,
                *final(tree),
            ),
    {
        match descriptor.validate_config(&config) {
            Ok(()) => {},
            Err(error) => return Err(error),
        }
        let fiber = match Fiber::new(tree, context.scope, descriptor.name.clone()) {
            Ok(fiber) => fiber,
            Err(error) => return Err(NativePluginError::Core(error)),
        };
        Ok(
            NativePluginInstance {
                descriptor,
                factory,
                context,
                config,
                fiber,
                barrier: None,
                start_attempted: false,
                stopped: false,
            },
        )
    }

    /// What waiting for the dependencies asks for: nothing, if the barrier is
    /// already there or there are no dependencies.
    fn open_barrier(&mut self, tree: &mut ScopeTree, registries: &mut Registries) -> (result: Result<
        (),
        NativePluginError,
    >)
        requires
            old(tree).wf(),
            old(registries).wf(),
            old(self).lives(*old(tree), *old(registries)),
            old(tree).ids.resource < u64::MAX - 1,
        ensures
            final(tree).wf(),
            final(registries).wf(),
            final(self).lives(*final(tree), *final(registries)),
            old(self).guarded() ==> final(self).guarded(),
            old(self).opens_barrier(
                *old(tree),
                *old(registries),
                result,
                *final(self),
                *final(tree),
                *final(registries),
            ),
    {
        if self.barrier.is_some() {
            return Ok(());
        }
        if self.descriptor.dependencies.len() == 0 {
            self.barrier = Some(DependencyGate::Open);
            return Ok(());
        }
        let context = self.context.with_scope(self.fiber.scope);
        match context.subscribe(tree, registries, &self.descriptor.dependencies) {
            Ok(subscribed) => {
                self.barrier = Some(DependencyGate::Subscribed(subscribed.subscription));
                assert(subscribes(
                    context@,
                    *old(tree),
                    *old(registries),
                    self.descriptor.dependencies@,
                    Ok(subscribed),
                    *tree,
                    *registries,
                ));
                Ok(())
            },
            Err(error) => {
                assert(subscribes(
                    context@,
                    *old(tree),
                    *old(registries),
                    self.descriptor.dependencies@,
                    Err(error),
                    *tree,
                    *registries,
                ));
                Err(NativePluginError::Core(error))
            },
        }
    }

    /// What opening the barrier gives and changes: it is opened once, by
    /// subscribing to the dependencies in the fiber's own scope.
    pub open spec fn opens_barrier(
        &self,
        tree: ScopeTree,
        registries: Registries,
        result: Result<(), NativePluginError>,
        after: NativePluginInstance,
        tree_after: ScopeTree,
        registries_after: Registries,
    ) -> bool {
        let same = NativePluginInstance { barrier: after.barrier, ..*self };
        let context = ContextModel { scope: self.fiber.scope, ..self.context@ };
        &&& after == same
        &&& if self.barrier is Some {
            result is Ok && after == *self && tree_after == tree && registries_after == registries
        } else if self.descriptor.dependencies@.len() == 0 {
            result is Ok && after.barrier == Some(DependencyGate::Open) && tree_after == tree
                && registries_after == registries
        } else {
            exists|inner: Result<Subscribed, CoreError>|
                {
                    &&& #[trigger] subscribes(
                        context,
                        tree,
                        registries,
                        self.descriptor.dependencies@,
                        inner,
                        tree_after,
                        registries_after,
                    )
                    &&& match inner {
                        Ok(subscribed) => result is Ok && after.barrier == Some(
                            DependencyGate::Subscribed(subscribed.subscription),
                        ),
                        Err(error) => native_outcome(result) == Err::<(), NativeFailure>(
                            NativeFailure::Core(error@),
                        ) && after.barrier is None,
                    }
                }
        }
    }

    /// Begins a start: of a pending plugin with a valid configuration, which
    /// then waits at its barrier.
    pub fn start(&mut self, tree: &mut ScopeTree, registries: &mut Registries) -> (result: Result<
        (),
        NativePluginError,
    >)
        requires
            old(tree).wf(),
            old(registries).wf(),
            old(self).lives(*old(tree), *old(registries)),
            old(tree).ids.resource < u64::MAX - 1,
        ensures
            final(tree).wf(),
            final(registries).wf(),
            final(self).lives(*final(tree), *final(registries)),
            old(self).guarded() ==> final(self).guarded(),
            match native_config_fault(old(self).descriptor@, old(self).config@) {
                Some(failure) => native_outcome(result) == Err::<(), NativeFailure>(failure)
                    && *final(self) == *old(self) && *final(tree) == *old(tree)
                    && *final(registries) == *old(registries),
                None => if old(self).shown(*old(tree)) != FiberState::Pending {
                    native_outcome(result) == Err::<(), NativeFailure>(
                        native_state_failure(
                            "start native plugin"@,
                            old(self).shown(*old(tree)),
                        ),
                    ) && *final(self) == *old(self) && *final(tree) == *old(tree)
                        && *final(registries) == *old(registries)
                } else {
                    old(self).opens_barrier(
                        *old(tree),
                        *old(registries),
                        result,
                        *final(self),
                        *final(tree),
                        *final(registries),
                    )
                },
            },
    {
        match self.descriptor.validate_config(&self.config) {
            Ok(()) => {},
            Err(error) => return Err(error),
        }
        let state = self.fiber.state(tree);
        if state != FiberState::Pending {
            return Err(invalid_state("start native plugin", state));
        }
        self.open_barrier(tree, registries)
    }

    /// Begins the start of a staged candidate, which waits at its barrier too.
    pub fn start_after_update(&mut self, tree: &mut ScopeTree, registries: &mut Registries) -> (result:
        Result<(), NativePluginError>)
        requires
            old(tree).wf(),
            old(registries).wf(),
            old(self).lives(*old(tree), *old(registries)),
            old(tree).ids.resource < u64::MAX - 1,
        ensures
            final(tree).wf(),
            final(registries).wf(),
            final(self).lives(*final(tree), *final(registries)),
            old(self).guarded() ==> final(self).guarded(),
            old(self).opens_barrier(
                *old(tree),
                *old(registries),
                result,
                *final(self),
                *final(tree),
                *final(registries),
            ),
    {
        self.open_barrier(tree, registries)
    }

    /// The barrier lets the plugin through. Without a barrier, only a plugin
    /// that depends on nothing goes through.
    pub open spec fn open(&self, registries: Registries) -> bool {
        match self.barrier {
            Some(DependencyGate::Subscribed(subscription)) => readiness(
                registries@,
                subscription.registry.index as int,
                dependency_list(subscription.dependencies@),
            ).ready,
            Some(DependencyGate::Open) => true,
            None => self.descriptor.dependencies@.len() == 0,
        }
    }

    /// The barrier, if there is one, waits for what the descriptor asks for.
    pub open spec fn guarded(&self) -> bool {
        match self.barrier {
            Some(DependencyGate::Subscribed(subscription)) => {
                &&& subscription.registry == self.context@.registry
                &&& dependency_list(subscription.dependencies@) == resolved_dependencies(
                    ContextModel { scope: self.fiber.scope, ..self.context@ },
                    self.descriptor.dependencies@,
                )
            },
            Some(DependencyGate::Open) => self.descriptor.dependencies@.len() == 0,
            None => true,
        }
    }

    /// Whether the barrier is open. Cancellation comes first.
    pub fn wait_for_dependencies(&self, registries: &Registries, cancelled: bool) -> (result: Result<
        bool,
        CoreError,
    >)
        requires
            registries.wf(),
            self.barrier matches Some(DependencyGate::Subscribed(subscription)) ==>
                subscription.registry.index < registries@.len(),
        ensures
            match result {
                Ok(ready) => !cancelled && ready == self.open(*registries),
                Err(error) => cancelled && error@ == CoreFailure::Cancelled,
            },
    {
        if cancelled {
            return Err(CoreError::Cancelled);
        }
        match &self.barrier {
            Some(DependencyGate::Subscribed(subscription)) => Ok(subscription.ready(registries)),
            Some(DependencyGate::Open) => Ok(true),
            None => Ok(self.descriptor.dependencies.len() == 0),
        }
    }

    /// What became of the wish to run the hooks now.
    pub open spec fn admits(
        &self,
        tree: ScopeTree,
        registries: Registries,
        cancelled: bool,
        result: Result<Admission, CoreError>,
        after: Self,
    ) -> bool {
        let scope = tree@[self.fiber.scope.index as int].state;
        let may_start = scope == FiberState::Active && self.fiber.state == FiberState::Pending;
        if cancelled {
            &&& after == *self
            &&& result is Err
            &&& result->Err_0@ == CoreFailure::Cancelled
        } else if !self.open(registries) {
            after == *self && result == Ok::<Admission, CoreError>(Admission::Wait)
        } else {
            &&& after == (NativePluginInstance {
                start_attempted: true,
                fiber: Fiber {
                    state: if may_start {
                        FiberState::Loading
                    } else {
                        self.fiber.state
                    },
                    ..self.fiber
                },
                ..*self
            })
            &&& match result {
                Ok(Admission::Run(handle)) => may_start && handle == self.fiber.scope,
                Ok(Admission::Refused(error)) => !may_start && error@ == state_failure(
                    "start fiber"@,
                    shown_state(scope, if scope == FiberState::Active {
                        self.fiber.state
                    } else {
                        scope
                    }),
                ),
                _ => false,
            }
        }
    }

    /// Enters the fiber, once the barrier is open: every required service is
    /// there. The hooks run next, in the scope that is given; from then on the
    /// plugin has to be stopped. `cancelled` tells whether the wait was
    /// cancelled, which comes first.
    pub fn enter(&mut self, tree: &ScopeTree, registries: &Registries, cancelled: bool) -> (result:
        Result<Admission, CoreError>)
        requires
            registries.wf(),
            old(self).lives(*tree, *registries),
        ensures
            old(self).admits(*tree, *registries, cancelled, result, *final(self)),
    {
        match self.wait_for_dependencies(registries, cancelled) {
            Err(error) => return Err(error),
            Ok(ready) => {
                if !ready {
                    return Ok(Admission::Wait);
                }
            },
        }
        self.start_attempted = true;
        match self.fiber.start(tree) {
            Ok(scope) => Ok(Admission::Run(scope)),
            Err(error) => Ok(Admission::Refused(error)),
        }
    }

    /// Whether the plugin has to be stopped: it was started and not stopped.
    pub open spec fn owes_stop(&self) -> bool {
        self.start_attempted && !self.stopped
    }

    /// Claims the one stop of a plugin, and says whether it is due.
    pub fn stop_plugin(&mut self) -> (result: bool)
        ensures
            result == old(self).owes_stop(),
            *final(self) == (NativePluginInstance {
                stopped: old(self).stopped || result,
                ..*old(self)
            }),
    {
        if !self.start_attempted || self.stopped {
            return false;
        }
        self.stopped = true;
        true
    }

    /// Checks that the plugin can be updated, and gives the factory of the
    /// candidate. Nothing changes.
    pub fn update(&self, tree: &ScopeTree, config: &JsonValue) -> (result: Result<
        u64,
        NativePluginError,
    >)
        requires
            self.fiber.scope.in_tree(tree@),
        ensures
            ({
                let state = self.shown(*tree);
                match result {
                    Ok(factory) => native_config_fault(self.descriptor@, config@) is None && state
                        == FiberState::Active && self.factory == Some(factory),
                    Err(error) => match native_config_fault(self.descriptor@, config@) {
                        Some(failure) => error@ == failure,
                        None => if state != FiberState::Active {
                            error@ == native_state_failure("update native plugin"@, state)
                        } else {
                            self.factory is None && error@ == (NativeFailure::Runtime {
                                package: self.descriptor@.name,
                                message: "transactional updates require an instance factory"@,
                            })
                        },
                    },
                }
            }),
    {
        match self.descriptor.validate_config(config) {
            Ok(()) => {},
            Err(error) => return Err(error),
        }
        let state = self.fiber.state(tree);
        if state != FiberState::Active {
            return Err(invalid_state("update native plugin", state));
        }
        match self.factory {
            Some(factory) => Ok(factory),
            None => Err(
                NativePluginError::Runtime {
                    package: self.descriptor.name.clone(),
                    message: "transactional updates require an instance factory".to_owned(),
                },
            ),
        }
    }

    /// Whether a suspension has to stop the plugin: not while it is pending.
    pub fn suspend(&self, tree: &ScopeTree) -> (result: bool)
        requires
            self.fiber.scope.in_tree(tree@),
        ensures
            result == (self.shown(*tree) != FiberState::Pending),
    {
        self.fiber.state(tree) != FiberState::Pending
    }

    /// Ends a suspension: a stopped plugin becomes a pending one, with a fiber
    /// of its own.
    pub fn renew(&mut self, tree: &mut ScopeTree) -> (result: Result<(), NativePluginError>)
        requires
            old(tree).wf(),
            old(self).context.scope.in_tree(old(tree)@),
            old(tree).has_scope_ids(),
            old(tree).ids.fiber < u64::MAX,
        ensures
            final(tree).wf(),
            final(self).barrier is None,
            ({
                let at = old(self).context.scope.index as int;
                let record = old(tree)@[at];
                match result {
                    Ok(()) => {
                        &&& record.state == FiberState::Active
                        &&& *final(self) == (NativePluginInstance {
                            fiber: final(self).fiber,
                            barrier: None,
                            start_attempted: false,
                            stopped: false,
                            ..*old(self)
                        })
                        &&& final(self).fiber.id.0 == old(tree).ids.fiber
                        &&& final(self).fiber.name@ == old(self).descriptor@.name
                        &&& final(self).fiber.state == FiberState::Pending
                        &&& final(self).fiber.scope.index == old(tree)@.len()
                        &&& final(tree)@ == old(tree)@.update(
                            at,
                            RecordModel {
                                children: record.children.push(final(self).fiber.scope),
                                ..record
                            },
                        ).push(fresh_record(old(tree).ids))
                        &&& final(tree).ids == (IdSource {
                            fiber: (old(tree).ids.fiber + 1) as u64,
                            ..after_scope(old(tree).ids)
                        })
                        &&& final(self).shown(*final(tree)) == FiberState::Pending
                    },
                    Err(error) => {
                        &&& record.state != FiberState::Active
                        &&& error@ == native_state_failure("create child scope"@, record.state)
                        &&& *final(self) == (NativePluginInstance { barrier: None, ..*old(self) })
                        &&& final(tree)@ == old(tree)@
                        &&& final(tree).ids == (IdSource {
                            fiber: (old(tree).ids.fiber + 1) as u64,
                            ..old(tree).ids
                        })
                    },
                }
            }),
    {
        self.barrier = None;
        match Fiber::new(tree, self.context.scope, self.descriptor.name.clone()) {
            Ok(fiber) => {
                self.fiber = fiber;
                self.start_attempted = false;
                self.stopped = false;
                Ok(())
            },
            Err(error) => Err(NativePluginError::Core(error)),
        }
    }

    pub fn descriptor(&self) -> (result: &NativePluginDescriptor)
        ensures
            *result == self.descriptor,
    {
        &self.descriptor
    }

    pub fn config(&self) -> (result: &JsonValue)
        ensures
            *result == self.config,
    {
        &self.config
    }

    pub fn context(&self) -> (result: ContextHandle)
        ensures
            result@ == self.context@,
    {
        self.context.clone()
    }

    pub fn fiber(&self) -> (result: &Fiber)
        ensures
            *result == self.fiber,
    {
        &self.fiber
    }

    /// What can be seen of this instance.
    pub fn snapshot(&self, tree: &ScopeTree) -> (result: NativePluginSnapshot)
        requires
            self.fiber.scope.in_tree(tree@),
        ensures
            result.descriptor@ == self.descriptor@,
            result.config@ == self.config@,
            result.fiber.id == self.fiber.id,
            result.fiber.name@ == self.fiber.name@,
            result.fiber.state == self.shown(*tree),
            result.fiber.scope == tree@[self.fiber.scope.index as int].id,
            effect_list(result.fiber.resources@) == tree@[self.fiber.scope.index as int].effects,
    {
        let scope = self.fiber.scope;
        NativePluginSnapshot {
            descriptor: self.descriptor.clone(),
            config: self.config.clone(),
            fiber: NativeFiberSnapshot {
                id: self.fiber.id,
                name: self.fiber.name.clone(),
                state: self.fiber.state(tree),
                scope: scope.id(tree),
                resources: scope.effects(tree),
            },
        }
    }
}

/// The setup of a plain start: the start hook.
pub open spec fn start_setup(start: Result<(), NativeFailure>) -> Result<(), CoreFailure> {
    match start {
        Ok(()) => Ok(()),
        Err(failure) => Err(fiber_failure(failure, NativePluginPhase::Start)),
    }
}

/// The setup that the start hook makes.
pub fn setup_of_start(start: Result<(), NativePluginError>) -> (result: Result<(), CoreError>)
    ensures
        outcome_of(result) == start_setup(native_outcome(start)),
{
    match start {
        Ok(()) => Ok(()),
        Err(error) => Err(lifecycle_error(error, NativePluginPhase::Start)),
    }
}

/// The failure of the update hook of a candidate, whose start hook then does
/// not run.
pub fn setup_of_update(update: Result<(), NativePluginError>) -> (result: Result<(), CoreError>)
    ensures
        outcome_of(result) == (match native_outcome(update) {
            Ok(()) => Ok(()),
            Err(failure) => Err(fiber_failure(failure, NativePluginPhase::Update)),
        }),
{
    match update {
        Ok(()) => Ok(()),
        Err(error) => Err(lifecycle_error(error, NativePluginPhase::Update)),
    }
}

/// A failure, and what failed while it was cleaned up after.
pub open spec fn native_with_cleanup(
    failure: NativeFailure,
    cleanup: Result<(), NativeFailure>,
) -> NativeFailure {
    match cleanup {
        Ok(()) => failure,
        Err(other) => native_cleanup(seq![failure, other]),
    }
}

/// The outcome of a failed start whose plugin was stopped, or of a failed
/// update whose candidate was disposed.
pub fn finish_failed(failure: NativePluginError, cleanup: Result<(), NativePluginError>) -> (result:
    NativePluginError)
    ensures
        result@ == native_with_cleanup(failure@, native_outcome(cleanup)),
{
    match cleanup {
        Ok(()) => failure,
        Err(other) => {
            let errors = vec![failure, other];
            assert(native_failures(errors@) =~= seq![failure@, other@]);
            NativePluginError::cleanup(errors)
        },
    }
}

/// The failures of stopping a plugin and disposing its fiber, in that order.
pub open spec fn stop_failures(
    stop: Result<(), NativeFailure>,
    disposal: Result<(), CoreFailure>,
) -> Seq<NativeFailure> {
    (match stop {
        Ok(()) => Seq::empty(),
        Err(failure) => seq![failure],
    }) + (match disposal {
        Ok(()) => Seq::empty(),
        Err(failure) => seq![NativeFailure::Core(failure)],
    })
}

/// Several failures as an outcome.
pub open spec fn combined(failures: Seq<NativeFailure>) -> Result<(), NativeFailure> {
    if failures.len() == 0 {
        Ok(())
    } else {
        Err(native_cleanup(failures))
    }
}

/// The outcome of stopping a plugin and disposing its fiber.
pub fn stop_current(stop: Result<(), NativePluginError>, disposal: Result<(), CoreError>) -> (result:
    Result<(), NativePluginError>)
    ensures
        native_outcome(result) == combined(
            stop_failures(native_outcome(stop), outcome_of(disposal)),
        ),
{
    let ghost failures = stop_failures(native_outcome(stop), outcome_of(disposal));
    let mut errors: Vec<NativePluginError> = Vec::new();
    if let Err(error) = stop {
        errors.push(error);
    }
    if let Err(error) = disposal {
        errors.push(NativePluginError::Core(error));
    }
    assert(native_failures(errors@) =~= failures);
    if errors.len() == 0 {
        Ok(())
    } else {
        Err(NativePluginError::cleanup(errors))
    }
}

/// However often a stop is claimed, the plugin is stopped at most once for
/// each time it was entered.
pub proof fn plugins_are_stopped_once(before: NativePluginInstance, after: NativePluginInstance)
    requires
        after == (NativePluginInstance {
            stopped: before.stopped || before.owes_stop(),
            ..before
        }),
    ensures
        !after.owes_stop(),
{
}

/// The hooks of a plugin run only while every required service of its
/// descriptor is available, and only in a pending fiber that then is none, so
/// at most once. While the plugin waits, or after its wait was cancelled,
/// nothing runs and nothing changes.
pub proof fn hooks_run_once_with_their_services(
    before: NativePluginInstance,
    tree: ScopeTree,
    registries: Registries,
    cancelled: bool,
    result: Result<Admission, CoreError>,
    after: NativePluginInstance,
    later_tree: ScopeTree,
    later_registries: Registries,
    later_cancelled: bool,
    again: Result<Admission, CoreError>,
    last: NativePluginInstance,
)
    requires
        before.guarded(),
        before.admits(tree, registries, cancelled, result, after),
        after.admits(later_tree, later_registries, later_cancelled, again, last),
    ensures
        after.guarded(),
        result matches Ok(Admission::Run(_)) ==> {
            &&& !cancelled
            &&& forall|i: int|
                0 <= i < before.descriptor.dependencies@.len() && (
                #[trigger] before.descriptor.dependencies@[i]) is Required ==> entry_of(
                    registries@,
                    before.context@.registry.index as int,
                    resolved(before.context@, before.descriptor.dependencies@[i].spec_key()),
                ) is Some
            &&& !(again matches Ok(Admission::Run(_)))
        },
        (cancelled || result == Ok::<Admission, CoreError>(Admission::Wait)) ==> after == before,
{
    if result matches Ok(Admission::Run(_)) {
        let needs = before.descriptor.dependencies@;
        let context = ContextModel { scope: before.fiber.scope, ..before.context@ };
        let wanted = resolved_dependencies(context, needs);
        assert forall|i: int| 0 <= i < needs.len() && (#[trigger] needs[i]) is Required implies entry_of(
            registries@,
            before.context@.registry.index as int,
            resolved(before.context@, needs[i].spec_key()),
        ) is Some by {
            assert(wanted[i].required);
            assert(wanted[i].service == resolved(before.context@, needs[i].spec_key()));
        }
    }
}

/// Stopping fails exactly when the hook or the disposal fails, and one failure
/// alone is reported as it is.
pub proof fn stopping_reports_every_failure(
    stop: Result<(), NativeFailure>,
    disposal: Result<(), CoreFailure>,
)
    ensures
        combined(stop_failures(stop, disposal)) is Ok <==> stop is Ok && disposal is Ok,
        stop is Err && disposal is Ok ==> combined(stop_failures(stop, disposal)) == stop,
        stop is Ok && disposal is Err ==> combined(stop_failures(stop, disposal)) == Err::<
            (),
            NativeFailure,
        >(NativeFailure::Core(disposal->Err_0)),
        stop is Err && disposal is Err ==> combined(stop_failures(stop, disposal)) == Err::<
            (),
            NativeFailure,
        >(
            NativeFailure::Cleanup(
                seq![stop->Err_0, NativeFailure::Core(disposal->Err_0)],
            ),
        ),
{
    let failures = stop_failures(stop, disposal);
    if stop is Err && disposal is Err {
        assert(failures =~= seq![stop->Err_0, NativeFailure::Core(disposal->Err_0)]);
    }
}

}
