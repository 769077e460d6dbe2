//! A native plugin that follows its dependencies: started when they are there,
//! updated when they change, suspended when they go.
//!
//! A worker performs the actions outside. Everything it decides, and what its
//! control shows meanwhile, is here.

use vstd::prelude::*;
use vstd::string::*;

use crate::error::{outcome_of, CoreError, LoaderError, LoaderFailure};
use crate::ids::Generation;
use crate::lifecycle::{FiberState, Scope};
use crate::loader::ActivationState;
use crate::native::{
    native_message, native_outcome, need_list, NativeFailure, NativePluginError, Need,
};
use crate::native_instance::{combined, stop_current, stop_failures};
use crate::service::{
    snapshot_list, Dependency, DependencySnapshot, ReadinessModel, SnapshotModel,
};
use crate::tree::fault_of;

verus! {

/// What a managed plugin is doing.
#[derive(Clone, Copy, Debug, PartialEq, Eq, Structural)]
pub enum ManagedPhase {
    Pending,
    Starting,
    Active,
    Failed,
}

/// What the worker of a managed plugin and its watchers share.
#[derive(Debug)]
pub struct ManagedControl {
    pub activated: bool,
    pub stopping: bool,
    pub dirty: bool,
    pub snapshot: DependencySnapshot,
    pub phase: ManagedPhase,
    pub error: Option<NativePluginError>,
    /// The scope that is cancelled to interrupt the plugin.
    pub cancellation: Option<Scope>,
}

/// The model of a control.
#[verifier::ext_equal]
pub struct ControlModel {
    pub activated: bool,
    pub stopping: bool,
    pub dirty: bool,
    pub snapshot: ReadinessModel,
    pub phase: ManagedPhase,
    pub error: Option<NativeFailure>,
    pub cancellation: Option<Scope>,
}

/// The model of an error that may be absent.
pub open spec fn optional_failure(error: Option<NativePluginError>) -> Option<NativeFailure> {
    match error {
        Some(error) => Some(error@),
        None => None,
    }
}

impl View for ManagedControl {
    type V = ControlModel;

    open spec fn view(&self) -> ControlModel {
        ControlModel {
            activated: self.activated,
            stopping: self.stopping,
            dirty: self.dirty,
            snapshot: self.snapshot@,
            phase: self.phase,
            error: optional_failure(self.error),
            cancellation: self.cancellation,
        }
    }
}

/// The plugin waits for none of these services.
pub open spec fn needs_nothing(needs: Seq<Need>) -> bool {
    forall|i: int| 0 <= i < needs.len() ==> !(#[trigger] needs[i]).required
}

/// There is something for the worker to look at.
pub open spec fn has_news(control: ControlModel) -> bool {
    control.stopping || (control.activated && control.dirty)
}

/// What a waiting activation is told, if anything yet.
pub open spec fn activation_of(control: ControlModel) -> Option<
    Result<ActivationState, LoaderFailure>,
> {
    if control.phase == ManagedPhase::Active && control.snapshot.ready {
        Some(Ok(ActivationState::Active))
    } else if control.phase == ManagedPhase::Failed {
        Some(Err(LoaderFailure::Validation(native_message(control.error->0))))
    } else if control.phase == ManagedPhase::Pending && !control.snapshot.ready {
        Some(Ok(ActivationState::Pending))
    } else {
        None
    }
}

/// The outcome of an activation.
pub open spec fn activation_outcome(result: Option<Result<ActivationState, LoaderError>>) -> Option<
    Result<ActivationState, LoaderFailure>,
> {
    match result {
        Some(Ok(state)) => Some(Ok(state)),
        Some(Err(error)) => Some(Err(error@)),
        None => None,
    }
}

impl ManagedControl {
    /// A failed plugin has an error to show.
    pub open spec fn wf(&self) -> bool {
        self.phase == ManagedPhase::Failed ==> self.error is Some
    }

    /// A control that was not asked to activate yet.
    pub fn new(dependencies: &Vec<Dependency>) -> (result: Self)
        ensures
            result.wf(),
            result@ == (ControlModel {
                activated: false,
                stopping: false,
                dirty: false,
                snapshot: ReadinessModel {
                    ready: needs_nothing(need_list(dependencies@)),
                    services: Seq::empty(),
                },
                phase: ManagedPhase::Pending,
                error: None,
                cancellation: None,
            }),
    {
        let ghost needs = need_list(dependencies@);
        let mut ready: bool = true;
        let mut i: usize = 0;
        while i < dependencies.len()
            invariant
                i <= dependencies@.len(),
                needs == need_list(dependencies@),
                ready == forall|k: int| 0 <= k < i ==> !(#[trigger] needs[k]).required,
            decreases dependencies@.len() - i,
        {
            assert(needs[i as int].required == (dependencies@[i as int] is Required));
            if dependencies[i].is_required() {
                ready = false;
            }
            i += 1;
        }
        let snapshot = DependencySnapshot { ready, services: Vec::new() };
        assert(snapshot_list(snapshot.services@) =~= Seq::empty());
        ManagedControl {
            activated: false,
            stopping: false,
            dirty: false,
            snapshot,
            phase: ManagedPhase::Pending,
            error: None,
            cancellation: None,
        }
    }

    /// Takes note of what the dependencies show.
    pub fn set_snapshot(&mut self, snapshot: DependencySnapshot)
        ensures
            final(self)@ == (ControlModel { snapshot: snapshot@, dirty: true, ..old(self)@ }),
            old(self).wf() ==> final(self).wf(),
    {
        self.snapshot = snapshot;
        self.dirty = true;
    }

    pub fn set_cancellation(&mut self, scope: Scope)
        ensures
            final(self)@ == (ControlModel { cancellation: Some(scope), ..old(self)@ }),
            old(self).wf() ==> final(self).wf(),
    {
        self.cancellation = Some(scope);
    }

    pub fn request_activation(&mut self)
        ensures
            final(self)@ == (ControlModel { activated: true, dirty: true, ..old(self)@ }),
            old(self).wf() ==> final(self).wf(),
    {
        self.activated = true;
        self.dirty = true;
    }

    pub fn set_phase(&mut self, phase: ManagedPhase, error: Option<NativePluginError>)
        requires
            phase == ManagedPhase::Failed ==> error is Some,
        ensures
            final(self)@ == (ControlModel { phase, error: optional_failure(error), ..old(self)@ }),
            final(self).wf(),
    {
        self.phase = phase;
        self.error = error;
    }

    /// What the worker looks at next, once there is anything: whether to stop,
    /// and what the dependencies show.
    pub fn next_snapshot(&mut self) -> (result: Option<(bool, DependencySnapshot)>)
        ensures
            old(self).wf() ==> final(self).wf(),
            match result {
                Some((stopping, snapshot)) => has_news(old(self)@) && stopping
                    == old(self)@.stopping && snapshot@ == old(self)@.snapshot && final(self)@ == (
                ControlModel { dirty: false, ..old(self)@ }),
                None => !has_news(old(self)@) && final(self)@ == old(self)@,
            },
    {
        if !self.stopping && (!self.activated || !self.dirty) {
            return None;
        }
        self.dirty = false;
        Some((self.stopping, self.snapshot.clone()))
    }

    /// What a waiting activation is told, if anything yet.
    pub fn activation(&self) -> (result: Option<Result<ActivationState, LoaderError>>)
        requires
            self.wf(),
        ensures
            activation_outcome(result) == activation_of(self@),
    {
        if self.phase == ManagedPhase::Active && self.snapshot.ready {
            return Some(Ok(ActivationState::Active));
        }
        if self.phase == ManagedPhase::Failed {
            if let Some(error) = &self.error {
                return Some(Err(LoaderError::Validation(error.message())));
            }
        }
        if self.phase == ManagedPhase::Pending && !self.snapshot.ready {
            return Some(Ok(ActivationState::Pending));
        }
        None
    }

    /// Asks the worker to stop, and gives the scope to cancel for that.
    pub fn stop(&mut self) -> (result: Option<Scope>)
        ensures
            result == old(self)@.cancellation,
            final(self)@ == (ControlModel { stopping: true, dirty: true, ..old(self)@ }),
            old(self).wf() ==> final(self).wf(),
    {
        self.stopping = true;
        self.dirty = true;
        self.cancellation
    }
}

/// The generations of the required services among the first `count`.
pub open spec fn generations_of(needs: Seq<Need>, services: Seq<SnapshotModel>, count: int) -> Seq<
    Option<Generation>,
>
    decreases count,
{
    if count <= 0 {
        Seq::empty()
    } else {
        let rest = generations_of(needs, services, count - 1);
        if needs[count - 1].required {
            rest.push(services[count - 1].generation)
        } else {
            rest
        }
    }
}

/// How many dependencies have a service to look at.
pub open spec fn paired(needs: Seq<Need>, services: Seq<SnapshotModel>) -> int {
    if needs.len() <= services.len() {
        needs.len() as int
    } else {
        services.len() as int
    }
}

/// The generations of the required services.
pub fn required_generations(snapshot: &DependencySnapshot, dependencies: &Vec<Dependency>) -> (result:
    Vec<Option<Generation>>)
    ensures
        result@ == generations_of(
            need_list(dependencies@),
            snapshot@.services,
            paired(need_list(dependencies@), snapshot@.services),
        ),
{
    let ghost needs = need_list(dependencies@);
    let ghost services = snapshot@.services;
    let mut result: Vec<Option<Generation>> = Vec::new();
    let mut i: usize = 0;
    while i < dependencies.len() && i < snapshot.services.len()
        invariant
            i <= dependencies@.len(),
            i <= snapshot.services@.len(),
            needs == need_list(dependencies@),
            services == snapshot_list(snapshot.services@),
            result@ == generations_of(needs, services, i as int),
        decreases dependencies@.len() - i,
    {
        assert(needs[i as int].required == (dependencies@[i as int] is Required));
        assert(services[i as int] == snapshot.services@[i as int]@);
        if dependencies[i].is_required() {
            result.push(snapshot.services[i].generation);
        }
        i += 1;
    }
    result
}

fn same_generations(left: &Vec<Option<Generation>>, right: &Vec<Option<Generation>>) -> (result: bool)
    ensures
        result == (left@ == right@),
{
    if left.len() != right.len() {
        return false;
    }
    let mut i: usize = 0;
    while i < left.len()
        invariant
            i <= left@.len() == right@.len(),
            forall|k: int| 0 <= k < i ==> left@[k] == right@[k],
        decreases left@.len() - i,
    {
        let equal = match (left[i], right[i]) {
            (Some(a), Some(b)) => a.0 == b.0,
            (None, None) => true,
            _ => false,
        };
        if !equal {
            assert(left@[i as int] != right@[i as int]);
            return false;
        }
        i += 1;
    }
    assert(left@ =~= right@);
    true
}

/// What the worker does next.
#[derive(Debug)]
pub enum ManagedAction {
    /// Nothing is due; wait for the control to change.
    Wait,
    /// Look again at once.
    Again,
    /// Dispose the plugin and the watcher, and end.
    Stop,
    /// Suspend the plugin: a required service is gone.
    Withdraw,
    /// Start the plugin with these generations of its services.
    Start(Vec<Option<Generation>>),
    /// Update the plugin to these generations of its services.
    Update(Vec<Option<Generation>>),
    /// Suspend the plugin: it neither runs nor waits.
    Recover,
}

/// The model of an action.
#[verifier::ext_equal]
pub enum ActionModel {
    Wait,
    Again,
    Stop,
    Withdraw,
    Start(Seq<Option<Generation>>),
    Update(Seq<Option<Generation>>),
    Recover,
}

impl View for ManagedAction {
    type V = ActionModel;

    open spec fn view(&self) -> ActionModel {
        match self {
            ManagedAction::Wait => ActionModel::Wait,
            ManagedAction::Again => ActionModel::Again,
            ManagedAction::Stop => ActionModel::Stop,
            ManagedAction::Withdraw => ActionModel::Withdraw,
            ManagedAction::Start(generations) => ActionModel::Start(generations@),
            ManagedAction::Update(generations) => ActionModel::Update(generations@),
            ManagedAction::Recover => ActionModel::Recover,
        }
    }
}

/// The worker of a managed plugin.
#[derive(Debug)]
pub struct ManagedWorker {
    pub dependencies: Vec<Dependency>,
    /// The generations that the running plugin was given.
    pub active: Option<Vec<Option<Generation>>>,
}

/// The generations that a running plugin was given, if one runs.
pub open spec fn optional_generations(active: Option<Vec<Option<Generation>>>) -> Option<
    Seq<Option<Generation>>,
> {
    match active {
        Some(generations) => Some(generations@),
        None => None,
    }
}

/// A worker and its control.
#[verifier::ext_equal]
pub struct ManagedModel {
    pub active: Option<Seq<Option<Generation>>>,
    pub control: ControlModel,
}

/// A control in another phase without an error.
pub open spec fn in_phase(control: ControlModel, phase: ManagedPhase) -> ControlModel {
    ControlModel { phase, error: None, ..control }
}

/// What the worker does next, and what its state becomes before it does it.
pub open spec fn decided(
    managed: ManagedModel,
    needs: Seq<Need>,
    fiber: FiberState,
) -> (ManagedModel, ActionModel) {
    let control = ControlModel { dirty: false, ..managed.control };
    let seen = ManagedModel { control, ..managed };
    let services = control.snapshot.services;
    let generations = generations_of(needs, services, paired(needs, services));
    let starting = ManagedModel { control: in_phase(control, ManagedPhase::Starting), ..managed };
    if !has_news(managed.control) {
        (managed, ActionModel::Wait)
    } else if control.stopping {
        (seen, ActionModel::Stop)
    } else if !control.snapshot.ready {
        if fiber != FiberState::Pending {
            (seen, ActionModel::Withdraw)
        } else {
            (
                ManagedModel { active: None, control: in_phase(control, ManagedPhase::Pending) },
                ActionModel::Again,
            )
        }
    } else if fiber == FiberState::Pending {
        (starting, ActionModel::Start(generations))
    } else if fiber == FiberState::Active && managed.active != Some(generations) {
        (starting, ActionModel::Update(generations))
    } else if fiber == FiberState::Active {
        (
            ManagedModel { control: in_phase(control, ManagedPhase::Active), ..managed },
            ActionModel::Again,
        )
    } else {
        (seen, ActionModel::Recover)
    }
}

/// What the state becomes when an action has come to an end. `scope` is the
/// scope of the plugin's fiber then.
pub open spec fn concluded(
    managed: ManagedModel,
    action: ActionModel,
    outcome: Result<(), NativeFailure>,
    scope: Scope,
) -> ManagedModel {
    let control = managed.control;
    let rebound = ControlModel { cancellation: Some(scope), ..control };
    if action is Wait || action is Again || action is Stop {
        managed
    } else {
        match outcome {
            Err(failure) => ManagedModel {
                control: ControlModel {
                    phase: ManagedPhase::Failed,
                    error: Some(failure),
                    ..control
                },
                ..managed
            },
            Ok(()) => match action {
                ActionModel::Withdraw => ManagedModel {
                    active: None,
                    control: in_phase(rebound, ManagedPhase::Pending),
                },
                ActionModel::Start(generations) => ManagedModel {
                    active: Some(generations),
                    control: in_phase(control, ManagedPhase::Active),
                },
                ActionModel::Update(generations) => ManagedModel {
                    active: Some(generations),
                    control: in_phase(rebound, ManagedPhase::Active),
                },
                _ => ManagedModel {
                    control: in_phase(rebound, ManagedPhase::Pending),
                    ..managed
                },
            },
        }
    }
}

impl ManagedWorker {
    /// The model of this worker and its control.
    pub open spec fn with(&self, control: ManagedControl) -> ManagedModel {
        ManagedModel { active: optional_generations(self.active), control: control@ }
    }

    pub fn new(dependencies: Vec<Dependency>) -> (result: Self)
        ensures
            result.dependencies == dependencies,
            result.active is None,
    {
        ManagedWorker { dependencies, active: None }
    }

    /// Decides what to do next, given the state of the plugin's fiber.
    pub fn next(&mut self, control: &mut ManagedControl, fiber: FiberState) -> (result:
        ManagedAction)
        requires
            old(control).wf(),
        ensures
            final(control).wf(),
            final(self).dependencies == old(self).dependencies,
            (final(self).with(*final(control)), result@) == decided(
                old(self).with(*old(control)),
                need_list(old(self).dependencies@),
                fiber,
            ),
    {
        let (stopping, snapshot) = match control.next_snapshot() {
            Some(news) => news,
            None => return ManagedAction::Wait,
        };
        if stopping {
            return ManagedAction::Stop;
        }
        let generations = required_generations(&snapshot, &self.dependencies);
        if !snapshot.ready {
            if fiber != FiberState::Pending {
                return ManagedAction::Withdraw;
            }
            self.active = None;
            control.set_phase(ManagedPhase::Pending, None);
            return ManagedAction::Again;
        }
        match fiber {
            FiberState::Pending => {
                control.set_phase(ManagedPhase::Starting, None);
                ManagedAction::Start(generations)
            },
            FiberState::Active => {
                let current = match &self.active {
                    Some(active) => same_generations(active, &generations),
                    None => false,
                };
                if current {
                    control.set_phase(ManagedPhase::Active, None);
                    ManagedAction::Again
                } else {
                    control.set_phase(ManagedPhase::Starting, None);
                    ManagedAction::Update(generations)
                }
            },
            _ => ManagedAction::Recover,
        }
    }

    /// Takes note of what came of an action.
    pub fn settle(
        &mut self,
        control: &mut ManagedControl,
        action: ManagedAction,
        outcome: Result<(), NativePluginError>,
        scope: Scope,
    )
        requires
            old(control).wf(),
        ensures
            final(control).wf(),
            final(self).dependencies == old(self).dependencies,
            final(self).with(*final(control)) == concluded(
                old(self).with(*old(control)),
                action@,
                crate::native::native_outcome(outcome),
                scope,
            ),
    {
        match action {
            ManagedAction::Wait | ManagedAction::Again | ManagedAction::Stop => return,
            _ => {},
        }
        if let Err(error) = outcome {
            control.set_phase(ManagedPhase::Failed, Some(error));
            return;
        }
        match action {
            ManagedAction::Withdraw => {
                control.set_cancellation(scope);
                self.active = None;
                control.set_phase(ManagedPhase::Pending, None);
            },
            ManagedAction::Start(generations) => {
                self.active = Some(generations);
                control.set_phase(ManagedPhase::Active, None);
            },
            ManagedAction::Update(generations) => {
                self.active = Some(generations);
                control.set_cancellation(scope);
                control.set_phase(ManagedPhase::Active, None);
            },
            _ => {
                control.set_cancellation(scope);
                control.set_phase(ManagedPhase::Pending, None);
            },
        }
    }
}

/// A plugin that runs with the current services is left alone: news that leave
/// their generations as they are cause neither a start nor an update.
pub proof fn unchanged_services_keep_the_plugin(
    managed: ManagedModel,
    needs: Seq<Need>,
    action: ActionModel,
    scope: Scope,
    later: ControlModel,
)
    requires
        action is Start || action is Update,
        later.snapshot.ready,
        !later.stopping,
        has_news(later),
        (match action {
            ActionModel::Start(generations) => generations,
            ActionModel::Update(generations) => generations,
            _ => Seq::empty(),
        }) == generations_of(
            needs,
            later.snapshot.services,
            paired(needs, later.snapshot.services),
        ),
    ensures
        ({
            let after = concluded(managed, action, Ok(()), scope);
            decided(ManagedModel { control: later, ..after }, needs, FiberState::Active).1
                == ActionModel::Again
        }),
{
}

/// A plugin is started or updated only while every required service is there,
/// and one that lost a required service is suspended.
pub proof fn managed_plugins_follow_their_services(
    managed: ManagedModel,
    needs: Seq<Need>,
    fiber: FiberState,
)
    ensures
        ({
            let action = decided(managed, needs, fiber).1;
            &&& action is Start || action is Update ==> managed.control.snapshot.ready
            &&& action is Start ==> fiber == FiberState::Pending
            &&& action is Update ==> fiber == FiberState::Active
            &&& has_news(managed.control) && !managed.control.stopping
                && !managed.control.snapshot.ready && fiber != FiberState::Pending ==> action
                is Withdraw
            &&& action is Stop <==> managed.control.stopping
        }),
{
}

/// A failed update leaves the generations that the plugin runs with, so the
/// next news bring another attempt.
pub proof fn failed_updates_are_tried_again(
    managed: ManagedModel,
    needs: Seq<Need>,
    generations: Seq<Option<Generation>>,
    failure: NativeFailure,
    scope: Scope,
    later: ControlModel,
)
    requires
        managed.active != Some(generations),
        later.snapshot.ready,
        !later.stopping,
        has_news(later),
        generations == generations_of(
            needs,
            later.snapshot.services,
            paired(needs, later.snapshot.services),
        ),
    ensures
        ({
            let after = concluded(managed, ActionModel::Update(generations), Err(failure), scope);
            &&& after.active == managed.active
            &&& after.control.phase == ManagedPhase::Failed
            &&& decided(ManagedModel { control: later, ..after }, needs, FiberState::Active).1
                == ActionModel::Update(generations)
        }),
{
}

/// The outcome of disposing a managed plugin: that of stopping it and that of
/// ending its watch, or both failures when both fail.
pub fn managed_disposal(
    stopped: Result<(), NativePluginError>,
    unwatched: Result<(), CoreError>,
) -> (result: Result<(), LoaderError>)
    ensures
        fault_of(result) == (match combined(
            stop_failures(native_outcome(stopped), outcome_of(unwatched)),
        ) {
            Ok(()) => None,
            Err(failure) => Some(LoaderFailure::Validation(native_message(failure))),
        }),
{
    match stop_current(stopped, unwatched) {
        Ok(()) => Ok(()),
        Err(error) => Err(LoaderError::Validation(error.message())),
    }
}

}
