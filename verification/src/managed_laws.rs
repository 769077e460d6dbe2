//! How a managed plugin follows the generations of its services.

use vstd::prelude::*;

use crate::error::LoaderFailure;
use crate::lifecycle::{FiberState, Scope};
use crate::loader::ActivationState;
use crate::managed::{
    activation_of, concluded, decided, generations_of, paired, ActionModel, ControlModel,
    ManagedModel, ManagedPhase,
};
use crate::native::{native_message, need_list, NativeFailure, Need};
use crate::service::{Dependency, SnapshotModel};

verus! {

/// Both listings show the same generation for every required dependency.
pub open spec fn agree_on_required(
    dependencies: Seq<Dependency>,
    left: Seq<SnapshotModel>,
    right: Seq<SnapshotModel>,
) -> bool {
    forall|i: int|
        0 <= i < dependencies.len() && #[trigger] dependencies[i] is Required ==> left[i].generation
            == right[i].generation
}

proof fn generations_tell_apart(
    needs: Seq<Need>,
    left: Seq<SnapshotModel>,
    right: Seq<SnapshotModel>,
    count: int,
)
    requires
        0 <= count <= needs.len(),
        needs.len() == left.len(),
        needs.len() == right.len(),
    ensures
        generations_of(needs, left, count).len() == generations_of(needs, right, count).len(),
        generations_of(needs, left, count) == generations_of(needs, right, count) <==> (forall|
            i: int,
        |
            0 <= i < count && (#[trigger] needs[i]).required ==> left[i].generation
                == right[i].generation),
    decreases count,
{
    if count > 0 {
        generations_tell_apart(needs, left, right, count - 1);
        let a = generations_of(needs, left, count);
        let b = generations_of(needs, right, count);
        let shorter = generations_of(needs, left, count - 1);
        let other = generations_of(needs, right, count - 1);
        if needs[count - 1].required {
            if a == b {
                assert(a.drop_last() =~= shorter && b.drop_last() =~= other);
                assert(a.last() == b.last());
            }
        }
    }
}

/// Two snapshots of the same dependencies give equal generation lists exactly
/// if they agree on the generation of every required dependency; what optional
/// ones show does not matter.
pub proof fn generation_lists_are_equal_iff_required_services_agree(
    dependencies: Seq<Dependency>,
    left: Seq<SnapshotModel>,
    right: Seq<SnapshotModel>,
)
    requires
        dependencies.len() == left.len(),
        dependencies.len() == right.len(),
    ensures
        ({
            let needs = need_list(dependencies);
            generations_of(needs, left, paired(needs, left)) == generations_of(
                needs,
                right,
                paired(needs, right),
            ) <==> agree_on_required(dependencies, left, right)
        }),
{
    let needs = need_list(dependencies);
    generations_tell_apart(needs, left, right, dependencies.len() as int);
    if agree_on_required(dependencies, left, right) {
        assert forall|i: int| 0 <= i < needs.len() && (#[trigger] needs[i]).required implies left[i].generation
            == right[i].generation by {
            assert(dependencies[i] is Required);
        }
    } else {
        let i = choose|i: int|
            0 <= i < dependencies.len() && #[trigger] dependencies[i] is Required
                && left[i].generation != right[i].generation;
        assert(needs[i].required);
    }
}

/// A control that has something new, and all required services, and is not to
/// stop.
pub open spec fn has_good_news(control: ControlModel) -> bool {
    control.activated && control.dirty && !control.stopping && control.snapshot.ready
}

/// A plugin that was started or updated with one snapshot is updated by the
/// next ready one exactly if that shows another generation for any required
/// dependency; else it is left running as it is.
pub proof fn running_plugins_are_updated_when_a_required_service_changed(
    dependencies: Seq<Dependency>,
    first: ManagedModel,
    fiber: FiberState,
    scope: Scope,
    later: ControlModel,
)
    requires
        has_good_news(first.control),
        has_good_news(later),
        dependencies.len() == first.control.snapshot.services.len(),
        dependencies.len() == later.snapshot.services.len(),
        decided(first, need_list(dependencies), fiber).1 is Start || decided(
            first,
            need_list(dependencies),
            fiber,
        ).1 is Update,
    ensures
        ({
            let needs = need_list(dependencies);
            let (before, action) = decided(first, needs, fiber);
            let running = concluded(before, action, Ok(()), scope);
            let (next, then) = decided(
                ManagedModel { control: later, ..running },
                needs,
                FiberState::Active,
            );
            if agree_on_required(
                dependencies,
                first.control.snapshot.services,
                later.snapshot.services,
            ) {
                then == ActionModel::Again && next.control.phase == ManagedPhase::Active
            } else {
                then is Update && next.control.phase == ManagedPhase::Starting
            }
        }),
{
    generation_lists_are_equal_iff_required_services_agree(
        dependencies,
        first.control.snapshot.services,
        later.snapshot.services,
    );
}

/// An update that was carried out settles the change: the same snapshot seen
/// again brings no second update. One that failed is tried again.
pub proof fn updates_settle_a_change(
    dependencies: Seq<Dependency>,
    managed: ManagedModel,
    scope: Scope,
    again: ControlModel,
    failure: NativeFailure,
)
    requires
        has_good_news(managed.control),
        has_good_news(again),
        again.snapshot == managed.control.snapshot,
        decided(managed, need_list(dependencies), FiberState::Active).1 is Update,
    ensures
        ({
            let needs = need_list(dependencies);
            let (before, action) = decided(managed, needs, FiberState::Active);
            let done = concluded(before, action, Ok(()), scope);
            let failed = concluded(before, action, Err(failure), scope);
            &&& decided(ManagedModel { control: again, ..done }, needs, FiberState::Active).1
                == ActionModel::Again
            &&& decided(ManagedModel { control: again, ..failed }, needs, FiberState::Active).1
                is Update
            &&& done.control.phase == ManagedPhase::Active && done.control.error is None
            &&& failed.control.phase == ManagedPhase::Failed && failed.control.error == Some(
                failure,
            )
        }),
{
}

/// A plugin waits until there is something new. Then it stops if it is to; it
/// is suspended if it runs and a required service is gone; it is started if it
/// waits and all are there; and it is restarted if it is in any other state.
pub proof fn workers_follow_the_snapshot(
    managed: ManagedModel,
    needs: Seq<Need>,
    fiber: FiberState,
)
    ensures
        ({
            let control = managed.control;
            let (after, action) = decided(managed, needs, fiber);
            &&& !control.stopping && !(control.activated && control.dirty) ==> action
                == ActionModel::Wait && after == managed
            &&& control.stopping ==> action == ActionModel::Stop
            &&& control.activated && control.dirty && !control.stopping ==> {
                &&& !after.control.dirty
                &&& !control.snapshot.ready && fiber == FiberState::Pending ==> action
                    == ActionModel::Again && after.control.phase == ManagedPhase::Pending
                    && after.active is None
                &&& !control.snapshot.ready && fiber != FiberState::Pending ==> action
                    == ActionModel::Withdraw
                &&& control.snapshot.ready && fiber == FiberState::Pending ==> action is Start
                    && after.control.phase == ManagedPhase::Starting
                &&& control.snapshot.ready && fiber != FiberState::Pending && fiber
                    != FiberState::Active ==> action == ActionModel::Recover
            }
            &&& after.control.snapshot == control.snapshot
            &&& after.control.stopping == control.stopping
            &&& after.control.activated == control.activated
            &&& after.control.cancellation == control.cancellation
        }),
{
}

/// A suspension leaves a plugin pending with nothing running, and what then
/// interrupts it is its new scope. A failed action is reported as it is.
pub proof fn suspended_plugins_are_pending(
    managed: ManagedModel,
    scope: Scope,
    failure: NativeFailure,
)
    ensures
        ({
            let withdrawn = concluded(managed, ActionModel::Withdraw, Ok(()), scope);
            let recovered = concluded(managed, ActionModel::Recover, Ok(()), scope);
            let failed = concluded(managed, ActionModel::Withdraw, Err(failure), scope);
            &&& withdrawn.active is None
            &&& withdrawn.control.phase == ManagedPhase::Pending
            &&& withdrawn.control.cancellation == Some(scope)
            &&& recovered.control.phase == ManagedPhase::Pending
            &&& recovered.control.cancellation == Some(scope)
            &&& failed.active == managed.active
            &&& failed.control.phase == ManagedPhase::Failed
            &&& failed.control.error == Some(failure)
            &&& failed.control.cancellation == managed.control.cancellation
        }),
{
}

/// A waiting activation is told that the plugin is active only while it runs
/// with all that it requires, that it is pending only while something is
/// missing, and its failure if it has failed; else it goes on waiting.
pub proof fn activations_are_told_what_is(control: ControlModel)
    ensures
        activation_of(control) == Some(
            Ok::<ActivationState, LoaderFailure>(ActivationState::Active),
        ) <==> control.phase == ManagedPhase::Active && control.snapshot.ready,
        activation_of(control) == Some(
            Ok::<ActivationState, LoaderFailure>(ActivationState::Pending),
        ) <==> control.phase == ManagedPhase::Pending && !control.snapshot.ready,
        (exists|failure: LoaderFailure|
            activation_of(control) == Some(Err::<ActivationState, LoaderFailure>(failure)))
            <==> control.phase == ManagedPhase::Failed,
        control.phase == ManagedPhase::Failed ==> activation_of(control) == Some(
            Err::<ActivationState, LoaderFailure>(
                LoaderFailure::Validation(native_message(control.error->0)),
            ),
        ),
{
    if control.phase == ManagedPhase::Failed {
        let failure = LoaderFailure::Validation(native_message(control.error->0));
        assert(activation_of(control) == Some(Err::<ActivationState, LoaderFailure>(failure)));
    }
}

}
