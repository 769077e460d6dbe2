//! The disposal of a whole scope with everything below it, and the laws of
//! disposal.

use vstd::prelude::*;

use crate::error::{outcome_of, CoreError, CoreFailure};
use crate::ids::{IdSource, ResourceId, ScopeId};
use crate::lifecycle::{
    claimed, cleanup_outcome, closed, collected, emptied, merged, sound, CleanupStep, DisposeClaim,
    EffectModel, FiberState, RecordModel, Scope, ScopeTree,
};

verus! {

/// The place of the child `k` of scope `i`; `i` itself when there is none.
pub open spec fn child_at(records: Seq<RecordModel>, i: int, k: int) -> int {
    if 0 <= i < records.len() && 0 <= k < records[i].children.len() && i < records[i].children[k].index
        < records.len() {
        records[i].children[k].index as int
    } else {
        i
    }
}

/// Scope `j` is scope `i` or lies below it.
pub open spec fn reaches(records: Seq<RecordModel>, i: int, j: int) -> bool
    decreases records.len() - i,
{
    0 <= i < records.len() && (i == j || exists|k: int|
        i < #[trigger] child_at(records, i, k) && reaches(records, child_at(records, i, k), j))
}

/// What the disposer of an effect gives.
#[derive(Debug)]
pub struct EffectFailure {
    pub id: ResourceId,
    pub error: CoreError,
}

/// The outcome of the disposer of the effect `id`: the first failure given for
/// it, and success when none is.
pub open spec fn effect_outcome(failures: Seq<EffectFailure>, id: ResourceId, from: int) -> Result<
    (),
    CoreFailure,
>
    decreases failures.len() - from,
{
    if from < 0 || from >= failures.len() {
        Ok(())
    } else if failures[from].id == id {
        Err(failures[from].error@)
    } else {
        effect_outcome(failures, id, from + 1)
    }
}

/// Errors after one more outcome.
pub open spec fn after_outcome(errors: Seq<CoreFailure>, outcome: Result<(), CoreFailure>) -> Seq<
    CoreFailure,
> {
    match outcome {
        Ok(()) => errors,
        Err(error) => collected(errors, error),
    }
}

/// The identifiers of the effects `effects[..count]`, last first.
pub open spec fn effect_order(effects: Seq<EffectModel>, count: int) -> Seq<ResourceId>
    decreases count,
{
    if count <= 0 || count > effects.len() {
        Seq::empty()
    } else {
        seq![effects[count - 1].id] + effect_order(effects, count - 1)
    }
}

/// The errors of the effects `effects[..count]`, last first, after `errors`.
pub open spec fn effect_errors(
    effects: Seq<EffectModel>,
    count: int,
    failures: Seq<EffectFailure>,
    errors: Seq<CoreFailure>,
) -> Seq<CoreFailure>
    decreases count,
{
    if count <= 0 || count > effects.len() {
        errors
    } else {
        effect_errors(
            effects,
            count - 1,
            failures,
            after_outcome(errors, effect_outcome(failures, effects[count - 1].id, 0)),
        )
    }
}

/// The order in which disposing scope `i` runs effects: for each child, last
/// first, everything below it; then its own effects, last first. A scope that
/// was disposed before runs none.
pub open spec fn disposal_order(records: Seq<RecordModel>, i: int) -> Seq<ResourceId>
    decreases records.len() - i, 1int, 0int,
{
    if !(0 <= i < records.len()) || closed(records[i].state) {
        Seq::empty()
    } else {
        children_order(records, i, records[i].children.len() as int) + effect_order(
            records[i].effects,
            records[i].effects.len() as int,
        )
    }
}

/// The order for the children `0..count` of scope `i`, last first.
pub open spec fn children_order(records: Seq<RecordModel>, i: int, count: int) -> Seq<ResourceId>
    decreases records.len() - i, 0int, count,
{
    if count <= 0 {
        Seq::empty()
    } else if i < child_at(records, i, count - 1) {
        disposal_order(records, child_at(records, i, count - 1)) + children_order(
            records,
            i,
            count - 1,
        )
    } else {
        children_order(records, i, count - 1)
    }
}

/// The outcome of disposing scope `i`. A scope that was disposed before gives
/// the outcome it had.
pub open spec fn disposal_outcome(
    records: Seq<RecordModel>,
    i: int,
    failures: Seq<EffectFailure>,
) -> Result<(), CoreFailure>
    decreases records.len() - i, 1int, 0int,
{
    if !(0 <= i < records.len()) {
        Ok(())
    } else if closed(records[i].state) {
        match records[i].outcome {
            Some(outcome) => outcome,
            None => Ok(()),
        }
    } else {
        cleanup_outcome(
            effect_errors(
                records[i].effects,
                records[i].effects.len() as int,
                failures,
                children_errors(
                    records,
                    i,
                    records[i].children.len() as int,
                    failures,
                    Seq::empty(),
                ),
            ),
        )
    }
}

/// The errors of the children `0..count` of scope `i`, last first, after
/// `errors`.
pub open spec fn children_errors(
    records: Seq<RecordModel>,
    i: int,
    count: int,
    failures: Seq<EffectFailure>,
    errors: Seq<CoreFailure>,
) -> Seq<CoreFailure>
    decreases records.len() - i, 0int, count,
{
    if count <= 0 {
        errors
    } else if i < child_at(records, i, count - 1) {
        children_errors(
            records,
            i,
            count - 1,
            failures,
            after_outcome(
                errors,
                disposal_outcome(records, child_at(records, i, count - 1), failures),
            ),
        )
    } else {
        children_errors(records, i, count - 1, failures, errors)
    }
}

/// Disposing scope `i` disposes scope `j`: every scope on the way from `i` to
/// `j` is still open.
pub open spec fn disposes(records: Seq<RecordModel>, i: int, j: int) -> bool
    decreases records.len() - i,
{
    0 <= i < records.len() && !closed(records[i].state) && (i == j || exists|k: int|
        i < #[trigger] child_at(records, i, k) && disposes(records, child_at(records, i, k), j))
}

/// What scope `j` is when it was disposed: it has an outcome, and gave up all
/// that it had.
pub open spec fn disposed_record(
    records: Seq<RecordModel>,
    j: int,
    failures: Seq<EffectFailure>,
) -> RecordModel {
    RecordModel {
        outcome: Some(disposal_outcome(records, j, failures)),
        ..emptied(records[j], FiberState::Disposed)
    }
}

/// Scope `j` lies below one of the children `from..` of scope `i` and is
/// disposed with it.
spec fn disposed_with(records: Seq<RecordModel>, i: int, from: int, j: int) -> bool {
    exists|k: int|
        from <= k < records[i].children.len() && #[trigger] disposes(
            records,
            records[i].children[k].index as int,
            j,
        )
}

/// Two scopes differ at most in who waits for them.
pub open spec fn alike(a: RecordModel, b: RecordModel) -> bool {
    a == (RecordModel { ancestors: a.ancestors, ..b })
}

/// The scopes that `i` reaches in `a` are alike in both forests.
pub open spec fn agree_below(a: Seq<RecordModel>, b: Seq<RecordModel>, i: int) -> bool {
    a.len() == b.len() && forall|j: int| #[trigger] reaches(a, i, j) ==> alike(b[j], a[j])
}

proof fn reached_scopes_come_later(records: Seq<RecordModel>, i: int, j: int)
    requires
        reaches(records, i, j),
    ensures
        i <= j < records.len(),
    decreases records.len() - i,
{
    if i != j {
        let k = choose|k: int|
            i < #[trigger] child_at(records, i, k) && reaches(records, child_at(records, i, k), j);
        reached_scopes_come_later(records, child_at(records, i, k), j);
    }
}

/// Whatever is disposed is reached.
proof fn disposed_scopes_are_reached(records: Seq<RecordModel>, i: int, j: int)
    requires
        disposes(records, i, j),
    ensures
        reaches(records, i, j),
    decreases records.len() - i,
{
    if i != j {
        let k = choose|k: int|
            i < #[trigger] child_at(records, i, k) && disposes(records, child_at(records, i, k), j);
        disposed_scopes_are_reached(records, child_at(records, i, k), j);
        children_are_reached(records, i, k, j);
    }
}

/// What is reached from a reached scope is reached.
proof fn reaching_is_transitive(records: Seq<RecordModel>, i: int, j: int, x: int)
    requires
        reaches(records, i, j),
        reaches(records, j, x),
    ensures
        reaches(records, i, x),
    decreases records.len() - i,
{
    if i != j {
        let k = choose|k: int|
            i < #[trigger] child_at(records, i, k) && reaches(records, child_at(records, i, k), j);
        reaching_is_transitive(records, child_at(records, i, k), j, x);
        children_are_reached(records, i, k, x);
    }
}

/// What is disposed depends only on what the disposed scope reaches.
proof fn disposed_scopes_are_local(a: Seq<RecordModel>, b: Seq<RecordModel>, i: int, j: int)
    requires
        agree_below(a, b, i),
        disposes(a, i, j),
    ensures
        disposes(b, i, j),
    decreases a.len() - i,
{
    assert(reaches(a, i, i));
    assert(alike(b[i], a[i]));
    if i != j {
        let k = choose|k: int|
            i < #[trigger] child_at(a, i, k) && disposes(a, child_at(a, i, k), j);
        let c = child_at(a, i, k);
        assert(child_at(b, i, k) == c);
        assert(agree_below(a, b, c)) by {
            assert forall|x: int| #[trigger] reaches(a, c, x) implies alike(b[x], a[x]) by {
                children_are_reached(a, i, k, x);
            }
        }
        disposed_scopes_are_local(a, b, c, j);
    }
}

proof fn children_are_reached(records: Seq<RecordModel>, i: int, k: int, j: int)
    requires
        0 <= i < records.len(),
        i < child_at(records, i, k),
        reaches(records, child_at(records, i, k), j),
    ensures
        reaches(records, i, j),
{
}

/// Disposal depends only on what the disposed scope reaches.
proof fn disposal_is_local(
    a: Seq<RecordModel>,
    b: Seq<RecordModel>,
    i: int,
    failures: Seq<EffectFailure>,
)
    requires
        0 <= i < a.len(),
        agree_below(a, b, i),
    ensures
        disposal_order(a, i) == disposal_order(b, i),
        disposal_outcome(a, i, failures) == disposal_outcome(b, i, failures),
        forall|j: int| #[trigger] reaches(b, i, j) ==> reaches(a, i, j),
    decreases a.len() - i, 1int, 0int,
{
    assert(reaches(a, i, i));
    assert(alike(b[i], a[i]));
    if !closed(a[i].state) {
        children_are_local(a, b, i, a[i].children.len() as int, failures, Seq::empty());
    }
    assert forall|j: int| #[trigger] reaches(b, i, j) implies reaches(a, i, j) by {
        if i != j {
            let k = choose|k: int|
                i < #[trigger] child_at(b, i, k) && reaches(b, child_at(b, i, k), j);
            let c = child_at(b, i, k);
            assert(child_at(a, i, k) == c);
            assert(agree_below(a, b, c)) by {
                assert forall|x: int| #[trigger] reaches(a, c, x) implies alike(b[x], a[x]) by {
                    children_are_reached(a, i, k, x);
                }
            }
            disposal_is_local(a, b, c, failures);
            children_are_reached(a, i, k, j);
        }
    }
}

proof fn children_are_local(
    a: Seq<RecordModel>,
    b: Seq<RecordModel>,
    i: int,
    count: int,
    failures: Seq<EffectFailure>,
    errors: Seq<CoreFailure>,
)
    requires
        0 <= i < a.len(),
        agree_below(a, b, i),
    ensures
        children_order(a, i, count) == children_order(b, i, count),
        children_errors(a, i, count, failures, errors) == children_errors(
            b,
            i,
            count,
            failures,
            errors,
        ),
    decreases a.len() - i, 0int, count,
{
    if count > 0 {
        assert(reaches(a, i, i));
        assert(alike(b[i], a[i]));
        let c = child_at(a, i, count - 1);
        assert(child_at(b, i, count - 1) == c);
        if i < c {
            assert(agree_below(a, b, c)) by {
                assert forall|x: int| #[trigger] reaches(a, c, x) implies alike(b[x], a[x]) by {
                    children_are_reached(a, i, count - 1, x);
                }
            }
            disposal_is_local(a, b, c, failures);
            children_are_local(
                a,
                b,
                i,
                count - 1,
                failures,
                after_outcome(errors, disposal_outcome(a, c, failures)),
            );
        } else {
            children_are_local(a, b, i, count - 1, failures, errors);
        }
    }
}

/// A scope that is reached from elsewhere is reached through its one parent.
proof fn reached_through_parent(
    records: Seq<RecordModel>,
    ids: IdSource,
    from: int,
    parent: int,
    k: int,
)
    requires
        sound(records, ids),
        0 <= parent < records.len(),
        0 <= k < records[parent].children.len(),
        reaches(records, from, records[parent].children[k].index as int),
        from != records[parent].children[k].index,
    ensures
        reaches(records, from, parent),
    decreases records.len() - from,
{
    let child = records[parent].children[k];
    let target = child.index as int;
    let m = choose|m: int|
        from < #[trigger] child_at(records, from, m) && reaches(
            records,
            child_at(records, from, m),
            target,
        );
    let c = child_at(records, from, m);
    if c == target {
        assert(records[from].children[m] == child);
        assert(from == parent);
    } else {
        reached_through_parent(records, ids, c, parent, k);
        children_are_reached(records, from, m, parent);
    }
}

/// Nothing lies below two different children of one scope.
proof fn siblings_are_apart(
    records: Seq<RecordModel>,
    ids: IdSource,
    i: int,
    k: int,
    l: int,
    from: int,
    j: int,
)
    requires
        sound(records, ids),
        0 <= i < records.len(),
        0 <= k < records[i].children.len(),
        0 <= l < records[i].children.len(),
        k != l,
        reaches(records, records[i].children[k].index as int, from),
        reaches(records, from, j),
    ensures
        !reaches(records, records[i].children[l].index as int, from),
    decreases from,
{
    let a = records[i].children[k].index as int;
    let b = records[i].children[l].index as int;
    assert(records[i].children[k] != records[i].children[l]);
    assert(i < a && i < b);
    if reaches(records, b, from) {
        reached_scopes_come_later(records, a, from);
        reached_scopes_come_later(records, b, from);
        if from == a {
            reached_through_parent(records, ids, b, i, k);
            reached_scopes_come_later(records, b, i);
        } else if from == b {
            reached_through_parent(records, ids, a, i, l);
            reached_scopes_come_later(records, a, i);
        } else {
            let (p, m) = parent_of(records, a, from);
            last_step(records, a, from);
            reached_through_parent(records, ids, b, p, m);
            siblings_are_apart(records, ids, i, k, l, p, p);
        }
    }
}

/// A parent of `j` on the way from `i`, and the place of `j` among its
/// children.
spec fn parent_of(records: Seq<RecordModel>, i: int, j: int) -> (int, int) {
    choose|p: int, m: int|
        reaches(records, i, p) && p < j && #[trigger] child_at(records, p, m) == j
}

proof fn last_step(records: Seq<RecordModel>, i: int, j: int)
    requires
        reaches(records, i, j),
        i != j,
    ensures
        ({
            let (p, m) = parent_of(records, i, j);
            &&& reaches(records, i, p)
            &&& reaches(records, p, p)
            &&& 0 <= p < j
            &&& p < records.len()
            &&& 0 <= m < records[p].children.len()
            &&& records[p].children[m].index == j
        }),
    decreases records.len() - i,
{
    let k = choose|k: int|
        i < #[trigger] child_at(records, i, k) && reaches(records, child_at(records, i, k), j);
    let c = child_at(records, i, k);
    if c == j {
        assert(reaches(records, i, i));
        assert(child_at(records, i, k) == j);
    } else {
        last_step(records, c, j);
        reached_scopes_come_later(records, c, j);
        let (p, m) = parent_of(records, c, j);
        children_are_reached(records, i, k, p);
        assert(child_at(records, p, m) == j);
    }
    let (p, m) = parent_of(records, i, j);
    reached_scopes_come_later(records, i, p);
}

/// Every scope that `i` reaches and that is closed has an outcome: no other
/// task is in the middle of disposing one of them.
pub open spec fn quiet(records: Seq<RecordModel>, i: int) -> bool {
    forall|j: int| #[trigger]
        reaches(records, i, j) && closed(records[j].state) ==> records[j].outcome is Some
}

fn outcome_for(failures: &Vec<EffectFailure>, id: ResourceId) -> (result: Result<(), CoreError>)
    ensures
        outcome_of(result) == effect_outcome(failures@, id, 0),
{
    let mut i: usize = 0;
    while i < failures.len()
        invariant
            i <= failures@.len(),
            effect_outcome(failures@, id, 0) == effect_outcome(failures@, id, i as int),
        decreases failures@.len() - i,
    {
        if failures[i].id == id {
            return Err(failures[i].error.clone());
        }
        i += 1;
    }
    Ok(())
}

fn clone_outcome(outcome: &Result<(), CoreError>) -> (result: Result<(), CoreError>)
    ensures
        outcome_of(result) == outcome_of(*outcome),
{
    match outcome {
        Ok(()) => Ok(()),
        Err(error) => Err(error.clone()),
    }
}

/// A claim leaves every other scope alike.
proof fn claiming_is_local(records: Seq<RecordModel>, ids: IdSource, at: int, ancestors: Seq<ScopeId>)
    requires
        sound(records, ids),
        0 <= at < records.len(),
    ensures
        claimed(records, at, ancestors).len() == records.len(),
        forall|j: int|
            0 <= j < records.len() && j != at ==> alike(
                #[trigger] claimed(records, at, ancestors)[j],
                records[j],
            ),
{
    let record = records[at];
    let base = records.update(
        at,
        RecordModel {
            ancestors: merged(record.ancestors, ancestors, ancestors.len() as int),
            ..emptied(record, FiberState::Unloading)
        },
    );
    assert forall|k: int| 0 <= k < record.children.len() implies (
    #[trigger] record.children[k]).index < base.len() by {
        assert(records[at].children[k].index < records.len());
    }
    crate::lifecycle::informing_shrinks(
        base,
        record.children,
        record.children.len() as int,
        ancestors.push(record.id),
    );
}

/// A claimed scope has given up all that it had.
proof fn claimed_scope_is_emptied(
    records: Seq<RecordModel>,
    ids: IdSource,
    at: int,
    ancestors: Seq<ScopeId>,
)
    requires
        sound(records, ids),
        0 <= at < records.len(),
    ensures
        alike(
            claimed(records, at, ancestors)[at],
            emptied(records[at], FiberState::Unloading),
        ),
{
    let record = records[at];
    let base = records.update(
        at,
        RecordModel {
            ancestors: merged(record.ancestors, ancestors, ancestors.len() as int),
            ..emptied(record, FiberState::Unloading)
        },
    );
    assert forall|k: int| 0 <= k < record.children.len() implies (
    #[trigger] record.children[k]).index < base.len() by {
        assert(records[at].children[k].index < records.len());
    }
    crate::lifecycle::informing_shrinks(
        base,
        record.children,
        record.children.len() as int,
        ancestors.push(record.id),
    );
}

/// One more child disposes what it reaches openly.
proof fn disposed_with_one_more(records: Seq<RecordModel>, i: int, n: int, j: int)
    requires
        0 <= i < records.len(),
        0 < n <= records[i].children.len(),
    ensures
        disposed_with(records, i, n - 1, j) == (disposed_with(records, i, n, j) || disposes(
            records,
            records[i].children[n - 1].index as int,
            j,
        )),
{
    if disposed_with(records, i, n, j) {
        let k = choose|k: int|
            n <= k < records[i].children.len() && #[trigger] disposes(
                records,
                records[i].children[k].index as int,
                j,
            );
        assert(n - 1 <= k);
    }
}

/// An open scope disposes itself and what its children dispose.
proof fn disposed_with_children(records: Seq<RecordModel>, ids: IdSource, i: int, j: int)
    requires
        sound(records, ids),
        0 <= i < records.len(),
        !closed(records[i].state),
        i != j,
    ensures
        disposes(records, i, j) == disposed_with(records, i, 0, j),
{
    if disposes(records, i, j) {
        let k = choose|k: int|
            i < #[trigger] child_at(records, i, k) && disposes(records, child_at(records, i, k), j);
        assert(disposes(records, records[i].children[k].index as int, j));
    }
    if disposed_with(records, i, 0, j) {
        let k = choose|k: int|
            0 <= k < records[i].children.len() && #[trigger] disposes(
                records,
                records[i].children[k].index as int,
                j,
            );
        assert(i < records[i].children[k].index < records.len());
        assert(child_at(records, i, k) == records[i].children[k].index);
    }
}

impl Scope {
    /// Disposes this scope and everything below it, one effect after the
    /// other, when `failures` tells which disposers fail. Appends the effects
    /// to `order` as they run.
    pub fn dispose_below(
        self,
        tree: &mut ScopeTree,
        failures: &Vec<EffectFailure>,
        ancestors: &Vec<ScopeId>,
        order: &mut Vec<ResourceId>,
    ) -> (result: Result<(), CoreError>)
        requires
            old(tree).wf(),
            self.in_tree(old(tree)@),
            quiet(old(tree)@, self.index as int),
        ensures
            final(tree).wf(),
            final(tree).ids == old(tree).ids,
            final(tree)@.len() == old(tree)@.len(),
            outcome_of(result) == disposal_outcome(
                old(tree)@,
                self.index as int,
                failures@,
            ),
            final(order)@ == old(order)@ + disposal_order(old(tree)@, self.index as int),
            forall|j: int|
                0 <= j < old(tree)@.len() ==> alike(
                    #[trigger] final(tree)@[j],
                    if disposes(old(tree)@, self.index as int, j) {
                        disposed_record(old(tree)@, j, failures@)
                    } else {
                        old(tree)@[j]
                    },
                ),
        decreases old(tree)@.len() - self.index,
    {
        let ghost before = tree@;
        let ghost at = self.index as int;
        let ghost record = before[at];
        let ghost started = order@;
        assert(reaches(before, at, at));
        let mut cleanup = match self.claim_disposal(tree, ancestors) {
            DisposeClaim::Join => {
                assert(tree.records@.len() == tree@.len());
                assert(started + Seq::<ResourceId>::empty() =~= started);
                assert(tree@[at].outcome is Some);
                return match &tree.records[self.index].completion.outcome {
                    Some(outcome) => clone_outcome(outcome),
                    None => Ok(()),
                };
            },
            DisposeClaim::Owner(cleanup) => cleanup,
        };
        let mut inner: Vec<ScopeId> = Vec::new();
        let mut a: usize = 0;
        while a < ancestors.len()
            invariant
                a <= ancestors@.len(),
            decreases ancestors@.len() - a,
        {
            inner.push(ancestors[a]);
            a += 1;
        }
        assert(tree.records@.len() == tree@.len());
        proof {
            claiming_is_local(before, tree.ids, at, ancestors@);
        }
        inner.push(tree.records[self.index].id);
        let ghost children = record.children;
        let ghost effects = record.effects;
        let ghost total_order = started + disposal_order(before, at);
        let ghost total_errors = effect_errors(
            effects,
            effects.len() as int,
            failures@,
            children_errors(before, at, children.len() as int, failures@, Seq::empty()),
        );
        proof {
            assert(children.subrange(0, children.len() as int) =~= children);
            assert(effects.subrange(0, effects.len() as int) =~= effects);
            assert forall|j: int| 0 <= j < before.len() && j != at implies alike(
                #[trigger] tree@[j],
                if disposed_with(before, at, children.len() as int, j) {
                    disposed_record(before, j, failures@)
                } else {
                    before[j]
                },
            ) by {}
            claimed_scope_is_emptied(before, tree.ids, at, ancestors@);
            assert(started + (children_order(before, at, children.len() as int) + effect_order(
                effects,
                effects.len() as int,
            )) =~= order@ + children_order(before, at, children.len() as int) + effect_order(
                effects,
                effects.len() as int,
            ));
        }
        loop
            invariant
                tree.wf(),
                tree.ids == old(tree).ids,
                tree@.len() == before.len(),
                before == old(tree)@,
                sound(before, tree.ids),
                at == self.index,
                0 <= at < before.len(),
                record == before[at],
                children == record.children,
                effects == record.effects,
                quiet(before, at),
                cleanup@.children.len() <= children.len(),
                cleanup@.children == children.subrange(0, cleanup@.children.len() as int),
                cleanup@.effects.len() <= effects.len(),
                cleanup@.effects == effects.subrange(0, cleanup@.effects.len() as int),
                cleanup@.children.len() > 0 ==> cleanup@.effects.len() == effects.len(),
                total_order == order@ + children_order(
                    before,
                    at,
                    cleanup@.children.len() as int,
                ) + effect_order(effects, cleanup@.effects.len() as int),
                total_errors == effect_errors(
                    effects,
                    cleanup@.effects.len() as int,
                    failures@,
                    children_errors(
                        before,
                        at,
                        cleanup@.children.len() as int,
                        failures@,
                        cleanup@.errors,
                    ),
                ),
                forall|j: int|
                    0 <= j < before.len() && j != at ==> alike(
                        #[trigger] tree@[j],
                        if disposed_with(before, at, cleanup@.children.len() as int, j) {
                            disposed_record(before, j, failures@)
                        } else {
                            before[j]
                        },
                    ),
                alike(tree@[at], emptied(record, FiberState::Unloading)),
            ensures
                cleanup@.children.len() == 0,
                cleanup@.effects.len() == 0,
            decreases cleanup@.children.len() + cleanup@.effects.len(),
        {
            let ghost held = cleanup@;
            let ghost n = held.children.len() as int;
            let ghost m = held.effects.len() as int;
            let ghost ran = order@;
            match cleanup.next() {
                CleanupStep::Child(child) => {
                    let ghost current = tree@;
                    let ghost c = child.index as int;
                    proof {
                        assert(child == children[n - 1]);
                        assert(before[at].children[n - 1] == child);
                        assert(child_at(before, at, n - 1) == c);
                        assert(agree_below(before, current, c)) by {
                            assert forall|j: int| #[trigger] reaches(before, c, j) implies alike(
                                current[j],
                                before[j],
                            ) by {
                                reached_scopes_come_later(before, c, j);
                                if disposed_with(before, at, n, j) {
                                    let k = choose|k: int|
                                        n <= k < children.len() && #[trigger] disposes(
                                            before,
                                            children[k].index as int,
                                            j,
                                        );
                                    disposed_scopes_are_reached(
                                        before,
                                        children[k].index as int,
                                        j,
                                    );
                                    assert(reaches(before, j, j));
                                    siblings_are_apart(before, tree.ids, at, k, n - 1, j, j);
                                }
                            }
                        }
                        disposal_is_local(before, current, c, failures@);
                        assert forall|j: int| #[trigger]
                            reaches(current, c, j) && closed(current[j].state) implies current[
                            j].outcome is Some by {
                            assert(reaches(before, c, j));
                            children_are_reached(before, at, n - 1, j);
                            assert(reaches(before, at, j));
                        }
                    }
                    let outcome = child.dispose_below(tree, failures, &inner, order);
                    cleanup.record(outcome);
                    proof {
                        let after = tree@;
                        assert forall|j: int| 0 <= j < before.len() && j != at implies alike(
                            #[trigger] after[j],
                            if disposed_with(before, at, n - 1, j) {
                                disposed_record(before, j, failures@)
                            } else {
                                before[j]
                            },
                        ) by {
                            disposed_with_one_more(before, at, n, j);
                            if disposes(before, c, j) {
                                disposed_scopes_are_local(before, current, c, j);
                                disposed_scopes_are_reached(before, c, j);
                                assert(agree_below(before, current, j)) by {
                                    assert forall|x: int| #[trigger]
                                        reaches(before, j, x) implies alike(
                                        current[x],
                                        before[x],
                                    ) by {
                                        reaching_is_transitive(before, c, j, x);
                                    }
                                }
                                assert(alike(current[j], before[j]));
                                disposal_is_local(before, current, j, failures@);
                                assert(alike(
                                    after[j],
                                    disposed_record(current, j, failures@),
                                ));
                            } else {
                                if disposes(current, c, j) {
                                    assert(agree_below(current, before, c)) by {
                                        assert forall|x: int| #[trigger]
                                            reaches(current, c, x) implies alike(
                                            before[x],
                                            current[x],
                                        ) by {
                                            assert(reaches(before, c, x));
                                        }
                                    }
                                    disposed_scopes_are_local(current, before, c, j);
                                }
                                assert(alike(after[j], current[j]));
                            }
                        }
                        assert(alike(after[at], emptied(record, FiberState::Unloading))) by {
                            if disposes(current, c, at) {
                                disposed_scopes_are_reached(current, c, at);
                                reached_scopes_come_later(current, c, at);
                            }
                            assert(alike(after[at], current[at]));
                        }
                        assert(cleanup@.children =~= children.subrange(
                            0,
                            cleanup@.children.len() as int,
                        ));
                        assert(order@ + children_order(before, at, n - 1) + effect_order(
                            effects,
                            m,
                        ) =~= ran + (disposal_order(before, c) + children_order(
                            before,
                            at,
                            n - 1,
                        )) + effect_order(effects, m));
                    }
                },
                CleanupStep::Effect(effect) => {
                    proof {
                        assert(effect@ == effects[m - 1]);
                        crate::lifecycle::lemma_effect_view(effect);
                    }
                    order.push(effect.id);
                    let outcome = outcome_for(failures, effect.id);
                    cleanup.record(outcome);
                    proof {
                        assert(cleanup@.effects =~= effects.subrange(
                            0,
                            cleanup@.effects.len() as int,
                        ));
                        assert(cleanup@.children =~= children.subrange(0, 0));
                        assert(order@ + children_order(before, at, 0) + effect_order(
                            effects,
                            m - 1,
                        ) =~= ran + children_order(before, at, 0) + (seq![effect.id]
                            + effect_order(effects, m - 1)));
                    }
                },
                CleanupStep::Finished => {
                    break;
                },
            }
        }
        assert(order@ + children_order(before, at, 0) + effect_order(effects, 0) =~= order@);
        let outcome = cleanup.finish();
        assert(tree.records@.len() == tree@.len());
        self.finish_disposal(tree, clone_outcome(&outcome));
        proof {
            assert forall|j: int| 0 <= j < before.len() implies alike(
                #[trigger] tree@[j],
                if disposes(before, at, j) {
                    disposed_record(before, j, failures@)
                } else {
                    before[j]
                },
            ) by {
                if j == at {
                    assert(disposes(before, at, at));
                } else {
                    disposed_with_children(before, tree.ids, at, j);
                }
            }
        }
        outcome
    }
}

/// The effects of one scope run in reverse registration order.
pub proof fn effects_run_in_reverse(effects: Seq<EffectModel>, count: int)
    requires
        0 <= count <= effects.len(),
    ensures
        effect_order(effects, count) == Seq::new(
            count as nat,
            |k: int| effects[count - 1 - k].id,
        ),
    decreases count,
{
    if count > 0 {
        effects_run_in_reverse(effects, count - 1);
        assert(effect_order(effects, count) =~= Seq::new(
            count as nat,
            |k: int| effects[count - 1 - k].id,
        ));
    } else {
        assert(effect_order(effects, count) =~= Seq::new(
            count as nat,
            |k: int| effects[count - 1 - k].id,
        ));
    }
}

/// Effect `id` belongs to scope `j`.
pub open spec fn owns(records: Seq<RecordModel>, j: int, id: ResourceId) -> bool {
    0 <= j < records.len() && exists|k: int|
        0 <= k < records[j].effects.len() && (#[trigger] records[j].effects[k]).id == id
}

/// Effect `id` belongs to a scope that `i` reaches.
pub open spec fn owned_below(records: Seq<RecordModel>, i: int, id: ResourceId) -> bool {
    exists|j: int| #[trigger] reaches(records, i, j) && owns(records, j, id)
}

/// No scope that `i` reaches is closed.
pub open spec fn open_below(records: Seq<RecordModel>, i: int) -> bool {
    forall|j: int| #[trigger] reaches(records, i, j) ==> !closed(records[j].state)
}

proof fn order_holds_owned(records: Seq<RecordModel>, ids: IdSource, i: int, id: ResourceId)
    requires
        sound(records, ids),
        0 <= i < records.len(),
        open_below(records, i),
    ensures
        disposal_order(records, i).contains(id) <==> owned_below(records, i, id),
    decreases records.len() - i, 1int, 0int,
{
    assert(reaches(records, i, i));
    let n = records[i].children.len() as int;
    let effects = records[i].effects;
    let own = effect_order(effects, effects.len() as int);
    let below = children_order(records, i, n);
    effects_run_in_reverse(effects, effects.len() as int);
    children_hold_owned(records, ids, i, n, id);
    vstd::seq_lib::lemma_seq_concat_contains_all_elements(below, own, id);
    if own.contains(id) {
        let k = choose|k: int| 0 <= k < own.len() && own[k] == id;
        assert(records[i].effects[effects.len() - 1 - k].id == id);
        assert(owns(records, i, id));
    }
    if below.contains(id) {
        let k = choose|k: int|
            0 <= k < n && owned_below(records, #[trigger] child_at(records, i, k), id);
        let c = child_at(records, i, k);
        let j = choose|j: int| #[trigger] reaches(records, c, j) && owns(records, j, id);
        assert(i < records[i].children[k].index < records.len());
        children_are_reached(records, i, k, j);
        assert(reaches(records, i, j));
    }
    if owned_below(records, i, id) {
        let j = choose|j: int| #[trigger] reaches(records, i, j) && owns(records, j, id);
        if j == i {
            let k = choose|k: int|
                0 <= k < records[i].effects.len() && (#[trigger] records[i].effects[k]).id == id;
            assert(own[effects.len() - 1 - k] == id);
        } else {
            let k = choose|k: int|
                i < #[trigger] child_at(records, i, k) && reaches(
                    records,
                    child_at(records, i, k),
                    j,
                );
            assert(owned_below(records, child_at(records, i, k), id));
        }
    }
}

/// The order of the children `0..count` holds what lies below one of them.
proof fn children_hold_owned(
    records: Seq<RecordModel>,
    ids: IdSource,
    i: int,
    count: int,
    id: ResourceId,
)
    requires
        sound(records, ids),
        0 <= i < records.len(),
        open_below(records, i),
        0 <= count <= records[i].children.len(),
    ensures
        children_order(records, i, count).contains(id) <==> exists|k: int|
            0 <= k < count && owned_below(records, #[trigger] child_at(records, i, k), id),
    decreases records.len() - i, 0int, count,
{
    if count > 0 {
        let c = child_at(records, i, count - 1);
        assert(i < records[i].children[count - 1].index < records.len());
        assert(open_below(records, c)) by {
            assert forall|j: int| #[trigger] reaches(records, c, j) implies !closed(
                records[j].state,
            ) by {
                children_are_reached(records, i, count - 1, j);
                assert(reaches(records, i, j));
            }
        }
        order_holds_owned(records, ids, c, id);
        children_hold_owned(records, ids, i, count - 1, id);
        vstd::seq_lib::lemma_seq_concat_contains_all_elements(
            disposal_order(records, c),
            children_order(records, i, count - 1),
            id,
        );
        if exists|k: int| 0 <= k < count && owned_below(records, #[trigger] child_at(records, i, k), id) {
            let k = choose|k: int|
                0 <= k < count && owned_below(records, #[trigger] child_at(records, i, k), id);
            if k < count - 1 {
                assert(owned_below(records, child_at(records, i, k), id));
            }
        }
    }
}

proof fn joined_without_duplicates(a: Seq<ResourceId>, b: Seq<ResourceId>)
    requires
        a.no_duplicates(),
        b.no_duplicates(),
        forall|id: ResourceId| !(#[trigger] a.contains(id) && b.contains(id)),
    ensures
        (a + b).no_duplicates(),
{
    let all = a + b;
    assert forall|x: int, y: int| 0 <= x < all.len() && 0 <= y < all.len() && x != y implies all[x]
        != all[y] by {
        if x < a.len() && y >= a.len() {
            assert(a.contains(all[x]));
            assert(b[y - a.len()] == all[y]);
            assert(b.contains(all[y]));
        }
        if y < a.len() && x >= a.len() {
            assert(a.contains(all[y]));
            assert(b[x - a.len()] == all[x]);
            assert(b.contains(all[x]));
        }
    }
}

proof fn one_owner(records: Seq<RecordModel>, ids: IdSource, a: int, b: int, id: ResourceId)
    requires
        sound(records, ids),
        owns(records, a, id),
        owns(records, b, id),
    ensures
        a == b,
{
    let k = choose|k: int|
        0 <= k < records[a].effects.len() && (#[trigger] records[a].effects[k]).id == id;
    let l = choose|l: int|
        0 <= l < records[b].effects.len() && (#[trigger] records[b].effects[l]).id == id;
    assert(records[a].effects[k].id == records[b].effects[l].id);
}

proof fn order_repeats_nothing(records: Seq<RecordModel>, ids: IdSource, i: int)
    requires
        sound(records, ids),
        0 <= i < records.len(),
        open_below(records, i),
    ensures
        disposal_order(records, i).no_duplicates(),
    decreases records.len() - i, 1int, 0int,
{
    let n = records[i].children.len() as int;
    let effects = records[i].effects;
    let own = effect_order(effects, effects.len() as int);
    let below = children_order(records, i, n);
    assert(reaches(records, i, i));
    effects_run_in_reverse(effects, effects.len() as int);
    children_repeat_nothing(records, ids, i, n);
    assert forall|x: int, y: int| 0 <= x < own.len() && 0 <= y < own.len() && x != y implies own[x]
        != own[y] by {
        assert(own[x] == records[i].effects[effects.len() - 1 - x].id);
        assert(own[y] == records[i].effects[effects.len() - 1 - y].id);
    }
    assert forall|id: ResourceId| !(#[trigger] below.contains(id) && own.contains(id)) by {
        if below.contains(id) && own.contains(id) {
            children_hold_owned(records, ids, i, n, id);
            let k = choose|k: int|
                0 <= k < n && owned_below(records, #[trigger] child_at(records, i, k), id);
            let c = child_at(records, i, k);
            let j = choose|j: int| #[trigger] reaches(records, c, j) && owns(records, j, id);
            let x = choose|x: int| 0 <= x < own.len() && own[x] == id;
            assert(records[i].effects[effects.len() - 1 - x].id == id);
            assert(owns(records, i, id));
            one_owner(records, ids, i, j, id);
            reached_scopes_come_later(records, c, j);
            assert(i < records[i].children[k].index);
        }
    }
    joined_without_duplicates(below, own);
}

proof fn children_repeat_nothing(records: Seq<RecordModel>, ids: IdSource, i: int, count: int)
    requires
        sound(records, ids),
        0 <= i < records.len(),
        open_below(records, i),
        0 <= count <= records[i].children.len(),
    ensures
        children_order(records, i, count).no_duplicates(),
    decreases records.len() - i, 0int, count,
{
    if count > 0 {
        let c = child_at(records, i, count - 1);
        assert(i < records[i].children[count - 1].index < records.len());
        assert(open_below(records, c)) by {
            assert forall|j: int| #[trigger] reaches(records, c, j) implies !closed(
                records[j].state,
            ) by {
                children_are_reached(records, i, count - 1, j);
                assert(reaches(records, i, j));
            }
        }
        order_repeats_nothing(records, ids, c);
        children_repeat_nothing(records, ids, i, count - 1);
        let first = disposal_order(records, c);
        let rest = children_order(records, i, count - 1);
        assert forall|id: ResourceId| !(#[trigger] first.contains(id) && rest.contains(id)) by {
            if first.contains(id) && rest.contains(id) {
                order_holds_owned(records, ids, c, id);
                children_hold_owned(records, ids, i, count - 1, id);
                let j = choose|j: int| #[trigger] reaches(records, c, j) && owns(records, j, id);
                let k = choose|k: int|
                    0 <= k < count - 1 && owned_below(
                        records,
                        #[trigger] child_at(records, i, k),
                        id,
                    );
                let d = child_at(records, i, k);
                assert(i < records[i].children[k].index < records.len());
                let l = choose|l: int| #[trigger] reaches(records, d, l) && owns(records, l, id);
                one_owner(records, ids, j, l, id);
                reached_scopes_come_later(records, c, j);
                assert(reaches(records, j, j));
                siblings_are_apart(records, ids, i, count - 1, k, j, j);
            }
        }
        joined_without_duplicates(first, rest);
    }
}

/// Disposing an open scope runs every effect that it or a scope below it owns,
/// each exactly once, and no other.
pub proof fn disposal_runs_every_effect_once(records: Seq<RecordModel>, ids: IdSource, scope: Scope)
    requires
        sound(records, ids),
        scope.in_tree(records),
        open_below(records, scope.index as int),
    ensures
        disposal_order(records, scope.index as int).no_duplicates(),
        forall|id: ResourceId| #[trigger]
            disposal_order(records, scope.index as int).contains(id) <==> owned_below(
                records,
                scope.index as int,
                id,
            ),
{
    let i = scope.index as int;
    order_repeats_nothing(records, ids, i);
    assert forall|id: ResourceId| #[trigger] disposal_order(records, i).contains(id)
        <==> owned_below(records, i, id) by {
        order_holds_owned(records, ids, i, id);
    }
}

/// A scope that was claimed takes no more effects or children, has given up
/// those it had, has cancelled its work, and is never claimed again.
pub proof fn claimed_scopes_are_closed(
    records: Seq<RecordModel>,
    ids: IdSource,
    scope: Scope,
    ancestors: Seq<ScopeId>,
)
    requires
        sound(records, ids),
        scope.in_tree(records),
    ensures
        ({
            let after = claimed(records, scope.index as int, ancestors)[scope.index as int];
            &&& closed(after.state)
            &&& after.cancelled
            &&& after.effects.len() == 0
            &&& after.children.len() == 0
        }),
{
    let at = scope.index as int;
    let record = records[at];
    let base = records.update(
        at,
        RecordModel {
            ancestors: merged(record.ancestors, ancestors, ancestors.len() as int),
            ..emptied(record, FiberState::Unloading)
        },
    );
    assert forall|k: int| 0 <= k < record.children.len() implies (
    #[trigger] record.children[k]).index < base.len() by {
        assert(records[at].children[k].index < records.len());
    }
    crate::lifecycle::informing_shrinks(
        base,
        record.children,
        record.children.len() as int,
        ancestors.push(record.id),
    );
}

/// A scope that was claimed shows that it is on its way out.
pub proof fn claimed_scope_is_unloading(
    records: Seq<RecordModel>,
    ids: IdSource,
    scope: Scope,
    ancestors: Seq<ScopeId>,
)
    requires
        sound(records, ids),
        scope.in_tree(records),
    ensures
        claimed(records, scope.index as int, ancestors).len() == records.len(),
        claimed(records, scope.index as int, ancestors)[scope.index as int].state
            == FiberState::Unloading,
{
    claiming_is_local(records, ids, scope.index as int, ancestors);
    claimed_scope_is_emptied(records, ids, scope.index as int, ancestors);
}

/// A scope that was disposed gives every later caller the same outcome and
/// runs nothing again.
pub proof fn disposed_scopes_keep_their_outcome(
    records: Seq<RecordModel>,
    scope: Scope,
    failures: Seq<EffectFailure>,
)
    requires
        scope.in_tree(records),
        records[scope.index as int].state == FiberState::Disposed,
        records[scope.index as int].outcome is Some,
    ensures
        disposal_order(records, scope.index as int) == Seq::<ResourceId>::empty(),
        disposal_outcome(records, scope.index as int, failures)
            == records[scope.index as int].outcome->Some_0,
{
}

/// Every scope that is closed has ended its disposal without an error.
pub open spec fn settled(records: Seq<RecordModel>) -> bool {
    forall|j: int|
        0 <= j < records.len() && closed((#[trigger] records[j]).state) ==> records[j].outcome
            == Some(Ok::<(), CoreFailure>(()))
}

/// Disposal succeeds when no disposer fails, and nothing failed before.
pub proof fn disposal_without_failures_succeeds(
    records: Seq<RecordModel>,
    i: int,
    failures: Seq<EffectFailure>,
)
    requires
        settled(records),
        failures.len() == 0,
    ensures
        disposal_outcome(records, i, failures) == Ok::<(), CoreFailure>(()),
        quiet(records, i),
    decreases records.len() - i, 1int, 0int,
{
    if 0 <= i < records.len() && !closed(records[i].state) {
        children_without_failures(records, i, records[i].children.len() as int, failures);
        effects_without_failures(
            records[i].effects,
            records[i].effects.len() as int,
            failures,
        );
    }
    assert forall|j: int| #[trigger]
        reaches(records, i, j) && closed(records[j].state) implies records[j].outcome is Some by {
        reached_scopes_come_later(records, i, j);
    }
}

proof fn children_without_failures(
    records: Seq<RecordModel>,
    i: int,
    count: int,
    failures: Seq<EffectFailure>,
)
    requires
        settled(records),
        failures.len() == 0,
    ensures
        children_errors(records, i, count, failures, Seq::empty()) == Seq::<CoreFailure>::empty(),
    decreases records.len() - i, 0int, count,
{
    if count > 0 {
        if i < child_at(records, i, count - 1) {
            disposal_without_failures_succeeds(records, child_at(records, i, count - 1), failures);
        }
        children_without_failures(records, i, count - 1, failures);
    }
}

proof fn effects_without_failures(
    effects: Seq<EffectModel>,
    count: int,
    failures: Seq<EffectFailure>,
)
    requires
        failures.len() == 0,
    ensures
        effect_errors(effects, count, failures, Seq::empty()) == Seq::<CoreFailure>::empty(),
    decreases count,
{
    if 0 < count <= effects.len() {
        effects_without_failures(effects, count - 1, failures);
    }
}

/// Two scopes have the same identifier, or the same generation, exactly when
/// they are the same scope.
pub proof fn identifiers_tell_scopes_apart(
    records: Seq<RecordModel>,
    ids: IdSource,
    a: Scope,
    b: Scope,
)
    requires
        sound(records, ids),
        a.in_tree(records),
        b.in_tree(records),
    ensures
        records[a.index as int].id == records[b.index as int].id <==> a == b,
        records[a.index as int].generation == records[b.index as int].generation <==> a == b,
{
}

/// Every step of disposing a scope keeps the identifier and the generation of
/// every scope, in whatever state the others are: claiming it, giving its
/// resources up after a failed setup, and ending with an outcome. A scope whose
/// work was cancelled stays so.
pub proof fn disposal_keeps_identifiers(
    records: Seq<RecordModel>,
    ids: IdSource,
    scope: Scope,
    ancestors: Seq<ScopeId>,
    outcome: Result<(), CoreFailure>,
    other: Scope,
)
    requires
        sound(records, ids),
        scope.in_tree(records),
        other.in_tree(records),
    ensures
        ({
            let at = scope.index as int;
            let j = other.index as int;
            let taken = claimed(records, at, ancestors);
            let failed = records.update(at, emptied(records[at], FiberState::Failed));
            let ended = records.update(
                at,
                RecordModel {
                    state: FiberState::Disposed,
                    outcome: Some(outcome),
                    ..records[at]
                },
            );
            &&& taken[j].id == records[j].id && taken[j].generation == records[j].generation
            &&& failed[j].id == records[j].id && failed[j].generation == records[j].generation
            &&& ended[j].id == records[j].id && ended[j].generation == records[j].generation
            &&& records[j].cancelled ==> taken[j].cancelled && failed[j].cancelled
                && ended[j].cancelled
        }),
{
    let at = scope.index as int;
    let record = records[at];
    claiming_is_local(records, ids, at, ancestors);
    assert forall|k: int| 0 <= k < record.children.len() implies (
    #[trigger] record.children[k]).index < records.len() by {
        assert(records[at].children[k].index < records.len());
    }
    crate::lifecycle::informing_shrinks(
        records.update(
            at,
            RecordModel {
                ancestors: merged(record.ancestors, ancestors, ancestors.len() as int),
                ..emptied(record, FiberState::Unloading)
            },
        ),
        record.children,
        record.children.len() as int,
        ancestors.push(record.id),
    );
}

}
