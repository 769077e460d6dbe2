//! Ownership scopes, fibers, and their disposal.

use vstd::prelude::*;
use vstd::string::*;

use crate::error::{
    failure_list, lemma_cleanup_view, outcome_of, CoreError, CoreFailure,
};
use crate::ids::{FiberId, Generation, IdSource, ResourceId, ScopeId};

verus! {

/// The lifecycle state shared by scopes and fibers.
#[derive(Clone, Copy, Debug, PartialEq, Eq, Structural)]
pub enum FiberState {
    Pending,
    Loading,
    Active,
    Failed,
    Disposed,
    Unloading,
}

impl FiberState {
    /// The name of the state, as diagnostics show it.
    pub open spec fn spec_name(self) -> Seq<char> {
        match self {
            FiberState::Pending => "Pending"@,
            FiberState::Loading => "Loading"@,
            FiberState::Active => "Active"@,
            FiberState::Failed => "Failed"@,
            FiberState::Disposed => "Disposed"@,
            FiberState::Unloading => "Unloading"@,
        }
    }

    /// The name of the state, as diagnostics show it.
    pub fn name(self) -> (result: &'static str)
        ensures
            result@ == self.spec_name(),
    {
        match self {
            FiberState::Pending => "Pending",
            FiberState::Loading => "Loading",
            FiberState::Active => "Active",
            FiberState::Failed => "Failed",
            FiberState::Disposed => "Disposed",
            FiberState::Unloading => "Unloading",
        }
    }

    /// The number that stands for the state.
    pub open spec fn spec_raw(self) -> u8 {
        match self {
            FiberState::Pending => 0,
            FiberState::Loading => 1,
            FiberState::Active => 2,
            FiberState::Failed => 3,
            FiberState::Disposed => 4,
            FiberState::Unloading => 5,
        }
    }

    /// The number that stands for the state.
    pub fn raw(self) -> (result: u8)
        ensures
            result == self.spec_raw(),
    {
        match self {
            FiberState::Pending => 0,
            FiberState::Loading => 1,
            FiberState::Active => 2,
            FiberState::Failed => 3,
            FiberState::Disposed => 4,
            FiberState::Unloading => 5,
        }
    }

    /// The state that a number stands for.
    pub fn from_raw(value: u8) -> (result: Self)
        requires
            value <= 5,
        ensures
            result.spec_raw() == value,
    {
        match value {
            0 => FiberState::Pending,
            1 => FiberState::Loading,
            2 => FiberState::Active,
            3 => FiberState::Failed,
            4 => FiberState::Disposed,
            _ => FiberState::Unloading,
        }
    }
}

/// A stable diagnostic description of a registered effect.
#[derive(Debug, PartialEq, Eq)]
pub struct EffectMeta {
    pub id: ResourceId,
    pub label: String,
    pub children: Vec<EffectMeta>,
}

/// The model of an effect.
#[verifier::ext_equal]
pub struct EffectModel {
    pub id: ResourceId,
    pub label: Seq<char>,
    pub children: Seq<EffectModel>,
}

/// The model of one effect.
pub open spec fn effect_of(effect: EffectMeta) -> EffectModel
    decreases effect,
{
    EffectModel {
        id: effect.id,
        label: effect.label@,
        children: Seq::new(
            effect.children@.len(),
            |i: int|
                if 0 <= i < effect.children@.len() {
                    effect_of(effect.children@[i])
                } else {
                    arbitrary()
                },
        ),
    }
}

impl View for EffectMeta {
    type V = EffectModel;

    open spec fn view(&self) -> EffectModel {
        effect_of(*self)
    }
}

/// The models of a list of effects.
pub open spec fn effect_list(effects: Seq<EffectMeta>) -> Seq<EffectModel> {
    Seq::new(effects.len(), |i: int| effects[i]@)
}

/// The model of an effect lists the models of its children.
pub proof fn lemma_effect_view(effect: EffectMeta)
    ensures
        effect@ == (EffectModel {
            id: effect.id,
            label: effect.label@,
            children: effect_list(effect.children@),
        }),
{
    assert(effect@.children =~= effect_list(effect.children@));
}

impl Clone for EffectMeta {
    fn clone(&self) -> (result: Self)
        ensures
            result@ == self@,
        decreases *self,
    {
        let mut children: Vec<EffectMeta> = Vec::new();
        let mut i: usize = 0;
        while i < self.children.len()
            invariant
                i <= self.children@.len(),
                children@.len() == i,
                forall|j: int| 0 <= j < i ==> (#[trigger] children@[j])@ == self.children@[j]@,
            decreases self.children@.len() - i,
        {
            assert(decreases_to!(*self => self.children@[i as int]));
            children.push(self.children[i].clone());
            i += 1;
        }
        let result = EffectMeta { id: self.id, label: self.label.clone(), children };
        proof {
            lemma_effect_view(*self);
            lemma_effect_view(result);
            assert(effect_list(children@) =~= effect_list(self.children@));
        }
        result
    }
}

/// A cooperative cancellation signal shared by a scope and its callers: every
/// copy of a token, and every token of one scope, names the one signal that the
/// scope has in its tree.
#[derive(Clone, Copy, Debug, PartialEq, Eq, Structural)]
pub struct CancellationToken {
    pub index: usize,
}

/// Whether `ids` holds `id`.
pub fn holds_scope(ids: &Vec<ScopeId>, id: ScopeId) -> (result: bool)
    ensures
        result == ids@.contains(id),
{
    let mut i: usize = 0;
    while i < ids.len()
        invariant
            i <= ids@.len(),
            forall|k: int| 0 <= k < i ==> #[trigger] ids@[k] != id,
        decreases ids@.len() - i,
    {
        if ids[i] == id {
            return true;
        }
        i += 1;
    }
    false
}

/// `known` followed by those of `added[..count]` that are new, each once.
pub open spec fn merged(known: Seq<ScopeId>, added: Seq<ScopeId>, count: int) -> Seq<ScopeId>
    decreases count,
{
    if count <= 0 {
        known
    } else {
        let before = merged(known, added, count - 1);
        if before.contains(added[count - 1]) {
            before
        } else {
            before.push(added[count - 1])
        }
    }
}

/// Adds the scopes of `added` that are new, each once and in order.
pub fn merge_scopes(known: &mut Vec<ScopeId>, added: &Vec<ScopeId>)
    ensures
        final(known)@ == merged(old(known)@, added@, added@.len() as int),
{
    let mut i: usize = 0;
    while i < added.len()
        invariant
            i <= added@.len(),
            known@ == merged(old(known)@, added@, i as int),
        decreases added@.len() - i,
    {
        if !holds_scope(known, added[i]) {
            known.push(added[i]);
        }
        i += 1;
    }
}

/// Merging keeps what was known, adds everything, and repeats nothing.
pub proof fn merging_is_a_union(known: Seq<ScopeId>, added: Seq<ScopeId>, count: int)
    requires
        0 <= count <= added.len(),
    ensures
        forall|id: ScopeId| #[trigger]
            merged(known, added, count).contains(id) <==> known.contains(id) || added.subrange(
                0,
                count,
            ).contains(id),
        known.no_duplicates() ==> merged(known, added, count).no_duplicates(),
    decreases count,
{
    let result = merged(known, added, count);
    if count <= 0 {
        assert(added.subrange(0, count) =~= Seq::empty());
    } else {
        merging_is_a_union(known, added, count - 1);
        let before = merged(known, added, count - 1);
        let last = added[count - 1];
        let shorter = added.subrange(0, count - 1);
        assert(added.subrange(0, count) =~= shorter.push(last));
        assert forall|id: ScopeId| #[trigger] result.contains(id) <==> known.contains(id)
            || added.subrange(0, count).contains(id) by {
            vstd::seq_lib::lemma_seq_contains_after_push(shorter, last, id);
            vstd::seq_lib::lemma_seq_contains_after_push(before, last, id);
        }
    }
}

/// The scopes that the current task is disposing: those of every disposal
/// context it runs in, then those it entered itself, each once.
pub open spec fn disposing(contexts: Seq<Vec<ScopeId>>, count: int, entered: Seq<ScopeId>) -> Seq<
    ScopeId,
> {
    merged(inherited(contexts, count), entered, entered.len() as int)
}

/// The scopes of the contexts `contexts[..count]`, each once.
pub open spec fn inherited(contexts: Seq<Vec<ScopeId>>, count: int) -> Seq<ScopeId>
    decreases count,
{
    if count <= 0 {
        Seq::empty()
    } else {
        merged(
            inherited(contexts, count - 1),
            contexts[count - 1]@,
            contexts[count - 1]@.len() as int,
        )
    }
}

/// The scopes that the current task is disposing.
pub fn disposing_scopes(contexts: &Vec<Vec<ScopeId>>, entered: &Vec<ScopeId>) -> (result: Vec<
    ScopeId,
>)
    ensures
        result@ == disposing(contexts@, contexts@.len() as int, entered@),
{
    let mut scopes: Vec<ScopeId> = Vec::new();
    let mut i: usize = 0;
    while i < contexts.len()
        invariant
            i <= contexts@.len(),
            scopes@ == inherited(contexts@, i as int),
        decreases contexts@.len() - i,
    {
        merge_scopes(&mut scopes, &contexts[i]);
        i += 1;
    }
    merge_scopes(&mut scopes, entered);
    scopes
}

/// Whether the current task is disposing the scope `id`.
pub fn is_disposing(id: ScopeId, contexts: &Vec<Vec<ScopeId>>, entered: &Vec<ScopeId>) -> (result:
    bool)
    ensures
        result == (entered@.contains(id) || exists|i: int|
            0 <= i < contexts@.len() && (#[trigger] contexts@[i])@.contains(id)),
{
    if holds_scope(entered, id) {
        return true;
    }
    let mut i: usize = 0;
    while i < contexts.len()
        invariant
            i <= contexts@.len(),
            forall|k: int| 0 <= k < i ==> !(#[trigger] contexts@[k])@.contains(id),
        decreases contexts@.len() - i,
    {
        if holds_scope(&contexts[i], id) {
            return true;
        }
        i += 1;
    }
    false
}

/// Where the disposal of one scope stands.
#[derive(Debug)]
pub struct DisposeCompletion {
    /// The scopes whose disposal waits for this one.
    pub ancestors: Vec<ScopeId>,
    /// The outcome, once cleanup has run.
    pub outcome: Option<Result<(), CoreError>>,
}

impl DisposeCompletion {
    pub fn new() -> (result: Self)
        ensures
            result.ancestors@ == Seq::<ScopeId>::empty(),
            result.outcome is None,
    {
        DisposeCompletion { ancestors: Vec::new(), outcome: None }
    }

    /// Adds ancestors, and says whether one of them was new.
    pub fn inherit_ancestors(&mut self, ancestors: &Vec<ScopeId>) -> (result: bool)
        ensures
            final(self).ancestors@ == merged(
                old(self).ancestors@,
                ancestors@,
                ancestors@.len() as int,
            ),
            final(self).outcome == old(self).outcome,
            result == (final(self).ancestors@ != old(self).ancestors@),
    {
        let before = self.ancestors.len();
        merge_scopes(&mut self.ancestors, ancestors);
        proof {
            merging_grows(old(self).ancestors@, ancestors@, ancestors@.len() as int);
        }
        self.ancestors.len() != before
    }

    /// Records the outcome of cleanup.
    pub fn complete(&mut self, outcome: Result<(), CoreError>)
        ensures
            final(self).ancestors == old(self).ancestors,
            final(self).outcome == Some(outcome),
    {
        self.outcome = Some(outcome);
    }
}

proof fn merging_grows(known: Seq<ScopeId>, added: Seq<ScopeId>, count: int)
    ensures
        merged(known, added, count).len() >= known.len(),
        merged(known, added, count).len() == known.len() ==> merged(known, added, count) == known,
    decreases count,
{
    if count > 0 {
        merging_grows(known, added, count - 1);
    }
}

/// The errors after one more: those of a cleanup error one by one, any other
/// as it is.
pub open spec fn collected(errors: Seq<CoreFailure>, error: CoreFailure) -> Seq<CoreFailure> {
    match error {
        CoreFailure::Cleanup(nested) => errors + nested,
        _ => errors.push(error),
    }
}

/// Adds an error to those that cleanup gathers.
pub fn collect_cleanup_error(errors: &mut Vec<CoreError>, error: CoreError)
    ensures
        failure_list(final(errors)@) == collected(failure_list(old(errors)@), error@),
{
    let ghost before = failure_list(errors@);
    proof {
        lemma_cleanup_view(error);
    }
    match error {
        CoreError::Cleanup(nested) => {
            let mut nested = nested;
            let ghost added = failure_list(nested@);
            errors.append(&mut nested);
            assert(failure_list(errors@) =~= before + added);
        },
        other => {
            errors.push(other);
            assert(failure_list(errors@) =~= before.push(error@));
        },
    }
}

/// The outcome of cleanup that gathered these errors.
pub open spec fn cleanup_outcome(errors: Seq<CoreFailure>) -> Result<(), CoreFailure> {
    if errors.len() == 0 {
        Ok(())
    } else {
        Err(CoreFailure::Cleanup(errors))
    }
}

/// A handle to one scope of a scope tree.
#[derive(Clone, Copy, Debug, PartialEq, Eq, Structural)]
pub struct Scope {
    pub index: usize,
}

/// One step of cleanup.
#[derive(Debug)]
pub enum CleanupStep {
    /// Dispose a child scope and report its outcome.
    Child(Scope),
    /// Run the disposer of an effect and report its outcome.
    Effect(EffectMeta),
    /// Nothing is left.
    Finished,
}

/// The resources of one scope on their way out: children before effects, each
/// in reverse registration order.
#[derive(Debug)]
pub struct Cleanup {
    pub children: Vec<Scope>,
    pub effects: Vec<EffectMeta>,
    pub errors: Vec<CoreError>,
}

/// The model of cleanup.
#[verifier::ext_equal]
pub struct CleanupModel {
    pub children: Seq<Scope>,
    pub effects: Seq<EffectModel>,
    pub errors: Seq<CoreFailure>,
}

impl View for Cleanup {
    type V = CleanupModel;

    open spec fn view(&self) -> CleanupModel {
        CleanupModel {
            children: self.children@,
            effects: effect_list(self.effects@),
            errors: failure_list(self.errors@),
        }
    }
}

impl Cleanup {
    /// Takes the next resource out.
    pub fn next(&mut self) -> (result: CleanupStep)
        ensures
            match result {
                CleanupStep::Child(child) => old(self)@.children.len() > 0 && child == old(
                    self)@.children.last() && final(self)@ == (CleanupModel {
                    children: old(self)@.children.drop_last(),
                    ..old(self)@
                }),
                CleanupStep::Effect(effect) => old(self)@.children.len() == 0 && old(
                    self)@.effects.len() > 0 && effect@ == old(self)@.effects.last()
                    && final(self)@ == (CleanupModel {
                    effects: old(self)@.effects.drop_last(),
                    ..old(self)@
                }),
                CleanupStep::Finished => old(self)@.children.len() == 0 && old(self)@.effects.len()
                    == 0 && final(self)@ == old(self)@,
            },
    {
        if let Some(child) = self.children.pop() {
            return CleanupStep::Child(child);
        }
        let ghost before = effect_list(self.effects@);
        if let Some(effect) = self.effects.pop() {
            assert(effect_list(self.effects@) =~= before.drop_last());
            return CleanupStep::Effect(effect);
        }
        CleanupStep::Finished
    }

    /// Records what became of the resource taken out last.
    pub fn record(&mut self, outcome: Result<(), CoreError>)
        ensures
            final(self)@ == (CleanupModel {
                errors: match outcome {
                    Ok(()) => old(self)@.errors,
                    Err(error) => collected(old(self)@.errors, error@),
                },
                ..old(self)@
            }),
    {
        match outcome {
            Ok(()) => {},
            Err(error) => {
                collect_cleanup_error(&mut self.errors, error);
            },
        }
    }

    /// The outcome of cleanup, once nothing is left.
    pub fn finish(self) -> (result: Result<(), CoreError>)
        ensures
            outcome_of(result) == cleanup_outcome(self@.errors),
    {
        if self.errors.len() == 0 {
            Ok(())
        } else {
            Err(CoreError::cleanup(self.errors))
        }
    }
}

/// One scope: what it owns and where it stands.
#[derive(Debug)]
pub struct ScopeRecord {
    pub id: ScopeId,
    pub generation: Generation,
    pub state: FiberState,
    /// Whether the cancellation signal was given.
    pub cancelled: bool,
    pub effects: Vec<EffectMeta>,
    pub children: Vec<Scope>,
    pub completion: DisposeCompletion,
}

/// The model of an optional outcome.
pub open spec fn optional_outcome(outcome: Option<Result<(), CoreError>>) -> Option<
    Result<(), CoreFailure>,
> {
    match outcome {
        Some(outcome) => Some(outcome_of(outcome)),
        None => None,
    }
}

/// The model of a scope.
#[verifier::ext_equal]
pub struct RecordModel {
    pub id: ScopeId,
    pub generation: Generation,
    pub state: FiberState,
    pub cancelled: bool,
    pub effects: Seq<EffectModel>,
    pub children: Seq<Scope>,
    pub ancestors: Seq<ScopeId>,
    pub outcome: Option<Result<(), CoreFailure>>,
}

impl View for ScopeRecord {
    type V = RecordModel;

    open spec fn view(&self) -> RecordModel {
        RecordModel {
            id: self.id,
            generation: self.generation,
            state: self.state,
            cancelled: self.cancelled,
            effects: effect_list(self.effects@),
            children: self.children@,
            ancestors: self.completion.ancestors@,
            outcome: optional_outcome(self.completion.outcome),
        }
    }
}

/// The models of a list of scopes.
pub open spec fn record_list(records: Seq<ScopeRecord>) -> Seq<RecordModel> {
    Seq::new(records.len(), |i: int| records[i]@)
}

/// A forest of ownership scopes and the source of their identifiers.
#[derive(Debug)]
pub struct ScopeTree {
    pub records: Vec<ScopeRecord>,
    pub ids: IdSource,
}

/// Identifiers are fresh and distinct, every child comes after its parent and
/// has no other, and every effect is owned once.
pub open spec fn sound(records: Seq<RecordModel>, ids: IdSource) -> bool {
    &&& forall|i: int| 0 <= i < records.len() ==> (#[trigger] records[i]).id.0 < ids.scope
        && records[i].generation.0 < ids.generation
    &&& forall|i: int, j: int|
        0 <= i < j < records.len() ==> (#[trigger] records[i]).id.0 < (#[trigger] records[j]).id.0
            && records[i].generation.0 < records[j].generation.0
    &&& forall|i: int, k: int|
        0 <= i < records.len() && 0 <= k < records[i].children.len() ==> i < (
        #[trigger] records[i].children[k]).index < records.len()
    &&& forall|i: int, k: int, j: int, l: int|
        0 <= i < records.len() && 0 <= k < records[i].children.len() && 0 <= j < records.len() && 0
            <= l < records[j].children.len() && (#[trigger] records[i].children[k]) == (
        #[trigger] records[j].children[l]) ==> i == j && k == l
    &&& forall|i: int, k: int|
        0 <= i < records.len() && 0 <= k < records[i].effects.len() ==> (
        #[trigger] records[i].effects[k]).id.0 < ids.resource
    &&& forall|i: int, k: int, j: int, l: int|
        0 <= i < records.len() && 0 <= k < records[i].effects.len() && 0 <= j < records.len() && 0
            <= l < records[j].effects.len() && (#[trigger] records[i].effects[k]).id == (
        #[trigger] records[j].effects[l]).id ==> i == j && k == l
}

impl View for ScopeTree {
    type V = Seq<RecordModel>;

    open spec fn view(&self) -> Seq<RecordModel> {
        record_list(self.records@)
    }
}

/// The failure of an operation that the state of a scope does not allow.
pub open spec fn state_failure(operation: Seq<char>, state: FiberState) -> CoreFailure {
    CoreFailure::InvalidState { operation, state }
}

/// A scope that was just created.
pub open spec fn fresh_record(ids: IdSource) -> RecordModel {
    RecordModel {
        id: ScopeId(ids.scope),
        generation: Generation(ids.generation),
        state: FiberState::Active,
        cancelled: false,
        effects: Seq::empty(),
        children: Seq::empty(),
        ancestors: Seq::empty(),
        outcome: None,
    }
}

/// The source after a scope took its identifiers.
pub open spec fn after_scope(ids: IdSource) -> IdSource {
    IdSource {
        scope: (ids.scope + 1) as u64,
        generation: (ids.generation + 1) as u64,
        ..ids
    }
}

impl ScopeTree {
    pub open spec fn wf(&self) -> bool {
        sound(self@, self.ids)
    }

    /// Identifiers for one more scope are left.
    pub open spec fn has_scope_ids(&self) -> bool {
        self.ids.scope < u64::MAX && self.ids.generation < u64::MAX
    }

    /// A forest without scopes.
    pub fn new() -> (result: Self)
        ensures
            result.wf(),
            result@ == Seq::<RecordModel>::empty(),
            result.ids.scope == 1,
            result.ids.fiber == 1,
            result.ids.resource == 1,
            result.ids.generation == 1,
    {
        let result = ScopeTree { records: Vec::new(), ids: IdSource::new() };
        assert(result@ =~= Seq::empty());
        result
    }

    fn add(&mut self) -> (result: Scope)
        requires
            old(self).wf(),
            old(self).has_scope_ids(),
        ensures
            final(self).wf(),
            result.index == old(self)@.len(),
            final(self)@ == old(self)@.push(fresh_record(old(self).ids)),
            final(self).ids == after_scope(old(self).ids),
    {
        let index = self.records.len();
        let ghost before = self@;
        let id = self.ids.next_scope_id();
        let generation = self.ids.next_generation();
        let record = ScopeRecord {
            id,
            generation,
            state: FiberState::Active,
            cancelled: false,
            effects: Vec::new(),
            children: Vec::new(),
            completion: DisposeCompletion::new(),
        };
        assert(record@ =~= fresh_record(old(self).ids));
        self.records.push(record);
        proof {
            assert(self@ =~= before.push(record@));
            assert(forall|i: int|
                0 <= i < before.len() ==> #[trigger] self@[i] == before[i]);
        }
        Scope { index }
    }
}

impl Scope {
    /// This scope is one of the tree.
    pub open spec fn in_tree(self, records: Seq<RecordModel>) -> bool {
        self.index < records.len()
    }

    /// A scope without a parent.
    pub fn root(tree: &mut ScopeTree) -> (result: Scope)
        requires
            old(tree).wf(),
            old(tree).has_scope_ids(),
        ensures
            final(tree).wf(),
            result.in_tree(final(tree)@),
            result.index == old(tree)@.len(),
            final(tree)@ == old(tree)@.push(fresh_record(old(tree).ids)),
            final(tree).ids == after_scope(old(tree).ids),
    {
        tree.add()
    }

    /// A scope owned by this one, as long as this one is active.
    pub fn child(self, tree: &mut ScopeTree) -> (result: Result<Scope, CoreError>)
        requires
            old(tree).wf(),
            self.in_tree(old(tree)@),
            old(tree).has_scope_ids(),
        ensures
            final(tree).wf(),
            match result {
                Ok(child) => {
                    &&& old(tree)@[self.index as int].state == FiberState::Active
                    &&& child.index == old(tree)@.len()
                    &&& final(tree)@ == old(tree)@.update(
                        self.index as int,
                        RecordModel {
                            children: old(tree)@[self.index as int].children.push(child),
                            ..old(tree)@[self.index as int]
                        },
                    ).push(fresh_record(old(tree).ids))
                    &&& final(tree).ids == after_scope(old(tree).ids)
                },
                Err(error) => {
                    &&& old(tree)@[self.index as int].state != FiberState::Active
                    &&& error@ == state_failure(
                        "create child scope"@,
                        old(tree)@[self.index as int].state,
                    )
                    &&& *final(tree) == *old(tree)
                },
            },
    {
        let state = tree.records[self.index].state;
        if state != FiberState::Active {
            return Err(
                CoreError::InvalidState { operation: "create child scope".to_owned(), state },
            );
        }
        let ghost before = tree@;
        let child = tree.add();
        let ghost grown = tree@;
        assert(tree.records@.len() == grown.len());
        tree.records[self.index].children.push(child);
        proof {
            let at = self.index as int;
            assert(grown[at] == before[at]);
            assert(tree@ =~= grown.update(
                at,
                RecordModel { children: before[at].children.push(child), ..before[at] },
            ));
            assert(tree@ =~= before.update(
                at,
                RecordModel { children: before[at].children.push(child), ..before[at] },
            ).push(fresh_record(old(tree).ids)));
            let after = tree@;
            assert forall|i: int, k: int|
                0 <= i < after.len() && 0 <= k < after[i].children.len() implies i < (
            #[trigger] after[i].children[k]).index < after.len() by {
                if i == at && k == before[at].children.len() {
                } else {
                    assert(after[i].children[k] == grown[i].children[k]);
                }
            }
            assert forall|i: int, k: int, j: int, l: int|
                0 <= i < after.len() && 0 <= k < after[i].children.len() && 0 <= j < after.len()
                    && 0 <= l < after[j].children.len() && (#[trigger] after[i].children[k]) == (
                #[trigger] after[j].children[l]) implies i == j && k == l by {
                let new_ik = i == at && k == before[at].children.len();
                let new_jl = j == at && l == before[at].children.len();
                if !new_ik {
                    assert(after[i].children[k] == grown[i].children[k]);
                    if i < before.len() {
                        assert(grown[i] == before[i]);
                        assert(before[i].children[k].index < before.len());
                    }
                }
                if !new_jl {
                    assert(after[j].children[l] == grown[j].children[l]);
                    if j < before.len() {
                        assert(grown[j] == before[j]);
                        assert(before[j].children[l].index < before.len());
                    }
                }
            }
            assert forall|i: int, k: int|
                0 <= i < after.len() && 0 <= k < after[i].effects.len() implies (
            #[trigger] after[i].effects[k]).id.0 < tree.ids.resource by {
                assert(after[i].effects[k] == grown[i].effects[k]);
            }
            assert forall|i: int, k: int, j: int, l: int|
                0 <= i < after.len() && 0 <= k < after[i].effects.len() && 0 <= j < after.len()
                    && 0 <= l < after[j].effects.len() && (#[trigger] after[i].effects[k]).id == (
                #[trigger] after[j].effects[l]).id implies i == j && k == l by {
                assert(after[i].effects[k] == grown[i].effects[k]);
                assert(after[j].effects[l] == grown[j].effects[l]);
            }
        }
        Ok(child)
    }

    pub fn id(self, tree: &ScopeTree) -> (result: ScopeId)
        requires
            self.in_tree(tree@),
        ensures
            result == tree@[self.index as int].id,
    {
        tree.records[self.index].id
    }

    pub fn generation(self, tree: &ScopeTree) -> (result: Generation)
        requires
            self.in_tree(tree@),
        ensures
            result == tree@[self.index as int].generation,
    {
        tree.records[self.index].generation
    }

    pub fn state(self, tree: &ScopeTree) -> (result: FiberState)
        requires
            self.in_tree(tree@),
        ensures
            result == tree@[self.index as int].state,
    {
        tree.records[self.index].state
    }

    /// The cancellation signal of this scope.
    pub fn cancellation(self) -> (result: CancellationToken)
        ensures
            result.index == self.index,
    {
        CancellationToken { index: self.index }
    }

    /// Registers an effect, as long as this scope is active.
    pub fn add_effect(self, tree: &mut ScopeTree, label: String) -> (result: Result<
        ResourceId,
        CoreError,
    >)
        requires
            old(tree).wf(),
            self.in_tree(old(tree)@),
            old(tree).ids.resource < u64::MAX,
        ensures
            final(tree).wf(),
            match result {
                Ok(id) => {
                    &&& old(tree)@[self.index as int].state == FiberState::Active
                    &&& id.0 == old(tree).ids.resource
                    &&& final(tree)@ == old(tree)@.update(
                        self.index as int,
                        RecordModel {
                            effects: old(tree)@[self.index as int].effects.push(
                                EffectModel { id, label: label@, children: Seq::empty() },
                            ),
                            ..old(tree)@[self.index as int]
                        },
                    )
                    &&& final(tree).ids == (IdSource {
                        resource: (old(tree).ids.resource + 1) as u64,
                        ..old(tree).ids
                    })
                },
                Err(error) => {
                    &&& old(tree)@[self.index as int].state != FiberState::Active
                    &&& error@ == state_failure(
                        "register effect"@,
                        old(tree)@[self.index as int].state,
                    )
                    &&& *final(tree) == *old(tree)
                },
            },
    {
        let state = tree.records[self.index].state;
        if state != FiberState::Active {
            return Err(CoreError::InvalidState { operation: "register effect".to_owned(), state });
        }
        let ghost before = tree@;
        let id = tree.ids.next_resource_id();
        let effect = EffectMeta { id, label, children: Vec::new() };
        proof {
            lemma_effect_view(effect);
            assert(effect_list(effect.children@) =~= Seq::empty());
        }
        let ghost at = self.index as int;
        let ghost owned = effect_list(tree.records@[at].effects@);
        tree.records[self.index].effects.push(effect);
        proof {
            let after = tree@;
            assert(effect_list(tree.records@[at].effects@) =~= owned.push(effect@));
            assert(after =~= before.update(
                at,
                RecordModel { effects: before[at].effects.push(effect@), ..before[at] },
            ));
            assert forall|i: int, k: int|
                0 <= i < after.len() && 0 <= k < after[i].children.len() implies i < (
            #[trigger] after[i].children[k]).index < after.len() by {
                assert(after[i].children[k] == before[i].children[k]);
            }
            assert forall|i: int, k: int, j: int, l: int|
                0 <= i < after.len() && 0 <= k < after[i].children.len() && 0 <= j < after.len()
                    && 0 <= l < after[j].children.len() && (#[trigger] after[i].children[k]) == (
                #[trigger] after[j].children[l]) implies i == j && k == l by {
                assert(after[i].children[k] == before[i].children[k]);
                assert(after[j].children[l] == before[j].children[l]);
            }
            assert forall|i: int, k: int|
                0 <= i < after.len() && 0 <= k < after[i].effects.len() implies (
            #[trigger] after[i].effects[k]).id.0 < tree.ids.resource by {
                if !(i == at && k == before[at].effects.len()) {
                    assert(after[i].effects[k] == before[i].effects[k]);
                }
            }
            assert forall|i: int, k: int, j: int, l: int|
                0 <= i < after.len() && 0 <= k < after[i].effects.len() && 0 <= j < after.len()
                    && 0 <= l < after[j].effects.len() && (#[trigger] after[i].effects[k]).id == (
                #[trigger] after[j].effects[l]).id implies i == j && k == l by {
                let new_ik = i == at && k == before[at].effects.len();
                let new_jl = j == at && l == before[at].effects.len();
                if !new_ik {
                    assert(after[i].effects[k] == before[i].effects[k]);
                }
                if !new_jl {
                    assert(after[j].effects[l] == before[j].effects[l]);
                }
            }
        }
        Ok(id)
    }

    /// Descriptions of the registered effects, in registration order.
    pub fn effects(self, tree: &ScopeTree) -> (result: Vec<EffectMeta>)
        requires
            self.in_tree(tree@),
        ensures
            effect_list(result@) == tree@[self.index as int].effects,
    {
        let owned = &tree.records[self.index].effects;
        let mut result: Vec<EffectMeta> = Vec::new();
        let mut i: usize = 0;
        while i < owned.len()
            invariant
                i <= owned@.len(),
                result@.len() == i,
                forall|j: int| 0 <= j < i ==> (#[trigger] result@[j])@ == owned@[j]@,
            decreases owned@.len() - i,
        {
            result.push(owned[i].clone());
            i += 1;
        }
        assert(effect_list(result@) =~= effect_list(owned@));
        result
    }
}

/// Scopes keep their identity, and what each owns is what it owned or nothing.
pub open spec fn shrunk(before: Seq<RecordModel>, after: Seq<RecordModel>) -> bool {
    &&& after.len() == before.len()
    &&& forall|i: int|
        0 <= i < before.len() ==> {
            &&& (#[trigger] after[i]).id == before[i].id
            &&& after[i].generation == before[i].generation
            &&& after[i].children == before[i].children || after[i].children.len() == 0
            &&& after[i].effects == before[i].effects || after[i].effects.len() == 0
        }
}

/// Giving resources up keeps a forest sound.
pub proof fn shrinking_keeps_soundness(
    before: Seq<RecordModel>,
    after: Seq<RecordModel>,
    ids: IdSource,
)
    requires
        sound(before, ids),
        shrunk(before, after),
    ensures
        sound(after, ids),
{
    assert forall|i: int| 0 <= i < after.len() implies (#[trigger] after[i]).id.0 < ids.scope
        && after[i].generation.0 < ids.generation by {
        assert(before[i].id.0 < ids.scope);
    }
    assert forall|i: int, j: int| 0 <= i < j < after.len() implies (#[trigger] after[i]).id.0 < (
    #[trigger] after[j]).id.0 && after[i].generation.0 < after[j].generation.0 by {
        assert(before[i].id.0 < before[j].id.0);
    }
    assert forall|i: int, k: int|
        0 <= i < after.len() && 0 <= k < after[i].children.len() implies i < (
    #[trigger] after[i].children[k]).index < after.len() by {
        assert(after[i].children[k] == before[i].children[k]);
    }
    assert forall|i: int, k: int, j: int, l: int|
        0 <= i < after.len() && 0 <= k < after[i].children.len() && 0 <= j < after.len() && 0 <= l
            < after[j].children.len() && (#[trigger] after[i].children[k]) == (
        #[trigger] after[j].children[l]) implies i == j && k == l by {
        assert(after[i].children[k] == before[i].children[k]);
        assert(after[j].children[l] == before[j].children[l]);
    }
    assert forall|i: int, k: int|
        0 <= i < after.len() && 0 <= k < after[i].effects.len() implies (
    #[trigger] after[i].effects[k]).id.0 < ids.resource by {
        assert(after[i].effects[k] == before[i].effects[k]);
    }
    assert forall|i: int, k: int, j: int, l: int|
        0 <= i < after.len() && 0 <= k < after[i].effects.len() && 0 <= j < after.len() && 0 <= l
            < after[j].effects.len() && (#[trigger] after[i].effects[k]).id == (
        #[trigger] after[j].effects[l]).id implies i == j && k == l by {
        assert(after[i].effects[k] == before[i].effects[k]);
        assert(after[j].effects[l] == before[j].effects[l]);
    }
}

/// A scope that gave its resources up and cancelled its work.
pub open spec fn emptied(record: RecordModel, state: FiberState) -> RecordModel {
    RecordModel {
        state,
        cancelled: true,
        effects: Seq::empty(),
        children: Seq::empty(),
        ..record
    }
}

/// A forest in which the scopes `children[..count]` know the scopes that wait
/// for them.
pub open spec fn informed(
    records: Seq<RecordModel>,
    children: Seq<Scope>,
    count: int,
    waiting: Seq<ScopeId>,
) -> Seq<RecordModel>
    decreases count,
{
    if count <= 0 {
        records
    } else {
        let before = informed(records, children, count - 1, waiting);
        let at = children[count - 1].index as int;
        before.update(
            at,
            RecordModel {
                ancestors: merged(before[at].ancestors, waiting, waiting.len() as int),
                ..before[at]
            },
        )
    }
}

/// Telling children who waits for them changes nothing else.
pub proof fn informing_shrinks(
    records: Seq<RecordModel>,
    children: Seq<Scope>,
    count: int,
    waiting: Seq<ScopeId>,
)
    requires
        count <= children.len(),
        forall|k: int| 0 <= k < children.len() ==> (#[trigger] children[k]).index < records.len(),
    ensures
        informed(records, children, count, waiting).len() == records.len(),
        forall|i: int|
            0 <= i < records.len() ==> {
                let after = #[trigger] informed(records, children, count, waiting)[i];
                after == (RecordModel { ancestors: after.ancestors, ..records[i] })
            },
    decreases count,
{
    if count > 0 {
        informing_shrinks(records, children, count - 1, waiting);
        assert(children[count - 1].index < records.len());
    }
}

/// Who runs the cleanup of a scope.
#[derive(Debug)]
pub enum DisposeClaim {
    /// This caller, with what is to be cleaned up.
    Owner(Cleanup),
    /// Someone else, now or before.
    Join,
}

/// What disposing a scope asks of the caller.
#[derive(Debug)]
pub enum Disposal {
    /// Run this cleanup, then report its outcome.
    Run(Cleanup),
    /// Wait for the cleanup that another caller runs.
    Wait,
    /// Cleanup has run, with this outcome.
    Settled(Result<(), CoreError>),
    /// The caller is itself part of this cleanup and does not wait.
    Reentrant,
}

/// The scope is being disposed or was disposed.
pub open spec fn closed(state: FiberState) -> bool {
    state == FiberState::Unloading || state == FiberState::Disposed
}

/// A forest after a scope was claimed for disposal by a task that is already
/// disposing `ancestors`.
pub open spec fn claimed(records: Seq<RecordModel>, at: int, ancestors: Seq<ScopeId>) -> Seq<
    RecordModel,
> {
    let record = records[at];
    informed(
        records.update(
            at,
            RecordModel {
                ancestors: merged(record.ancestors, ancestors, ancestors.len() as int),
                ..emptied(record, FiberState::Unloading)
            },
        ),
        record.children,
        record.children.len() as int,
        ancestors.push(record.id),
    )
}

/// What cleanup of a scope starts with.
pub open spec fn cleanup_of(record: RecordModel) -> CleanupModel {
    CleanupModel { children: record.children, effects: record.effects, errors: Seq::empty() }
}

impl Scope {
    fn take_resources(self, tree: &mut ScopeTree, state: FiberState) -> (result: Cleanup)
        requires
            old(tree).wf(),
            self.in_tree(old(tree)@),
        ensures
            final(tree).wf(),
            final(tree).ids == old(tree).ids,
            result@ == cleanup_of(old(tree)@[self.index as int]),
            final(tree)@ == old(tree)@.update(
                self.index as int,
                emptied(old(tree)@[self.index as int], state),
            ),
    {
        let ghost before = tree@;
        let ghost at = self.index as int;
        let mut effects: Vec<EffectMeta> = Vec::new();
        let mut children: Vec<Scope> = Vec::new();
        assert(effect_list(effects@) =~= Seq::empty());
        assert(children@ =~= Seq::empty());
        core::mem::swap(&mut tree.records[self.index].effects, &mut effects);
        core::mem::swap(&mut tree.records[self.index].children, &mut children);
        tree.records[self.index].state = state;
        tree.records[self.index].cancelled = true;
        let errors: Vec<CoreError> = Vec::new();
        assert(failure_list(errors@) =~= Seq::empty());
        proof {
            assert(tree@ =~= before.update(at, emptied(before[at], state)));
            shrinking_keeps_soundness(before, tree@, tree.ids);
        }
        Cleanup { children, effects, errors }
    }

    /// Claims the cleanup of this scope. Only the first claim gets it: the
    /// scope stops taking effects and children, its work is cancelled, and its
    /// children learn who waits for them.
    pub fn claim_disposal(self, tree: &mut ScopeTree, ancestors: &Vec<ScopeId>) -> (result:
        DisposeClaim)
        requires
            old(tree).wf(),
            self.in_tree(old(tree)@),
        ensures
            final(tree).wf(),
            final(tree).ids == old(tree).ids,
            match result {
                DisposeClaim::Owner(cleanup) => !closed(old(tree)@[self.index as int].state)
                    && cleanup@ == cleanup_of(old(tree)@[self.index as int]) && final(tree)@
                    == claimed(old(tree)@, self.index as int, ancestors@),
                DisposeClaim::Join => closed(old(tree)@[self.index as int].state) && *final(tree)
                    == *old(tree),
            },
    {
        let state = tree.records[self.index].state;
        if state == FiberState::Unloading || state == FiberState::Disposed {
            return DisposeClaim::Join;
        }
        let ghost before = tree@;
        let ghost at = self.index as int;
        let cleanup = self.take_resources(tree, FiberState::Unloading);
        let ghost taken = tree@;
        assert(tree.records@.len() == taken.len());
        tree.records[self.index].completion.inherit_ancestors(ancestors);
        let ghost base = before.update(
            at,
            RecordModel {
                ancestors: merged(before[at].ancestors, ancestors@, ancestors@.len() as int),
                ..emptied(before[at], FiberState::Unloading)
            },
        );
        proof {
            assert(taken[at] == emptied(before[at], FiberState::Unloading));
            assert(tree@[at] == base[at]);
            assert(tree@ =~= base);
        }
        let mut waiting: Vec<ScopeId> = Vec::new();
        let mut k: usize = 0;
        while k < ancestors.len()
            invariant
                k <= ancestors@.len(),
                waiting@ == ancestors@.subrange(0, k as int),
            decreases ancestors@.len() - k,
        {
            waiting.push(ancestors[k]);
            k += 1;
            assert(waiting@ =~= ancestors@.subrange(0, k as int));
        }
        assert(waiting@ =~= ancestors@);
        waiting.push(tree.records[self.index].id);
        let ghost children = before[at].children;
        proof {
            assert forall|c: int| 0 <= c < children.len() implies (#[trigger] children[c]).index
                < base.len() by {
                assert(before[at].children[c].index < before.len());
            }
        }
        let mut c: usize = 0;
        while c < cleanup.children.len()
            invariant
                c <= cleanup.children@.len(),
                cleanup.children@ == children,
                tree.ids == old(tree).ids,
                forall|j: int|
                    0 <= j < children.len() ==> (#[trigger] children[j]).index < base.len(),
                tree@ == informed(base, children, c as int, waiting@),
                tree@.len() == base.len(),
            decreases cleanup.children@.len() - c,
        {
            let child = cleanup.children[c];
            assert(children[c as int].index < base.len());
            let ghost previous = tree@;
            assert(tree.records@.len() == previous.len());
            tree.records[child.index].completion.inherit_ancestors(&waiting);
            proof {
                assert(tree@ =~= informed(base, children, c + 1, waiting@));
            }
            c += 1;
        }
        proof {
            informing_shrinks(base, children, children.len() as int, waiting@);
            assert(shrunk(before, tree@)) by {
                assert forall|i: int| 0 <= i < before.len() implies {
                    &&& (#[trigger] tree@[i]).id == before[i].id
                    &&& tree@[i].generation == before[i].generation
                    &&& tree@[i].children == before[i].children || tree@[i].children.len() == 0
                    &&& tree@[i].effects == before[i].effects || tree@[i].effects.len() == 0
                } by {
                    let after = informed(base, children, children.len() as int, waiting@)[i];
                    assert(after == (RecordModel { ancestors: after.ancestors, ..base[i] }));
                }
            }
            shrinking_keeps_soundness(before, tree@, tree.ids);
        }
        DisposeClaim::Owner(cleanup)
    }

    /// Disposes this scope once: the first caller runs the cleanup, a caller
    /// inside the cleanup returns at once, and every other caller shares the
    /// outcome. `contexts` and `entered` tell which scopes the calling task is
    /// disposing.
    pub fn dispose(
        self,
        tree: &mut ScopeTree,
        contexts: &Vec<Vec<ScopeId>>,
        entered: &Vec<ScopeId>,
    ) -> (result: Disposal)
        requires
            old(tree).wf(),
            self.in_tree(old(tree)@),
        ensures
            final(tree).wf(),
            final(tree).ids == old(tree).ids,
            ({
                let at = self.index as int;
                let record = old(tree)@[at];
                let mine = disposing(contexts@, contexts@.len() as int, entered@);
                let inside = entered@.contains(record.id) || exists|i: int|
                    0 <= i < contexts@.len() && (#[trigger] contexts@[i])@.contains(record.id);
                match result {
                    Disposal::Run(cleanup) => !closed(record.state) && cleanup@ == cleanup_of(
                        record,
                    ) && final(tree)@ == claimed(old(tree)@, at, mine),
                    Disposal::Reentrant => closed(record.state) && inside && *final(tree) == *old(
                        tree),
                    Disposal::Settled(outcome) => closed(record.state) && !inside && record.outcome
                        == Some(outcome_of(outcome)) && final(tree)@ == old(tree)@.update(
                        at,
                        RecordModel {
                            ancestors: merged(record.ancestors, mine, mine.len() as int),
                            ..record
                        },
                    ),
                    Disposal::Wait => closed(record.state) && !inside && record.outcome is None
                        && final(tree)@ == old(tree)@.update(
                        at,
                        RecordModel {
                            ancestors: merged(record.ancestors, mine, mine.len() as int),
                            ..record
                        },
                    ),
                }
            }),
    {
        let ancestors = disposing_scopes(contexts, entered);
        match self.claim_disposal(tree, &ancestors) {
            DisposeClaim::Owner(cleanup) => Disposal::Run(cleanup),
            DisposeClaim::Join => {
                let id = tree.records[self.index].id;
                if is_disposing(id, contexts, entered) {
                    return Disposal::Reentrant;
                }
                let ghost before = tree@;
                let ghost at = self.index as int;
                tree.records[self.index].completion.inherit_ancestors(&ancestors);
                proof {
                    assert(tree@ =~= before.update(
                        at,
                        RecordModel {
                            ancestors: merged(
                                before[at].ancestors,
                                ancestors@,
                                ancestors@.len() as int,
                            ),
                            ..before[at]
                        },
                    ));
                    shrinking_keeps_soundness(before, tree@, tree.ids);
                }
                match &tree.records[self.index].completion.outcome {
                    Some(Ok(())) => Disposal::Settled(Ok(())),
                    Some(Err(error)) => Disposal::Settled(Err(error.clone())),
                    None => Disposal::Wait,
                }
            },
        }
    }

    /// Ends the disposal of this scope with the outcome of its cleanup.
    pub fn finish_disposal(self, tree: &mut ScopeTree, outcome: Result<(), CoreError>)
        requires
            old(tree).wf(),
            self.in_tree(old(tree)@),
        ensures
            final(tree).wf(),
            final(tree).ids == old(tree).ids,
            final(tree)@ == old(tree)@.update(
                self.index as int,
                RecordModel {
                    state: FiberState::Disposed,
                    outcome: Some(outcome_of(outcome)),
                    ..old(tree)@[self.index as int]
                },
            ),
    {
        let ghost before = tree@;
        let ghost at = self.index as int;
        tree.records[self.index].state = FiberState::Disposed;
        tree.records[self.index].completion.complete(outcome);
        proof {
            assert(tree@ =~= before.update(
                at,
                RecordModel {
                    state: FiberState::Disposed,
                    outcome: Some(outcome_of(outcome)),
                    ..before[at]
                },
            ));
            shrinking_keeps_soundness(before, tree@, tree.ids);
        }
    }

    /// Takes the resources of a scope whose setup failed; nothing when the
    /// scope is no longer active.
    pub fn rollback_failed_setup(self, tree: &mut ScopeTree) -> (result: Option<Cleanup>)
        requires
            old(tree).wf(),
            self.in_tree(old(tree)@),
        ensures
            final(tree).wf(),
            final(tree).ids == old(tree).ids,
            match result {
                Some(cleanup) => old(tree)@[self.index as int].state == FiberState::Active
                    && cleanup@ == cleanup_of(old(tree)@[self.index as int]) && final(tree)@
                    == old(tree)@.update(
                    self.index as int,
                    emptied(old(tree)@[self.index as int], FiberState::Failed),
                ),
                None => old(tree)@[self.index as int].state != FiberState::Active && *final(tree)
                    == *old(tree),
            },
    {
        if tree.records[self.index].state != FiberState::Active {
            return None;
        }
        Some(self.take_resources(tree, FiberState::Failed))
    }
}

impl CancellationToken {
    /// The scope of this token exists.
    pub open spec fn in_tree(self, records: Seq<RecordModel>) -> bool {
        self.index < records.len()
    }

    /// Gives the signal, and says whether this caller was the first to do so.
    /// Nothing else of the scope changes.
    pub fn cancel(self, tree: &mut ScopeTree) -> (result: bool)
        requires
            old(tree).wf(),
            self.in_tree(old(tree)@),
        ensures
            final(tree).wf(),
            final(tree).ids == old(tree).ids,
            result == !old(tree)@[self.index as int].cancelled,
            final(tree)@ == signalled(old(tree)@, self.index as int),
    {
        let ghost before = tree@;
        let first = !tree.records[self.index].cancelled;
        tree.records[self.index].cancelled = true;
        proof {
            assert(tree@ =~= signalled(before, self.index as int));
            shrinking_keeps_soundness(before, tree@, tree.ids);
        }
        first
    }

    /// Whether the signal was given.
    pub fn is_cancelled(self, tree: &ScopeTree) -> (result: bool)
        requires
            self.in_tree(tree@),
        ensures
            result == tree@[self.index as int].cancelled,
    {
        tree.records[self.index].cancelled
    }
}

/// Scopes after the signal of scope `i` was given.
pub open spec fn signalled(records: Seq<RecordModel>, i: int) -> Seq<RecordModel> {
    records.update(i, RecordModel { cancelled: true, ..records[i] })
}

/// However many callers give the signal of a scope, the first one wins and no
/// other; from then on every token of the scope shows it, and nothing else of
/// any scope has changed.
pub proof fn one_cancellation_wins(records: Seq<RecordModel>, token: CancellationToken, other: int)
    requires
        token.in_tree(records),
        0 <= other < records.len(),
    ensures
        ({
            let i = token.index as int;
            let once = signalled(records, i);
            &&& once[i].cancelled
            &&& signalled(once, i) == once
            &&& once[other] == (RecordModel {
                cancelled: records[other].cancelled || other == i,
                ..records[other]
            })
        }),
{
    let once = signalled(records, token.index as int);
    assert(signalled(once, token.index as int) =~= once);
}

/// A named task owned by a child scope.
#[derive(Debug)]
pub struct Fiber {
    pub id: FiberId,
    pub name: String,
    pub scope: Scope,
    pub state: FiberState,
}

/// The state that a fiber shows: that of its scope once the scope failed or is
/// on its way out, and its own otherwise.
pub open spec fn shown_state(scope: FiberState, own: FiberState) -> FiberState {
    if scope == FiberState::Failed || closed(scope) {
        scope
    } else {
        own
    }
}

/// What completing a start asks of the caller.
#[derive(Debug)]
pub enum StartOutcome {
    /// The start is over, with this outcome.
    Settled(Result<(), CoreError>),
    /// Run this cleanup, then report its outcome together with the failure.
    RollBack(Cleanup, CoreError),
}

/// A setup failure together with what failed while it was rolled back.
pub open spec fn with_rollback(failure: CoreFailure, rollback: Result<(), CoreFailure>) -> CoreFailure {
    match rollback {
        Ok(()) => failure,
        Err(CoreFailure::Cleanup(errors)) => CoreFailure::Cleanup(seq![failure] + errors),
        Err(other) => CoreFailure::Cleanup(seq![failure, other]),
    }
}

/// The failure of a start whose cleanup has run.
pub fn rolled_back(failure: CoreError, rollback: Result<(), CoreError>) -> (result: CoreError)
    ensures
        result@ == with_rollback(failure@, outcome_of(rollback)),
{
    match rollback {
        Ok(()) => failure,
        Err(error) => {
            proof {
                lemma_cleanup_view(error);
            }
            match error {
                CoreError::Cleanup(errors) => {
                    let mut errors = errors;
                    let ghost rest = failure_list(errors@);
                    errors.insert(0, failure);
                    assert(failure_list(errors@) =~= seq![failure@] + rest);
                    CoreError::cleanup(errors)
                },
                other => {
                    let errors = vec![failure, other];
                    assert(failure_list(errors@) =~= seq![failure@, other@]);
                    CoreError::cleanup(errors)
                },
            }
        },
    }
}

impl Fiber {
    /// A pending fiber with a scope of its own.
    pub fn new(tree: &mut ScopeTree, parent: Scope, name: String) -> (result: Result<
        Fiber,
        CoreError,
    >)
        requires
            old(tree).wf(),
            parent.in_tree(old(tree)@),
            old(tree).has_scope_ids(),
            old(tree).ids.fiber < u64::MAX,
        ensures
            final(tree).wf(),
            match result {
                Ok(fiber) => {
                    &&& old(tree)@[parent.index as int].state == FiberState::Active
                    &&& fiber.id.0 == old(tree).ids.fiber
                    &&& fiber.name@ == name@
                    &&& fiber.state == FiberState::Pending
                    &&& fiber.scope.index == old(tree)@.len()
                    &&& final(tree)@ == old(tree)@.update(
                        parent.index as int,
                        RecordModel {
                            children: old(tree)@[parent.index as int].children.push(fiber.scope),
                            ..old(tree)@[parent.index as int]
                        },
                    ).push(fresh_record(old(tree).ids))
                    &&& final(tree).ids == (IdSource {
                        fiber: (old(tree).ids.fiber + 1) as u64,
                        ..after_scope(old(tree).ids)
                    })
                },
                Err(error) => {
                    &&& old(tree)@[parent.index as int].state != FiberState::Active
                    &&& error@ == state_failure(
                        "create child scope"@,
                        old(tree)@[parent.index as int].state,
                    )
                    &&& final(tree)@ == old(tree)@
                    &&& final(tree).ids == (IdSource {
                        fiber: (old(tree).ids.fiber + 1) as u64,
                        ..old(tree).ids
                    })
                },
            },
    {
        let id = tree.ids.next_fiber_id();
        match parent.child(tree) {
            Ok(scope) => Ok(Fiber { id, name, scope, state: FiberState::Pending }),
            Err(error) => Err(error),
        }
    }

    pub fn id(&self) -> (result: FiberId)
        ensures
            result == self.id,
    {
        self.id
    }

    pub fn name(&self) -> (result: &str)
        ensures
            result@ == self.name@,
    {
        self.name.as_str()
    }

    pub fn scope(&self) -> (result: Scope)
        ensures
            result == self.scope,
    {
        self.scope
    }

    /// The state that this fiber shows.
    pub fn state(&self, tree: &ScopeTree) -> (result: FiberState)
        requires
            self.scope.in_tree(tree@),
        ensures
            result == shown_state(tree@[self.scope.index as int].state, self.state),
    {
        let state = tree.records[self.scope.index].state;
        match state {
            FiberState::Failed | FiberState::Unloading | FiberState::Disposed => state,
            _ => self.state,
        }
    }

    /// Begins a start: only once, and only while the scope is active. Setup
    /// runs next, in the scope that is returned.
    pub fn start(&mut self, tree: &ScopeTree) -> (result: Result<Scope, CoreError>)
        requires
            old(self).scope.in_tree(tree@),
        ensures
            ({
                let scope = tree@[old(self).scope.index as int].state;
                match result {
                    Ok(scope_handle) => scope == FiberState::Active && old(self).state
                        == FiberState::Pending && scope_handle == old(self).scope && *final(self)
                        == (Fiber { state: FiberState::Loading, ..*old(self) }),
                    Err(error) => *final(self) == *old(self) && error@ == state_failure(
                        "start fiber"@,
                        shown_state(scope, if scope == FiberState::Active {
                            old(self).state
                        } else {
                            scope
                        }),
                    ) && !(scope == FiberState::Active && old(self).state == FiberState::Pending),
                }
            }),
    {
        let scope_state = self.scope.state(tree);
        if scope_state != FiberState::Active {
            return Err(
                CoreError::InvalidState { operation: "start fiber".to_owned(), state: scope_state },
            );
        }
        if self.state != FiberState::Pending {
            return Err(
                CoreError::InvalidState {
                    operation: "start fiber".to_owned(),
                    state: self.state(tree),
                },
            );
        }
        self.state = FiberState::Loading;
        Ok(self.scope)
    }

    /// Completes a start with the outcome of setup. A scope that was disposed
    /// meanwhile is not brought back; a failure takes the scope's resources
    /// back, unless someone else already does.
    pub fn finish_start(&mut self, tree: &mut ScopeTree, setup: Result<(), CoreError>) -> (result:
        StartOutcome)
        requires
            old(tree).wf(),
            old(self).scope.in_tree(old(tree)@),
        ensures
            final(tree).wf(),
            final(tree).ids == old(tree).ids,
            final(self).id == old(self).id,
            final(self).name == old(self).name,
            final(self).scope == old(self).scope,
            ({
                let at = old(self).scope.index as int;
                let record = old(tree)@[at];
                match setup {
                    Ok(()) => {
                        &&& *final(tree) == *old(tree)
                        &&& result is Settled
                        &&& if record.state == FiberState::Active {
                            final(self).state == FiberState::Active && outcome_of(
                                result->Settled_0,
                            ) == Ok::<(), CoreFailure>(())
                        } else if closed(record.state) {
                            final(self).state == old(self).state && outcome_of(result->Settled_0)
                                == Ok::<(), CoreFailure>(())
                        } else {
                            final(self).state == record.state && outcome_of(result->Settled_0)
                                == Err::<(), CoreFailure>(
                                state_failure("complete fiber start"@, record.state),
                            )
                        }
                    },
                    Err(failure) => {
                        &&& final(self).state == FiberState::Failed
                        &&& if record.state == FiberState::Active {
                            &&& result is RollBack
                            &&& result->RollBack_0@ == cleanup_of(record)
                            &&& result->RollBack_1@ == failure@
                            &&& final(tree)@ == old(tree)@.update(
                                at,
                                emptied(record, FiberState::Failed),
                            )
                        } else {
                            &&& *final(tree) == *old(tree)
                            &&& result is Settled
                            &&& outcome_of(result->Settled_0) == Err::<(), CoreFailure>(failure@)
                        }
                    },
                }
            }),
    {
        match setup {
            Ok(()) => {
                let state = self.scope.state(tree);
                match state {
                    FiberState::Active => {
                        self.state = FiberState::Active;
                        StartOutcome::Settled(Ok(()))
                    },
                    FiberState::Unloading | FiberState::Disposed => StartOutcome::Settled(Ok(())),
                    _ => {
                        self.state = state;
                        StartOutcome::Settled(
                            Err(
                                CoreError::InvalidState {
                                    operation: "complete fiber start".to_owned(),
                                    state,
                                },
                            ),
                        )
                    },
                }
            },
            Err(failure) => {
                self.state = FiberState::Failed;
                match self.scope.rollback_failed_setup(tree) {
                    Some(cleanup) => StartOutcome::RollBack(cleanup, failure),
                    None => StartOutcome::Settled(Err(failure)),
                }
            },
        }
    }

    /// Begins a disposal; the scope is disposed next.
    pub fn dispose(&mut self) -> (result: Scope)
        ensures
            result == old(self).scope,
            *final(self) == (Fiber {
                state: if closed(old(self).state) {
                    old(self).state
                } else {
                    FiberState::Unloading
                },
                ..*old(self)
            }),
    {
        match self.state {
            FiberState::Unloading | FiberState::Disposed => {},
            _ => {
                self.state = FiberState::Unloading;
            },
        }
        self.scope
    }

    /// Ends a disposal after the scope's own.
    pub fn finish_disposal(&mut self, tree: &ScopeTree)
        requires
            old(self).scope.in_tree(tree@),
        ensures
            *final(self) == (Fiber {
                state: if tree@[old(self).scope.index as int].state == FiberState::Disposed {
                    FiberState::Disposed
                } else {
                    old(self).state
                },
                ..*old(self)
            }),
    {
        if self.scope.state(tree) == FiberState::Disposed {
            self.state = FiberState::Disposed;
        }
    }
}

}
