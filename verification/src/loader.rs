//! The loader: a committed entry tree, and transactions that replace it.
//!
//! Resolving packages and running plugins is done outside. A `Replacement` says
//! what has to be done next; the loader takes what came of it and goes on.

use vstd::prelude::*;
use vstd::string::*;

use crate::config::{evaluate_config, resolved, ConfigScope, ScopeModel};
use crate::context::{ContextHandle, ContextModel};
use crate::error::{
    loader_failures, loader_message, LoaderError, LoaderFailure,
};
use crate::fixture::{bare_event, trace_list, TraceEvent, TraceEventKind, TraceModel};
use crate::patch::{accepted, patched_all, Patch};
use crate::text::{join2, join3};
use crate::tree::{
    active, entry_list, tree_fault, Entry, EntryModel, EntryTree, OptionsModel, RuntimeKind,
    TreeModel,
};

verus! {

/// A resolver returns a runtime-specific, imported package description without
/// giving the loader a package-manager implementation detail.
#[derive(Debug, PartialEq, Eq)]
pub struct ResolvedPackage {
    pub specifier: String,
    pub location: String,
}

/// Whether a plugin runs, or waits for what it depends on.
#[derive(Clone, Copy, Debug, PartialEq, Eq, Structural)]
pub enum ActivationState {
    Active,
    Pending,
}

/// Turns package specifiers into packages.
pub trait PackageResolver {
    fn resolve(&self, specifier: &str, runtime: RuntimeKind) -> Result<
        ResolvedPackage,
        LoaderError,
    >;
}

/// A live plugin instance whose effects are still confined to its candidate
/// context until `activate` succeeds.
pub trait RuntimeHandle {
    fn activate(&mut self) -> Result<(), LoaderError>;

    fn activation(&mut self) -> Result<ActivationState, LoaderError>;

    fn dispose(&mut self) -> Result<(), LoaderError>;
}

/// Optional source-change bridge. It is kept at the loader boundary so runtime
/// implementations need not depend on an HMR transport.
pub trait HmrDriver {
    fn invalidate(&self, package: &ResolvedPackage) -> Result<(), LoaderError>;
}

/// The failure of a stage for one entry.
pub open spec fn in_entry(failure: LoaderFailure, stage: Seq<char>, entry: EntryModel) -> LoaderFailure {
    LoaderFailure::Runtime {
        stage,
        entry: entry.options.id,
        name: entry.options.name,
        message: loader_message(failure),
    }
}

fn entry_failure(stage: &str, entry: &Entry, message: String) -> (result: LoaderError)
    ensures
        result@ == (LoaderFailure::Runtime {
            stage: stage@,
            entry: entry@.options.id,
            name: entry@.options.name,
            message: message@,
        }),
{
    let name = match &entry.options.name {
        Some(name) => Some(name.clone()),
        None => None,
    };
    LoaderError::Runtime { stage: stage.to_owned(), entry: entry.options.id.clone(), name, message }
}

impl LoaderError {
    /// This error as the failure of a stage for one entry.
    pub fn in_entry(&self, stage: &str, entry: &Entry) -> (result: LoaderError)
        ensures
            result@ == in_entry(self@, stage@, entry@),
    {
        entry_failure(stage, entry, self.message())
    }
}

/// An entry whose plugin was instantiated, and the handle of the plugin.
#[derive(Debug)]
pub struct LiveEntry {
    pub entry: Entry,
    pub handle: u64,
}

/// The model of a live entry.
#[verifier::ext_equal]
pub struct LiveModel {
    pub entry: EntryModel,
    pub handle: u64,
}

impl View for LiveEntry {
    type V = LiveModel;

    open spec fn view(&self) -> LiveModel {
        LiveModel { entry: self.entry@, handle: self.handle }
    }
}

/// The models of a list of live entries.
pub open spec fn live_list(live: Seq<LiveEntry>) -> Seq<LiveModel> {
    Seq::new(live.len(), |i: int| live[i]@)
}

/// Transactional owner of the live entry tree.
#[derive(Debug)]
pub struct Loader {
    pub runtimes: Vec<RuntimeKind>,
    pub tree: EntryTree,
    pub live: Vec<LiveEntry>,
    pub context: ContextHandle,
    pub config_scope: ConfigScope,
    pub trace: Vec<TraceEvent>,
}

/// What a loader works with, what it has committed, and the trace of how it
/// came to that.
#[verifier::ext_equal]
pub struct LoaderModel {
    pub runtimes: Seq<RuntimeKind>,
    pub scope: ScopeModel,
    pub tree: TreeModel,
    pub live: Seq<LiveModel>,
    pub context: ContextModel,
    pub trace: Seq<TraceModel>,
}

impl View for Loader {
    type V = LoaderModel;

    open spec fn view(&self) -> LoaderModel {
        LoaderModel {
            runtimes: self.runtimes@,
            scope: self.config_scope@,
            tree: self.tree@,
            live: live_list(self.live@),
            context: self.context@,
            trace: trace_list(self.trace@),
        }
    }
}

/// The first runtime at or after `from` that an earlier one is of the kind of.
pub open spec fn first_doubled(kinds: Seq<RuntimeKind>, from: int) -> Option<RuntimeKind>
    decreases kinds.len() - from,
{
    if from < 0 || from >= kinds.len() {
        None
    } else if kinds.subrange(0, from).contains(kinds[from]) {
        Some(kinds[from])
    } else {
        first_doubled(kinds, from + 1)
    }
}

/// More than one runtime of a kind.
pub open spec fn doubled_runtime(kind: RuntimeKind) -> LoaderFailure {
    LoaderFailure::Validation("more than one runtime registered for "@ + kind.spec_name())
}

fn holds_kind(kinds: &Vec<RuntimeKind>, count: usize, kind: RuntimeKind) -> (result: bool)
    requires
        count <= kinds@.len(),
    ensures
        result == kinds@.subrange(0, count as int).contains(kind),
{
    let ghost part = kinds@.subrange(0, count as int);
    let mut i: usize = 0;
    while i < count
        invariant
            i <= count <= kinds@.len(),
            part == kinds@.subrange(0, count as int),
            forall|k: int| 0 <= k < i ==> #[trigger] part[k] != kind,
        decreases count - i,
    {
        assert(part[i as int] == kinds@[i as int]);
        if kinds[i] == kind {
            return true;
        }
        i += 1;
    }
    false
}

/// The entry as it is imported: with its configuration and its intercepts
/// evaluated.
pub open spec fn prepared(entry: EntryModel, scope: ScopeModel) -> Result<
    EntryModel,
    LoaderFailure,
> {
    match resolved(entry.options.config, scope) {
        Err(message) => Err(in_entry(LoaderFailure::Expression(message), "import"@, entry)),
        Ok(config) => {
            let half = EntryModel {
                options: OptionsModel { config, ..entry.options },
                ..entry
            };
            match resolved(entry.options.intercept, scope) {
                Err(message) => Err(in_entry(LoaderFailure::Expression(message), "import"@, half)),
                Ok(intercept) => Ok(
                    EntryModel { options: OptionsModel { intercept, ..half.options }, ..half },
                ),
            }
        },
    }
}

/// The outcome of preparing an entry.
pub open spec fn prepared_outcome(result: Result<Entry, LoaderError>) -> Result<
    EntryModel,
    LoaderFailure,
> {
    match result {
        Ok(entry) => Ok(entry@),
        Err(error) => Err(error@),
    }
}

/// Where a transaction stands, and so what has to be done next.
#[derive(Clone, Copy, Debug, PartialEq, Eq, Structural)]
pub enum Stage {
    /// Import every active entry.
    Import,
    /// Dispose the candidates in reverse order: an import failed.
    UndoImport,
    /// Activate every candidate.
    Activate,
    /// Dispose the candidates in reverse order: an activation failed.
    UndoActivation,
    /// Dispose what was live, in reverse order.
    Retire,
    /// Activate again what was live: it could not be disposed.
    Restore,
    /// Dispose the candidates in reverse order, at last.
    UndoRetirement,
}

/// A transaction under way.
#[derive(Debug)]
pub struct Replacement {
    pub tree: EntryTree,
    pub context: ContextHandle,
    pub stage: Stage,
    pub candidates: Vec<LiveEntry>,
    /// Why the transaction is undone.
    pub failures: Vec<LoaderError>,
    /// What failed while it was undone.
    pub restored: Vec<LoaderError>,
}

/// The model of a transaction.
#[verifier::ext_equal]
pub struct ReplacementModel {
    pub tree: TreeModel,
    pub context: ContextModel,
    pub stage: Stage,
    pub candidates: Seq<LiveModel>,
    pub failures: Seq<LoaderFailure>,
    pub restored: Seq<LoaderFailure>,
}

impl View for Replacement {
    type V = ReplacementModel;

    open spec fn view(&self) -> ReplacementModel {
        ReplacementModel {
            tree: self.tree@,
            context: self.context@,
            stage: self.stage,
            candidates: live_list(self.candidates@),
            failures: loader_failures(self.failures@),
            restored: loader_failures(self.restored@),
        }
    }
}

/// What became of a step.
#[derive(Debug)]
pub enum Progress {
    Next(Replacement),
    Done(Result<(), LoaderError>),
}

/// The model of what became of a step.
#[verifier::ext_equal]
pub enum ProgressModel {
    Next(ReplacementModel),
    Done(Result<(), LoaderFailure>),
}

impl View for Progress {
    type V = ProgressModel;

    open spec fn view(&self) -> ProgressModel {
        match self {
            Progress::Next(replacement) => ProgressModel::Next(replacement@),
            Progress::Done(Ok(())) => ProgressModel::Done(Ok(())),
            Progress::Done(Err(error)) => ProgressModel::Done(Err(error@)),
        }
    }
}

/// The models of a list of outcomes.
pub open spec fn outcome_list(results: Seq<Result<(), LoaderError>>) -> Seq<
    Result<(), LoaderFailure>,
> {
    Seq::new(
        results.len(),
        |i: int|
            match results[i] {
                Ok(()) => Ok(()),
                Err(error) => Err(error@),
            },
    )
}

/// The failures among outcomes, in order.
pub open spec fn failed(outcomes: Seq<Result<(), LoaderFailure>>) -> Seq<LoaderFailure>
    decreases outcomes.len(),
{
    if outcomes.len() == 0 {
        Seq::empty()
    } else {
        let rest = failed(outcomes.drop_last());
        match outcomes.last() {
            Ok(()) => rest,
            Err(failure) => rest.push(failure),
        }
    }
}

/// The failures of disposing `live` in reverse order, each with its entry; the
/// first outcome is that of the last entry.
pub open spec fn failed_disposals(
    live: Seq<LiveModel>,
    outcomes: Seq<Result<(), LoaderFailure>>,
) -> Seq<LoaderFailure>
    decreases outcomes.len(),
{
    if outcomes.len() == 0 {
        Seq::empty()
    } else {
        let rest = failed_disposals(live, outcomes.drop_last());
        match outcomes.last() {
            Ok(()) => rest,
            Err(failure) => rest.push(
                in_entry(failure, "dispose"@, live[live.len() - outcomes.len()].entry),
            ),
        }
    }
}

/// The live entries that a stage acts on, in the order in which it does.
pub open spec fn acted_on(live: Seq<LiveModel>, replacement: ReplacementModel) -> Seq<LiveModel> {
    match replacement.stage {
        Stage::Import => Seq::empty(),
        Stage::Activate => replacement.candidates,
        Stage::Retire => live.reverse(),
        Stage::Restore => live,
        Stage::UndoImport | Stage::UndoActivation | Stage::UndoRetirement =>
            replacement.candidates.reverse(),
    }
}

/// The trace event of a transaction that was undone.
pub open spec fn rolled_back_event(failure: LoaderFailure) -> TraceModel {
    TraceModel {
        error: Some(loader_message(failure)),
        ..bare_event(TraceEventKind::ConfigRolledBack)
    }
}

/// The end of a transaction that was undone: nothing changes but the trace.
pub open spec fn undone(
    loader: LoaderModel,
    failures: Seq<LoaderFailure>,
    rollback: Seq<LoaderFailure>,
) -> (LoaderModel, ProgressModel) {
    let failure = LoaderFailure::Transaction {
        failure: Box::new(LoaderFailure::Aggregate(failures)),
        rollback,
    };
    (
        LoaderModel { trace: loader.trace.push(rolled_back_event(failure)), ..loader },
        ProgressModel::Done(Err(failure)),
    )
}

/// What follows when every import has come to an end.
pub open spec fn after_import(
    replacement: ReplacementModel,
    imports: Seq<Result<LiveModel, LoaderFailure>>,
) -> ReplacementModel {
    let failures = import_failures(imports);
    ReplacementModel {
        stage: if failures.len() == 0 {
            Stage::Activate
        } else {
            Stage::UndoImport
        },
        candidates: imported(imports),
        failures,
        ..replacement
    }
}

/// The candidates among imports, in order.
pub open spec fn imported(imports: Seq<Result<LiveModel, LoaderFailure>>) -> Seq<LiveModel>
    decreases imports.len(),
{
    if imports.len() == 0 {
        Seq::empty()
    } else {
        let rest = imported(imports.drop_last());
        match imports.last() {
            Ok(live) => rest.push(live),
            Err(_) => rest,
        }
    }
}

/// The failures among imports, in order.
pub open spec fn import_failures(imports: Seq<Result<LiveModel, LoaderFailure>>) -> Seq<
    LoaderFailure,
>
    decreases imports.len(),
{
    if imports.len() == 0 {
        Seq::empty()
    } else {
        let rest = import_failures(imports.drop_last());
        match imports.last() {
            Ok(_) => rest,
            Err(failure) => rest.push(failure),
        }
    }
}

/// What follows when a stage has come to an end, with the outcomes for the
/// entries that it acted on.
pub open spec fn after_stage(
    loader: LoaderModel,
    replacement: ReplacementModel,
    outcomes: Seq<Result<(), LoaderFailure>>,
) -> (LoaderModel, ProgressModel) {
    let candidates = replacement.candidates;
    match replacement.stage {
        Stage::Import => (loader, ProgressModel::Next(replacement)),
        Stage::UndoImport | Stage::UndoActivation => undone(
            loader,
            replacement.failures,
            failed_disposals(candidates, outcomes),
        ),
        Stage::Activate => {
            let failures = failed(outcomes);
            let stage = if failures.len() == 0 {
                Stage::Retire
            } else {
                Stage::UndoActivation
            };
            (loader, ProgressModel::Next(ReplacementModel { stage, failures, ..replacement }))
        },
        Stage::Retire => {
            let failures = failed_disposals(loader.live, outcomes);
            if failures.len() == 0 {
                (
                    LoaderModel {
                        tree: replacement.tree,
                        live: candidates,
                        context: replacement.context,
                        trace: loader.trace.push(bare_event(TraceEventKind::ConfigCommitted)),
                        ..loader
                    },
                    ProgressModel::Done(Ok(())),
                )
            } else {
                (
                    loader,
                    ProgressModel::Next(
                        ReplacementModel { stage: Stage::Restore, failures, ..replacement },
                    ),
                )
            }
        },
        Stage::Restore => (
            loader,
            ProgressModel::Next(
                ReplacementModel {
                    stage: Stage::UndoRetirement,
                    restored: failed(outcomes),
                    ..replacement
                },
            ),
        ),
        Stage::UndoRetirement => undone(
            loader,
            replacement.failures,
            failed_disposals(candidates, outcomes) + replacement.restored,
        ),
    }
}

fn collect_failed(results: Vec<Result<(), LoaderError>>) -> (result: Vec<LoaderError>)
    ensures
        loader_failures(result@) == failed(outcome_list(results@)),
{
    let ghost outcomes = outcome_list(results@);
    let mut rest = results;
    let mut errors: Vec<LoaderError> = Vec::new();
    let ghost mut done: int = 0;
    assert(outcomes.subrange(0, 0) =~= Seq::empty());
    assert(loader_failures(errors@) =~= Seq::empty());
    while rest.len() > 0
        invariant
            0 <= done <= outcomes.len(),
            rest@.len() == outcomes.len() - done,
            forall|k: int|
                0 <= k < rest@.len() ==> outcomes[done + k] == (match #[trigger] rest@[k] {
                    Ok(()) => Ok::<(), LoaderFailure>(()),
                    Err(error) => Err::<(), LoaderFailure>(error@),
                }),
            loader_failures(errors@) == failed(outcomes.subrange(0, done)),
        decreases rest@.len(),
    {
        let ghost before = errors@;
        let ghost whole = rest@;
        let ghost longer = outcomes.subrange(0, done + 1);
        proof {
            assert(longer.drop_last() =~= outcomes.subrange(0, done));
            assert(longer.last() == outcomes[done]);
            assert(outcomes[done + 0] == outcomes[done]);
        }
        let first = rest.remove(0);
        assert(first == whole[0]);
        if let Err(error) = first {
            errors.push(error);
            assert(loader_failures(errors@) =~= loader_failures(before).push(error@));
        }
        proof {
            assert forall|k: int| 0 <= k < rest@.len() implies outcomes[done + 1 + k] == (
            match #[trigger] rest@[k] {
                Ok(()) => Ok::<(), LoaderFailure>(()),
                Err(error) => Err::<(), LoaderFailure>(error@),
            }) by {
                assert(rest@[k] == whole[k + 1]);
                assert(outcomes[done + (k + 1)] == outcomes[done + 1 + k]);
            }
            done = done + 1;
        }
    }
    assert(outcomes.subrange(0, outcomes.len() as int) =~= outcomes);
    errors
}

fn collect_disposals(live: &Vec<LiveEntry>, results: &Vec<Result<(), LoaderError>>) -> (result: Vec<
    LoaderError,
>)
    requires
        results@.len() == live@.len(),
    ensures
        loader_failures(result@) == failed_disposals(live_list(live@), outcome_list(results@)),
{
    let ghost outcomes = outcome_list(results@);
    let ghost models = live_list(live@);
    let mut errors: Vec<LoaderError> = Vec::new();
    let mut i: usize = 0;
    assert(outcomes.subrange(0, 0) =~= Seq::empty());
    assert(loader_failures(errors@) =~= Seq::empty());
    while i < results.len()
        invariant
            i <= results@.len() == live@.len(),
            outcomes == outcome_list(results@),
            models == live_list(live@),
            loader_failures(errors@) == failed_disposals(models, outcomes.subrange(0, i as int)),
        decreases results@.len() - i,
    {
        let ghost before = errors@;
        let ghost longer = outcomes.subrange(0, i + 1);
        proof {
            assert(longer.drop_last() =~= outcomes.subrange(0, i as int));
            assert(longer.last() == outcomes[i as int]);
        }
        let at = live.len() - 1 - i;
        assert(models[at as int] == live@[at as int]@);
        if let Err(error) = &results[i] {
            let failure = error.in_entry("dispose", &live[at].entry);
            errors.push(failure);
            assert(loader_failures(errors@) =~= loader_failures(before).push(failure@));
        }
        i += 1;
    }
    assert(outcomes.subrange(0, outcomes.len() as int) =~= outcomes);
    errors
}

/// What became of the import of one entry outside: its package could not be
/// resolved, it could not be instantiated, or it is live under a handle.
#[derive(Debug)]
pub enum Import {
    Unresolved(LoaderError),
    Failed(LoaderError),
    Live(u64),
}

/// The model of what became of an import.
#[verifier::ext_equal]
pub enum ImportModel {
    Unresolved(LoaderFailure),
    Failed(LoaderFailure),
    Live(u64),
}

impl View for Import {
    type V = ImportModel;

    open spec fn view(&self) -> ImportModel {
        match self {
            Import::Unresolved(error) => ImportModel::Unresolved(error@),
            Import::Failed(error) => ImportModel::Failed(error@),
            Import::Live(handle) => ImportModel::Live(*handle),
        }
    }
}

/// The models of a list of imports.
pub open spec fn import_list(imports: Seq<Import>) -> Seq<ImportModel> {
    Seq::new(imports.len(), |i: int| imports[i]@)
}

/// No runtime of the kind that an entry asks for is registered.
pub open spec fn unsupported(entry: EntryModel) -> LoaderFailure {
    LoaderFailure::Runtime {
        stage: "import"@,
        entry: entry.options.id,
        name: entry.options.name,
        message: "no "@ + entry.options.runtime.spec_name() + " runtime is registered"@,
    }
}

/// The live entry that an import gives, or why it gives none: first for its
/// expressions, then for its package, then for want of a runtime, then because
/// it was not instantiated.
pub open spec fn import_outcome(
    runtimes: Seq<RuntimeKind>,
    scope: ScopeModel,
    entry: EntryModel,
    import: ImportModel,
) -> Result<LiveModel, LoaderFailure> {
    match prepared(entry, scope) {
        Err(failure) => Err(failure),
        Ok(entry) => match import {
            ImportModel::Unresolved(failure) => Err(in_entry(failure, "import"@, entry)),
            _ => if !runtimes.contains(entry.options.runtime) {
                Err(unsupported(entry))
            } else {
                match import {
                    ImportModel::Live(handle) => Ok(LiveModel { entry, handle }),
                    ImportModel::Failed(failure) => Err(in_entry(failure, "import"@, entry)),
                    ImportModel::Unresolved(failure) => Err(in_entry(failure, "import"@, entry)),
                }
            },
        },
    }
}

/// What the imports of entries give, one by one.
pub open spec fn import_outcomes(
    runtimes: Seq<RuntimeKind>,
    scope: ScopeModel,
    entries: Seq<EntryModel>,
    imports: Seq<ImportModel>,
) -> Seq<Result<LiveModel, LoaderFailure>> {
    Seq::new(entries.len(), |i: int| import_outcome(runtimes, scope, entries[i], imports[i]))
}

/// The handles of a list of live entries.
pub open spec fn handles_of(live: Seq<LiveModel>) -> Seq<u64> {
    Seq::new(live.len(), |i: int| live[i].handle)
}

fn handles(live: &Vec<LiveEntry>, reversed: bool) -> (result: Vec<u64>)
    ensures
        result@ == handles_of(
            if reversed {
                live_list(live@).reverse()
            } else {
                live_list(live@)
            },
        ),
{
    let ghost order = if reversed {
        live_list(live@).reverse()
    } else {
        live_list(live@)
    };
    let mut result: Vec<u64> = Vec::new();
    let mut i: usize = 0;
    while i < live.len()
        invariant
            i <= live@.len(),
            result@.len() == i,
            order == (if reversed {
                live_list(live@).reverse()
            } else {
                live_list(live@)
            }),
            forall|k: int| 0 <= k < i ==> #[trigger] result@[k] == order[k].handle,
        decreases live@.len() - i,
    {
        let at = if reversed {
            live.len() - 1 - i
        } else {
            i
        };
        assert(order[i as int] == live@[at as int]@);
        result.push(live[at].handle);
        i += 1;
    }
    assert(result@ =~= handles_of(order));
    result
}

impl Loader {
    /// A loader without a tree. There is at most one runtime of each kind.
    pub fn try_new(runtimes: Vec<RuntimeKind>, context: ContextHandle, config_scope: ConfigScope) -> (result:
        Result<Loader, LoaderError>)
        ensures
            match result {
                Ok(loader) => {
                    &&& first_doubled(runtimes@, 0) is None
                    &&& loader.runtimes == runtimes
                    &&& loader.context == context
                    &&& loader.config_scope == config_scope
                    &&& loader@ == (LoaderModel {
                        runtimes: runtimes@,
                        scope: config_scope@,
                        context: context@,
                        tree: TreeModel { entries: Seq::empty(), groups: Seq::empty() },
                        live: Seq::empty(),
                        trace: Seq::empty(),
                    })
                },
                Err(error) => first_doubled(runtimes@, 0) matches Some(kind) && error@
                    == doubled_runtime(kind),
            },
    {
        let mut i: usize = 0;
        while i < runtimes.len()
            invariant
                i <= runtimes@.len(),
                first_doubled(runtimes@, 0) == first_doubled(runtimes@, i as int),
            decreases runtimes@.len() - i,
        {
            if holds_kind(&runtimes, i, runtimes[i]) {
                return Err(
                    LoaderError::Validation(
                        join2("more than one runtime registered for ", runtimes[i].name()),
                    ),
                );
            }
            i += 1;
        }
        let loader = Loader {
            runtimes,
            tree: EntryTree::default(),
            live: Vec::new(),
            context,
            config_scope,
            trace: Vec::new(),
        };
        assert(live_list(loader.live@) =~= Seq::empty());
        assert(trace_list(loader.trace@) =~= Seq::empty());
        Ok(loader)
    }

    /// This loader with another context for its committed tree.
    pub fn with_context(self, context: ContextHandle) -> (result: Loader)
        ensures
            result == (Loader { context, ..self }),
    {
        Loader { context, ..self }
    }

    /// This loader with another scope for configuration expressions.
    pub fn with_config_scope(self, scope: ConfigScope) -> (result: Loader)
        ensures
            result == (Loader { config_scope: scope, ..self }),
    {
        Loader { config_scope: scope, ..self }
    }

    pub fn tree(&self) -> (result: &EntryTree)
        ensures
            *result == self.tree,
    {
        &self.tree
    }

    pub fn trace(&self) -> (result: &Vec<TraceEvent>)
        ensures
            *result == self.trace,
    {
        &self.trace
    }

    pub fn context(&self) -> (result: ContextHandle)
        ensures
            result@ == self.context@,
    {
        self.context.clone()
    }

    /// Begins to replace the committed tree by a valid one. The transaction
    /// imports its active entries first.
    pub fn replace(&self, tree: EntryTree, context: ContextHandle) -> (result: Result<
        Replacement,
        LoaderError,
    >)
        ensures
            match result {
                Ok(replacement) => {
                    &&& tree_fault(tree@) is None
                    &&& replacement@ == first_step(tree@, context@)
                    &&& replacement.context == context
                },
                Err(error) => tree_fault(tree@) == Some(error@),
            },
    {
        match tree.validate() {
            Ok(()) => {},
            Err(error) => return Err(error),
        }
        let replacement = Replacement {
            tree,
            context,
            stage: Stage::Import,
            candidates: Vec::new(),
            failures: Vec::new(),
            restored: Vec::new(),
        };
        assert(live_list(replacement.candidates@) =~= Seq::empty());
        assert(loader_failures(replacement.failures@) =~= Seq::empty());
        assert(loader_failures(replacement.restored@) =~= Seq::empty());
        Ok(replacement)
    }

    /// Begins to load a tree into a loader that has none.
    pub fn load(&self, tree: EntryTree, context: ContextHandle) -> (result: Result<
        Replacement,
        LoaderError,
    >)
        ensures
            match result {
                Ok(replacement) => {
                    &&& self@.live.len() == 0
                    &&& tree_fault(tree@) is None
                    &&& replacement@ == first_step(tree@, context@)
                    &&& replacement.context == context
                },
                Err(error) => if self@.live.len() > 0 {
                    error@ == already_committed()
                } else {
                    tree_fault(tree@) == Some(error@)
                },
            },
    {
        if self.live.len() > 0 {
            return Err(
                LoaderError::Validation(
                    "loader already has a committed tree; use replace or update".to_owned(),
                ),
            );
        }
        self.replace(tree, context)
    }

    /// Begins to replace the committed tree by what patches make of it.
    pub fn update(&self, patches: &[Patch], context: ContextHandle) -> (result: Result<
        Replacement,
        LoaderError,
    >)
        ensures
            match accepted(patched_all(self@.tree, patches@, 0)) {
                Ok(tree) => result matches Ok(replacement) && replacement@ == first_step(tree, context@)
                    && replacement.context == context,
                Err(failure) => result matches Err(error) && error@ == failure,
            },
    {
        match self.tree.apply_all(patches) {
            Ok(tree) => {
                proof {
                    crate::patch::accepted_trees_are_valid(self@.tree, patches@);
                }
                self.replace(tree, context)
            },
            Err(error) => Err(error),
        }
    }

    /// An entry as it is imported: with its configuration and its intercepts
    /// evaluated in this loader's scope.
    pub fn prepare(&self, entry: &Entry) -> (result: Result<Entry, LoaderError>)
        ensures
            prepared_outcome(result) == prepared(entry@, self.config_scope@),
    {
        let mut entry = entry.clone();
        match evaluate_config(&entry.options.config, &self.config_scope) {
            Ok(config) => {
                entry.options.config = config;
            },
            Err(error) => return Err(error.in_entry("import", &entry)),
        }
        match evaluate_config(&entry.options.intercept, &self.config_scope) {
            Ok(intercept) => {
                entry.options.intercept = intercept;
            },
            Err(error) => return Err(error.in_entry("import", &entry)),
        }
        Ok(entry)
    }

    /// Checks that an entry whose package was resolved has a runtime.
    pub fn runtime_for(&self, entry: &Entry) -> (result: Result<RuntimeKind, LoaderError>)
        ensures
            match result {
                Ok(kind) => kind == entry@.options.runtime && self.runtimes@.contains(kind),
                Err(error) => !self.runtimes@.contains(entry@.options.runtime) && error@
                    == unsupported(entry@),
            },
    {
        let kind = entry.options.runtime;
        assert(self.runtimes@.subrange(0, self.runtimes@.len() as int) =~= self.runtimes@);
        if holds_kind(&self.runtimes, self.runtimes.len(), kind) {
            Ok(kind)
        } else {
            let message = join3("no ", kind.name(), " runtime is registered");
            Err(entry_failure("import", entry, message))
        }
    }

    /// The live entry that an import gives, or why it gives none.
    fn import_one(&self, entry: &Entry, import: Import) -> (result: Result<LiveEntry, LoaderError>)
        ensures
            (match result {
                Ok(live) => Ok::<LiveModel, LoaderFailure>(live@),
                Err(error) => Err::<LiveModel, LoaderFailure>(error@),
            }) == import_outcome(self@.runtimes, self@.scope, entry@, import@),
    {
        let entry = match self.prepare(entry) {
            Ok(entry) => entry,
            Err(error) => return Err(error),
        };
        if let Import::Unresolved(error) = &import {
            return Err(error.in_entry("import", &entry));
        }
        match self.runtime_for(&entry) {
            Ok(_) => {},
            Err(error) => return Err(error),
        }
        match import {
            Import::Live(handle) => Ok(LiveEntry { entry, handle }),
            Import::Failed(error) | Import::Unresolved(error) => Err(
                error.in_entry("import", &entry),
            ),
        }
    }

    /// Goes on when every active entry of the tree was imported, in order: to
    /// activation, or back if any import failed.
    pub fn imported(&self, replacement: Replacement, imports: Vec<Import>) -> (result: Replacement)
        requires
            imports@.len() == active(replacement@.tree).len(),
        ensures
            result@ == after_import(
                replacement@,
                import_outcomes(
                    self@.runtimes,
                    self@.scope,
                    active(replacement@.tree),
                    import_list(imports@),
                ),
            ),
            result.context == replacement.context,
    {
        let entries = replacement.tree.active_entries();
        let ghost models = import_list(imports@);
        let ghost outcomes = import_outcomes(
            self@.runtimes,
            self@.scope,
            active(replacement@.tree),
            models,
        );
        let mut rest = imports;
        let mut candidates: Vec<LiveEntry> = Vec::new();
        let mut failures: Vec<LoaderError> = Vec::new();
        let mut i: usize = 0;
        assert(outcomes.subrange(0, 0) =~= Seq::empty());
        assert(loader_failures(failures@) =~= Seq::empty());
        assert(live_list(candidates@) =~= Seq::empty());
        while i < entries.len()
            invariant
                i <= entries@.len(),
                entry_list(entries@) == active(replacement@.tree),
                models.len() == entries@.len(),
                outcomes == import_outcomes(
                    self@.runtimes,
                    self@.scope,
                    entry_list(entries@),
                    models,
                ),
                rest@.len() == entries@.len() - i,
                forall|k: int| 0 <= k < rest@.len() ==> models[i + k] == (#[trigger] rest@[k])@,
                live_list(candidates@) == imported(outcomes.subrange(0, i as int)),
                loader_failures(failures@) == import_failures(outcomes.subrange(0, i as int)),
            decreases entries@.len() - i,
        {
            let ghost some = candidates@;
            let ghost others = failures@;
            let ghost whole = rest@;
            let ghost longer = outcomes.subrange(0, i + 1);
            proof {
                assert(longer.drop_last() =~= outcomes.subrange(0, i as int));
                assert(longer.last() == outcomes[i as int]);
                assert(models[i + 0] == whole[0]@);
                assert(entry_list(entries@)[i as int] == entries@[i as int]@);
            }
            let first = rest.remove(0);
            match self.import_one(&entries[i], first) {
                Ok(live) => {
                    candidates.push(live);
                    assert(live_list(candidates@) =~= live_list(some).push(live@));
                },
                Err(error) => {
                    failures.push(error);
                    assert(loader_failures(failures@) =~= loader_failures(others).push(error@));
                },
            }
            proof {
                assert forall|k: int| 0 <= k < rest@.len() implies models[i + 1 + k] == (
                #[trigger] rest@[k])@ by {
                    assert(rest@[k] == whole[k + 1]);
                    assert(models[i + (k + 1)] == whole[k + 1]@);
                }
            }
            i += 1;
        }
        assert(outcomes.subrange(0, outcomes.len() as int) =~= outcomes);
        assert(loader_failures(failures@).len() == failures@.len());
        let stage = if failures.len() == 0 {
            Stage::Activate
        } else {
            Stage::UndoImport
        };
        Replacement { stage, candidates, failures, ..replacement }
    }

    /// The handles that the current stage acts on, in order.
    pub fn handles(&self, replacement: &Replacement) -> (result: Vec<u64>)
        ensures
            result@ == handles_of(acted_on(self@.live, replacement@)),
    {
        match replacement.stage {
            Stage::Import => {
                let none: Vec<u64> = Vec::new();
                assert(none@ =~= handles_of(Seq::empty()));
                none
            },
            Stage::Activate => handles(&replacement.candidates, false),
            Stage::Retire => handles(&self.live, true),
            Stage::Restore => handles(&self.live, false),
            _ => handles(&replacement.candidates, true),
        }
    }

    fn rolled_back(&mut self, failures: Vec<LoaderError>, rollback: Vec<LoaderError>) -> (result:
        LoaderError)
        ensures
            final(self).runtimes == old(self).runtimes,
            final(self).context == old(self).context,
            final(self).config_scope == old(self).config_scope,
            (final(self)@, ProgressModel::Done(Err(result@))) == undone(
                old(self)@,
                loader_failures(failures@),
                loader_failures(rollback@),
            ),
    {
        let ghost before = trace_list(self.trace@);
        let error = LoaderError::transaction(LoaderError::aggregate(failures), rollback);
        let mut event = TraceEvent::bare(TraceEventKind::ConfigRolledBack);
        event.error = Some(error.message());
        assert(event@ == rolled_back_event(error@));
        self.trace.push(event);
        assert(trace_list(self.trace@) =~= before.push(event@));
        error
    }

    /// Goes on when a stage has come to an end, with the outcomes for the
    /// handles that it acted on. The committed tree changes only when all that
    /// was live before has been disposed.
    pub fn settle(&mut self, replacement: Replacement, results: Vec<Result<(), LoaderError>>) -> (result:
        Progress)
        requires
            replacement.stage != Stage::Import,
            results@.len() == acted_on(old(self)@.live, replacement@).len(),
        ensures
            (final(self)@, result@) == after_stage(
                old(self)@,
                replacement@,
                outcome_list(results@),
            ),
            final(self).runtimes == old(self).runtimes,
            final(self).config_scope == old(self).config_scope,
            final(self).context == (if result@ == ProgressModel::Done(Ok(())) {
                replacement.context
            } else {
                old(self).context
            }),
            result matches Progress::Next(next) ==> next.context == replacement.context,
    {
        let mut replacement = replacement;
        match replacement.stage {
            Stage::Import => Progress::Next(replacement),
            Stage::UndoImport | Stage::UndoActivation => {
                let rollback = collect_disposals(&replacement.candidates, &results);
                Progress::Done(Err(self.rolled_back(replacement.failures, rollback)))
            },
            Stage::Activate => {
                let failures = collect_failed(results);
                assert(loader_failures(failures@).len() == failures@.len());
                replacement.stage = if failures.len() == 0 {
                    Stage::Retire
                } else {
                    Stage::UndoActivation
                };
                replacement.failures = failures;
                Progress::Next(replacement)
            },
            Stage::Retire => {
                let failures = collect_disposals(&self.live, &results);
                assert(loader_failures(failures@).len() == failures@.len());
                if failures.len() == 0 {
                    let ghost before = trace_list(self.trace@);
                    let event = TraceEvent::bare(TraceEventKind::ConfigCommitted);
                    self.live = replacement.candidates;
                    self.tree = replacement.tree;
                    self.context = replacement.context;
                    self.trace.push(event);
                    assert(trace_list(self.trace@) =~= before.push(event@));
                    Progress::Done(Ok(()))
                } else {
                    replacement.stage = Stage::Restore;
                    replacement.failures = failures;
                    Progress::Next(replacement)
                }
            },
            Stage::Restore => {
                replacement.restored = collect_failed(results);
                replacement.stage = Stage::UndoRetirement;
                Progress::Next(replacement)
            },
            Stage::UndoRetirement => {
                let mut rollback = collect_disposals(&replacement.candidates, &results);
                let ghost first = rollback@;
                let ghost second = replacement.restored@;
                let mut restored = replacement.restored;
                rollback.append(&mut restored);
                assert(loader_failures(rollback@) =~= loader_failures(first) + loader_failures(
                    second,
                ));
                Progress::Done(Err(self.rolled_back(replacement.failures, rollback)))
            },
        }
    }

    /// Gives up the committed tree, with the outcomes of disposing what was
    /// live in reverse order. It is kept if any disposal failed.
    pub fn unload(&mut self, results: &Vec<Result<(), LoaderError>>) -> (result: Result<
        (),
        LoaderError,
    >)
        requires
            results@.len() == old(self)@.live.len(),
        ensures
            ({
                let failures = failed_disposals(old(self)@.live, outcome_list(results@));
                match result {
                    Ok(()) => failures.len() == 0 && final(self)@ == (LoaderModel {
                        tree: TreeModel { entries: Seq::empty(), groups: Seq::empty() },
                        live: Seq::empty(),
                        ..old(self)@
                    }),
                    Err(error) => failures.len() > 0 && error@ == LoaderFailure::Aggregate(failures)
                        && *final(self) == *old(self),
                }
            }),
            final(self).runtimes == old(self).runtimes,
            final(self).context == old(self).context,
            final(self).config_scope == old(self).config_scope,
    {
        let failures = collect_disposals(&self.live, results);
        assert(loader_failures(failures@).len() == failures@.len());
        if failures.len() == 0 {
            self.live = Vec::new();
            self.tree = EntryTree::default();
            assert(live_list(self.live@) =~= Seq::empty());
            Ok(())
        } else {
            Err(LoaderError::aggregate(failures))
        }
    }
}

/// A transaction that has done nothing yet.
pub open spec fn first_step(tree: TreeModel, context: ContextModel) -> ReplacementModel {
    ReplacementModel {
        tree,
        context,
        stage: Stage::Import,
        candidates: Seq::empty(),
        failures: Seq::empty(),
        restored: Seq::empty(),
    }
}

/// A tree is committed already.
pub open spec fn already_committed() -> LoaderFailure {
    LoaderFailure::Validation("loader already has a committed tree; use replace or update"@)
}

/// A step that does not commit leaves the committed tree and all that is live
/// as they were, and a transaction that was undone says so at the end of the
/// trace.
pub proof fn failed_transactions_keep_the_tree(
    loader: LoaderModel,
    replacement: ReplacementModel,
    outcomes: Seq<Result<(), LoaderFailure>>,
)
    ensures
        ({
            let (after, progress) = after_stage(loader, replacement, outcomes);
            match progress {
                ProgressModel::Next(_) => after == loader,
                ProgressModel::Done(Err(failure)) => after == (LoaderModel {
                    trace: loader.trace.push(rolled_back_event(failure)),
                    ..loader
                }),
                ProgressModel::Done(Ok(())) => after == (LoaderModel {
                    tree: replacement.tree,
                    live: replacement.candidates,
                    context: replacement.context,
                    trace: loader.trace.push(bare_event(TraceEventKind::ConfigCommitted)),
                    ..loader
                }),
            }
        }),
{
}

/// There are failures among outcomes exactly if one of them is a failure.
pub proof fn failures_are_found(outcomes: Seq<Result<(), LoaderFailure>>)
    ensures
        failed(outcomes).len() == 0 <==> forall|i: int|
            0 <= i < outcomes.len() ==> (#[trigger] outcomes[i]) is Ok,
    decreases outcomes.len(),
{
    if outcomes.len() > 0 {
        let shorter = outcomes.drop_last();
        failures_are_found(shorter);
        assert(outcomes[outcomes.len() - 1] == outcomes.last());
        if failed(outcomes).len() == 0 {
            assert forall|i: int| 0 <= i < outcomes.len() implies (#[trigger] outcomes[i]) is Ok by {
                if i < shorter.len() {
                    assert(shorter[i] == outcomes[i]);
                }
            }
        } else if outcomes.last() is Ok {
            let i = choose|i: int| 0 <= i < shorter.len() && !((#[trigger] shorter[i]) is Ok);
            assert(outcomes[i] == shorter[i]);
        }
    }
}

/// Every import is a candidate or a failure.
pub proof fn imports_are_kept(imports: Seq<Result<LiveModel, LoaderFailure>>)
    ensures
        imported(imports).len() + import_failures(imports).len() == imports.len(),
    decreases imports.len(),
{
    if imports.len() > 0 {
        imports_are_kept(imports.drop_last());
    }
}

/// What was live is disposed only after every entry was imported and every
/// candidate was activated.
pub proof fn replacements_run_before_retirement(
    loader: LoaderModel,
    replacement: ReplacementModel,
    outcomes: Seq<Result<(), LoaderFailure>>,
    imports: Seq<Result<LiveModel, LoaderFailure>>,
)
    ensures
        after_stage(loader, replacement, outcomes).1 matches ProgressModel::Next(next) ==> (
        next.stage == Stage::Retire && replacement.stage != Stage::Import ==> {
            &&& replacement.stage == Stage::Activate
            &&& forall|i: int| 0 <= i < outcomes.len() ==> (#[trigger] outcomes[i]) is Ok
            &&& next.candidates == replacement.candidates
        }),
        after_import(replacement, imports).stage == Stage::Activate ==> after_import(
            replacement,
            imports,
        ).candidates.len() == imports.len(),
{
    failures_are_found(outcomes);
    imports_are_kept(imports);
}

/// How far a transaction has come.
pub open spec fn rank(stage: Stage) -> int {
    match stage {
        Stage::Import => 0,
        Stage::UndoImport => 1,
        Stage::Activate => 1,
        Stage::UndoActivation => 2,
        Stage::Retire => 2,
        Stage::Restore => 3,
        Stage::UndoRetirement => 4,
    }
}

/// Every step brings a transaction closer to its end.
pub proof fn transactions_end(
    loader: LoaderModel,
    replacement: ReplacementModel,
    outcomes: Seq<Result<(), LoaderFailure>>,
    imports: Seq<Result<LiveModel, LoaderFailure>>,
)
    requires
        replacement.stage != Stage::Import,
    ensures
        after_stage(loader, replacement, outcomes).1 matches ProgressModel::Next(next) ==> rank(
            replacement.stage,
        ) < rank(next.stage) <= 4,
        0 < rank(after_import(replacement, imports).stage) <= 4,
{
}

/// Where a transaction is, and what the loader has, after stages with these
/// outcomes, of which those after the end count for nothing.
pub open spec fn after_stages(
    loader: LoaderModel,
    replacement: ReplacementModel,
    outcomes: Seq<Seq<Result<(), LoaderFailure>>>,
    from: nat,
) -> (LoaderModel, ProgressModel)
    decreases outcomes.len() - from,
{
    if from >= outcomes.len() {
        (loader, ProgressModel::Next(replacement))
    } else {
        let (after, progress) = after_stage(loader, replacement, outcomes[from as int]);
        match progress {
            ProgressModel::Done(_) => (after, progress),
            ProgressModel::Next(next) => after_stages(after, next, outcomes, from + 1),
        }
    }
}

/// A transaction from its beginning, with what became of the imports and with
/// the outcomes of the stages after them.
pub open spec fn transaction(
    loader: LoaderModel,
    tree: TreeModel,
    context: ContextModel,
    imports: Seq<ImportModel>,
    outcomes: Seq<Seq<Result<(), LoaderFailure>>>,
) -> (LoaderModel, ProgressModel) {
    after_stages(
        loader,
        after_import(
            first_step(tree, context),
            import_outcomes(loader.runtimes, loader.scope, active(tree), imports),
        ),
        outcomes,
        0,
    )
}

/// The entries, prepared for import, are live in this order.
pub open spec fn all_live(
    live: Seq<LiveModel>,
    runtimes: Seq<RuntimeKind>,
    scope: ScopeModel,
    entries: Seq<EntryModel>,
    imports: Seq<ImportModel>,
) -> bool {
    &&& live.len() == entries.len()
    &&& forall|i: int|
        0 <= i < entries.len() ==> {
            &&& prepared(entries[i], scope) == Ok::<EntryModel, LoaderFailure>(
                (#[trigger] live[i]).entry,
            )
            &&& runtimes.contains(live[i].entry.options.runtime)
            &&& imports[i] == ImportModel::Live(live[i].handle)
        }
}

proof fn good_imports_are_live(
    runtimes: Seq<RuntimeKind>,
    scope: ScopeModel,
    entries: Seq<EntryModel>,
    imports: Seq<ImportModel>,
)
    requires
        imports.len() == entries.len(),
        import_failures(import_outcomes(runtimes, scope, entries, imports)).len() == 0,
    ensures
        all_live(
            imported(import_outcomes(runtimes, scope, entries, imports)),
            runtimes,
            scope,
            entries,
            imports,
        ),
    decreases entries.len(),
{
    if entries.len() > 0 {
        let outcomes = import_outcomes(runtimes, scope, entries, imports);
        let shorter = entries.drop_last();
        let fewer = imports.drop_last();
        assert(outcomes.drop_last() =~= import_outcomes(runtimes, scope, shorter, fewer));
        assert(outcomes.last() is Ok);
        good_imports_are_live(runtimes, scope, shorter, fewer);
        let live = imported(outcomes);
        let before = imported(outcomes.drop_last());
        assert forall|i: int| 0 <= i < entries.len() implies {
            &&& prepared(entries[i], scope) == Ok::<EntryModel, LoaderFailure>(
                (#[trigger] live[i]).entry,
            )
            &&& runtimes.contains(live[i].entry.options.runtime)
            &&& imports[i] == ImportModel::Live(live[i].handle)
        } by {
            if i < shorter.len() {
                assert(live[i] == before[i]);
                assert(shorter[i] == entries[i] && fewer[i] == imports[i]);
            }
        }
    }
}

/// A transaction that stands where imports without failures have brought it.
spec fn well_under_way(
    replacement: ReplacementModel,
    tree: TreeModel,
    context: ContextModel,
    candidates: Seq<LiveModel>,
    good: bool,
) -> bool {
    &&& replacement.tree == tree
    &&& replacement.context == context
    &&& replacement.candidates == candidates
    &&& replacement.stage != Stage::Import
    &&& good || replacement.stage == Stage::UndoImport
}

proof fn stages_commit_or_keep(
    loader: LoaderModel,
    replacement: ReplacementModel,
    outcomes: Seq<Seq<Result<(), LoaderFailure>>>,
    from: nat,
    tree: TreeModel,
    context: ContextModel,
    candidates: Seq<LiveModel>,
    good: bool,
)
    requires
        well_under_way(replacement, tree, context, candidates, good),
    ensures
        ({
            let (after, progress) = after_stages(loader, replacement, outcomes, from);
            match progress {
                ProgressModel::Next(_) => after == loader,
                ProgressModel::Done(Err(failure)) => after == (LoaderModel {
                    trace: loader.trace.push(rolled_back_event(failure)),
                    ..loader
                }),
                ProgressModel::Done(Ok(())) => good && after == (LoaderModel {
                    tree,
                    live: candidates,
                    context,
                    trace: loader.trace.push(bare_event(TraceEventKind::ConfigCommitted)),
                    ..loader
                }),
            }
        }),
    decreases outcomes.len() - from,
{
    if from < outcomes.len() {
        let (after, progress) = after_stage(loader, replacement, outcomes[from as int]);
        match progress {
            ProgressModel::Next(next) => {
                stages_commit_or_keep(
                    after,
                    next,
                    outcomes,
                    from + 1,
                    tree,
                    context,
                    candidates,
                    good,
                );
            },
            ProgressModel::Done(_) => {},
        }
    }
}

/// A transaction commits whole or not at all, whatever its steps give. When it
/// commits, the loader has the tree and the context that the transaction began
/// with, and live are exactly the active entries of that tree, prepared, in
/// order. Until then, and when it is undone, tree, context and live entries
/// stay as they were. Runtimes and configuration scope never change.
pub proof fn transactions_commit_whole_or_not_at_all(
    loader: LoaderModel,
    tree: TreeModel,
    context: ContextModel,
    imports: Seq<ImportModel>,
    outcomes: Seq<Seq<Result<(), LoaderFailure>>>,
)
    requires
        imports.len() == active(tree).len(),
    ensures
        ({
            let (after, progress) = transaction(loader, tree, context, imports, outcomes);
            &&& after.runtimes == loader.runtimes
            &&& after.scope == loader.scope
            &&& match progress {
                ProgressModel::Next(_) => after == loader,
                ProgressModel::Done(Err(failure)) => after == (LoaderModel {
                    trace: loader.trace.push(rolled_back_event(failure)),
                    ..loader
                }),
                ProgressModel::Done(Ok(())) => {
                    &&& after.tree == tree
                    &&& after.context == context
                    &&& all_live(after.live, loader.runtimes, loader.scope, active(tree), imports)
                    &&& after.trace == loader.trace.push(
                        bare_event(TraceEventKind::ConfigCommitted),
                    )
                },
            }
        }),
{
    let given = import_outcomes(loader.runtimes, loader.scope, active(tree), imports);
    let started = after_import(first_step(tree, context), given);
    let good = import_failures(given).len() == 0;
    if good {
        good_imports_are_live(loader.runtimes, loader.scope, active(tree), imports);
    }
    stages_commit_or_keep(loader, started, outcomes, 0, tree, context, imported(given), good);
}

}
