//! What the stages of a transaction do, and what becomes of failures in them.

use vstd::prelude::*;

use crate::combine::{failures_in, gathered, values_in};
use crate::config::{resolved, ScopeModel};
use crate::error::{CoreFailure, LoaderFailure};
use crate::json::Json;
use crate::loader::{
    acted_on, after_import, after_stage, failed, failed_disposals, failures_are_found,
    import_failures, import_outcome, imported, in_entry, prepared, ImportModel, LiveModel,
    LoaderModel, ProgressModel, ReplacementModel, Stage,
};
use crate::tree::{EntryModel, OptionsModel, RuntimeKind};

verus! {

/// The failure of an outcome, if it is one.
pub open spec fn complaint(outcome: Result<(), LoaderFailure>) -> Seq<LoaderFailure> {
    match outcome {
        Ok(()) => Seq::empty(),
        Err(failure) => seq![failure],
    }
}

proof fn flatten_of_push<T>(parts: Seq<Seq<T>>, last: Seq<T>)
    ensures
        parts.push(last).flatten() == parts.flatten() + last,
    decreases parts.len(),
{
    let whole = parts.push(last);
    if parts.len() == 0 {
        assert(whole.drop_first() =~= Seq::<Seq<T>>::empty());
        assert(whole.drop_first().flatten() =~= Seq::<T>::empty());
        assert(parts.flatten() =~= Seq::<T>::empty());
        assert(whole.flatten() =~= last);
    } else {
        flatten_of_push(parts.drop_first(), last);
        assert(whole.drop_first() =~= parts.drop_first().push(last));
        assert(whole.first() == parts.first());
        assert(parts.first() + (parts.drop_first().flatten() + last) =~= (parts.first()
            + parts.drop_first().flatten()) + last);
    }
}

/// The failures among outcomes are exactly those outcomes that failed, in
/// order.
pub proof fn failures_are_those_that_failed(outcomes: Seq<Result<(), LoaderFailure>>)
    ensures
        failed(outcomes) == Seq::new(outcomes.len(), |i: int| complaint(outcomes[i])).flatten(),
    decreases outcomes.len(),
{
    let parts = Seq::new(outcomes.len(), |i: int| complaint(outcomes[i]));
    if outcomes.len() > 0 {
        let shorter = outcomes.drop_last();
        failures_are_those_that_failed(shorter);
        let before = Seq::new(shorter.len(), |i: int| complaint(shorter[i]));
        assert(parts =~= before.push(complaint(outcomes.last())));
        flatten_of_push(before, complaint(outcomes.last()));
        assert(failed(outcomes) =~= failed(shorter) + complaint(outcomes.last()));
    } else {
        assert(parts.flatten() =~= Seq::empty());
    }
}

/// The first outcome of a disposal in reverse is that of the last entry, and so
/// on; each failure is told with its own entry, in the order of disposal.
pub proof fn disposals_are_told_with_their_entry(
    live: Seq<LiveModel>,
    outcomes: Seq<Result<(), LoaderFailure>>,
)
    requires
        outcomes.len() <= live.len(),
    ensures
        failed_disposals(live, outcomes) == Seq::new(
            outcomes.len(),
            |k: int|
                match outcomes[k] {
                    Ok(()) => Seq::<LoaderFailure>::empty(),
                    Err(failure) => seq![
                        in_entry(failure, "dispose"@, live[live.len() - 1 - k].entry),
                    ],
                },
        ).flatten(),
    decreases outcomes.len(),
{
    let parts = Seq::new(
        outcomes.len(),
        |k: int|
            match outcomes[k] {
                Ok(()) => Seq::<LoaderFailure>::empty(),
                Err(failure) => seq![in_entry(failure, "dispose"@, live[live.len() - 1 - k].entry)],
            },
    );
    if outcomes.len() > 0 {
        let shorter = outcomes.drop_last();
        disposals_are_told_with_their_entry(live, shorter);
        let before = Seq::new(
            shorter.len(),
            |k: int|
                match shorter[k] {
                    Ok(()) => Seq::<LoaderFailure>::empty(),
                    Err(failure) => seq![
                        in_entry(failure, "dispose"@, live[live.len() - 1 - k].entry),
                    ],
                },
        );
        assert(parts =~= before.push(parts.last()));
        flatten_of_push(before, parts.last());
        assert(failed_disposals(live, outcomes) =~= failed_disposals(live, shorter)
            + parts.last());
    } else {
        assert(parts.flatten() =~= Seq::empty());
    }
}

/// A stage acts on the candidates or on what is live, in order to activate and
/// backwards to dispose.
pub proof fn stages_activate_forwards_and_dispose_backwards(
    live: Seq<LiveModel>,
    replacement: ReplacementModel,
    k: int,
)
    ensures
        ({
            let acted = acted_on(live, replacement);
            let candidates = replacement.candidates;
            match replacement.stage {
                Stage::Import => acted.len() == 0,
                Stage::Activate => acted == candidates,
                Stage::Restore => acted == live,
                Stage::Retire => acted.len() == live.len() && (0 <= k < live.len() ==> acted[k]
                    == live[live.len() - 1 - k]),
                _ => acted.len() == candidates.len() && (0 <= k < candidates.len() ==> acted[k]
                    == candidates[candidates.len() - 1 - k]),
            }
        }),
{
}

/// Where a stage leads. Candidates that are all active let what was live be
/// retired, and when all of that is gone the transaction commits. Any failure
/// leads back: the candidates are disposed, and what was live is activated
/// again if its disposal failed.
pub proof fn stages_lead_on_only_without_failures(
    loader: LoaderModel,
    replacement: ReplacementModel,
    outcomes: Seq<Result<(), LoaderFailure>>,
)
    ensures
        ({
            let (after, progress) = after_stage(loader, replacement, outcomes);
            let well = forall|i: int| 0 <= i < outcomes.len() ==> (#[trigger] outcomes[i]) is Ok;
            match replacement.stage {
                Stage::Activate => progress matches ProgressModel::Next(next) && next.candidates
                    == replacement.candidates && (if well {
                    next.stage == Stage::Retire
                } else {
                    next.stage == Stage::UndoActivation && next.failures == failed(outcomes)
                }),
                Stage::Retire => outcomes.len() == loader.live.len() ==> if well {
                    progress == ProgressModel::Done(Ok(())) && after.live
                        == replacement.candidates
                } else {
                    progress matches ProgressModel::Next(next) && next.stage == Stage::Restore
                        && next.failures == failed_disposals(loader.live, outcomes)
                },
                Stage::Restore => progress matches ProgressModel::Next(next) && next.stage
                    == Stage::UndoRetirement && next.restored == failed(outcomes) && next.failures
                    == replacement.failures,
                Stage::UndoImport | Stage::UndoActivation => progress matches ProgressModel::Done(
                    Err(LoaderFailure::Transaction { failure, rollback }),
                ) && *failure == LoaderFailure::Aggregate(replacement.failures) && rollback
                    == failed_disposals(replacement.candidates, outcomes),
                Stage::UndoRetirement => progress matches ProgressModel::Done(
                    Err(LoaderFailure::Transaction { failure, rollback }),
                ) && *failure == LoaderFailure::Aggregate(replacement.failures) && rollback
                    == failed_disposals(replacement.candidates, outcomes) + replacement.restored,
                Stage::Import => after == loader,
            }
        }),
{
    failures_are_found(outcomes);
    if replacement.stage == Stage::Retire && outcomes.len() == loader.live.len() {
        calm_or_not(loader.live, outcomes);
    }
}

proof fn calm_or_not(live: Seq<LiveModel>, outcomes: Seq<Result<(), LoaderFailure>>)
    ensures
        failed_disposals(live, outcomes).len() == 0 <==> forall|i: int|
            0 <= i < outcomes.len() ==> (#[trigger] outcomes[i]) is Ok,
    decreases outcomes.len(),
{
    if outcomes.len() > 0 {
        let shorter = outcomes.drop_last();
        calm_or_not(live, shorter);
        assert(outcomes[outcomes.len() - 1] == outcomes.last());
        if forall|i: int| 0 <= i < shorter.len() ==> (#[trigger] shorter[i]) is Ok {
            assert forall|i: int| 0 <= i < outcomes.len() - 1 implies (#[trigger] outcomes[i])
                is Ok by {
                assert(shorter[i] is Ok);
            }
        }
        if forall|i: int| 0 <= i < outcomes.len() ==> (#[trigger] outcomes[i]) is Ok {
            assert forall|i: int| 0 <= i < shorter.len() implies (#[trigger] shorter[i]) is Ok by {
                assert(outcomes[i] is Ok);
            }
        }
    }
}

/// Imports lead to activation exactly if all of them gave a live entry, which
/// are then the candidates, in order.
pub proof fn imports_lead_on_only_without_failures(
    replacement: ReplacementModel,
    imports: Seq<Result<LiveModel, LoaderFailure>>,
)
    ensures
        ({
            let next = after_import(replacement, imports);
            let well = forall|i: int| 0 <= i < imports.len() ==> (#[trigger] imports[i]) is Ok;
            &&& next.stage == (if well {
                Stage::Activate
            } else {
                Stage::UndoImport
            })
            &&& next.candidates == Seq::new(
                imports.len(),
                |i: int|
                    match imports[i] {
                        Ok(live) => seq![live],
                        Err(_) => Seq::<LiveModel>::empty(),
                    },
            ).flatten()
            &&& next.failures == Seq::new(
                imports.len(),
                |i: int|
                    match imports[i] {
                        Ok(_) => Seq::<LoaderFailure>::empty(),
                        Err(failure) => seq![failure],
                    },
            ).flatten()
            &&& next.tree == replacement.tree
            &&& next.context == replacement.context
        }),
    decreases imports.len(),
{
    let good = Seq::new(
        imports.len(),
        |i: int|
            match imports[i] {
                Ok(live) => seq![live],
                Err(_) => Seq::<LiveModel>::empty(),
            },
    );
    let bad = Seq::new(
        imports.len(),
        |i: int|
            match imports[i] {
                Ok(_) => Seq::<LoaderFailure>::empty(),
                Err(failure) => seq![failure],
            },
    );
    if imports.len() > 0 {
        let shorter = imports.drop_last();
        imports_lead_on_only_without_failures(replacement, shorter);
        let some = Seq::new(
            shorter.len(),
            |i: int|
                match shorter[i] {
                    Ok(live) => seq![live],
                    Err(_) => Seq::<LiveModel>::empty(),
                },
        );
        let others = Seq::new(
            shorter.len(),
            |i: int|
                match shorter[i] {
                    Ok(_) => Seq::<LoaderFailure>::empty(),
                    Err(failure) => seq![failure],
                },
        );
        assert(good =~= some.push(good.last()));
        assert(bad =~= others.push(bad.last()));
        flatten_of_push(some, good.last());
        flatten_of_push(others, bad.last());
        assert(imported(imports) =~= imported(shorter) + good.last());
        assert(import_failures(imports) =~= import_failures(shorter) + bad.last());
        assert(imports[imports.len() - 1] == imports.last());
        if forall|i: int| 0 <= i < shorter.len() ==> (#[trigger] shorter[i]) is Ok {
            assert forall|i: int| 0 <= i < imports.len() - 1 implies (#[trigger] imports[i])
                is Ok by {
                assert(shorter[i] is Ok);
            }
        }
        if forall|i: int| 0 <= i < imports.len() ==> (#[trigger] imports[i]) is Ok {
            assert forall|i: int| 0 <= i < shorter.len() implies (#[trigger] shorter[i]) is Ok by {
                assert(imports[i] is Ok);
            }
        }
    } else {
        assert(good.flatten() =~= Seq::empty());
        assert(bad.flatten() =~= Seq::empty());
    }
}

/// An entry is imported with its configuration and its intercepts resolved and
/// everything else as it is, exactly if both resolve.
pub proof fn prepared_entries_differ_in_resolved_parts(entry: EntryModel, scope: ScopeModel)
    ensures
        prepared(entry, scope) is Ok <==> resolved(entry.options.config, scope) is Ok && resolved(
            entry.options.intercept,
            scope,
        ) is Ok,
        prepared(entry, scope) matches Ok(ready) ==> resolved(entry.options.config, scope) == Ok::<
            Json,
            Seq<char>,
        >(ready.options.config) && resolved(entry.options.intercept, scope) == Ok::<
            Json,
            Seq<char>,
        >(ready.options.intercept) && ready == (EntryModel {
            options: OptionsModel {
                config: ready.options.config,
                intercept: ready.options.intercept,
                ..entry.options
            },
            ..entry
        }),
        prepared(entry, scope) matches Err(failure) ==> (failure matches LoaderFailure::Runtime {
            stage,
            entry: id,
            ..
        } && stage == "import"@ && id == entry.options.id),
{
}

/// An import gives a live entry exactly if the entry can be prepared, a runtime
/// of its kind is registered, and the import came back with a handle; it is
/// live under that handle, as it was prepared.
pub proof fn imports_give_prepared_entries(
    runtimes: Seq<RuntimeKind>,
    scope: ScopeModel,
    entry: EntryModel,
    import: ImportModel,
)
    ensures
        import_outcome(runtimes, scope, entry, import) is Ok <==> prepared(entry, scope) is Ok
            && runtimes.contains(entry.options.runtime) && import is Live,
        import_outcome(runtimes, scope, entry, import) matches Ok(live) ==> prepared(entry, scope)
            == Ok::<EntryModel, LoaderFailure>(live.entry) && import == ImportModel::Live(
            live.handle,
        ),
        import_outcome(runtimes, scope, entry, import) matches Err(failure) ==> (failure
            matches LoaderFailure::Runtime { stage, entry: id, .. } && stage == "import"@ && id
            == entry.options.id),
{
    prepared_entries_differ_in_resolved_parts(entry, scope);
}

/// What listeners that were called all at once answered is gathered in order:
/// the values if all gave one, and else every failure.
pub proof fn answers_are_gathered_in_order(answers: Seq<Result<Json, CoreFailure>>)
    ensures
        values_in(answers) == Seq::new(
            answers.len(),
            |i: int|
                match answers[i] {
                    Ok(value) => seq![value],
                    Err(_) => Seq::<Json>::empty(),
                },
        ).flatten(),
        failures_in(answers) == Seq::new(
            answers.len(),
            |i: int|
                match answers[i] {
                    Ok(_) => Seq::<CoreFailure>::empty(),
                    Err(failure) => seq![failure],
                },
        ).flatten(),
        gathered(answers) == (if failures_in(answers).len() == 0 {
            Ok::<Seq<Json>, CoreFailure>(values_in(answers))
        } else {
            Err::<Seq<Json>, CoreFailure>(CoreFailure::Cleanup(failures_in(answers)))
        }),
    decreases answers.len(),
{
    let good = Seq::new(
        answers.len(),
        |i: int|
            match answers[i] {
                Ok(value) => seq![value],
                Err(_) => Seq::<Json>::empty(),
            },
    );
    let bad = Seq::new(
        answers.len(),
        |i: int|
            match answers[i] {
                Ok(_) => Seq::<CoreFailure>::empty(),
                Err(failure) => seq![failure],
            },
    );
    if answers.len() > 0 {
        let shorter = answers.drop_last();
        answers_are_gathered_in_order(shorter);
        let some = Seq::new(
            shorter.len(),
            |i: int|
                match shorter[i] {
                    Ok(value) => seq![value],
                    Err(_) => Seq::<Json>::empty(),
                },
        );
        let others = Seq::new(
            shorter.len(),
            |i: int|
                match shorter[i] {
                    Ok(_) => Seq::<CoreFailure>::empty(),
                    Err(failure) => seq![failure],
                },
        );
        assert(good =~= some.push(good.last()));
        assert(bad =~= others.push(bad.last()));
        flatten_of_push(some, good.last());
        flatten_of_push(others, bad.last());
        assert(values_in(answers) =~= values_in(shorter) + good.last());
        assert(failures_in(answers) =~= failures_in(shorter) + bad.last());
    } else {
        assert(good.flatten() =~= Seq::empty());
        assert(bad.flatten() =~= Seq::empty());
    }
}

}
