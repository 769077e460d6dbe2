//! A loader whose plugins do as they are told: the driver of the loader part
//! of the conformance catalog.

use vstd::prelude::*;
use vstd::string::*;

use crate::config::{
    expression_free, has_script_key, plain_configuration_is_unchanged, ScopeModel,
};
use crate::context::ContextModel;
use crate::error::{LoaderError, LoaderFailure};
use crate::json::{lookup, Json, JsonValue};
use crate::loader::{
    acted_on, after_import, after_stage, failed, failed_disposals, failures_are_found, first_step,
    import_failures, import_list, import_outcomes, imported, in_entry, live_list, outcome_list, prepared, rank,
    rolled_back_event, undone, Import, ImportModel, LiveEntry, LiveModel, Loader, LoaderModel, Progress, ProgressModel,
    Replacement, ReplacementModel, Stage,
};
use crate::fixture::{bare_event, TraceEventKind};
use crate::text::{blank, is_space, join2, same_text};
use crate::tree::{
    active, checked_entries, config_fault, enabled, entry_fault, entry_list, identifier_shape,
    member_fault, tree_fault, Entry, EntryId, EntryModel, EntryOptions, OptionsModel, RuntimeKind,
    TreeModel,
};

verus! {

/// An entry of the catalog.
pub open spec fn catalog_model(id: Seq<char>) -> EntryModel {
    EntryModel {
        package: "catalog/"@ + id,
        options: OptionsModel {
            id,
            name: Some("catalog."@ + id),
            runtime: RuntimeKind::Native,
            config: Json::Object(seq![("catalog"@, Json::String(id))]),
            inject: Seq::empty(),
            isolate: Seq::empty(),
            intercept: Json::Object(Seq::empty()),
            disabled: false,
            group: None,
        },
    }
}

/// Makes an entry of the catalog.
pub fn catalog_entry(id: &str) -> (result: Result<Entry, String>)
    ensures
        match result {
            Ok(entry) => identifier_shape(id@) && entry@ == catalog_model(id@),
            Err(_) => !identifier_shape(id@),
        },
{
    let entry_id = match EntryId::new(id.to_owned()) {
        Ok(id) => id,
        Err(error) => return Err(error.message()),
    };
    let members: Vec<crate::json::Member> = Vec::new();
    let intercept = JsonValue::Object(members);
    proof {
        crate::json::lemma_array_view(intercept);
        assert(crate::json::json_members(members@) =~= Seq::empty());
    }
    let options = EntryOptions {
        id: entry_id,
        name: Some(join2("catalog.", id)),
        runtime: RuntimeKind::Native,
        config: crate::catalog_services::single("catalog", crate::catalog_services::text(id)),
        inject: Vec::new(),
        isolate: Vec::new(),
        intercept,
        disabled: false,
        group: None,
    };
    assert(options@.inject =~= Seq::empty());
    assert(options@.isolate =~= Seq::empty());
    Ok(Entry { package: join2("catalog/", id), options })
}

/// An entry that is imported as it is: it needs no evaluation.
pub open spec fn ready(entry: EntryModel) -> bool {
    &&& entry_fault(entry) is None
    &&& entry.options.runtime == RuntimeKind::Native
    &&& !entry.options.disabled
    &&& expression_free(entry.options.config)
    &&& expression_free(entry.options.intercept)
}

proof fn ready_entries_are_unchanged(entry: EntryModel, scope: ScopeModel)
    requires
        ready(entry),
    ensures
        prepared(entry, scope) == Ok::<EntryModel, LoaderFailure>(entry),
{
    plain_configuration_is_unchanged(entry.options.config, scope);
    plain_configuration_is_unchanged(entry.options.intercept, scope);
}

/// A configuration with one plain member is valid and needs no evaluation.
pub proof fn plain_configurations_are_valid(key: Seq<char>, value: Json)
    requires
        key != "$expr"@,
        key != "$js"@,
        key != "!!js"@,
        !(value is Array || value is Object),
    ensures
        config_fault(Json::Object(seq![(key, value)])) is None,
        expression_free(Json::Object(seq![(key, value)])),
        config_fault(Json::Object(Seq::empty())) is None,
        expression_free(Json::Object(Seq::empty())),
{
    let config = seq![(key, value)];
    assert(config.drop_first() =~= Seq::empty());
    assert(lookup(config.drop_first(), "$expr"@) is None);
    assert(config[0].0 == key);
    assert(lookup(config, "$expr"@) is None);
    assert(!has_script_key(config));
    assert(config_fault(value) is None);
    assert(member_fault(config, 1) is None);
    assert(member_fault(config, 0) is None);
    assert(expression_free(value));
    assert forall|i: int| 0 <= i < config.len() implies expression_free(
        (#[trigger] config[i]).1,
    ) by {}
    let none = Seq::<(Seq<char>, Json)>::empty();
    assert(lookup(none, "$expr"@) is None);
    assert(!has_script_key(none));
}

/// Entries of the catalog are valid and need no evaluation, also with another
/// package or another plain configuration.
pub proof fn catalog_entries_are_ready(id: Seq<char>, package: Seq<char>, config: Json)
    requires
        identifier_shape(id),
        !blank(package),
        config_fault(config) is None,
        expression_free(config),
    ensures
        ready(catalog_model(id)),
        ready(
            EntryModel {
                package,
                options: OptionsModel { config, ..catalog_model(id).options },
            },
        ),
{
    let entry = catalog_model(id);
    reveal_strlit("catalog/");
    reveal_strlit("catalog.");
    reveal_strlit("catalog");
    reveal_strlit("$expr");
    reveal_strlit("$js");
    reveal_strlit("!!js");
    assert(!is_space('c')) by {
        assert('c' as u32 == 0x63);
    }
    assert(entry.package[0] == 'c');
    assert((entry.options.name->0)[0] == 'c');
    assert("catalog"@[0] == 'c' && "$expr"@[0] == '$' && "$js"@[0] == '$' && "!!js"@[0] == '!');
    plain_configurations_are_valid("catalog"@, Json::String(id));
}

/// What activating an entry gives: a failure for `broken`.
pub open spec fn activation_of(entry: EntryModel, broken: Seq<char>) -> Result<(), LoaderFailure> {
    if entry.options.id == broken {
        Err(LoaderFailure::Validation("activation failed for "@ + broken))
    } else {
        Ok(())
    }
}

/// What disposing an entry gives: a failure for `stuck`.
pub open spec fn disposal_of(entry: EntryModel, stuck: Seq<char>) -> Result<(), LoaderFailure> {
    if entry.options.id == stuck {
        Err(LoaderFailure::Validation("disposal failed for "@ + stuck))
    } else {
        Ok(())
    }
}

/// What a stage gives for the entries that it acts on.
pub open spec fn given_outcomes(
    stage: Stage,
    acted: Seq<LiveModel>,
    broken: Seq<char>,
    stuck: Seq<char>,
) -> Seq<Result<(), LoaderFailure>> {
    Seq::new(
        acted.len(),
        |i: int|
            if stage == Stage::Activate || stage == Stage::Restore {
                activation_of(acted[i].entry, broken)
            } else {
                disposal_of(acted[i].entry, stuck)
            },
    )
}

/// A transaction driven to its end.
pub open spec fn driven(
    loader: LoaderModel,
    replacement: ReplacementModel,
    broken: Seq<char>,
    stuck: Seq<char>,
) -> (LoaderModel, Result<(), LoaderFailure>)
    decreases 5 - rank(replacement.stage),
{
    let outcomes = given_outcomes(
        replacement.stage,
        acted_on(loader.live, replacement),
        broken,
        stuck,
    );
    let (after, progress) = after_stage(loader, replacement, outcomes);
    match progress {
        ProgressModel::Done(result) => (after, result),
        ProgressModel::Next(next) => if rank(replacement.stage) < rank(next.stage) <= 4 {
            driven(after, next, broken, stuck)
        } else {
            (after, Ok(()))
        },
    }
}

/// Every entry imported as it is, each with its place as its handle.
pub open spec fn imports_of(entries: Seq<EntryModel>) -> Seq<Result<LiveModel, LoaderFailure>> {
    Seq::new(
        entries.len(),
        |i: int|
            Ok::<LiveModel, LoaderFailure>(LiveModel { entry: entries[i], handle: i as u64 }),
    )
}

/// Every entry live, each with its place as its handle.
pub open spec fn live_of(entries: Seq<EntryModel>) -> Seq<LiveModel> {
    Seq::new(entries.len(), |i: int| LiveModel { entry: entries[i], handle: i as u64 })
}

proof fn imports_are_live(entries: Seq<EntryModel>)
    ensures
        imported(imports_of(entries)) == live_of(entries),
        import_failures(imports_of(entries)).len() == 0,
    decreases entries.len(),
{
    if entries.len() > 0 {
        let shorter = entries.drop_last();
        imports_are_live(shorter);
        assert(imports_of(entries).drop_last() =~= imports_of(shorter));
        assert(live_of(shorter).push(live_of(entries).last()) =~= live_of(entries));
    } else {
        assert(live_of(entries) =~= Seq::empty());
    }
}

/// What acting on live entries gives: a failure for the one that is told.
pub fn results_for(
    live: &Vec<LiveEntry>,
    reversed: bool,
    activation: bool,
    told: &str,
) -> (result: Vec<Result<(), LoaderError>>)
    ensures
        outcome_list(result@) == Seq::new(
            live@.len(),
            |i: int|
                {
                    let models = live_list(live@);
                    let entry = if reversed {
                        models.reverse()[i].entry
                    } else {
                        models[i].entry
                    };
                    if activation {
                        activation_of(entry, told@)
                    } else {
                        disposal_of(entry, told@)
                    }
                },
        ),
{
    let ghost models = live_list(live@);
    let mut result: Vec<Result<(), LoaderError>> = Vec::new();
    let mut i: usize = 0;
    while i < live.len()
        invariant
            i <= live@.len(),
            result@.len() == i,
            models == live_list(live@),
            forall|k: int|
                0 <= k < i ==> (match #[trigger] result@[k] {
                    Ok(()) => Ok::<(), LoaderFailure>(()),
                    Err(error) => Err::<(), LoaderFailure>(error@),
                }) == ({
                    let entry = if reversed {
                        models.reverse()[k].entry
                    } else {
                        models[k].entry
                    };
                    if activation {
                        activation_of(entry, told@)
                    } else {
                        disposal_of(entry, told@)
                    }
                }),
        decreases live@.len() - i,
    {
        let at = if reversed {
            live.len() - 1 - i
        } else {
            i
        };
        assert(models[at as int] == live@[at as int]@);
        let id = live[at].entry.options.id.as_str();
        let outcome = if !same_text(id, told) {
            Ok(())
        } else if activation {
            Err(LoaderError::Validation(join2("activation failed for ", told)))
        } else {
            Err(LoaderError::Validation(join2("disposal failed for ", told)))
        };
        result.push(outcome);
        i += 1;
    }
    assert(outcome_list(result@) =~= Seq::new(
        live@.len(),
        |i: int|
            {
                let entry = if reversed {
                    models.reverse()[i].entry
                } else {
                    models[i].entry
                };
                if activation {
                    activation_of(entry, told@)
                } else {
                    disposal_of(entry, told@)
                }
            },
    ));
    result
}

/// The outcome of a transaction.
pub open spec fn drive_outcome(result: Result<(), LoaderError>) -> Result<(), LoaderFailure> {
    match result {
        Ok(()) => Ok(()),
        Err(error) => Err(error@),
    }
}

/// Drives a transaction to its end: every entry is imported, `broken` fails
/// to activate, and `stuck` fails to be disposed.
pub fn drive(loader: &mut Loader, replacement: Replacement, broken: &str, stuck: &str) -> (result:
    Result<(), LoaderError>)
    requires
        old(loader).runtimes@.contains(RuntimeKind::Native),
        forall|i: int|
            0 <= i < active(replacement@.tree).len() ==> ready(
                #[trigger] active(replacement@.tree)[i],
            ),
    ensures
        final(loader).runtimes == old(loader).runtimes,
        (final(loader)@, drive_outcome(result)) == driven(
            old(loader)@,
            after_import(replacement@, imports_of(active(replacement@.tree))),
            broken@,
            stuck@,
        ),
{
    let ghost entries = active(replacement@.tree);
    let wanted = replacement.tree.active_entries();
    let mut imports: Vec<Import> = Vec::new();
    let mut i: usize = 0;
    while i < wanted.len()
        invariant
            i <= wanted@.len(),
            entries == entry_list(wanted@),
            imports@.len() == i,
            forall|k: int| 0 <= k < i ==> #[trigger] imports@[k] == Import::Live(k as u64),
        decreases wanted@.len() - i,
    {
        imports.push(Import::Live(i as u64));
        i += 1;
    }
    let ghost first = after_import(replacement@, imports_of(entries));
    proof {
        let given = import_outcomes(
            loader@.runtimes,
            loader@.scope,
            entries,
            import_list(imports@),
        );
        assert forall|k: int| 0 <= k < entries.len() implies #[trigger] given[k] == imports_of(
            entries,
        )[k] by {
            assert(ready(entries[k]));
            ready_entries_are_unchanged(entries[k], loader.config_scope@);
            assert(import_list(imports@)[k] == ImportModel::Live(k as u64));
        }
        assert(given =~= imports_of(entries));
    }
    let mut current = loader.imported(replacement, imports);
    let ghost whole = driven(loader@, first, broken@, stuck@);
    loop
        invariant
            loader.runtimes == old(loader).runtimes,
            current.stage != Stage::Import,
            whole == driven(loader@, current@, broken@, stuck@),
            whole == driven(old(loader)@, first, broken@, stuck@),
            first == after_import(replacement@, imports_of(active(replacement@.tree))),
        decreases 5 - rank(current.stage),
    {
        let ghost before = loader@;
        let ghost stage = current@;
        let results = match current.stage {
            Stage::Activate => results_for(&current.candidates, false, true, broken),
            Stage::Restore => results_for(&loader.live, false, true, broken),
            Stage::Retire => results_for(&loader.live, true, false, stuck),
            _ => results_for(&current.candidates, true, false, stuck),
        };
        proof {
            assert(outcome_list(results@) =~= given_outcomes(
                stage.stage,
                acted_on(before.live, stage),
                broken@,
                stuck@,
            ));
            assert(outcome_list(results@).len() == results@.len());
            crate::loader::transactions_end(
                before,
                stage,
                outcome_list(results@),
                imports_of(entries),
            );
        }
        match loader.settle(current, results) {
            Progress::Next(next) => {
                current = next;
            },
            Progress::Done(result) => {
                return result;
            },
        }
    }
}

/// Disposals that all succeed leave no failure.
pub proof fn calm_disposals(live: Seq<LiveModel>, outcomes: Seq<Result<(), LoaderFailure>>)
    requires
        forall|i: int| 0 <= i < outcomes.len() ==> (#[trigger] outcomes[i]) is Ok,
    ensures
        failed_disposals(live, outcomes).len() == 0,
    decreases outcomes.len(),
{
    if outcomes.len() > 0 {
        let shorter = outcomes.drop_last();
        assert forall|i: int| 0 <= i < shorter.len() implies (#[trigger] shorter[i]) is Ok by {
            assert(shorter[i] == outcomes[i]);
        }
        calm_disposals(live, shorter);
        assert(outcomes[outcomes.len() - 1] is Ok);
    }
}

/// A transaction in which nothing fails commits its tree.
pub proof fn calm_transactions_commit(
    loader: LoaderModel,
    tree: TreeModel,
    context: ContextModel,
    entries: Seq<EntryModel>,
    broken: Seq<char>,
    stuck: Seq<char>,
)
    requires
        forall|i: int| 0 <= i < entries.len() ==> (#[trigger] entries[i]).options.id != broken,
        forall|i: int|
            0 <= i < loader.live.len() ==> (#[trigger] loader.live[i]).entry.options.id != stuck,
    ensures
        driven(loader, after_import(first_step(tree, context), imports_of(entries)), broken, stuck) == (
            LoaderModel {
                tree,
                live: live_of(entries),
                context,
                trace: loader.trace.push(bare_event(TraceEventKind::ConfigCommitted)),
                ..loader
            },
            Ok::<(), LoaderFailure>(()),
        ),
{
    imports_are_live(entries);
    let started = after_import(first_step(tree, context), imports_of(entries));
    let activations = given_outcomes(Stage::Activate, started.candidates, broken, stuck);
    assert forall|i: int| 0 <= i < activations.len() implies (#[trigger] activations[i]) is Ok by {
        assert(entries[i].options.id != broken);
    }
    failures_are_found(activations);
    assert(failed(activations).len() == 0);
    let retiring = ReplacementModel {
        stage: Stage::Retire,
        failures: failed(activations),
        ..started
    };
    let disposals = given_outcomes(Stage::Retire, loader.live.reverse(), broken, stuck);
    assert forall|i: int| 0 <= i < disposals.len() implies (#[trigger] disposals[i]) is Ok by {
        assert(loader.live.reverse()[i] == loader.live[loader.live.len() - 1 - i]);
    }
    calm_disposals(loader.live, disposals);
    assert(acted_on(loader.live, started) == started.candidates);
    assert(acted_on(loader.live, retiring) == loader.live.reverse());
    assert(driven(loader, retiring, broken, stuck) == (
        LoaderModel {
            tree,
            live: live_of(entries),
            context,
            trace: loader.trace.push(bare_event(TraceEventKind::ConfigCommitted)),
            ..loader
        },
        Ok::<(), LoaderFailure>(()),
    ));
}

/// The failure of a transaction whose one candidate does not activate, and
/// perhaps cannot be disposed either.
pub open spec fn candidate_failure(entry: EntryModel, stuck: bool) -> LoaderFailure {
    let id = entry.options.id;
    LoaderFailure::Transaction {
        failure: Box::new(
            LoaderFailure::Aggregate(
                seq![LoaderFailure::Validation("activation failed for "@ + id)],
            ),
        ),
        rollback: if stuck {
            seq![
                in_entry(
                    LoaderFailure::Validation("disposal failed for "@ + id),
                    "dispose"@,
                    entry,
                ),
            ]
        } else {
            Seq::empty()
        },
    }
}

/// A transaction whose one candidate does not activate is undone.
pub proof fn broken_transactions_are_undone(
    loader: LoaderModel,
    tree: TreeModel,
    context: ContextModel,
    entry: EntryModel,
    stuck: Seq<char>,
)
    ensures
        ({
            let failure = candidate_failure(entry, entry.options.id == stuck);
            driven(
                loader,
                after_import(first_step(tree, context), imports_of(seq![entry])),
                entry.options.id,
                stuck,
            ) == (
                LoaderModel { trace: loader.trace.push(rolled_back_event(failure)), ..loader },
                Err::<(), LoaderFailure>(failure),
            )
        }),
{
    let broken = entry.options.id;
    let entries = seq![entry];
    imports_are_live(entries);
    let started = after_import(first_step(tree, context), imports_of(entries));
    let activations = given_outcomes(Stage::Activate, started.candidates, broken, stuck);
    let failure = LoaderFailure::Validation("activation failed for "@ + broken);
    assert(activations =~= seq![Err::<(), LoaderFailure>(failure)]);
    assert(activations.drop_last() =~= Seq::empty());
    reveal_with_fuel(failed, 2);
    assert(failed(activations) =~= seq![failure]);
    assert(acted_on(loader.live, started) == started.candidates);
    let undoing = ReplacementModel {
        stage: Stage::UndoActivation,
        failures: seq![failure],
        ..started
    };
    let backwards = started.candidates.reverse();
    assert(acted_on(loader.live, undoing) == backwards);
    let disposals = given_outcomes(Stage::UndoActivation, backwards, broken, stuck);
    assert(backwards =~= started.candidates);
    assert(disposals =~= seq![disposal_of(entry, stuck)]);
    assert(disposals.drop_last() =~= Seq::empty());
    reveal_with_fuel(failed_disposals, 2);
    let rollback = failed_disposals(started.candidates, disposals);
    let whole = candidate_failure(entry, broken == stuck);
    assert(rollback =~= whole->rollback);
    assert(after_stage(loader, started, activations).1 == ProgressModel::Next(undoing));
    assert(after_stage(loader, undoing, disposals) == undone(loader, seq![failure], rollback));
    assert(driven(loader, undoing, broken, stuck) == (
        LoaderModel { trace: loader.trace.push(rolled_back_event(whole)), ..loader },
        Err::<(), LoaderFailure>(whole),
    ));
}

/// Entries that are ready and have distinct names pass every rule on lists.
pub proof fn ready_lists_are_valid(entries: Seq<EntryModel>, from: int, ids: Seq<Seq<char>>)
    requires
        0 <= from <= entries.len(),
        forall|i: int| 0 <= i < entries.len() ==> ready(#[trigger] entries[i]),
        forall|i: int, j: int|
            0 <= i < j < entries.len() ==> (#[trigger] entries[i]).options.id != (
            #[trigger] entries[j]).options.id,
        ids.len() == from,
        forall|i: int| 0 <= i < from ==> ids[i] == (#[trigger] entries[i]).options.id,
    ensures
        checked_entries(entries, from, ids) is Ok,
    decreases entries.len() - from,
{
    if from < entries.len() {
        let id = entries[from].options.id;
        if ids.contains(id) {
            let k = choose|k: int| 0 <= k < ids.len() && ids[k] == id;
            assert(ids[k] == entries[k].options.id);
        }
        ready_lists_are_valid(entries, from + 1, ids.push(id));
    }
}

/// A flat tree of ready entries with distinct names is valid, and all of it is
/// active.
pub proof fn ready_trees_are_valid(tree: TreeModel)
    requires
        tree.groups.len() == 0,
        forall|i: int| 0 <= i < tree.entries.len() ==> ready(#[trigger] tree.entries[i]),
        forall|i: int, j: int|
            0 <= i < j < tree.entries.len() ==> (#[trigger] tree.entries[i]).options.id != (
            #[trigger] tree.entries[j]).options.id,
    ensures
        tree_fault(tree) is None,
        active(tree) == tree.entries,
{
    ready_lists_are_valid(tree.entries, 0, Seq::empty());
    ready_lists_are_enabled(tree.entries);
    assert(active(tree) =~= tree.entries);
}

proof fn ready_lists_are_enabled(entries: Seq<EntryModel>)
    requires
        forall|i: int| 0 <= i < entries.len() ==> ready(#[trigger] entries[i]),
    ensures
        enabled(entries, false) == entries,
    decreases entries.len(),
{
    if entries.len() > 0 {
        let shorter = entries.drop_last();
        assert forall|i: int| 0 <= i < shorter.len() implies ready(#[trigger] shorter[i]) by {
            assert(shorter[i] == entries[i]);
        }
        ready_lists_are_enabled(shorter);
        assert(ready(entries[entries.len() - 1]));
        assert(shorter.push(entries.last()) =~= entries);
    } else {
        assert(enabled(entries, false) =~= entries);
    }
}

}
