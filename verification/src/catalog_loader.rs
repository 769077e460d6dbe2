//! The loader part of the conformance catalog: scenarios that every
//! transaction has to pass.

use vstd::prelude::*;
use vstd::string::*;

use crate::catalog_drive::{
    broken_transactions_are_undone, calm_disposals, calm_transactions_commit, candidate_failure,
    catalog_entries_are_ready, catalog_entry, catalog_model, drive, drive_outcome, driven,
    imports_of, live_of, plain_configurations_are_valid, ready, ready_trees_are_valid,
    results_for,
};
use crate::catalog_emit::{events, events_run};
use crate::catalog_lifecycle::{lifecycle, lifecycle_run, run_outcome, verdict};
use crate::catalog_providers::{services, services_run};
use crate::catalog_services::{single, values_equal_themselves};
use crate::config::ConfigScope;
use crate::conformance::{case_ids, cases_of, Trace};
use crate::context::ContextHandle;
use crate::error::{LoaderError, LoaderFailure};
use crate::fixture::{
    bare_event, trace_list, Domain, Fixture, FixtureModel, TraceEvent, TraceEventKind, TraceModel,
};
use crate::json::{same_json, values_equal, Json, JsonValue, Number};
use crate::lifecycle::ScopeTree;
use crate::loader::{
    after_import, already_committed, first_step, outcome_list, rolled_back_event, Loader,
    LoaderModel,
};
use crate::patch::{
    accepted, found, inserted, patched, patched_all, place, place_from, with_config, Patch,
};
use crate::persist::tree_json;
use crate::registry::Registries;
use crate::text::{is_space, join2, join3, quoted, quoted_text, same_text, text_list};
use crate::tree::{
    active, active_groups, checked_entries, checked_group, checked_groups, enabled, entry_list,
    flat, group_list, identifier_shape, qualified, tree_fault, Entry, EntryGroup, EntryId,
    EntryModel, EntryTree, GroupModel, Names, RuntimeKind, TreeModel,
};

verus! {

/// The names that the catalog uses are identifiers.
proof fn catalog_names()
    ensures
        identifier_shape("consumer"@),
        identifier_shape("provider"@),
        identifier_shape("duplicate"@),
        identifier_shape("first"@),
        identifier_shape("second"@),
        identifier_shape("third"@),
        identifier_shape("config"@),
        identifier_shape("old"@),
        identifier_shape("replacement"@),
        identifier_shape("broken"@),
        identifier_shape("nested"@),
        identifier_shape("target"@),
        identifier_shape("inserted"@),
        identifier_shape("persisted"@),
        identifier_shape("root"@),
        identifier_shape("root.child"@),
{
    reveal_strlit("consumer");
    reveal_strlit("provider");
    reveal_strlit("duplicate");
    reveal_strlit("first");
    reveal_strlit("second");
    reveal_strlit("third");
    reveal_strlit("config");
    reveal_strlit("old");
    reveal_strlit("replacement");
    reveal_strlit("broken");
    reveal_strlit("nested");
    reveal_strlit("target");
    reveal_strlit("inserted");
    reveal_strlit("persisted");
    reveal_strlit("root");
    reveal_strlit("root.child");
}

/// An entry of the catalog as it comes is ready.
proof fn plain_entry(id: Seq<char>)
    requires
        identifier_shape(id),
    ensures
        ready(catalog_model(id)),
{
    reveal_strlit("x");
    reveal_strlit("$expr");
    reveal_strlit("$js");
    reveal_strlit("!!js");
    assert(!is_space('x')) by {
        assert('x' as u32 == 0x78);
    }
    assert("x"@[0] == 'x');
    plain_configurations_are_valid("x"@, Json::Null);
    catalog_entries_are_ready(id, "x"@, Json::Object(Seq::empty()));
}

/// A flat tree of catalog entries.
pub open spec fn catalog_tree_model(ids: Seq<Seq<char>>) -> TreeModel {
    TreeModel {
        entries: Seq::new(ids.len(), |i: int| catalog_model(ids[i])),
        groups: Seq::empty(),
    }
}

/// The texts of a list of names.
pub open spec fn names_of(ids: Seq<&'static str>) -> Seq<Seq<char>> {
    Seq::new(ids.len(), |i: int| ids[i]@)
}

/// Makes a flat tree of catalog entries.
fn catalog_tree(ids: &Vec<&'static str>) -> (result: Result<EntryTree, String>)
    ensures
        match result {
            Ok(tree) => tree@ == catalog_tree_model(names_of(ids@)),
            Err(_) => exists|i: int|
                0 <= i < ids@.len() && !identifier_shape((#[trigger] ids@[i])@),
        },
{
    let mut entries: Vec<Entry> = Vec::new();
    let mut i: usize = 0;
    while i < ids.len()
        invariant
            i <= ids@.len(),
            entries@.len() == i,
            forall|k: int| 0 <= k < i ==> (#[trigger] entries@[k])@ == catalog_model(ids@[k]@),
        decreases ids@.len() - i,
    {
        match catalog_entry(ids[i]) {
            Ok(entry) => entries.push(entry),
            Err(message) => {
                assert(!identifier_shape(ids@[i as int]@));
                return Err(message);
            },
        }
        i += 1;
    }
    let groups: Vec<EntryGroup> = Vec::new();
    let tree = EntryTree { entries, groups };
    assert(entry_list(entries@) =~= catalog_tree_model(names_of(ids@)).entries);
    assert(group_list(groups@) =~= Seq::empty());
    Ok(tree)
}

/// A loader with a native runtime and no tree.
fn catalog_loader() -> (result: Result<Loader, String>)
    ensures
        match result {
            Ok(loader) => {
                &&& loader.runtimes@.contains(RuntimeKind::Native)
                &&& loader@.live.len() == 0
                &&& loader@.trace == Seq::<TraceModel>::empty()
            },
            Err(_) => false,
        },
{
    let mut scopes = ScopeTree::new();
    let mut registries = Registries::new();
    let context = ContextHandle::root(&mut scopes, &mut registries);
    let mut runtimes: Vec<RuntimeKind> = Vec::new();
    runtimes.push(RuntimeKind::Native);
    assert(runtimes@[0] == RuntimeKind::Native);
    reveal_with_fuel(crate::loader::first_doubled, 2);
    match Loader::try_new(
        runtimes,
        context,
        ConfigScope::new("catalog".to_owned(), "catalog".to_owned()),
    ) {
        Ok(loader) => Ok(loader),
        Err(error) => Err(error.message()),
    }
}

/// What committing a tree makes of a loader.
pub open spec fn with_tree(loader: LoaderModel, tree: TreeModel) -> LoaderModel {
    LoaderModel {
        tree,
        live: live_of(active(tree)),
        trace: loader.trace.push(bare_event(TraceEventKind::ConfigCommitted)),
        ..loader
    }
}

/// Replaces the tree of a loader, driven to its end.
fn replace_all(loader: &mut Loader, tree: EntryTree, broken: &str, stuck: &str) -> (result: Result<
    (),
    LoaderError,
>)
    requires
        old(loader).runtimes@.contains(RuntimeKind::Native),
        forall|i: int|
            0 <= i < active(tree@).len() ==> ready(#[trigger] active(tree@)[i]),
    ensures
        final(loader).runtimes == old(loader).runtimes,
        match tree_fault(tree@) {
            Some(failure) => final(loader)@ == old(loader)@ && drive_outcome(result) == Err::<
                (),
                LoaderFailure,
            >(failure),
            None => (final(loader)@, drive_outcome(result)) == driven(
                old(loader)@,
                after_import(first_step(tree@, old(loader)@.context), imports_of(active(tree@))),
                broken@,
                stuck@,
            ),
        },
{
    let context = loader.context();
    match loader.replace(tree, context) {
        Ok(replacement) => drive(loader, replacement, broken, stuck),
        Err(error) => Err(error),
    }
}

/// Loads a tree of valid, ready entries with distinct names into a loader
/// that has none.
fn load_all(loader: &mut Loader, tree: EntryTree) -> (result: Result<(), String>)
    requires
        old(loader).runtimes@.contains(RuntimeKind::Native),
        old(loader)@.live.len() == 0,
        tree_fault(tree@) is None,
        forall|i: int|
            0 <= i < active(tree@).len() ==> ready(#[trigger] active(tree@)[i]),
    ensures
        final(loader).runtimes == old(loader).runtimes,
        final(loader)@ == with_tree(old(loader)@, tree@),
        result is Ok,
{
    let context = loader.context();
    let replacement = match loader.load(tree, context) {
        Ok(replacement) => replacement,
        Err(error) => return Err(error.message()),
    };
    proof {
        nobody_is_called_nothing(active(tree@));
        calm_transactions_commit(loader@, tree@, loader@.context, active(tree@), ""@, ""@);
    }
    match drive(loader, replacement, "", "") {
        Ok(()) => Ok(()),
        Err(error) => Err(error.message()),
    }
}

/// Ready entries have names.
proof fn nobody_is_called_nothing(entries: Seq<EntryModel>)
    requires
        forall|i: int| 0 <= i < entries.len() ==> ready(#[trigger] entries[i]),
    ensures
        forall|i: int| 0 <= i < entries.len() ==> (#[trigger] entries[i]).options.id != ""@,
{
    reveal_strlit("");
    assert forall|i: int| 0 <= i < entries.len() implies (#[trigger] entries[i]).options.id
        != ""@ by {
        assert(ready(entries[i]));
    }
}

/// Loads a flat tree of catalog entries with distinct names.
fn load_names(loader: &mut Loader, ids: Vec<&'static str>) -> (result: Result<(), String>)
    requires
        old(loader).runtimes@.contains(RuntimeKind::Native),
        old(loader)@.live.len() == 0,
        forall|i: int| 0 <= i < ids@.len() ==> identifier_shape((#[trigger] ids@[i])@),
        forall|i: int, j: int|
            0 <= i < j < ids@.len() ==> (#[trigger] ids@[i])@ != (#[trigger] ids@[j])@,
    ensures
        final(loader).runtimes == old(loader).runtimes,
        final(loader)@ == with_tree(old(loader)@, catalog_tree_model(names_of(ids@))),
        active(catalog_tree_model(names_of(ids@))) == catalog_tree_model(names_of(ids@)).entries,
        result is Ok,
{
    let tree = match catalog_tree(&ids) {
        Ok(tree) => tree,
        Err(message) => return Err(message),
    };
    proof {
        let names = names_of(ids@);
        let entries = tree@.entries;
        assert forall|i: int| 0 <= i < entries.len() implies ready(#[trigger] entries[i]) by {
            assert(entries[i] == catalog_model(ids@[i]@));
            plain_entry(ids@[i]@);
        }
        assert forall|i: int, j: int| 0 <= i < j < entries.len() implies (
        #[trigger] entries[i]).options.id != (#[trigger] entries[j]).options.id by {
            assert(ids@[i]@ != ids@[j]@);
        }
        ready_trees_are_valid(tree@);
    }
    load_all(loader, tree)
}

/// The first entry of the committed tree has this name.
fn first_is(loader: &Loader, id: &str) -> (result: bool)
    ensures
        result == (loader@.tree.entries.len() > 0 && loader@.tree.entries[0].options.id == id@),
{
    if loader.tree.entries.len() == 0 {
        return false;
    }
    assert(loader@.tree.entries[0] == loader.tree.entries@[0]@);
    same_text(loader.tree.entries[0].options.id.as_str(), id)
}

/// The first entry of the committed tree has this configuration.
fn first_holds(loader: &Loader, config: &JsonValue) -> (result: bool)
    ensures
        result == (loader@.tree.entries.len() > 0 && same_json(
            loader@.tree.entries[0].options.config,
            config@,
        )),
{
    if loader.tree.entries.len() == 0 {
        return false;
    }
    assert(loader@.tree.entries[0] == loader.tree.entries@[0]@);
    values_equal(&loader.tree.entries[0].options.config, config)
}

/// No live entry has this name.
pub open spec fn nobody_is(loader: LoaderModel, id: Seq<char>) -> bool {
    forall|i: int| 0 <= i < loader.live.len() ==> (#[trigger] loader.live[i]).entry.options.id != id
}

/// A scenario passes, with this trace, and all that is live can be disposed.
pub open spec fn scenario(
    before: Loader,
    result: Result<(), String>,
    after: Loader,
    events: Seq<TraceModel>,
) -> bool {
    &&& result is Ok
    &&& after@.trace == before@.trace + events
    &&& nobody_is(after@, ""@)
    &&& nobody_is(after@, "broken"@)
}

/// A loader that can be used for a scenario.
pub open spec fn fresh(loader: Loader) -> bool {
    loader.runtimes@.contains(RuntimeKind::Native) && loader@.live.len() == 0
}

/// The event of a committed tree.
pub open spec fn committed_event() -> TraceModel {
    bare_event(TraceEventKind::ConfigCommitted)
}

/// A consumer that comes before its provider becomes live.
fn takes_any_order(loader: &mut Loader) -> (result: Result<(), String>)
    requires
        fresh(*old(loader)),
    ensures
        scenario(*old(loader), result, *final(loader), seq![committed_event()]),
{
    let ids = vec!["consumer", "provider"];
    proof {
        catalog_names();
        reveal_strlit("consumer");
        reveal_strlit("provider");
        reveal_strlit("broken");
        reveal_strlit("");
        assert("consumer"@[0] == 'c' && "provider"@[0] == 'p' && "broken"@[0] == 'b');
    }
    if let Err(message) = load_names(loader, ids) {
        return Err(message);
    }
    proof {
        let entries = catalog_tree_model(names_of(ids@)).entries;
        assert(loader@.live[0].entry == catalog_model("consumer"@));
        assert(loader@.live[1].entry == catalog_model("provider"@));
        assert(loader@.live.len() == loader.live@.len());
        assert(loader@.live[0] == loader.live@[0]@);
        assert(loader@.trace =~= old(loader)@.trace + seq![committed_event()]);
    }
    if loader.live.len() == 0 || !same_text(
        loader.live[0].entry.options.id.as_str(),
        "consumer",
    ) {
        return Err("consumer did not activate after provider".to_owned());
    }
    Ok(())
}

fn unexpected(case: &str) -> (result: String)
    ensures
        result@ == "loader catalog case "@ + case@ + " unexpectedly succeeded"@,
{
    join3("loader catalog case ", case, " unexpectedly succeeded")
}

/// Two entries of one name are refused before anything happens. Gives the
/// refusal; a loader that has a tree already refuses any other.
fn refuses_duplicates(loader: &Loader) -> (result: Result<LoaderError, String>)
    ensures
        match result {
            Ok(refusal) => refusal@ == (if loader@.live.len() > 0 {
                already_committed()
            } else {
                LoaderFailure::Validation("duplicate entry id "@ + "duplicate"@)
            }),
            Err(_) => false,
        },
{
    let ids = vec!["duplicate", "duplicate"];
    proof {
        catalog_names();
    }
    let tree = match catalog_tree(&ids) {
        Ok(tree) => tree,
        Err(message) => return Err(message),
    };
    proof {
        let entries = tree@.entries;
        let name = "duplicate"@;
        plain_entry(name);
        assert(entries[0] == catalog_model(name) && entries[1] == catalog_model(name));
        reveal_with_fuel(checked_entries, 3);
        let seen = Seq::<Seq<char>>::empty().push(name);
        assert(seen[0] == name);
        assert(seen.contains(name));
        assert(!Seq::<Seq<char>>::empty().contains(name));
        assert(tree_fault(tree@) == Some(
            LoaderFailure::Validation("duplicate entry id "@ + name),
        ));
    }
    let context = loader.context();
    match loader.load(tree, context) {
        Ok(_) => Err(unexpected("duplicate-id")),
        Err(refusal) => Ok(refusal),
    }
}

/// Updates a loader by patches that make a valid tree of ready entries.
fn update_all(loader: &mut Loader, patches: &Vec<Patch>) -> (result: Result<(), String>)
    requires
        old(loader).runtimes@.contains(RuntimeKind::Native),
        nobody_is(old(loader)@, ""@),
        accepted(patched_all(old(loader)@.tree, patches@, 0)) is Ok,
        ({
            let tree = accepted(patched_all(old(loader)@.tree, patches@, 0))->Ok_0;
            forall|i: int| 0 <= i < active(tree).len() ==> ready(#[trigger] active(tree)[i])
        }),
    ensures
        final(loader).runtimes == old(loader).runtimes,
        final(loader)@ == with_tree(
            old(loader)@,
            accepted(patched_all(old(loader)@.tree, patches@, 0))->Ok_0,
        ),
        result is Ok,
{
    let context = loader.context();
    let replacement = match loader.update(patches.as_slice(), context) {
        Ok(replacement) => replacement,
        Err(error) => return Err(error.message()),
    };
    proof {
        let tree = accepted(patched_all(loader@.tree, patches@, 0))->Ok_0;
        nobody_is_called_nothing(active(tree));
        calm_transactions_commit(loader@, tree, loader@.context, active(tree), ""@, ""@);
    }
    match drive(loader, replacement, "", "") {
        Ok(()) => Ok(()),
        Err(error) => Err(error.message()),
    }
}

fn entry_id(id: &str) -> (result: Result<EntryId, String>)
    ensures
        match result {
            Ok(entry) => entry@ == id@,
            Err(_) => !identifier_shape(id@),
        },
{
    match EntryId::new(id.to_owned()) {
        Ok(id) => Ok(id),
        Err(error) => Err(error.message()),
    }
}

/// A patch of the configuration alone replaces it.
fn updates_config(loader: &mut Loader) -> (result: Result<(), String>)
    requires
        fresh(*old(loader)),
    ensures
        scenario(
            *old(loader),
            result,
            *final(loader),
            seq![committed_event(), committed_event()],
        ),
{
    let ids = vec!["config"];
    proof {
        catalog_names();
        reveal_strlit("");
        reveal_strlit("broken");
        reveal_strlit("config");
        assert("config"@[0] == 'c' && "broken"@[0] == 'b');
    }
    if let Err(message) = load_names(loader, ids) {
        return Err(message);
    }
    let id = match entry_id("config") {
        Ok(id) => id,
        Err(message) => return Err(message),
    };
    let config = single("revision", JsonValue::Number(Number::Unsigned(2)));
    let ghost revision = config@;
    let mut patches: Vec<Patch> = Vec::new();
    patches.push(Patch::UpdateConfig { id, config });
    let ghost before = loader@.tree;
    let ghost after = TreeModel {
        entries: seq![with_config(catalog_model("config"@), revision)],
        ..before
    };
    proof {
        let entry = catalog_model("config"@);
        assert(before.entries =~= seq![entry]);
        assert(loader@.live =~= live_of(seq![entry]));
        reveal_with_fuel(place_from, 2);
        assert(place(before.entries, "config"@) == Some(0int));
        assert(before.entries.update(0, with_config(entry, revision)) =~= after.entries);
        reveal_with_fuel(patched_all, 2);
        assert(patched_all(before, patches@, 0) == Ok::<TreeModel, LoaderFailure>(after));
        reveal_strlit("revision");
        reveal_strlit("$expr");
        reveal_strlit("$js");
        reveal_strlit("!!js");
        assert("revision"@[0] == 'r');
        plain_configurations_are_valid("revision"@, Json::Number(Number::Unsigned(2)));
        plain_entry("config"@);
        catalog_entries_are_ready("config"@, entry.package, revision);
        ready_trees_are_valid(after);
    }
    if let Err(message) = update_all(loader, &patches) {
        return Err(message);
    }
    let expected = single("revision", JsonValue::Number(Number::Unsigned(2)));
    proof {
        values_equal_themselves(expected@);
        assert(loader@.live =~= live_of(after.entries));
        assert(loader@.trace =~= old(loader)@.trace + seq![committed_event(), committed_event()]);
    }
    if !first_holds(loader, &expected) {
        return Err("config-only update was not committed".to_owned());
    }
    Ok(())
}

/// Patches apply in order, and a later one can address what an earlier one
/// put in.
fn patches_in_order(loader: &mut Loader) -> (result: Result<(), String>)
    requires
        fresh(*old(loader)),
    ensures
        scenario(
            *old(loader),
            result,
            *final(loader),
            seq![committed_event(), committed_event()],
        ),
{
    let ids = vec!["target"];
    proof {
        catalog_names();
        reveal_strlit("");
        reveal_strlit("broken");
        reveal_strlit("target");
        reveal_strlit("inserted");
        assert("target"@[0] == 't' && "broken"@[0] == 'b' && "inserted"@[0] == 'i');
    }
    if let Err(message) = load_names(loader, ids) {
        return Err(message);
    }
    let entry = match catalog_entry("inserted") {
        Ok(entry) => entry,
        Err(message) => return Err(message),
    };
    let before_id = match entry_id("target") {
        Ok(id) => id,
        Err(message) => return Err(message),
    };
    let id = match entry_id("inserted") {
        Ok(id) => id,
        Err(message) => return Err(message),
    };
    let config = single("patched", JsonValue::Bool(true));
    let ghost changed = config@;
    let mut patches: Vec<Patch> = Vec::new();
    patches.push(Patch::Insert { entry, before: Some(before_id) });
    patches.push(Patch::UpdateConfig { id, config });
    let ghost tree = loader@.tree;
    let ghost target = catalog_model("target"@);
    let ghost inserted_entry = catalog_model("inserted"@);
    let ghost longer = TreeModel { entries: seq![inserted_entry, target], ..tree };
    let ghost after = TreeModel {
        entries: seq![with_config(inserted_entry, changed), target],
        ..tree
    };
    proof {
        assert(tree.entries =~= seq![target]);
        assert(loader@.live =~= live_of(seq![target]));
        reveal_with_fuel(place_from, 2);
        assert(place(tree.entries, "target"@) == Some(0int));
        assert(tree.entries.insert(0, inserted_entry) =~= longer.entries);
        assert(patched(tree, patches@[0]) == Ok::<TreeModel, LoaderFailure>(longer));
        assert(place(longer.entries, "inserted"@) == Some(0int));
        assert(longer.entries.update(0, with_config(inserted_entry, changed)) =~= after.entries);
        assert(patched(longer, patches@[1]) == Ok::<TreeModel, LoaderFailure>(after));
        reveal_with_fuel(patched_all, 3);
        assert(patched_all(tree, patches@, 0) == Ok::<TreeModel, LoaderFailure>(after));
        reveal_strlit("patched");
        reveal_strlit("$expr");
        reveal_strlit("$js");
        reveal_strlit("!!js");
        assert("patched"@[0] == 'p');
        plain_configurations_are_valid("patched"@, Json::Bool(true));
        plain_entry("target"@);
        plain_entry("inserted"@);
        catalog_entries_are_ready("inserted"@, inserted_entry.package, changed);
        ready_trees_are_valid(after);
    }
    if let Err(message) = update_all(loader, &patches) {
        return Err(message);
    }
    let expected = single("patched", JsonValue::Bool(true));
    proof {
        values_equal_themselves(expected@);
        assert(loader@.live =~= live_of(after.entries));
        assert(loader@.trace =~= old(loader)@.trace + seq![committed_event(), committed_event()]);
    }
    if !first_holds(loader, &expected) {
        return Err("inserted entry was not targetable by a later patch".to_owned());
    }
    Ok(())
}

/// Entries are put in, replaced, moved and taken out.
#[verifier::rlimit(40)]
fn edits_the_tree(loader: &mut Loader) -> (result: Result<(), String>)
    requires
        fresh(*old(loader)),
    ensures
        scenario(
            *old(loader),
            result,
            *final(loader),
            seq![committed_event(), committed_event()],
        ),
{
    let ids = vec!["first", "second"];
    proof {
        catalog_names();
        reveal_strlit("");
        reveal_strlit("broken");
        reveal_strlit("first");
        reveal_strlit("second");
        reveal_strlit("third");
        assert("first"@[0] == 'f' && "second"@[0] == 's' && "third"@[0] == 't' && "broken"@[0]
            == 'b');
    }
    if let Err(message) = load_names(loader, ids) {
        return Err(message);
    }
    let (third, second) = match (catalog_entry("third"), catalog_entry("second")) {
        (Ok(third), Ok(second)) => (third, second),
        (Err(message), _) => return Err(message),
        (_, Err(message)) => return Err(message),
    };
    let replaced = Entry {
        package: "catalog/replaced-second".to_owned(),
        options: second.options,
    };
    let first_id = match entry_id("first") {
        Ok(id) => id,
        Err(message) => return Err(message),
    };
    let second_id = match entry_id("second") {
        Ok(id) => id,
        Err(message) => return Err(message),
    };
    let third_id = match entry_id("third") {
        Ok(id) => id,
        Err(message) => return Err(message),
    };
    let ghost a = catalog_model("first"@);
    let ghost b = catalog_model("second"@);
    let ghost c = catalog_model("third"@);
    let ghost d = replaced@;
    let mut patches: Vec<Patch> = Vec::new();
    patches.push(Patch::Insert { entry: third, before: Some(second_id.clone()) });
    patches.push(Patch::Update { id: second_id, entry: replaced });
    patches.push(Patch::Move { id: third_id, before: Some(first_id.clone()) });
    patches.push(Patch::Remove { id: first_id });
    let ghost tree = loader@.tree;
    let ghost after = TreeModel { entries: seq![c, d], ..tree };
    proof {
        assert(tree.entries =~= seq![a, b]);
        assert(loader@.live =~= live_of(seq![a, b]));
        four_patches(tree, patches@, a, b, c, d);
        reveal_strlit("catalog/replaced-second");
        reveal_strlit("catalog");
        reveal_strlit("$expr");
        reveal_strlit("$js");
        reveal_strlit("!!js");
        assert(!is_space('c')) by {
            assert('c' as u32 == 0x63);
        }
        assert("catalog/replaced-second"@[0] == 'c');
        assert("catalog"@[0] == 'c');
        plain_entry("third"@);
        plain_configurations_are_valid("catalog"@, Json::String("second"@));
        catalog_entries_are_ready("second"@, "catalog/replaced-second"@, b.options.config);
        ready_trees_are_valid(after);
    }
    if let Err(message) = update_all(loader, &patches) {
        return Err(message);
    }
    proof {
        assert(loader@.live =~= live_of(after.entries));
        assert(loader@.trace =~= old(loader)@.trace + seq![committed_event(), committed_event()]);
        assert(loader@.tree.entries.len() == loader.tree.entries@.len());
        assert(loader@.tree.entries[1] == loader.tree.entries@[1]@);
    }
    if loader.tree.entries.len() != 2 || !first_is(loader, "third") || !same_text(
        loader.tree.entries[1].options.id.as_str(),
        "second",
    ) {
        return Err("ordered loader patches produced the wrong tree".to_owned());
    }
    Ok(())
}

/// What inserting, replacing, moving and removing make of two entries.
proof fn four_patches(
    tree: TreeModel,
    patches: Seq<Patch>,
    a: EntryModel,
    b: EntryModel,
    c: EntryModel,
    d: EntryModel,
)
    requires
        tree.entries == seq![a, b],
        tree.groups.len() == 0,
        a.options.id != b.options.id,
        a.options.id != c.options.id,
        b.options.id != c.options.id,
        d.options.id == b.options.id,
        patches.len() == 4,
        patches[0] matches Patch::Insert { entry, before: Some(before) } && entry@ == c && before@
            == b.options.id,
        patches[1] matches Patch::Update { id, entry } && entry@ == d && id@ == b.options.id,
        patches[2] matches Patch::Move { id, before: Some(before) } && id@ == c.options.id
            && before@ == a.options.id,
        patches[3] matches Patch::Remove { id } && id@ == a.options.id,
    ensures
        patched_all(tree, patches, 0) == Ok::<TreeModel, LoaderFailure>(
            TreeModel { entries: seq![c, d], ..tree },
        ),
{
    reveal_with_fuel(place_from, 4);
    let one = TreeModel { entries: seq![a, c, b], ..tree };
    assert(place(tree.entries, b.options.id) == Some(1int));
    assert(tree.entries.insert(1, c) =~= one.entries);
    assert(patched(tree, patches[0]) == Ok::<TreeModel, LoaderFailure>(one));
    let two = TreeModel { entries: seq![a, c, d], ..tree };
    assert(place(one.entries, b.options.id) == Some(2int));
    assert(one.entries.update(2, d) =~= two.entries);
    assert(patched(one, patches[1]) == Ok::<TreeModel, LoaderFailure>(two));
    let gap = TreeModel { entries: seq![a, d], ..tree };
    let three = TreeModel { entries: seq![c, a, d], ..tree };
    assert(flat(two) =~= two.entries);
    assert(place(two.entries, c.options.id) == Some(1int));
    assert(found(two, c.options.id) == Some(c));
    assert(two.entries.remove(1) =~= gap.entries);
    assert(place(gap.entries, a.options.id) == Some(0int));
    assert(gap.entries.insert(0, c) =~= three.entries);
    assert(patched(two, patches[2]) == Ok::<TreeModel, LoaderFailure>(three));
    let four = TreeModel { entries: seq![c, d], ..tree };
    assert(place(three.entries, a.options.id) == Some(1int));
    assert(three.entries.remove(1) =~= four.entries);
    assert(patched(three, patches[3]) == Ok::<TreeModel, LoaderFailure>(four));
    assert(patched_all(four, patches, 4) == Ok::<TreeModel, LoaderFailure>(four));
    assert(patched_all(three, patches, 3) == Ok::<TreeModel, LoaderFailure>(four));
    assert(patched_all(two, patches, 2) == Ok::<TreeModel, LoaderFailure>(four));
    assert(patched_all(one, patches, 1) == Ok::<TreeModel, LoaderFailure>(four));
}

/// A candidate takes the place of what was there, or leaves it as it was when
/// it does not activate.
fn replaces_or_keeps(loader: &mut Loader, case: &str, broken: bool, stuck: bool) -> (result: Result<
    (),
    String,
>)
    requires
        fresh(*old(loader)),
        stuck ==> broken,
    ensures
        scenario(
            *old(loader),
            result,
            *final(loader),
            seq![
                committed_event(),
                if broken {
                    rolled_back_event(candidate_failure(catalog_model("broken"@), stuck))
                } else {
                    committed_event()
                },
            ],
        ),
{
    proof {
        catalog_names();
        reveal_strlit("");
        reveal_strlit("broken");
        reveal_strlit("old");
        reveal_strlit("replacement");
        assert("broken"@[0] == 'b' && "old"@[0] == 'o' && "replacement"@[0] == 'r');
    }
    let ids = vec!["old"];
    if let Err(message) = load_names(loader, ids) {
        return Err(message);
    }
    let name = if broken {
        "broken"
    } else {
        "replacement"
    };
    let candidates = vec![name];
    let tree = match catalog_tree(&candidates) {
        Ok(tree) => tree,
        Err(message) => return Err(message),
    };
    let ghost entry = catalog_model(name@);
    let ghost middle = loader@;
    proof {
        plain_entry(name@);
        assert(tree@.entries =~= seq![entry]);
        ready_trees_are_valid(tree@);
        assert(middle.live =~= live_of(seq![catalog_model("old"@)]));
        assert(middle.tree.entries =~= seq![catalog_model("old"@)]);
        if broken {
            broken_transactions_are_undone(middle, tree@, middle.context, entry, if stuck {
                "broken"@
            } else {
                ""@
            });
        } else {
            calm_transactions_commit(middle, tree@, middle.context, seq![entry], ""@, ""@);
        }
    }
    let failing = if broken {
        "broken"
    } else {
        ""
    };
    let holding = if stuck {
        "broken"
    } else {
        ""
    };
    let outcome = replace_all(loader, tree, failing, holding);
    proof {
        if broken {
            assert(loader@.trace =~= old(loader)@.trace + seq![
                committed_event(),
                rolled_back_event(candidate_failure(catalog_model("broken"@), stuck)),
            ]);
        } else {
            assert(loader@.live =~= live_of(seq![entry]));
            assert(loader@.trace =~= old(loader)@.trace + seq![
                committed_event(),
                committed_event(),
            ]);
        }
    }
    if !broken {
        if let Err(error) = outcome {
            return Err(error.message());
        }
        if !first_is(loader, "replacement") {
            return Err("plugin replacement did not commit".to_owned());
        }
        return Ok(());
    }
    match outcome {
        Ok(()) => return Err(unexpected(case)),
        Err(error) => {
            if stuck && error.rollback_errors().len() == 0 {
                return Err("rollback failure was not retained".to_owned());
            }
        },
    }
    if !first_is(loader, "old") {
        return Err("a failed candidate changed the last known-good tree".to_owned());
    }
    Ok(())
}

/// An entry in a group within a group becomes live.
fn keeps_nested_groups(loader: &mut Loader) -> (result: Result<(), String>)
    requires
        fresh(*old(loader)),
    ensures
        scenario(*old(loader), result, *final(loader), seq![committed_event()]),
{
    proof {
        catalog_names();
        reveal_strlit("");
        reveal_strlit("broken");
        reveal_strlit("nested");
        assert("broken"@[0] == 'b' && "nested"@[0] == 'n');
    }
    let entry = match catalog_entry("nested") {
        Ok(entry) => entry,
        Err(message) => return Err(message),
    };
    let ghost leaf = entry@;
    let mut entries: Vec<Entry> = Vec::new();
    entries.push(entry);
    let inner = EntryGroup {
        id: "root.child".to_owned(),
        entries,
        groups: Vec::new(),
        disabled: false,
    };
    let mut groups: Vec<EntryGroup> = Vec::new();
    groups.push(inner);
    let outer = EntryGroup {
        id: "root".to_owned(),
        entries: Vec::new(),
        groups,
        disabled: false,
    };
    let mut top: Vec<EntryGroup> = Vec::new();
    top.push(outer);
    let tree = EntryTree { entries: Vec::new(), groups: top };
    proof {
        crate::tree::lemma_group_view(inner);
        crate::tree::lemma_group_view(outer);
        let child = GroupModel {
            id: "root.child"@,
            entries: seq![leaf],
            groups: Seq::empty(),
            disabled: false,
        };
        let root = GroupModel {
            id: "root"@,
            entries: Seq::empty(),
            groups: seq![child],
            disabled: false,
        };
        assert(entry_list(inner.entries@) =~= seq![leaf]);
        assert(group_list(inner.groups@) =~= Seq::empty());
        assert(inner@ == child);
        assert(entry_list(outer.entries@) =~= Seq::empty());
        assert(group_list(outer.groups@) =~= seq![child]);
        assert(outer@ == root);
        assert(tree@.groups =~= seq![root]);
        assert(tree@.entries =~= Seq::empty());
        plain_entry("nested"@);
        one_nested_entry(tree@, root, child, leaf);
        assert(loader@.trace + seq![committed_event()] =~= loader@.trace.push(committed_event()));
        assert(live_of(active(tree@))[0].entry == leaf);
    }
    if let Err(message) = load_all(loader, tree) {
        return Err(message);
    }
    if loader.tree.active_entries().len() != 1 {
        return Err("nested group did not retain its entry".to_owned());
    }
    Ok(())
}

/// A tree with one entry in a group within a group is valid, and the entry is
/// active.
proof fn one_nested_entry(
    tree: TreeModel,
    root: GroupModel,
    child: GroupModel,
    leaf: EntryModel,
)
    requires
        tree.entries.len() == 0,
        tree.groups == seq![root],
        root.entries.len() == 0,
        root.groups == seq![child],
        !root.disabled,
        child.entries == seq![leaf],
        child.groups.len() == 0,
        !child.disabled,
        ready(leaf),
        root.id == "root"@,
        child.id == "root.child"@,
    ensures
        tree_fault(tree) is None,
        active(tree) == seq![leaf],
{
    catalog_names();
    reveal_strlit("root");
    reveal_strlit("root.child");
    reveal_strlit(".");
    let none = Seq::<Seq<char>>::empty();
    let start = Names { ids: none, groups: none };
    reveal_with_fuel(checked_entries, 2);
    assert(checked_entries(tree.entries, 0, none) == Ok::<Seq<Seq<char>>, LoaderFailure>(none));
    assert(checked_entries(root.entries, 0, none) == Ok::<Seq<Seq<char>>, LoaderFailure>(none));
    let prefix = "root"@ + "."@;
    assert("root.child"@.subrange(0, prefix.len() as int) =~= prefix);
    assert(qualified("root"@, "root.child"@) == "root.child"@);
    assert(qualified(none_text(), "root"@) == "root"@);
    let outer = Names { ids: none, groups: none.push("root"@) };
    assert(outer.groups[0] == "root"@);
    assert("root.child"@.len() != "root"@.len());
    assert(!outer.groups.contains("root.child"@));
    assert(!none.contains(leaf.options.id));
    let ids = none.push(leaf.options.id);
    assert(checked_entries(child.entries, 0, none) == Ok::<Seq<Seq<char>>, LoaderFailure>(ids));
    let inner = Names { ids, groups: outer.groups.push("root.child"@) };
    assert(checked_groups(child.groups, 0, "root.child"@, inner) == Ok::<Names, LoaderFailure>(
        inner,
    ));
    assert(checked_group(child, "root"@, outer) == Ok::<Names, LoaderFailure>(inner));
    assert(checked_groups(root.groups, 1, "root"@, inner) == Ok::<Names, LoaderFailure>(inner));
    assert(checked_groups(root.groups, 0, "root"@, outer) == Ok::<Names, LoaderFailure>(inner));
    assert(!none.contains("root"@));
    assert(checked_group(root, none_text(), start) == Ok::<Names, LoaderFailure>(inner));
    assert(checked_groups(tree.groups, 1, none_text(), inner) == Ok::<Names, LoaderFailure>(
        inner,
    ));
    assert(checked_groups(tree.groups, 0, none_text(), start) == Ok::<Names, LoaderFailure>(
        inner,
    ));
    assert(seq![leaf].drop_last() =~= Seq::empty());
    reveal_with_fuel(enabled, 2);
    assert(enabled(child.entries, false) =~= seq![leaf]);
    assert(active_groups(child.groups, 0, false) =~= Seq::empty());
    assert(active_groups(root.groups, 1, false) =~= Seq::empty());
    assert(active_groups(root.groups, 0, false) =~= seq![leaf]);
    assert(active_groups(tree.groups, 1, false) =~= Seq::empty());
    assert(active_groups(tree.groups, 0, false) =~= seq![leaf]);
    assert(active(tree) =~= seq![leaf]);
}

/// The empty text.
spec fn none_text() -> Seq<char> {
    Seq::empty()
}

/// The tree that the scenario of a written tree commits.
pub open spec fn written_tree() -> TreeModel {
    catalog_tree_model(seq!["persisted"@])
}

/// Builds the tree that the scenario of a written tree commits.
pub fn tree_to_write() -> (result: Result<EntryTree, String>)
    ensures
        match result {
            Ok(tree) => tree@ == written_tree(),
            Err(_) => false,
        },
{
    proof {
        catalog_names();
    }
    let ids = vec!["persisted"];
    assert(names_of(ids@) =~= seq!["persisted"@]);
    catalog_tree(&ids)
}

/// What was read back of the tree that was written, or why it could not be
/// written or read.
pub open spec fn restored_model(restored: Result<EntryTree, String>) -> Result<
    TreeModel,
    Seq<char>,
> {
    match restored {
        Ok(tree) => Ok(tree@),
        Err(message) => Err(message@),
    }
}

/// Why the scenario of a written tree fails: for what went wrong, or because
/// another tree came back.
pub open spec fn write_fault(restored: Result<TreeModel, Seq<char>>) -> Option<Seq<char>> {
    match restored {
        Err(message) => Some(message),
        Ok(tree) => if same_json(tree_json(tree), tree_json(written_tree())) {
            None
        } else {
            Some("atomic write did not persist the committed tree"@)
        },
    }
}

/// A committed tree is written and read back.
fn keeps_what_was_written(loader: &mut Loader, restored: &Result<EntryTree, String>) -> (result:
    Result<(), String>)
    requires
        fresh(*old(loader)),
    ensures
        match write_fault(restored_model(*restored)) {
            None => scenario(*old(loader), result, *final(loader), seq![committed_event()]),
            Some(message) => result is Err && result->Err_0@ == message,
        },
{
    proof {
        catalog_names();
        reveal_strlit("");
        reveal_strlit("broken");
        reveal_strlit("persisted");
        assert("broken"@[0] == 'b' && "persisted"@[0] == 'p');
    }
    let ids = vec!["persisted"];
    assert(names_of(ids@) =~= seq!["persisted"@]);
    if let Err(message) = load_names(loader, ids) {
        return Err(message);
    }
    proof {
        assert(loader@.live[0].entry == catalog_model("persisted"@));
        assert(loader@.trace =~= old(loader)@.trace + seq![committed_event()]);
    }
    match restored {
        Err(message) => Err(message.clone()),
        Ok(tree) => if values_equal(&tree.document(), &loader.tree.document()) {
            Ok(())
        } else {
            Err("atomic write did not persist the committed tree".to_owned())
        },
    }
}

/// Disposes all that is live, last first, when nothing live has the name of
/// the one that cannot be disposed.
fn unload_all(loader: &mut Loader, stuck: &str) -> (result: Result<(), String>)
    requires
        nobody_is(old(loader)@, stuck@),
    ensures
        result is Ok,
        final(loader)@.trace == old(loader)@.trace,
        final(loader)@.live.len() == 0,
{
    let results = results_for(&loader.live, true, false, stuck);
    proof {
        let outcomes = outcome_list(results@);
        assert(outcomes.len() == results@.len());
        assert forall|i: int| 0 <= i < outcomes.len() implies (#[trigger] outcomes[i]) is Ok by {
            let live = loader@.live;
            assert(live.reverse()[i] == live[live.len() - 1 - i]);
            assert(live[live.len() - 1 - i].entry.options.id != stuck@);
        }
        calm_disposals(loader@.live, outcomes);
    }
    match loader.unload(&results) {
        Ok(()) => Ok(()),
        Err(error) => Err(error.message()),
    }
}

/// The loader scenarios.
pub open spec fn is_loader_case(id: Seq<char>) -> bool {
    id == "unordered-dependencies"@ || id == "duplicate-id"@ || id == "add-update-remove-move"@
        || id == "config-only-update"@ || id == "plugin-replacement"@ || id
        == "candidate-failure"@ || id == "rollback-failure"@ || id == "nested-group"@ || id
        == "patch-insertion-later-targeting"@ || id == "atomic-write"@
}

/// The trace that a loader scenario leaves.
pub open spec fn loader_events(id: Seq<char>) -> Seq<TraceModel> {
    if id == "duplicate-id"@ {
        Seq::empty()
    } else if id == "unordered-dependencies"@ || id == "nested-group"@ || id == "atomic-write"@ {
        seq![committed_event()]
    } else if id == "candidate-failure"@ {
        seq![
            committed_event(),
            rolled_back_event(candidate_failure(catalog_model("broken"@), false)),
        ]
    } else if id == "rollback-failure"@ {
        seq![
            committed_event(),
            rolled_back_event(candidate_failure(catalog_model("broken"@), true)),
        ]
    } else {
        seq![committed_event(), committed_event()]
    }
}

/// Runs a loader scenario, and adds its trace. All of them pass, if the tree
/// that was written comes back when it is read; `restored` is what came back.
pub fn loader_case(id: &str, restored: &Result<EntryTree, String>, trace: &mut Trace) -> (result:
    Result<(), String>)
    ensures
        match result {
            Ok(()) => {
                &&& is_loader_case(id@)
                &&& id@ == "atomic-write"@ ==> write_fault(restored_model(*restored)) is None
                &&& final(trace)@ == old(trace)@ + loader_events(id@)
            },
            Err(message) => {
                &&& final(trace)@ == old(trace)@
                &&& if id@ == "atomic-write"@ {
                    write_fault(restored_model(*restored)) == Some(message@)
                } else {
                    !is_loader_case(id@) && message@ == "unsupported loader catalog case "@
                        + quoted_text(id@)
                }
            },
        },
{
    let mut loader = match catalog_loader() {
        Ok(loader) => loader,
        Err(message) => return Err(message),
    };
    let ghost start = loader;
    proof {
        distinct_case_names();
    }
    let outcome = if same_text(id, "unordered-dependencies") {
        takes_any_order(&mut loader)
    } else if same_text(id, "duplicate-id") {
        assert(loader@.trace + Seq::<TraceModel>::empty() =~= loader@.trace);
        verdict(refuses_duplicates(&loader))
    } else if same_text(id, "add-update-remove-move") {
        edits_the_tree(&mut loader)
    } else if same_text(id, "config-only-update") {
        updates_config(&mut loader)
    } else if same_text(id, "plugin-replacement") {
        replaces_or_keeps(&mut loader, id, false, false)
    } else if same_text(id, "candidate-failure") {
        replaces_or_keeps(&mut loader, id, true, false)
    } else if same_text(id, "rollback-failure") {
        replaces_or_keeps(&mut loader, id, true, true)
    } else if same_text(id, "nested-group") {
        keeps_nested_groups(&mut loader)
    } else if same_text(id, "patch-insertion-later-targeting") {
        patches_in_order(&mut loader)
    } else if same_text(id, "atomic-write") {
        keeps_what_was_written(&mut loader, restored)
    } else {
        return Err(join2("unsupported loader catalog case ", quoted(id).as_str()));
    };
    if let Err(message) = outcome {
        return Err(message);
    }
    assert(scenario(start, outcome, loader, loader_events(id@)));
    let ghost told = loader@.trace;
    let ghost before = trace@;
    let mut i: usize = 0;
    assert(before + told.subrange(0, 0) =~= before);
    while i < loader.trace.len()
        invariant
            i <= loader.trace@.len(),
            told == trace_list(loader.trace@),
            trace@ == before + told.subrange(0, i as int),
        decreases loader.trace@.len() - i,
    {
        assert(told[i as int] == loader.trace@[i as int]@);
        trace.add(loader.trace[i].clone());
        assert(trace@ =~= before + told.subrange(0, i + 1));
        i += 1;
    }
    assert(told.subrange(0, told.len() as int) =~= told);
    assert(start@.trace + loader_events(id@) =~= loader_events(id@));
    let stuck = if same_text(id, "rollback-failure") {
        "broken"
    } else {
        ""
    };
    match unload_all(&mut loader, stuck) {
        Ok(()) => Ok(()),
        Err(message) => Err(message),
    }
}

/// The scenarios differ in the length or the first letter of their names.
proof fn distinct_case_names()
    ensures
        "unordered-dependencies"@.len() == 22 && "unordered-dependencies"@[0] == 'u',
        "duplicate-id"@.len() == 12 && "duplicate-id"@[0] == 'd',
        "add-update-remove-move"@.len() == 22 && "add-update-remove-move"@[0] == 'a',
        "config-only-update"@.len() == 18 && "config-only-update"@[0] == 'c',
        "plugin-replacement"@.len() == 18 && "plugin-replacement"@[0] == 'p',
        "candidate-failure"@.len() == 17 && "candidate-failure"@[0] == 'c',
        "rollback-failure"@.len() == 16 && "rollback-failure"@[0] == 'r',
        "nested-group"@.len() == 12 && "nested-group"@[0] == 'n',
        "patch-insertion-later-targeting"@.len() == 31 && "patch-insertion-later-targeting"@[0] == 'p',
        "atomic-write"@.len() == 12 && "atomic-write"@[0] == 'a',
{
    reveal_strlit("unordered-dependencies");
    reveal_strlit("duplicate-id");
    reveal_strlit("add-update-remove-move");
    reveal_strlit("config-only-update");
    reveal_strlit("plugin-replacement");
    reveal_strlit("candidate-failure");
    reveal_strlit("rollback-failure");
    reveal_strlit("nested-group");
    reveal_strlit("patch-insertion-later-targeting");
    reveal_strlit("atomic-write");
}

/// The first of `ids[from..]` that does not pass.
pub open spec fn stray_loader_case(
    ids: Seq<Seq<char>>,
    from: int,
    fault: Option<Seq<char>>,
) -> Option<Seq<char>>
    decreases ids.len() - from,
{
    if from < 0 || from >= ids.len() {
        None
    } else if !is_loader_case(ids[from]) || (ids[from] == "atomic-write"@ && fault is Some) {
        Some(ids[from])
    } else {
        stray_loader_case(ids, from + 1, fault)
    }
}

/// The traces of the first `count` scenarios.
pub open spec fn loader_traces(ids: Seq<Seq<char>>, count: int) -> Seq<TraceModel>
    decreases count,
{
    if count <= 0 || count > ids.len() {
        Seq::empty()
    } else {
        loader_traces(ids, count - 1) + loader_events(ids[count - 1])
    }
}

/// What a loader fixture gives: the traces of its scenarios, one after the
/// other.
pub open spec fn loader_run(input: Option<Json>, fault: Option<Seq<char>>) -> Result<
    Seq<TraceModel>,
    Seq<char>,
> {
    match cases_of(input) {
        Err(message) => Err(message),
        Ok(ids) => match stray_loader_case(ids, 0, fault) {
            Some(id) => Err(
                "loader catalog case "@ + id + ": "@ + (if id == "atomic-write"@ {
                    fault->0
                } else {
                    "unsupported loader catalog case "@ + quoted_text(id)
                }),
            ),
            None => Ok(loader_traces(ids, ids.len() as int)),
        },
    }
}

/// Runs a loader fixture.
pub fn loader(fixture: &Fixture, restored: &Result<EntryTree, String>) -> (result: Result<
    Vec<TraceEvent>,
    String,
>)
    ensures
        run_outcome(result) == loader_run(
            fixture@.input,
            write_fault(restored_model(*restored)),
        ),
{
    let ghost fault = write_fault(restored_model(*restored));
    let ids = match case_ids(fixture) {
        Ok(ids) => ids,
        Err(message) => return Err(message),
    };
    let ghost model = text_list(ids@);
    let mut trace = Trace::new();
    let mut i: usize = 0;
    while i < ids.len()
        invariant
            i <= ids@.len(),
            model == text_list(ids@),
            cases_of(fixture@.input) == Ok::<Seq<Seq<char>>, Seq<char>>(model),
            fault == write_fault(restored_model(*restored)),
            stray_loader_case(model, 0, fault) == stray_loader_case(model, i as int, fault),
            trace@ == loader_traces(model, i as int),
        decreases ids@.len() - i,
    {
        assert(model[i as int] == ids@[i as int]@);
        match loader_case(ids[i].as_str(), restored, &mut trace) {
            Ok(()) => {},
            Err(message) => {
                let mut text = join3("loader catalog case ", ids[i].as_str(), ": ");
                text.append(message.as_str());
                return Err(text);
            },
        }
        i += 1;
    }
    Ok(trace.events)
}

/// What running a fixture gives; nothing when no runner knows it.
pub open spec fn execution_of(fixture: FixtureModel, fault: Option<Seq<char>>) -> Option<
    Result<Seq<TraceModel>, Seq<char>>,
> {
    if fixture.domain == Domain::Lifecycle && fixture.scenario == "effect-dispose"@ {
        Some(lifecycle_run(fixture.input))
    } else if fixture.domain == Domain::Service && fixture.scenario == "isolate-realm"@ {
        Some(services_run(fixture.input))
    } else if fixture.domain == Domain::Event && fixture.scenario == "emit"@ {
        Some(events_run(fixture.input))
    } else if fixture.domain == Domain::Loader && fixture.scenario == "loader-catalog"@ {
        Some(loader_run(fixture.input, fault))
    } else {
        None
    }
}

/// Runs a fixture. `restored` is what came back of the tree that was written.
pub fn execute(fixture: &Fixture, restored: &Result<EntryTree, String>) -> (result: Option<
    Result<Vec<TraceEvent>, String>,
>)
    ensures
        (match result {
            Some(run) => Some(run_outcome(run)),
            None => None,
        }) == execution_of(fixture@, write_fault(restored_model(*restored))),
{
    let scenario_name = fixture.scenario.as_str();
    match fixture.domain {
        Domain::Lifecycle => if same_text(scenario_name, "effect-dispose") {
            Some(lifecycle(fixture))
        } else {
            None
        },
        Domain::Service => if same_text(scenario_name, "isolate-realm") {
            Some(services(fixture))
        } else {
            None
        },
        Domain::Event => if same_text(scenario_name, "emit") {
            Some(events(fixture))
        } else {
            None
        },
        Domain::Loader => if same_text(scenario_name, "loader-catalog") {
            Some(loader(fixture, restored))
        } else {
            None
        },
    }
}

}
