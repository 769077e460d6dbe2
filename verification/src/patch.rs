//! Changes to a detached entry tree.

use vstd::prelude::*;
use vstd::string::*;

use crate::error::{LoaderError, LoaderFailure};
use crate::json::{Json, JsonValue};
use crate::text::join2;
use crate::tree::{
    borrowed_list, entry_list, flat, flat_groups, group_list, lemma_group_view, tree_fault, Entry,
    EntryGroup, EntryId, EntryModel, EntryTree, GroupModel, OptionsModel, TreeModel,
};

verus! {

/// A change applied to a detached entry tree.
#[derive(Debug, PartialEq)]
pub enum Patch {
    Insert { entry: Entry, before: Option<EntryId> },
    Update { id: EntryId, entry: Entry },
    UpdateConfig { id: EntryId, config: JsonValue },
    Remove { id: EntryId },
    Move { id: EntryId, before: Option<EntryId> },
}

/// What is done at the place of one entry.
enum Edit {
    Replace(Entry),
    Configure(JsonValue),
    Remove,
    Precede(Entry),
}

/// The model of an edit.
#[verifier::ext_equal]
pub enum EditModel {
    Replace(EntryModel),
    Configure(Json),
    Remove,
    Precede(EntryModel),
}

impl View for Edit {
    type V = EditModel;

    closed spec fn view(&self) -> EditModel {
        match self {
            Edit::Replace(entry) => EditModel::Replace(entry@),
            Edit::Configure(config) => EditModel::Configure(config@),
            Edit::Remove => EditModel::Remove,
            Edit::Precede(entry) => EditModel::Precede(entry@),
        }
    }
}

/// The first place at or after `from` of the entry named `id`.
pub open spec fn place_from(entries: Seq<EntryModel>, id: Seq<char>, from: int) -> Option<int>
    decreases entries.len() - from,
{
    if from < 0 || from >= entries.len() {
        None
    } else if entries[from].options.id == id {
        Some(from)
    } else {
        place_from(entries, id, from + 1)
    }
}

/// The first place of the entry named `id`.
pub open spec fn place(entries: Seq<EntryModel>, id: Seq<char>) -> Option<int> {
    place_from(entries, id, 0)
}

/// The entry with another configuration.
pub open spec fn with_config(entry: EntryModel, config: Json) -> EntryModel {
    EntryModel { options: OptionsModel { config, ..entry.options }, ..entry }
}

/// A list of entries after an edit at `at`.
pub open spec fn edited_list(entries: Seq<EntryModel>, at: int, edit: EditModel) -> Seq<
    EntryModel,
> {
    match edit {
        EditModel::Replace(entry) => entries.update(at, entry),
        EditModel::Configure(config) => entries.update(at, with_config(entries[at], config)),
        EditModel::Remove => entries.remove(at),
        EditModel::Precede(entry) => entries.insert(at, entry),
    }
}

/// Groups after an edit at the first entry named `id` in `groups[from..]`;
/// nothing when there is none.
pub open spec fn edited_groups(
    groups: Seq<GroupModel>,
    from: int,
    id: Seq<char>,
    edit: EditModel,
) -> Option<Seq<GroupModel>>
    decreases groups, groups.len() - from,
{
    if from < 0 || from >= groups.len() {
        None
    } else {
        let group = groups[from];
        match place(group.entries, id) {
            Some(at) => Some(
                groups.update(
                    from,
                    GroupModel { entries: edited_list(group.entries, at, edit), ..group },
                ),
            ),
            None => match edited_groups(group.groups, 0, id, edit) {
                Some(nested) => Some(groups.update(from, GroupModel { groups: nested, ..group })),
                None => edited_groups(groups, from + 1, id, edit),
            },
        }
    }
}

/// A tree after an edit at its first entry named `id`; nothing when it has
/// none.
pub open spec fn edited_tree(tree: TreeModel, id: Seq<char>, edit: EditModel) -> Option<
    TreeModel,
> {
    match place(tree.entries, id) {
        Some(at) => Some(TreeModel { entries: edited_list(tree.entries, at, edit), ..tree }),
        None => match edited_groups(tree.groups, 0, id, edit) {
            Some(groups) => Some(TreeModel { groups, ..tree }),
            None => None,
        },
    }
}

/// The first entry named `id` in tree order.
pub open spec fn found(tree: TreeModel, id: Seq<char>) -> Option<EntryModel> {
    match place(flat(tree), id) {
        Some(at) => Some(flat(tree)[at]),
        None => None,
    }
}

/// The outcome of an edit that must find its target.
pub open spec fn edited(tree: TreeModel, id: Seq<char>, edit: EditModel) -> Result<
    TreeModel,
    LoaderFailure,
> {
    match edited_tree(tree, id, edit) {
        Some(changed) => Ok(changed),
        None => Err(LoaderFailure::MissingEntry(id)),
    }
}

/// A tree after `entry` is put before another entry, or after all top-level
/// entries.
pub open spec fn inserted(tree: TreeModel, entry: EntryModel, before: Option<EntryId>) -> Result<
    TreeModel,
    LoaderFailure,
> {
    match before {
        None => Ok(TreeModel { entries: tree.entries.push(entry), ..tree }),
        Some(target) => edited(tree, target@, EditModel::Precede(entry)),
    }
}

/// A tree after one patch.
pub open spec fn patched(tree: TreeModel, patch: Patch) -> Result<TreeModel, LoaderFailure> {
    match patch {
        Patch::Insert { entry, before } => inserted(tree, entry@, before),
        Patch::Update { id, entry } => if entry@.options.id != id@ {
            Err(
                LoaderFailure::Patch(
                    "replacement id "@ + entry@.options.id + " does not match target "@ + id@,
                ),
            )
        } else {
            edited(tree, id@, EditModel::Replace(entry@))
        },
        Patch::UpdateConfig { id, config } => edited(tree, id@, EditModel::Configure(config@)),
        Patch::Remove { id } => edited(tree, id@, EditModel::Remove),
        Patch::Move { id, before } => if before is Some && before->Some_0@ == id@ {
            Err(LoaderFailure::Patch("an entry cannot precede itself"@))
        } else {
            match (found(tree, id@), edited(tree, id@, EditModel::Remove)) {
                (Some(entry), Ok(shorter)) => inserted(shorter, entry, before),
                _ => Err(LoaderFailure::MissingEntry(id@)),
            }
        },
    }
}

/// A tree after `patches[from..]`, in order, or the first failure.
pub open spec fn patched_all(tree: TreeModel, patches: Seq<Patch>, from: int) -> Result<
    TreeModel,
    LoaderFailure,
>
    decreases patches.len() - from,
{
    if from < 0 || from >= patches.len() {
        Ok(tree)
    } else {
        match patched(tree, patches[from]) {
            Err(failure) => Err(failure),
            Ok(next) => patched_all(next, patches, from + 1),
        }
    }
}

/// A candidate that passes every rule on trees, or why it does not.
pub open spec fn accepted(candidate: Result<TreeModel, LoaderFailure>) -> Result<
    TreeModel,
    LoaderFailure,
> {
    match candidate {
        Err(failure) => Err(failure),
        Ok(tree) => match tree_fault(tree) {
            Some(failure) => Err(failure),
            None => Ok(tree),
        },
    }
}

/// A tree, or the failure that took its place.
pub open spec fn tree_outcome(result: Result<EntryTree, LoaderError>) -> Result<
    TreeModel,
    LoaderFailure,
> {
    match result {
        Ok(tree) => Ok(tree@),
        Err(error) => Err(error@),
    }
}

fn find_place(entries: &Vec<Entry>, id: &EntryId) -> (result: Option<usize>)
    ensures
        match result {
            Some(at) => at < entries@.len() && place(entry_list(entries@), id@) == Some(at as int),
            None => place(entry_list(entries@), id@) is None,
        },
{
    let ghost model = entry_list(entries@);
    let mut i: usize = 0;
    while i < entries.len()
        invariant
            i <= entries@.len(),
            model == entry_list(entries@),
            place(model, id@) == place_from(model, id@, i as int),
        decreases entries@.len() - i,
    {
        assert(model[i as int] == entries@[i as int]@);
        if entries[i].options.id.same(id) {
            return Some(i);
        }
        i += 1;
    }
    None
}

fn edit_list(entries: &mut Vec<Entry>, at: usize, edit: &Edit)
    requires
        at < old(entries)@.len(),
    ensures
        entry_list(final(entries)@) == edited_list(entry_list(old(entries)@), at as int, edit@),
{
    let ghost model = entry_list(entries@);
    match edit {
        Edit::Replace(entry) => {
            entries.set(at, entry.clone());
        },
        Edit::Configure(config) => {
            let mut entry = entries[at].clone();
            entry.options.config = config.clone();
            assert(entry@ == with_config(model[at as int], config@));
            entries.set(at, entry);
        },
        Edit::Remove => {
            entries.remove(at);
        },
        Edit::Precede(entry) => {
            entries.insert(at, entry.clone());
        },
    }
    assert(entry_list(entries@) =~= edited_list(model, at as int, edit@));
}

fn edit_groups(groups: &mut Vec<EntryGroup>, id: &EntryId, edit: &Edit) -> (result: bool)
    ensures
        result ==> edited_groups(group_list(old(groups)@), 0, id@, edit@) == Some(
            group_list(final(groups)@),
        ),
        !result ==> edited_groups(group_list(old(groups)@), 0, id@, edit@) is None
            && group_list(final(groups)@) == group_list(old(groups)@),
    decreases group_list(old(groups)@),
{
    let ghost model = group_list(groups@);
    let mut i: usize = 0;
    while i < groups.len()
        invariant
            i <= groups@.len(),
            group_list(groups@) == model,
            model == group_list(old(groups)@),
            edited_groups(model, 0, id@, edit@) == edited_groups(model, i as int, id@, edit@),
        decreases groups@.len() - i,
    {
        proof {
            lemma_group_view(groups@[i as int]);
            assert(model[i as int] == groups@[i as int]@);
        }
        if let Some(at) = find_place(&groups[i].entries, id) {
            edit_list(&mut groups[i].entries, at, edit);
            proof {
                lemma_group_view(groups@[i as int]);
                assert(group_list(groups@) =~= model.update(i as int, groups@[i as int]@));
            }
            return true;
        }
        assert(decreases_to!(model => model[i as int].groups));
        let changed = edit_groups(&mut groups[i].groups, id, edit);
        proof {
            lemma_group_view(groups@[i as int]);
            assert(group_list(groups@) =~= model.update(i as int, groups@[i as int]@));
        }
        if changed {
            return true;
        }
        assert(group_list(groups@) =~= model);
        i += 1;
    }
    false
}

fn edit_tree(tree: &mut EntryTree, id: &EntryId, edit: &Edit) -> (result: Result<
    (),
    LoaderError,
>)
    ensures
        match result {
            Ok(()) => edited(old(tree)@, id@, edit@) == Ok::<TreeModel, LoaderFailure>(
                final(tree)@,
            ),
            Err(error) => edited(old(tree)@, id@, edit@) == Err::<TreeModel, LoaderFailure>(error@),
        },
{
    if let Some(at) = find_place(&tree.entries, id) {
        edit_list(&mut tree.entries, at, edit);
        return Ok(());
    }
    if edit_groups(&mut tree.groups, id, edit) {
        Ok(())
    } else {
        Err(LoaderError::MissingEntry(id.clone()))
    }
}

fn find_entry(tree: &EntryTree, id: &EntryId) -> (result: Option<Entry>)
    ensures
        match result {
            Some(entry) => found(tree@, id@) == Some(entry@),
            None => found(tree@, id@) is None,
        },
{
    let entries = tree.entries();
    let ghost model = flat(tree@);
    let mut i: usize = 0;
    while i < entries.len()
        invariant
            i <= entries@.len(),
            model == borrowed_list(entries@),
            model == flat(tree@),
            place(model, id@) == place_from(model, id@, i as int),
        decreases entries@.len() - i,
    {
        assert(model[i as int] == entries@[i as int]@);
        if entries[i].options.id.same(id) {
            return Some(entries[i].clone());
        }
        i += 1;
    }
    None
}

fn insert_entry(tree: &mut EntryTree, entry: Entry, before: &Option<EntryId>) -> (result: Result<
    (),
    LoaderError,
>)
    ensures
        match result {
            Ok(()) => inserted(old(tree)@, entry@, *before) == Ok::<TreeModel, LoaderFailure>(
                final(tree)@,
            ),
            Err(error) => inserted(old(tree)@, entry@, *before) == Err::<TreeModel, LoaderFailure>(
                error@,
            ),
        },
{
    match before {
        None => {
            let ghost model = entry_list(tree.entries@);
            tree.entries.push(entry);
            assert(entry_list(tree.entries@) =~= model.push(entry@));
            Ok(())
        },
        Some(target) => edit_tree(tree, target, &Edit::Precede(entry)),
    }
}

impl Patch {
    fn apply_to(&self, tree: &mut EntryTree) -> (result: Result<(), LoaderError>)
        ensures
            match result {
                Ok(()) => patched(old(tree)@, *self) == Ok::<TreeModel, LoaderFailure>(
                    final(tree)@,
                ),
                Err(error) => patched(old(tree)@, *self) == Err::<TreeModel, LoaderFailure>(error@),
            },
    {
        match self {
            Patch::Insert { entry, before } => insert_entry(tree, entry.clone(), before),
            Patch::Update { id, entry } => {
                if !entry.options.id.same(id) {
                    let mut message = join2("replacement id ", entry.options.id.as_str());
                    message.append(" does not match target ");
                    message.append(id.as_str());
                    return Err(LoaderError::Patch(message));
                }
                edit_tree(tree, id, &Edit::Replace(entry.clone()))
            },
            Patch::UpdateConfig { id, config } => {
                edit_tree(tree, id, &Edit::Configure(config.clone()))
            },
            Patch::Remove { id } => edit_tree(tree, id, &Edit::Remove),
            Patch::Move { id, before } => {
                if let Some(target) = before {
                    if target.same(id) {
                        return Err(LoaderError::Patch("an entry cannot precede itself".to_owned()));
                    }
                }
                match find_entry(tree, id) {
                    None => Err(LoaderError::MissingEntry(id.clone())),
                    Some(entry) => match edit_tree(tree, id, &Edit::Remove) {
                        Err(error) => Err(error),
                        Ok(()) => insert_entry(tree, entry, before),
                    },
                }
            },
        }
    }
}

impl EntryTree {
    /// Applies one patch to a detached copy. The source tree is never modified
    /// if targeting or validation fails.
    pub fn apply(&self, patch: &Patch) -> (result: Result<EntryTree, LoaderError>)
        ensures
            tree_outcome(result) == accepted(patched(self@, *patch)),
    {
        let mut candidate = self.clone();
        match patch.apply_to(&mut candidate) {
            Ok(()) => {},
            Err(error) => {
                return Err(error);
            },
        }
        match candidate.validate() {
            Ok(()) => Ok(candidate),
            Err(error) => Err(error),
        }
    }

    /// Applies patches in input order, so an insertion can be addressed by a
    /// later patch in the same list.
    pub fn apply_all(&self, patches: &[Patch]) -> (result: Result<EntryTree, LoaderError>)
        ensures
            tree_outcome(result) == accepted(patched_all(self@, patches@, 0)),
    {
        let mut candidate = self.clone();
        let mut i: usize = 0;
        while i < patches.len()
            invariant
                i <= patches@.len(),
                patched_all(self@, patches@, 0) == patched_all(candidate@, patches@, i as int),
            decreases patches@.len() - i,
        {
            match patches[i].apply_to(&mut candidate) {
                Ok(()) => {},
                Err(error) => {
                    return Err(error);
                },
            }
            i += 1;
        }
        match candidate.validate() {
            Ok(()) => Ok(candidate),
            Err(error) => Err(error),
        }
    }
}

/// Copies `tree` and applies patches in order.
pub fn apply_entry_patches(tree: &EntryTree, patches: &[Patch]) -> (result: Result<
    EntryTree,
    LoaderError,
>)
    ensures
        tree_outcome(result) == accepted(patched_all(tree@, patches@, 0)),
{
    tree.apply_all(patches)
}

proof fn place_in_joined(a: Seq<EntryModel>, b: Seq<EntryModel>, id: Seq<char>, from: int)
    requires
        0 <= from <= a.len(),
    ensures
        place_from(a + b, id, from) == (match place_from(a, id, from) {
            Some(at) => Some(at),
            None => match place(b, id) {
                Some(at) => Some(a.len() + at),
                None => None,
            },
        }),
    decreases a.len() - from,
{
    if from < a.len() {
        place_in_joined(a, b, id, from + 1);
    } else {
        place_after_joined(a, b, id, 0);
    }
}

proof fn place_after_joined(a: Seq<EntryModel>, b: Seq<EntryModel>, id: Seq<char>, from: int)
    requires
        0 <= from <= b.len(),
    ensures
        place_from(a + b, id, a.len() + from) == (match place_from(b, id, from) {
            Some(at) => Some(a.len() + at),
            None => None,
        }),
    decreases b.len() - from,
{
    if from < b.len() {
        place_after_joined(a, b, id, from + 1);
    }
}

/// A place that is found is inside the list and holds the wanted entry.
pub(crate) proof fn place_is_inside(entries: Seq<EntryModel>, id: Seq<char>, from: int)
    requires
        0 <= from,
    ensures
        place_from(entries, id, from) matches Some(at) ==> from <= at < entries.len()
            && entries[at].options.id == id,
    decreases entries.len() - from,
{
    if from < entries.len() {
        place_is_inside(entries, id, from + 1);
    }
}

proof fn edit_in_left(a: Seq<EntryModel>, b: Seq<EntryModel>, at: int, edit: EditModel)
    requires
        0 <= at < a.len(),
    ensures
        edited_list(a + b, at, edit) == edited_list(a, at, edit) + b,
{
    assert(edited_list(a + b, at, edit) =~= edited_list(a, at, edit) + b);
}

proof fn edit_in_right(a: Seq<EntryModel>, b: Seq<EntryModel>, at: int, edit: EditModel)
    requires
        0 <= at < b.len(),
    ensures
        edited_list(a + b, a.len() + at, edit) == a + edited_list(b, at, edit),
{
    assert(edited_list(a + b, a.len() + at, edit) =~= a + edited_list(b, at, edit));
}

/// `flat_groups` of the tail depends on the tail alone.
proof fn flat_after_update(groups: Seq<GroupModel>, k: int, group: GroupModel, from: int)
    requires
        0 <= k < from,
        k < groups.len(),
    ensures
        flat_groups(groups.update(k, group), from) == flat_groups(groups, from),
    decreases groups.len() - from,
{
    if from < groups.len() {
        flat_after_update(groups, k, group, from + 1);
    }
}

/// An edit of groups acts on their entries as on one list.
proof fn edited_groups_flatten(
    groups: Seq<GroupModel>,
    from: int,
    id: Seq<char>,
    edit: EditModel,
)
    requires
        0 <= from <= groups.len(),
    ensures
        match edited_groups(groups, from, id, edit) {
            Some(changed) => changed.len() == groups.len() && (place(flat_groups(groups, from), id)
                matches Some(at) && flat_groups(changed, from) == edited_list(
                flat_groups(groups, from),
                at,
                edit,
            )),
            None => place(flat_groups(groups, from), id) is None,
        },
    decreases groups, groups.len() - from,
{
    if from < groups.len() {
        let group = groups[from];
        let own = group.entries;
        let nested = flat_groups(group.groups, 0);
        let rest = flat_groups(groups, from + 1);
        edited_groups_flatten(group.groups, 0, id, edit);
        edited_groups_flatten(groups, from + 1, id, edit);
        place_in_joined(own + nested, rest, id, 0);
        place_in_joined(own, nested, id, 0);
        place_is_inside(own, id, 0);
        place_is_inside(nested, id, 0);
        place_is_inside(rest, id, 0);
        match place(own, id) {
            Some(at) => {
                let changed_group = GroupModel { entries: edited_list(own, at, edit), ..group };
                flat_after_update(groups, from, changed_group, from + 1);
                edit_in_left(own, nested, at, edit);
                edit_in_left(own + nested, rest, at, edit);
            },
            None => match edited_groups(group.groups, 0, id, edit) {
                Some(inner) => {
                    let changed_group = GroupModel { groups: inner, ..group };
                    flat_after_update(groups, from, changed_group, from + 1);
                    let at = place(nested, id)->Some_0;
                    edit_in_right(own, nested, at, edit);
                    edit_in_left(own + nested, rest, own.len() + at, edit);
                },
                None => {
                    match edited_groups(groups, from + 1, id, edit) {
                        Some(changed) => {
                            let at = place(rest, id)->Some_0;
                            edit_in_right(own + nested, rest, at, edit);
                            edited_groups_keep_earlier(groups, from + 1, id, edit, from);
                        },
                        None => {},
                    }
                },
            },
        }
    }
}

proof fn edited_groups_keep_earlier(
    groups: Seq<GroupModel>,
    from: int,
    id: Seq<char>,
    edit: EditModel,
    k: int,
)
    requires
        0 <= k < from,
        k < groups.len(),
    ensures
        edited_groups(groups, from, id, edit) matches Some(changed) ==> changed.len()
            == groups.len() && changed[k] == groups[k],
    decreases groups.len() - from,
{
    if from < groups.len() {
        edited_groups_keep_earlier(groups, from + 1, id, edit, k);
    }
}

/// An edit of a tree acts on its entries, in tree order, as on one list: it
/// happens at the first entry with the target's identifier, and only when there
/// is one.
pub proof fn edit_acts_on_tree_order(tree: TreeModel, id: Seq<char>, edit: EditModel)
    ensures
        match edited_tree(tree, id, edit) {
            Some(changed) => place(flat(tree), id) matches Some(at) && flat(changed)
                == edited_list(flat(tree), at, edit),
            None => place(flat(tree), id) is None,
        },
{
    let own = tree.entries;
    let rest = flat_groups(tree.groups, 0);
    place_in_joined(own, rest, id, 0);
    place_is_inside(own, id, 0);
    place_is_inside(rest, id, 0);
    edited_groups_flatten(tree.groups, 0, id, edit);
    match place(own, id) {
        Some(at) => {
            edit_in_left(own, rest, at, edit);
        },
        None => {
            if edited_groups(tree.groups, 0, id, edit) is Some {
                edit_in_right(own, rest, place(rest, id)->Some_0, edit);
            }
        },
    }
}

/// A patch that names an entry fails for want of it exactly when no entry of
/// the tree has that identifier.
pub proof fn missing_target_is_reported(tree: TreeModel, id: EntryId)
    ensures
        patched(tree, Patch::Remove { id }) == Err::<TreeModel, LoaderFailure>(
            LoaderFailure::MissingEntry(id@),
        ) <==> (forall|i: int| 0 <= i < flat(tree).len() ==> (#[trigger] flat(tree)[i]).options.id
            != id@),
{
    edit_acts_on_tree_order(tree, id@, EditModel::Remove);
    place_is_inside(flat(tree), id@, 0);
    place_is_first(flat(tree), id@, 0);
}

pub(crate) proof fn place_is_first(entries: Seq<EntryModel>, id: Seq<char>, from: int)
    requires
        0 <= from,
    ensures
        match place_from(entries, id, from) {
            Some(at) => forall|i: int|
                from <= i < at ==> (#[trigger] entries[i]).options.id != id,
            None => forall|i: int|
                from <= i < entries.len() ==> (#[trigger] entries[i]).options.id != id,
        },
    decreases entries.len() - from,
{
    if from < entries.len() {
        place_is_first(entries, id, from + 1);
    }
}

/// Moving an entry keeps every entry of the tree: the same entries, each as
/// often, in another order.
pub proof fn move_keeps_entries(tree: TreeModel, id: EntryId, before: Option<EntryId>)
    ensures
        patched(tree, Patch::Move { id, before }) matches Ok(moved) ==> flat(moved).to_multiset()
            == flat(tree).to_multiset(),
{
    let patch = Patch::Move { id, before };
    if patched(tree, patch) is Ok {
        let moved = patched(tree, patch)->Ok_0;
        let entry = found(tree, id@)->Some_0;
        let shorter = edited(tree, id@, EditModel::Remove)->Ok_0;
        let all = flat(tree);
        edit_acts_on_tree_order(tree, id@, EditModel::Remove);
        place_is_inside(all, id@, 0);
        let at = place(all, id@)->Some_0;
        assert(flat(shorter) == all.remove(at));
        vstd::seq_lib::to_multiset_remove(all, at);
        match before {
            None => {
                let own = shorter.entries;
                let rest = flat_groups(shorter.groups, 0);
                assert(flat(moved) =~= flat(shorter).insert(own.len() as int, entry));
                vstd::seq_lib::to_multiset_insert(flat(shorter), own.len() as int, entry);
            },
            Some(target) => {
                edit_acts_on_tree_order(shorter, target@, EditModel::Precede(entry));
                place_is_inside(flat(shorter), target@, 0);
                let to = place(flat(shorter), target@)->Some_0;
                vstd::seq_lib::to_multiset_insert(flat(shorter), to, entry);
            },
        }
        assert(all.to_multiset().remove(entry).insert(entry) =~= all.to_multiset()) by {
            vstd::seq_lib::to_multiset_contains(all, entry);
            assert(all.contains(entry)) by {
                assert(all[at] == entry);
            }
        }
    }
}

/// Replacing an entry or its configuration keeps every identifier in its
/// place.
pub proof fn update_keeps_identifiers(tree: TreeModel, patch: Patch, i: int)
    requires
        patch is Update || patch is UpdateConfig,
        patched(tree, patch) is Ok,
        0 <= i < flat(tree).len(),
    ensures
        flat(patched(tree, patch)->Ok_0).len() == flat(tree).len(),
        flat(patched(tree, patch)->Ok_0)[i].options.id == flat(tree)[i].options.id,
{
    let all = flat(tree);
    match patch {
        Patch::Update { id, entry } => {
            edit_acts_on_tree_order(tree, id@, EditModel::Replace(entry@));
            place_is_inside(all, id@, 0);
        },
        Patch::UpdateConfig { id, config } => {
            edit_acts_on_tree_order(tree, id@, EditModel::Configure(config@));
            place_is_inside(all, id@, 0);
        },
        _ => {},
    }
}

/// An accepted tree has passed every rule on trees.
pub proof fn accepted_trees_are_valid(tree: TreeModel, patches: Seq<Patch>)
    ensures
        accepted(patched_all(tree, patches, 0)) matches Ok(result) ==> tree_fault(result) is None,
{
}

/// No entry of the list is named `id`.
pub open spec fn lacks(entries: Seq<EntryModel>, id: Seq<char>) -> bool {
    forall|i: int| 0 <= i < entries.len() ==> (#[trigger] entries[i]).options.id != id
}

proof fn inserted_place(entries: Seq<EntryModel>, at: int, entry: EntryModel, from: int)
    requires
        0 <= from <= at <= entries.len(),
        lacks(entries, entry.options.id),
    ensures
        place_from(entries.insert(at, entry), entry.options.id, from) == Some(at),
    decreases at - from,
{
    if from < at {
        assert(entries.insert(at, entry)[from] == entries[from]);
        inserted_place(entries, at, entry, from + 1);
    }
}

proof fn lacking_has_no_place(entries: Seq<EntryModel>, id: Seq<char>)
    requires
        lacks(entries, id),
    ensures
        place(entries, id) is None,
{
    place_is_inside(entries, id, 0);
}

proof fn insertion_in_groups_is_undone(
    groups: Seq<GroupModel>,
    from: int,
    target: Seq<char>,
    entry: EntryModel,
)
    requires
        0 <= from <= groups.len(),
        lacks(flat_groups(groups, from), entry.options.id),
    ensures
        edited_groups(groups, from, target, EditModel::Precede(entry)) matches Some(changed)
            ==> edited_groups(changed, from, entry.options.id, EditModel::Remove) == Some(groups),
    decreases groups, groups.len() - from,
{
    let insertion = EditModel::Precede(entry);
    let id = entry.options.id;
    if from < groups.len() && edited_groups(groups, from, target, insertion) is Some {
        let changed = edited_groups(groups, from, target, insertion)->Some_0;
        let group = groups[from];
        let own = group.entries;
        let nested = flat_groups(group.groups, 0);
        let rest = flat_groups(groups, from + 1);
        let all = flat_groups(groups, from);
        assert(lacks(own, id)) by {
            assert forall|i: int| 0 <= i < own.len() implies (#[trigger] own[i]).options.id
                != id by {
                assert(all[i] == own[i]);
            }
        }
        assert(lacks(nested, id)) by {
            assert forall|i: int| 0 <= i < nested.len() implies (#[trigger] nested[i]).options.id
                != id by {
                assert(all[own.len() + i] == nested[i]);
            }
        }
        assert(lacks(rest, id)) by {
            assert forall|i: int| 0 <= i < rest.len() implies (#[trigger] rest[i]).options.id
                != id by {
                assert(all[own.len() + nested.len() + i] == rest[i]);
            }
        }
        place_is_inside(own, target, 0);
        match place(own, target) {
            Some(at) => {
                inserted_place(own, at, entry, 0);
                assert(own.insert(at, entry).remove(at) =~= own);
                assert(groups =~= changed.update(from, group));
            },
            None => {
                lacking_has_no_place(own, id);
                match edited_groups(group.groups, 0, target, insertion) {
                    Some(inner) => {
                        insertion_in_groups_is_undone(group.groups, 0, target, entry);
                        assert(groups =~= changed.update(from, group));
                    },
                    None => {
                        insertion_in_groups_is_undone(groups, from + 1, target, entry);
                        edited_groups_keep_earlier(groups, from + 1, target, insertion, from);
                        edited_groups_flatten(group.groups, 0, id, EditModel::Remove);
                        lacking_has_no_place(nested, id);
                    },
                }
            },
        }
    }
}

/// Removing an entry that was just inserted gives back the tree, wherever the
/// entry was put.
pub proof fn removal_undoes_insertion(tree: TreeModel, entry: Entry, before: Option<EntryId>)
    requires
        lacks(flat(tree), entry@.options.id),
    ensures
        patched(tree, Patch::Insert { entry, before }) matches Ok(grown) ==> patched(
            grown,
            Patch::Remove { id: entry.options.id },
        ) == Ok::<TreeModel, LoaderFailure>(tree),
{
    let id = entry@.options.id;
    let own = tree.entries;
    let all = flat(tree);
    assert(lacks(own, id)) by {
        assert forall|i: int| 0 <= i < own.len() implies (#[trigger] own[i]).options.id != id by {
            assert(all[i] == own[i]);
        }
    }
    assert(lacks(flat_groups(tree.groups, 0), id)) by {
        let rest = flat_groups(tree.groups, 0);
        assert forall|i: int| 0 <= i < rest.len() implies (#[trigger] rest[i]).options.id
            != id by {
            assert(all[own.len() + i] == rest[i]);
        }
    }
    match before {
        None => {
            let at = own.len() as int;
            assert(own.push(entry@) =~= own.insert(at, entry@));
            inserted_place(own, at, entry@, 0);
            assert(own.insert(at, entry@).remove(at) =~= own);
        },
        Some(target) => {
            place_is_inside(own, target@, 0);
            match place(own, target@) {
                Some(at) => {
                    inserted_place(own, at, entry@, 0);
                    assert(own.insert(at, entry@).remove(at) =~= own);
                },
                None => {
                    lacking_has_no_place(own, id);
                    insertion_in_groups_is_undone(tree.groups, 0, target@, entry@);
                },
            }
        },
    }
}

}
