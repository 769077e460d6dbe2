//! What holds of whole trees: which entries are active, what makes a tree valid,
//! and where a move leaves an entry.

use vstd::prelude::*;

use crate::patch::{
    accepted, edit_acts_on_tree_order, edited, edited_groups, edited_list, edited_tree, found,
    patched, place, place_is_first, place_is_inside, EditModel, Patch,
};
use crate::tree::{
    active, active_groups, checked_entries, checked_entries_collect, checked_group, checked_groups,
    checked_groups_collect, enabled, entry_fault, faultless, flat, flat_groups, identifier_shape,
    ids_of, qualified, tree_fault, valid_trees_have_distinct_entries, EntryId, EntryModel, GroupModel, Names, TreeModel,
};

verus! {

/// For each entry of a list, whether it is switched off: by itself, or because
/// the whole list is.
pub open spec fn off_list(entries: Seq<EntryModel>, off: bool) -> Seq<bool> {
    Seq::new(entries.len(), |i: int| off || entries[i].options.disabled)
}

/// For each entry of `groups[from..]`, in tree order, whether it is switched
/// off: by itself, or by a group round it.
pub open spec fn off_groups(groups: Seq<GroupModel>, from: int, off: bool) -> Seq<bool>
    decreases groups, groups.len() - from,
{
    if from < 0 || from >= groups.len() {
        Seq::empty()
    } else {
        let hidden = off || groups[from].disabled;
        off_list(groups[from].entries, hidden) + off_groups(groups[from].groups, 0, hidden)
            + off_groups(groups, from + 1, off)
    }
}

/// For each entry of a tree, in tree order, whether it is switched off.
pub open spec fn switched_off(tree: TreeModel) -> Seq<bool> {
    off_list(tree.entries, false) + off_groups(tree.groups, 0, false)
}

/// The entries without a mark, in order.
pub open spec fn unmarked(entries: Seq<EntryModel>, marks: Seq<bool>) -> Seq<EntryModel>
    decreases entries.len(),
{
    if entries.len() == 0 {
        Seq::empty()
    } else if marks.last() {
        unmarked(entries.drop_last(), marks.drop_last())
    } else {
        unmarked(entries.drop_last(), marks.drop_last()).push(entries.last())
    }
}

proof fn unmarked_joins(
    a: Seq<EntryModel>,
    marks_a: Seq<bool>,
    b: Seq<EntryModel>,
    marks_b: Seq<bool>,
)
    requires
        a.len() == marks_a.len(),
        b.len() == marks_b.len(),
    ensures
        unmarked(a + b, marks_a + marks_b) == unmarked(a, marks_a) + unmarked(b, marks_b),
    decreases b.len(),
{
    if b.len() == 0 {
        assert(a + b =~= a);
        assert(marks_a + marks_b =~= marks_a);
        assert(unmarked(a, marks_a) + unmarked(b, marks_b) =~= unmarked(a, marks_a));
    } else {
        unmarked_joins(a, marks_a, b.drop_last(), marks_b.drop_last());
        assert((a + b).drop_last() =~= a + b.drop_last());
        assert((marks_a + marks_b).drop_last() =~= marks_a + marks_b.drop_last());
        assert(unmarked(a + b, marks_a + marks_b) =~= unmarked(a, marks_a) + unmarked(b, marks_b));
    }
}

proof fn enabled_are_unmarked(entries: Seq<EntryModel>, off: bool)
    ensures
        enabled(entries, off) == unmarked(entries, off_list(entries, off)),
    decreases entries.len(),
{
    if entries.len() > 0 {
        enabled_are_unmarked(entries.drop_last(), off);
        assert(off_list(entries, off).drop_last() =~= off_list(entries.drop_last(), off));
    }
}

proof fn active_groups_are_unmarked(groups: Seq<GroupModel>, from: int, off: bool)
    ensures
        off_groups(groups, from, off).len() == flat_groups(groups, from).len(),
        active_groups(groups, from, off) == unmarked(
            flat_groups(groups, from),
            off_groups(groups, from, off),
        ),
    decreases groups, groups.len() - from,
{
    if 0 <= from < groups.len() {
        let group = groups[from];
        let hidden = off || group.disabled;
        enabled_are_unmarked(group.entries, hidden);
        active_groups_are_unmarked(group.groups, 0, hidden);
        active_groups_are_unmarked(groups, from + 1, off);
        let own = off_list(group.entries, hidden);
        let nested = off_groups(group.groups, 0, hidden);
        unmarked_joins(group.entries, own, flat_groups(group.groups, 0), nested);
        unmarked_joins(
            group.entries + flat_groups(group.groups, 0),
            own + nested,
            flat_groups(groups, from + 1),
            off_groups(groups, from + 1, off),
        );
    }
}

/// The active entries are the entries of the tree, in tree order, with exactly
/// those left out that are switched off themselves or lie in a group that is.
pub proof fn active_entries_leave_out_the_disabled(tree: TreeModel)
    ensures
        switched_off(tree).len() == flat(tree).len(),
        active(tree) == unmarked(flat(tree), switched_off(tree)),
{
    enabled_are_unmarked(tree.entries, false);
    active_groups_are_unmarked(tree.groups, 0, false);
    unmarked_joins(
        tree.entries,
        off_list(tree.entries, false),
        flat_groups(tree.groups, 0),
        off_groups(tree.groups, 0, false),
    );
}

/// The full names of `groups[from..]` and of the groups in them, added to
/// `seen`; nothing when one is no identifier or comes twice.
pub open spec fn group_names(
    groups: Seq<GroupModel>,
    from: int,
    parent: Seq<char>,
    seen: Seq<Seq<char>>,
) -> Option<Seq<Seq<char>>>
    decreases groups, groups.len() - from,
{
    if from < 0 || from >= groups.len() {
        Some(seen)
    } else {
        let name = qualified(parent, groups[from].id);
        if !identifier_shape(groups[from].id) || seen.contains(name) {
            None
        } else {
            match group_names(groups[from].groups, 0, name, seen.push(name)) {
                None => None,
                Some(next) => group_names(groups, from + 1, parent, next),
            }
        }
    }
}

proof fn good_entries_pass(entries: Seq<EntryModel>, from: int, ids: Seq<Seq<char>>)
    requires
        0 <= from <= entries.len(),
        faultless(entries),
        (ids + ids_of(entries.subrange(from, entries.len() as int))).no_duplicates(),
    ensures
        checked_entries(entries, from, ids) is Ok,
    decreases entries.len() - from,
{
    if from < entries.len() {
        let all = ids + ids_of(entries.subrange(from, entries.len() as int));
        let id = entries[from].options.id;
        assert(entry_fault(entries[from]) is None);
        assert(all[ids.len() as int] == id);
        if ids.contains(id) {
            let k = choose|k: int| 0 <= k < ids.len() && ids[k] == id;
            assert(all[k] == all[ids.len() as int]);
        }
        assert(ids.push(id) + ids_of(entries.subrange(from + 1, entries.len() as int)) =~= all);
        good_entries_pass(entries, from + 1, ids.push(id));
    }
}

proof fn left_part_is_distinct(a: Seq<Seq<char>>, b: Seq<Seq<char>>)
    requires
        (a + b).no_duplicates(),
    ensures
        a.no_duplicates(),
{
    assert forall|i: int, j: int| 0 <= i < a.len() && 0 <= j < a.len() && i != j implies a[i]
        != a[j] by {
        assert((a + b)[i] == a[i] && (a + b)[j] == a[j]);
    }
}

proof fn faultless_parts(a: Seq<EntryModel>, b: Seq<EntryModel>)
    ensures
        faultless(a + b) <==> faultless(a) && faultless(b),
{
    if faultless(a + b) {
        assert forall|i: int| 0 <= i < a.len() implies entry_fault(#[trigger] a[i]) is None by {
            assert((a + b)[i] == a[i]);
        }
        assert forall|i: int| 0 <= i < b.len() implies entry_fault(#[trigger] b[i]) is None by {
            assert((a + b)[a.len() + i] == b[i]);
        }
    }
}

proof fn checked_groups_are_good(
    groups: Seq<GroupModel>,
    from: int,
    parent: Seq<char>,
    names: Names,
)
    requires
        0 <= from <= groups.len(),
        names.ids.no_duplicates(),
    ensures
        checked_groups(groups, from, parent, names) is Ok <==> {
            &&& faultless(flat_groups(groups, from))
            &&& (names.ids + ids_of(flat_groups(groups, from))).no_duplicates()
            &&& group_names(groups, from, parent, names.groups) is Some
        },
        checked_groups(groups, from, parent, names) matches Ok(seen) ==> group_names(
            groups,
            from,
            parent,
            names.groups,
        ) == Some(seen.groups),
    decreases groups, groups.len() - from,
{
    let ids = names.ids;
    if from < groups.len() {
        let group = groups[from];
        let own = group.entries;
        let nested = flat_groups(group.groups, 0);
        let rest = flat_groups(groups, from + 1);
        let name = qualified(parent, group.id);
        let whole = own.subrange(0, own.len() as int);
        assert(whole =~= own);
        faultless_parts(own + nested, rest);
        faultless_parts(own, nested);
        let first = checked_group(group, parent, names);
        let all = ids + ids_of(flat_groups(groups, from));
        assert(first is Err ==> checked_groups(groups, from, parent, names) is Err);
        assert(all =~= ((ids + ids_of(own)) + ids_of(nested)) + ids_of(rest));
        if all.no_duplicates() {
            left_part_is_distinct((ids + ids_of(own)) + ids_of(nested), ids_of(rest));
            left_part_is_distinct(ids + ids_of(own), ids_of(nested));
            if faultless(own) {
                good_entries_pass(own, 0, ids);
            }
        }
        if checked_entries(own, 0, ids) is Ok {
            checked_entries_collect(own, 0, ids);
            let seen = Names {
                ids: checked_entries(own, 0, ids)->Ok_0,
                groups: names.groups.push(name),
            };
            checked_groups_are_good(group.groups, 0, name, seen);
            if checked_groups(group.groups, 0, name, seen) is Ok {
                checked_groups_collect(group.groups, 0, name, seen);
                let next = checked_groups(group.groups, 0, name, seen)->Ok_0;
                checked_groups_are_good(groups, from + 1, parent, next);
                assert(next.ids == (ids + ids_of(own)) + ids_of(nested));
                if checked_groups(groups, from + 1, parent, next) is Ok {
                    checked_groups_collect(groups, from + 1, parent, next);
                }
            }
        }
    } else {
        assert(ids + ids_of(flat_groups(groups, from)) =~= ids);
    }
}

/// A tree is valid exactly when each entry passes every rule on its own, no two
/// entries share an identifier, and the groups have distinct names.
pub proof fn validity_of_trees(tree: TreeModel)
    ensures
        tree_fault(tree) is None <==> {
            &&& faultless(flat(tree))
            &&& ids_of(flat(tree)).no_duplicates()
            &&& group_names(tree.groups, 0, Seq::empty(), Seq::empty()) is Some
        },
{
    let none = Seq::<Seq<char>>::empty();
    let own = tree.entries;
    let rest = flat_groups(tree.groups, 0);
    assert(own.subrange(0, own.len() as int) =~= own);
    assert(none + ids_of(own) =~= ids_of(own));
    assert(ids_of(flat(tree)) =~= ids_of(own) + ids_of(rest));
    faultless_parts(own, rest);
    if ids_of(flat(tree)).no_duplicates() {
        left_part_is_distinct(ids_of(own), ids_of(rest));
        if faultless(own) {
            good_entries_pass(own, 0, none);
        }
    }
    if checked_entries(own, 0, none) is Ok {
        checked_entries_collect(own, 0, none);
        let names = Names { ids: ids_of(own), groups: none };
        checked_groups_are_good(tree.groups, 0, Seq::empty(), names);
    }
}

/// From `from` on, both lists hold the same groups in the same order and
/// nesting, whatever entries are in them.
pub open spec fn same_groups(a: Seq<GroupModel>, b: Seq<GroupModel>, from: int) -> bool
    decreases a, a.len() - from,
{
    &&& a.len() == b.len()
    &&& 0 <= from < a.len() ==> {
        &&& a[from].id == b[from].id
        &&& a[from].disabled == b[from].disabled
        &&& same_groups(a[from].groups, b[from].groups, 0)
        &&& same_groups(a, b, from + 1)
    }
}

proof fn equal_groups_are_same(a: Seq<GroupModel>, b: Seq<GroupModel>, from: int)
    requires
        a.len() == b.len(),
        0 <= from,
        forall|k: int| from <= k < a.len() ==> a[k] == b[k],
    ensures
        same_groups(a, b, from),
    decreases a, a.len() - from,
{
    if from < a.len() {
        equal_groups_are_same(a[from].groups, b[from].groups, 0);
        equal_groups_are_same(a, b, from + 1);
    }
}

proof fn same_groups_chain(
    a: Seq<GroupModel>,
    b: Seq<GroupModel>,
    c: Seq<GroupModel>,
    from: int,
)
    requires
        same_groups(a, b, from),
        same_groups(b, c, from),
    ensures
        same_groups(a, c, from),
    decreases a, a.len() - from,
{
    if 0 <= from < a.len() {
        same_groups_chain(a[from].groups, b[from].groups, c[from].groups, 0);
        same_groups_chain(a, b, c, from + 1);
    }
}

proof fn same_groups_share_names(
    a: Seq<GroupModel>,
    b: Seq<GroupModel>,
    from: int,
    parent: Seq<char>,
    seen: Seq<Seq<char>>,
)
    requires
        same_groups(a, b, from),
    ensures
        group_names(a, from, parent, seen) == group_names(b, from, parent, seen),
    decreases a, a.len() - from,
{
    if 0 <= from < a.len() {
        let name = qualified(parent, a[from].id);
        same_groups_share_names(a[from].groups, b[from].groups, 0, name, seen.push(name));
        match group_names(a[from].groups, 0, name, seen.push(name)) {
            Some(next) => same_groups_share_names(a, b, from + 1, parent, next),
            None => {},
        }
    }
}

/// The lists of entries in `groups[from..]`: of each group its own, then those
/// of its nested groups.
pub open spec fn group_lists(groups: Seq<GroupModel>, from: int) -> Seq<Seq<EntryModel>>
    decreases groups, groups.len() - from,
{
    if from < 0 || from >= groups.len() {
        Seq::empty()
    } else {
        seq![groups[from].entries] + group_lists(groups[from].groups, 0) + group_lists(
            groups,
            from + 1,
        )
    }
}

/// The lists of entries in a tree: the top-level list, then those of the groups
/// in tree order.
pub open spec fn lists(tree: TreeModel) -> Seq<Seq<EntryModel>> {
    seq![tree.entries] + group_lists(tree.groups, 0)
}

/// `after` is `before` with one edit, made in list `k` at place `p`, where the
/// entry named `id` is.
pub open spec fn edited_at(
    before: Seq<Seq<EntryModel>>,
    after: Seq<Seq<EntryModel>>,
    id: Seq<char>,
    edit: EditModel,
    k: int,
    p: int,
) -> bool {
    &&& 0 <= k < before.len()
    &&& 0 <= p < before[k].len()
    &&& before[k][p].options.id == id
    &&& after == before.update(k, edited_list(before[k], p, edit))
}

proof fn equal_groups_have_equal_lists(a: Seq<GroupModel>, b: Seq<GroupModel>, from: int)
    requires
        a.len() == b.len(),
        0 <= from,
        forall|k: int| from <= k < a.len() ==> a[k] == b[k],
    ensures
        group_lists(a, from) == group_lists(b, from),
    decreases a.len() - from,
{
    if from < a.len() {
        equal_groups_have_equal_lists(a, b, from + 1);
    }
}

proof fn edited_groups_keep_the_first(
    groups: Seq<GroupModel>,
    from: int,
    id: Seq<char>,
    edit: EditModel,
)
    requires
        0 <= from,
    ensures
        edited_groups(groups, from, id, edit) matches Some(changed) ==> changed.len()
            == groups.len() && forall|k: int|
            0 <= k < from && k < groups.len() ==> changed[k] == groups[k],
    decreases groups.len() - from,
{
    if from < groups.len() {
        edited_groups_keep_the_first(groups, from + 1, id, edit);
    }
}

proof fn edited_groups_change_one_list(
    groups: Seq<GroupModel>,
    from: int,
    id: Seq<char>,
    edit: EditModel,
) -> (at: (int, int))
    requires
        0 <= from,
        edited_groups(groups, from, id, edit) is Some,
    ensures
        edited_at(
            group_lists(groups, from),
            group_lists(edited_groups(groups, from, id, edit)->Some_0, from),
            id,
            edit,
            at.0,
            at.1,
        ),
        same_groups(groups, edited_groups(groups, from, id, edit)->Some_0, from),
    decreases groups, groups.len() - from,
{
    let group = groups[from];
    let changed = edited_groups(groups, from, id, edit)->Some_0;
    let own = seq![group.entries];
    let nested = group_lists(group.groups, 0);
    let rest = group_lists(groups, from + 1);
    place_is_inside(group.entries, id, 0);
    match place(group.entries, id) {
        Some(p) => {
            equal_groups_have_equal_lists(groups, changed, from + 1);
            equal_groups_are_same(groups, changed, from + 1);
            equal_groups_are_same(group.groups, group.groups, 0);
            let list = edited_list(group.entries, p, edit);
            assert(group_lists(changed, from) =~= group_lists(groups, from).update(0, list));
            (0, p)
        },
        None => match edited_groups(group.groups, 0, id, edit) {
            Some(inner) => {
                let (k, p) = edited_groups_change_one_list(group.groups, 0, id, edit);
                equal_groups_have_equal_lists(groups, changed, from + 1);
                equal_groups_are_same(groups, changed, from + 1);
                let list = edited_list(nested[k], p, edit);
                assert(group_lists(groups, from)[1 + k] == nested[k]);
                assert(group_lists(changed, from) =~= group_lists(groups, from).update(
                    1 + k,
                    list,
                ));
                (1 + k, p)
            },
            None => {
                let (k, p) = edited_groups_change_one_list(groups, from + 1, id, edit);
                edited_groups_keep_the_first(groups, from + 1, id, edit);
                equal_groups_are_same(group.groups, group.groups, 0);
                let list = edited_list(rest[k], p, edit);
                let at = 1 + nested.len() + k;
                assert(group_lists(groups, from)[at] == rest[k]);
                assert(group_lists(changed, from) =~= group_lists(groups, from).update(at, list));
                (at, p)
            },
        },
    }
}

/// An edit changes one list of the tree, at an entry with the target's
/// identifier, and leaves every other list and all groups as they are.
pub proof fn edits_change_one_list(tree: TreeModel, id: Seq<char>, edit: EditModel)
    ensures
        edited_tree(tree, id, edit) matches Some(changed) ==> same_groups(
            tree.groups,
            changed.groups,
            0,
        ) && exists|k: int, p: int|
            #[trigger] edited_at(lists(tree), lists(changed), id, edit, k, p),
{
    place_is_inside(tree.entries, id, 0);
    if edited_tree(tree, id, edit) is Some {
        let changed = edited_tree(tree, id, edit)->Some_0;
        match place(tree.entries, id) {
            Some(p) => {
                equal_groups_are_same(tree.groups, tree.groups, 0);
                let list = edited_list(tree.entries, p, edit);
                assert(lists(changed) =~= lists(tree).update(0, list));
                assert(edited_at(lists(tree), lists(changed), id, edit, 0, p));
            },
            None => {
                let (k, p) = edited_groups_change_one_list(tree.groups, 0, id, edit);
                let nested = group_lists(tree.groups, 0);
                assert(lists(tree)[1 + k] == nested[k]);
                assert(lists(changed) =~= lists(tree).update(
                    1 + k,
                    edited_list(nested[k], p, edit),
                ));
                assert(edited_at(lists(tree), lists(changed), id, edit, 1 + k, p));
            },
        }
    }
}

proof fn moved_entries_stay_good(
    all: Seq<EntryModel>,
    at: int,
    to: int,
)
    requires
        0 <= at < all.len(),
        0 <= to < all.len(),
        faultless(all),
        ids_of(all).no_duplicates(),
    ensures
        faultless(all.remove(at).insert(to, all[at])),
        ids_of(all.remove(at).insert(to, all[at])).no_duplicates(),
{
    let rest = all.remove(at);
    let moved = rest.insert(to, all[at]);
    assert forall|i: int| 0 <= i < moved.len() implies entry_fault(#[trigger] moved[i]) is None by {
        assert(moved[i] == all[came_from(at, to, i)]);
    }
    let ids = ids_of(moved);
    assert forall|i: int, j: int|
        0 <= i < ids.len() && 0 <= j < ids.len() && i != j implies ids[i] != ids[j] by {
        assert(moved[i] == all[came_from(at, to, i)]);
        assert(moved[j] == all[came_from(at, to, j)]);
        assert(ids_of(all)[came_from(at, to, i)] == ids[i]);
        assert(ids_of(all)[came_from(at, to, j)] == ids[j]);
    }
}

/// Where the entry that is at `i` after a move from `at` to `to` was before it.
spec fn came_from(at: int, to: int, i: int) -> int {
    let j = if i < to {
        i
    } else {
        i - 1
    };
    if i == to {
        at
    } else if j < at {
        j
    } else {
        j + 1
    }
}

/// A valid tree stays valid when an entry of it is moved.
proof fn moves_keep_validity(tree: TreeModel, shorter: TreeModel, moved: TreeModel, at: int, to: int)
    requires
        tree_fault(tree) is None,
        0 <= at < flat(tree).len(),
        0 <= to < flat(tree).len(),
        same_groups(tree.groups, shorter.groups, 0),
        same_groups(shorter.groups, moved.groups, 0),
        flat(moved) == flat(tree).remove(at).insert(to, flat(tree)[at]),
    ensures
        tree_fault(moved) is None,
        same_groups(tree.groups, moved.groups, 0),
{
    validity_of_trees(tree);
    moved_entries_stay_good(flat(tree), at, to);
    same_groups_chain(tree.groups, shorter.groups, moved.groups, 0);
    same_groups_share_names(tree.groups, moved.groups, 0, Seq::empty(), Seq::empty());
    validity_of_trees(moved);
}

/// Some entry of the tree is named `id`.
pub open spec fn occurs_in(tree: TreeModel, id: Seq<char>) -> bool {
    exists|i: int| 0 <= i < flat(tree).len() && (#[trigger] flat(tree)[i]).options.id == id
}

/// One entry leaves the list it was in, at place `q` of list `k`, and stands
/// directly before the entry named `target`, in that one's own list. No other
/// entry changes its list or its order.
pub open spec fn stands_before(
    before: Seq<Seq<EntryModel>>,
    after: Seq<Seq<EntryModel>>,
    id: Seq<char>,
    target: Seq<char>,
    k: int,
    q: int,
    l: int,
    p: int,
) -> bool {
    let entry = before[k][q];
    let without = before.update(k, before[k].remove(q));
    &&& edited_at(before, without, id, EditModel::Remove, k, q)
    &&& edited_at(without, after, target, EditModel::Precede(entry), l, p)
}

/// An entry of a valid tree can be moved before another one exactly when both
/// occur and are not the same. It then stands directly before the other, in the
/// list that the other is in; all other entries keep their list and order, and
/// the groups and their nesting stay.
pub proof fn moves_put_entries_before_their_target(tree: TreeModel, id: EntryId, target: EntryId)
    requires
        tree_fault(tree) is None,
    ensures
        accepted(patched(tree, Patch::Move { id, before: Some(target) })) is Ok <==> id@ != target@
            && occurs_in(tree, id@) && occurs_in(tree, target@),
        accepted(patched(tree, Patch::Move { id, before: Some(target) })) matches Ok(moved) ==> {
            &&& same_groups(tree.groups, moved.groups, 0)
            &&& exists|k: int, q: int, l: int, p: int|
                #[trigger] stands_before(lists(tree), lists(moved), id@, target@, k, q, l, p)
        },
{
    let all = flat(tree);
    edit_acts_on_tree_order(tree, id@, EditModel::Remove);
    edits_change_one_list(tree, id@, EditModel::Remove);
    place_is_inside(all, id@, 0);
    place_is_first(all, id@, 0);
    place_is_inside(all, target@, 0);
    place_is_first(all, target@, 0);
    valid_trees_have_distinct_entries(tree);
    if id@ != target@ && place(all, id@) is Some {
        let at = place(all, id@)->Some_0;
        assert(all[at].options.id == id@);
        let shorter = edited_tree(tree, id@, EditModel::Remove)->Some_0;
        let entry = all[at];
        let rest = flat(shorter);
        edit_acts_on_tree_order(shorter, target@, EditModel::Precede(entry));
        edits_change_one_list(shorter, target@, EditModel::Precede(entry));
        place_is_inside(rest, target@, 0);
        place_is_first(rest, target@, 0);
        match place(rest, target@) {
            None => {
                assert forall|i: int| 0 <= i < all.len() implies (#[trigger] all[i]).options.id
                    != target@ by {
                    if i < at {
                        assert(rest[i] == all[i]);
                    } else if i > at {
                        assert(rest[i - 1] == all[i]);
                    }
                }
            },
            Some(to) => {
                let moved = edited_tree(shorter, target@, EditModel::Precede(entry))->Some_0;
                moves_keep_validity(tree, shorter, moved, at, to);
                assert(occurs_in(tree, target@)) by {
                    if to < at {
                        assert(rest[to] == all[to]);
                    } else {
                        assert(rest[to] == all[to + 1]);
                    }
                }
                let (k, q) = choose|k: int, q: int|
                    #[trigger] edited_at(lists(tree), lists(shorter), id@, EditModel::Remove, k, q);
                let (l, p) = choose|l: int, p: int|
                    #[trigger] edited_at(
                        lists(shorter),
                        lists(moved),
                        target@,
                        EditModel::Precede(entry),
                        l,
                        p,
                    );
                let own = lists(tree)[k][q];
                lists_hold_the_entries(tree, k, q);
                let j = choose|j: int| 0 <= j < all.len() && #[trigger] all[j] == own;
                assert(ids_of(all)[j] == ids_of(all)[at]);
                assert(own == entry);
                assert(stands_before(lists(tree), lists(moved), id@, target@, k, q, l, p));
            },
        }
    }
}

proof fn group_lists_hold_the_entries(groups: Seq<GroupModel>, from: int, k: int, q: int)
    requires
        0 <= k < group_lists(groups, from).len(),
        0 <= q < group_lists(groups, from)[k].len(),
    ensures
        exists|j: int|
            0 <= j < flat_groups(groups, from).len() && #[trigger] flat_groups(groups, from)[j]
                == group_lists(groups, from)[k][q],
    decreases groups, groups.len() - from,
{
    let group = groups[from];
    let own = group.entries;
    let nested = flat_groups(group.groups, 0);
    let rest = flat_groups(groups, from + 1);
    let all = flat_groups(groups, from);
    let inner = group_lists(group.groups, 0);
    if k == 0 {
        assert(all[q] == own[q]);
    } else if k < 1 + inner.len() {
        group_lists_hold_the_entries(group.groups, 0, k - 1, q);
        let j = choose|j: int| 0 <= j < nested.len() && #[trigger] nested[j] == inner[k - 1][q];
        assert(all[own.len() + j] == nested[j]);
    } else {
        let m = k - 1 - inner.len();
        group_lists_hold_the_entries(groups, from + 1, m, q);
        let j = choose|j: int|
            0 <= j < rest.len() && #[trigger] rest[j] == group_lists(groups, from + 1)[m][q];
        assert(all[own.len() + nested.len() + j] == rest[j]);
    }
}

/// What is in a list of the tree is among the entries of the tree.
proof fn lists_hold_the_entries(tree: TreeModel, k: int, q: int)
    requires
        0 <= k < lists(tree).len(),
        0 <= q < lists(tree)[k].len(),
    ensures
        exists|j: int|
            0 <= j < flat(tree).len() && #[trigger] flat(tree)[j] == lists(tree)[k][q],
{
    if k == 0 {
        assert(flat(tree)[q] == tree.entries[q]);
    } else {
        group_lists_hold_the_entries(tree.groups, 0, k - 1, q);
        let rest = flat_groups(tree.groups, 0);
        let j = choose|j: int|
            0 <= j < rest.len() && #[trigger] rest[j] == group_lists(tree.groups, 0)[k - 1][q];
        assert(flat(tree)[tree.entries.len() + j] == rest[j]);
    }
}

/// Without a target an entry of a valid tree is moved behind all top-level
/// entries, exactly when it occurs; the others keep their list and order.
pub proof fn moves_without_a_target_go_last(tree: TreeModel, id: EntryId)
    requires
        tree_fault(tree) is None,
    ensures
        accepted(patched(tree, Patch::Move { id, before: None })) is Ok <==> occurs_in(tree, id@),
        accepted(patched(tree, Patch::Move { id, before: None })) matches Ok(moved) ==> {
            &&& same_groups(tree.groups, moved.groups, 0)
            &&& edited(tree, id@, EditModel::Remove) matches Ok(shorter)
                && found(tree, id@) matches Some(entry) && moved == (TreeModel {
                entries: shorter.entries.push(entry),
                ..shorter
            })
        },
{
    let all = flat(tree);
    edit_acts_on_tree_order(tree, id@, EditModel::Remove);
    edits_change_one_list(tree, id@, EditModel::Remove);
    place_is_inside(all, id@, 0);
    place_is_first(all, id@, 0);
    if place(all, id@) is Some {
        let at = place(all, id@)->Some_0;
        assert(all[at].options.id == id@);
        let shorter = edited_tree(tree, id@, EditModel::Remove)->Some_0;
        let moved = TreeModel { entries: shorter.entries.push(all[at]), ..shorter };
        let to = shorter.entries.len() as int;
        equal_groups_are_same(shorter.groups, shorter.groups, 0);
        assert(flat(moved) =~= flat(shorter).insert(to, all[at]));
        moves_keep_validity(tree, shorter, moved, at, to);
    }
}

}
