//! What holds of every tree that is read from a document.

use vstd::prelude::*;

use crate::decode::{
    chosen_document, entries_of, entry_of, group_decoded, group_fields, groups_decoded,
    is_entry_key, is_group_key, is_tree_key, options_of, runtime_field, tree_members,
    tree_of_document, tree_of_value, unknown_key, Shape,
};
use crate::error::LoaderFailure;
use crate::forms::{fields_are_smaller, merged_name, record};
use crate::json::{lookup, property, Json};
use crate::patch::accepted;
use crate::text::occurs;
use crate::tree::{faultless, flat, ids_of, tree_fault, valid_trees_have_distinct_entries};

verus! {

/// The runtime is given by a name that is no runtime's.
pub open spec fn unknown_runtime(members: Seq<(Seq<char>, Json)>) -> bool {
    lookup(members, "runtime"@) matches Some(value) && merged_name(value) matches Json::String(name)
        && name != "native"@ && name != "wasm"@ && name != "legacy-node"@ && name != "legacy_node"@
}

/// The entry has a field that entries do not have, or an unknown runtime.
pub open spec fn flawed_entry(value: Json) -> bool {
    value matches Json::Object(members) && ((exists|i: int|
        0 <= i < members.len() && !is_entry_key((#[trigger] members[i]).0)) || unknown_runtime(
        members,
    ))
}

/// One of the entries is flawed.
pub open spec fn flawed_entries(values: Seq<Json>) -> bool {
    exists|i: int| 0 <= i < values.len() && flawed_entry(#[trigger] values[i])
}

/// The group has a field that groups do not have, or a flawed entry, or a
/// flawed group in it, at any depth.
pub open spec fn flawed_group(value: Json) -> bool
    decreases value, 0int,
{
    match record(value, group_fields(), 1) {
        Json::Object(members) => {
            ||| exists|i: int| 0 <= i < members.len() && !is_group_key((#[trigger] members[i]).0)
            ||| (match lookup(members, "entries"@) {
                Some(Json::Array(values)) => flawed_entries(values),
                _ => false,
            })
            ||| {
                proof {
                    fields_are_smaller(value, group_fields(), 1, "groups"@);
                }
                match property(record(value, group_fields(), 1), "groups"@) {
                    Some(Json::Array(values)) => flawed_groups(values, 0),
                    _ => false,
                }
            }
        },
        _ => false,
    }
}

/// One of the groups `values[from..]` is flawed.
pub open spec fn flawed_groups(values: Seq<Json>, from: int) -> bool
    decreases values, values.len() - from,
{
    0 <= from < values.len() && (flawed_group(values[from]) || flawed_groups(values, from + 1))
}

/// The document has a field that trees do not have, or a flawed entry or group.
pub open spec fn flawed_tree(value: Json) -> bool {
    match value {
        Json::Array(values) => flawed_entries(values),
        Json::Object(given) => {
            let members = tree_members(given);
            ||| exists|i: int| 0 <= i < members.len() && !is_tree_key((#[trigger] members[i]).0)
            ||| (match lookup(members, "entries"@) {
                Some(Json::Array(values)) => flawed_entries(values),
                _ => false,
            })
            ||| (match lookup(members, "groups"@) {
                Some(Json::Array(values)) => flawed_groups(values, 0),
                _ => false,
            })
        },
        _ => false,
    }
}

proof fn stray_keys_are_found(members: Seq<(Seq<char>, Json)>, from: int, i: int, shape: Shape)
    requires
        0 <= from <= i < members.len(),
        !crate::decode::allows(shape, members[i].0),
    ensures
        unknown_key(members, from, shape) is Some,
    decreases members.len() - from,
{
    if from < i {
        stray_keys_are_found(members, from + 1, i, shape);
    }
}

proof fn flawed_entries_are_refused(values: Seq<Json>, from: int, i: int)
    requires
        0 <= from <= i < values.len(),
        flawed_entry(values[i]),
    ensures
        entries_of(values, from) is Err,
    decreases values.len() - from,
{
    if from < i {
        flawed_entries_are_refused(values, from + 1, i);
    } else {
        let members = values[i]->Object_0;
        if exists|k: int| 0 <= k < members.len() && !is_entry_key((#[trigger] members[k]).0) {
            let k = choose|k: int| 0 <= k < members.len() && !is_entry_key((#[trigger] members[k]).0);
            stray_keys_are_found(members, 0, k, Shape::Entry);
        } else {
            assert(runtime_field(members) is Err);
            assert(options_of(members) is Err);
        }
        assert(entry_of(values[i]) is Err);
    }
}

proof fn flawed_group_is_refused(value: Json)
    requires
        flawed_group(value),
    ensures
        group_decoded(value) is Err,
    decreases value, 0int,
{
    let members = record(value, group_fields(), 1)->Object_0;
    fields_are_smaller(value, group_fields(), 1, "groups"@);
    if exists|i: int| 0 <= i < members.len() && !is_group_key((#[trigger] members[i]).0) {
        let i = choose|i: int| 0 <= i < members.len() && !is_group_key((#[trigger] members[i]).0);
        stray_keys_are_found(members, 0, i, Shape::Group);
    } else {
        match lookup(members, "entries"@) {
            Some(Json::Array(values)) => {
                if flawed_entries(values) {
                    let i = choose|i: int| 0 <= i < values.len() && flawed_entry(#[trigger] values[i]);
                    flawed_entries_are_refused(values, 0, i);
                }
            },
            _ => {},
        }
        match property(record(value, group_fields(), 1), "groups"@) {
            Some(Json::Array(values)) => {
                if flawed_groups(values, 0) {
                    flawed_groups_are_refused(values, 0);
                }
            },
            _ => {},
        }
    }
}

proof fn flawed_groups_are_refused(values: Seq<Json>, from: int)
    requires
        flawed_groups(values, from),
    ensures
        groups_decoded(values, from) is Err,
    decreases values, values.len() - from,
{
    if flawed_group(values[from]) {
        flawed_group_is_refused(values[from]);
    } else {
        flawed_groups_are_refused(values, from + 1);
    }
}

/// A document with a field that its tree, groups or entries do not have, at any
/// depth, or with an unknown runtime, is refused as one that cannot be read.
pub proof fn unknown_fields_and_runtimes_are_refused(value: Json)
    requires
        flawed_tree(value),
    ensures
        tree_of_value(value) matches Err(LoaderFailure::Parse(_)),
        accepted(tree_of_value(value)) matches Err(LoaderFailure::Parse(_)),
{
    match value {
        Json::Array(values) => {
            let i = choose|i: int| 0 <= i < values.len() && flawed_entry(#[trigger] values[i]);
            flawed_entries_are_refused(values, 0, i);
        },
        Json::Object(given) => {
            let members = tree_members(given);
            if exists|i: int| 0 <= i < members.len() && !is_tree_key((#[trigger] members[i]).0) {
                let i = choose|i: int|
                    0 <= i < members.len() && !is_tree_key((#[trigger] members[i]).0);
                stray_keys_are_found(members, 0, i, Shape::Tree);
            } else {
                match lookup(members, "entries"@) {
                    Some(Json::Array(values)) => {
                        if flawed_entries(values) {
                            let i = choose|i: int|
                                0 <= i < values.len() && flawed_entry(#[trigger] values[i]);
                            flawed_entries_are_refused(values, 0, i);
                        }
                    },
                    _ => {},
                }
                match lookup(members, "groups"@) {
                    Some(Json::Array(values)) => {
                        if flawed_groups(values, 0) {
                            flawed_groups_are_refused(values, 0);
                        }
                    },
                    _ => {},
                }
            }
        },
        _ => {},
    }
}

/// Whatever the readers make of a document: a tree that comes out of it passes
/// every rule, with no identifier twice; a document with a flawed tree gives
/// none; and one with a `!!js` expression is refused for that.
pub proof fn read_trees_are_valid(
    document: Seq<char>,
    json: Result<Json, Seq<char>>,
    yaml: Result<Json, Seq<char>>,
)
    ensures
        tree_of_document(document, json, yaml) matches Ok(tree) ==> {
            &&& tree_fault(tree) is None
            &&& faultless(flat(tree))
            &&& ids_of(flat(tree)).no_duplicates()
            &&& !occurs(document, "!!js"@)
            &&& chosen_document(json, yaml) matches Ok(value) && !flawed_tree(value)
        },
        occurs(document, "!!js"@) ==> (tree_of_document(document, json, yaml) matches Err(
            LoaderFailure::Expression(_),
        )),
{
    match tree_of_document(document, json, yaml) {
        Ok(tree) => {
            valid_trees_have_distinct_entries(tree);
            let value = chosen_document(json, yaml)->Ok_0;
            if flawed_tree(value) {
                unknown_fields_and_runtimes_are_refused(value);
            }
        },
        Err(_) => {},
    }
}

}
