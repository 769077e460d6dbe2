//! Which entries and trees are accepted, what they take from their document,
//! and what patches change.

use vstd::prelude::*;

use crate::config::parsed_reference;
use crate::decode::{
    chosen_document, entries_of, entry_of, group_decoded, group_fields, groups_decoded,
    keyed_entry, normalized, package_from, texts_field, texts_from, tree_members, tree_of_value,
    unknown_key, without_member, Shape,
};
use crate::error::LoaderFailure;
use crate::forms::record;
use crate::json::{
    lookup, property, set_member_is_readable, set_member_keeps_other_keys, with_member, Json,
};
use crate::manifest_laws::lists_read_as_their_texts;
use crate::patch::{
    edit_acts_on_tree_order, edited_list, patched, place, place_is_first, place_is_inside,
    EditModel, Patch,
};
use crate::persist::{format_of, DocumentFormat};
use crate::text::blank;
use crate::tree::{
    config_fault, entry_fault, flat, identifier_shape, list_fault, member_fault, qualified,
    EntryModel, GroupModel, OptionsModel, RuntimeKind, TreeModel,
};
use crate::tree_laws::occurs_in;

verus! {

/// A letter or a digit of ASCII.
pub open spec fn plain(c: char) -> bool {
    0x30 <= c as u32 <= 0x39 || 0x41 <= c as u32 <= 0x5a || 0x61 <= c as u32 <= 0x7a
}

/// An identifier is not empty, starts with a letter or a digit, and holds only
/// those, dots, dashes, underscores and colons.
pub proof fn identifiers_are_letters_digits_and_joints(text: Seq<char>)
    ensures
        identifier_shape(text) <==> text.len() > 0 && plain(text[0]) && forall|i: int|
            0 <= i < text.len() ==> plain(#[trigger] text[i]) || text[i] == '.' || text[i] == '-'
                || text[i] == '_' || text[i] == ':',
{
    assert forall|i: int| 0 <= i < text.len() implies (crate::text::is_alphanumeric(
        #[trigger] text[i],
    ) <==> plain(text[i])) by {
        crate::text_laws::letters_and_digits_are_ascii(text[i]);
    }
    assert('.' as u32 == 0x2e && '-' as u32 == 0x2d && '_' as u32 == 0x5f && ':' as u32 == 0x3a);
    if text.len() > 0 {
        assert(crate::text::is_alphanumeric(text[0]) <==> plain(text[0]));
        if text[0] == '.' || text[0] == '-' || text[0] == '_' || text[0] == ':' {
            assert(!plain(text[0]));
        }
    }
}

/// The full name of a group is its own when it stands alone or says its parent
/// already, and else its own behind that of its parent.
pub proof fn groups_are_named_below_their_parent(parent: Seq<char>, id: Seq<char>, rest: Seq<char>)
    ensures
        qualified(Seq::empty(), id) == id,
        parent.len() > 0 ==> qualified(parent, parent + "."@ + rest) == parent + "."@ + rest,
        parent.len() > 0 && !(exists|after: Seq<char>| id == #[trigger] (parent + "."@ + after))
            ==> qualified(parent, id) == parent + "."@ + id,
{
    crate::text_laws::parts_are_surrounded(parent + "."@ + rest, parent + "."@);
    crate::text_laws::parts_are_surrounded(id, parent + "."@);
    if parent.len() > 0 {
        assert(parent + "."@ + rest == (parent + "."@) + rest);
    }
}

/// Every expression in the value is one by itself and can be read, and nothing
/// in it is an embedded script.
pub open spec fn evaluable(value: Json) -> bool
    decreases value,
{
    match value {
        Json::Array(values) => forall|i: int|
            0 <= i < values.len() ==> evaluable(#[trigger] values[i]),
        Json::Object(members) => {
            &&& forall|i: int|
                0 <= i < members.len() ==> (#[trigger] members[i]).0 != "$js"@ && members[i].0
                    != "!!js"@
            &&& match lookup(members, "$expr"@) {
                Some(Json::String(text)) => members.len() == 1 && parsed_reference(text) is Ok,
                Some(_) => false,
                None => forall|i: int|
                    0 <= i < members.len() ==> evaluable((#[trigger] members[i]).1),
            }
        },
        _ => true,
    }
}

proof fn list_is_evaluable(values: Seq<Json>, from: int)
    requires
        0 <= from,
    ensures
        list_fault(values, from) is None <==> forall|i: int|
            from <= i < values.len() ==> evaluable(#[trigger] values[i]),
    decreases values, values.len() - from,
{
    if from < values.len() {
        list_is_evaluable(values, from + 1);
        configurations_are_accepted_if_evaluable(values[from]);
    }
}

proof fn members_are_evaluable(members: Seq<(Seq<char>, Json)>, from: int)
    requires
        0 <= from,
    ensures
        member_fault(members, from) is None <==> forall|i: int|
            from <= i < members.len() ==> evaluable((#[trigger] members[i]).1),
    decreases members, members.len() - from,
{
    if from < members.len() {
        members_are_evaluable(members, from + 1);
        assert(decreases_to!(members => members[from]));
        assert(decreases_to!(members[from] => members[from].1));
        configurations_are_accepted_if_evaluable(members[from].1);
    }
}

/// A configuration is accepted exactly if all in it can be evaluated.
pub proof fn configurations_are_accepted_if_evaluable(value: Json)
    ensures
        config_fault(value) is None <==> evaluable(value),
    decreases value, 0int,
{
    match value {
        Json::Array(values) => list_is_evaluable(values, 0),
        Json::Object(members) => members_are_evaluable(members, 0),
        _ => {},
    }
}

/// An entry is accepted exactly if it names a package, has an identifier and no
/// blank name, asks for no blank service, belongs to a group with an
/// identifier if to any, and all it configures can be evaluated.
pub proof fn entries_are_accepted_if_sound(entry: EntryModel)
    ensures
        entry_fault(entry) is None <==> {
            &&& !blank(entry.package)
            &&& identifier_shape(entry.options.id)
            &&& entry.options.name matches Some(name) ==> !blank(name)
            &&& forall|i: int|
                0 <= i < entry.options.inject.len() ==> !blank(#[trigger] entry.options.inject[i])
            &&& forall|i: int|
                0 <= i < entry.options.isolate.len() ==> !blank(#[trigger] entry.options.isolate[i])
            &&& entry.options.group matches Some(group) ==> identifier_shape(group)
            &&& evaluable(entry.options.config)
            &&& evaluable(entry.options.intercept)
        },
{
    configurations_are_accepted_if_evaluable(entry.options.config);
    configurations_are_accepted_if_evaluable(entry.options.intercept);
}

/// The text under a key, if there is one that is no null.
pub open spec fn text_under(members: Seq<(Seq<char>, Json)>, key: Seq<char>) -> Option<Seq<char>> {
    match lookup(members, key) {
        Some(Json::String(text)) => Some(text),
        _ => None,
    }
}

/// The value under a key is this list of texts; without the key the list is
/// empty.
pub open spec fn lists_texts(
    members: Seq<(Seq<char>, Json)>,
    key: Seq<char>,
    texts: Seq<Seq<char>>,
) -> bool {
    match lookup(members, key) {
        None => texts.len() == 0,
        Some(Json::Array(values)) => values.len() == texts.len() && forall|i: int|
            0 <= i < values.len() ==> #[trigger] values[i] == Json::String(texts[i]),
        Some(_) => false,
    }
}

proof fn packages_are_given_once(
    members: Seq<(Seq<char>, Json)>,
    from: int,
    held: Option<Json>,
)
    requires
        0 <= from,
    ensures
        match package_from(members, from, held) {
            Ok(Some(value)) => {
                ||| held == Some(value) && (forall|i: int|
                    from <= i < members.len() ==> !names_package((#[trigger] members[i]).0))
                ||| held is None && exists|i: int|
                    from <= i < members.len() && names_package((#[trigger] members[i]).0)
                        && members[i].1 == value && forall|j: int|
                        from <= j < members.len() && names_package((#[trigger] members[j]).0) ==> j
                            == i
            },
            Ok(None) => held is None && forall|i: int|
                from <= i < members.len() ==> !names_package((#[trigger] members[i]).0),
            Err(_) => true,
        },
    decreases members.len() - from,
{
    if from < members.len() {
        if names_package(members[from].0) {
            if held is None {
                packages_are_given_once(members, from + 1, Some(members[from].1));
                match package_from(members, from, held) {
                    Ok(Some(value)) => {
                        assert(members[from].1 == value);
                        assert forall|j: int|
                            from <= j < members.len() && names_package(
                                (#[trigger] members[j]).0,
                            ) implies j == from by {}
                    },
                    _ => {},
                }
            }
        } else {
            packages_are_given_once(members, from + 1, held);
            match package_from(members, from, held) {
                Ok(Some(value)) => {
                    if held is None {
                        let i = choose|i: int|
                            from + 1 <= i < members.len() && names_package((#[trigger] members[i]).0)
                                && members[i].1 == value && forall|j: int|
                                from + 1 <= j < members.len() && names_package(
                                    (#[trigger] members[j]).0,
                                ) ==> j == i;
                        assert(names_package(members[i].0));
                    }
                },
                _ => {},
            }
        }
    }
}

/// A key under which an entry can name its package.
pub open spec fn names_package(key: Seq<char>) -> bool {
    key == "package"@ || key == "module"@ || key == "plugin"@ || key == "source"@
}

/// An entry says what its document says under the same names: the one package
/// it names under any of its keys, its identifier, and what else is given; what
/// is not given is empty, off, or native.
pub proof fn entries_say_what_their_document_says(value: Json)
    ensures
        entry_of(value) matches Ok(entry) ==> (value matches Json::Object(members) && {
            &&& exists|i: int|
                0 <= i < members.len() && names_package((#[trigger] members[i]).0) && members[i].1
                    == Json::String(entry.package) && forall|j: int|
                    0 <= j < members.len() && names_package((#[trigger] members[j]).0) ==> j == i
            &&& lookup(members, "id"@) == Some(Json::String(entry.options.id))
            &&& text_under(members, "name"@) == entry.options.name
            &&& text_under(members, "group"@) == entry.options.group
            &&& lists_texts(members, "inject"@, entry.options.inject)
            &&& lists_texts(members, "isolate"@, entry.options.isolate)
            &&& entry.options.disabled <==> lookup(members, "disabled"@) == Some(Json::Bool(true))
            &&& lookup(members, "config"@) matches Some(config) ==> entry.options.config == config
            &&& lookup(members, "config"@) is None ==> entry.options.config == Json::Object(
                Seq::empty(),
            )
            &&& lookup(members, "intercept"@) matches Some(given) ==> entry.options.intercept
                == given
            &&& lookup(members, "intercept"@) is None ==> entry.options.intercept == Json::Object(
                Seq::empty(),
            )
            &&& lookup(members, "runtime"@) is None ==> entry.options.runtime
                == RuntimeKind::Native
            &&& lookup(members, "runtime"@) matches Some(Json::String(name)) ==> (match entry.options.runtime {
                RuntimeKind::Native => name == "native"@,
                RuntimeKind::Wasm => name == "wasm"@,
                RuntimeKind::LegacyNode => name == "legacy-node"@ || name == "legacy_node"@,
            })
        }),
{
    match entry_of(value) {
        Ok(entry) => {
            let members = value->Object_0;
            packages_are_given_once(members, 0, None);
            texts_are_listed(members, "inject"@);
            texts_are_listed(members, "isolate"@);
        },
        Err(_) => {},
    }
}

proof fn texts_are_listed(members: Seq<(Seq<char>, Json)>, key: Seq<char>)
    ensures
        texts_field(members, key) matches Ok(texts) ==> lists_texts(members, key, texts),
{
    match lookup(members, key) {
        Some(Json::Array(values)) => {
            lists_read_as_their_texts(values);
            if texts_from(values, 0) is Some {
                let texts = texts_from(values, 0)->0;
                assert forall|i: int| 0 <= i < values.len() implies #[trigger] values[i]
                    == Json::String(texts[i]) by {
                    assert(values[i] == Json::String(texts[i]));
                }
            }
        },
        _ => {},
    }
}

/// A list of entries reads as the entry of each, in order, and fails if one
/// does.
pub proof fn lists_read_as_their_entries(values: Seq<Json>, from: int)
    requires
        0 <= from <= values.len(),
    ensures
        entries_of(values, from) matches Ok(entries) ==> entries.len() == values.len() - from
            && forall|i: int|
            0 <= i < entries.len() ==> entry_of(values[from + i]) == Ok::<EntryModel, Seq<char>>(
                #[trigger] entries[i],
            ),
        entries_of(values, from) is Err <==> exists|i: int|
            from <= i < values.len() && entry_of(#[trigger] values[i]) is Err,
    decreases values.len() - from,
{
    if from < values.len() {
        lists_read_as_their_entries(values, from + 1);
        match entry_of(values[from]) {
            Ok(entry) => match entries_of(values, from + 1) {
                Ok(rest) => {
                    let entries = seq![entry] + rest;
                    assert forall|i: int| 0 <= i < entries.len() implies entry_of(values[from + i])
                        == Ok::<EntryModel, Seq<char>>(#[trigger] entries[i]) by {
                        if i > 0 {
                            assert(entries[i] == rest[i - 1]);
                            assert(values[from + 1 + (i - 1)] == values[from + i]);
                        }
                    }
                },
                Err(_) => {},
            },
            Err(_) => {},
        }
    }
}

/// A group says what its document says: its identifier, its entries and groups
/// one by one, and whether it is switched off; without a word it is on, and
/// what is not given is empty.
pub proof fn groups_say_what_their_document_says(value: Json)
    ensures
        group_decoded(value) matches Ok(group) ==> (record(value, group_fields(), 1)
            matches Json::Object(members) && {
            &&& lookup(members, "id"@) == Some(Json::String(group.id))
            &&& lookup(members, "disabled"@) is None ==> !group.disabled
            &&& lookup(members, "disabled"@) matches Some(flag) ==> flag == Json::Bool(
                group.disabled,
            )
            &&& lookup(members, "entries"@) is None ==> group.entries.len() == 0
            &&& lookup(members, "entries"@) matches Some(list) ==> (list matches Json::Array(values)
                && entries_of(values, 0) == Ok::<Seq<EntryModel>, Seq<char>>(group.entries))
            &&& lookup(members, "groups"@) is None ==> group.groups.len() == 0
            &&& lookup(members, "groups"@) matches Some(list) ==> (list matches Json::Array(values)
                && groups_decoded(values, 0) == Ok::<Seq<GroupModel>, Seq<char>>(group.groups))
        }),
{
}

/// A list of groups reads as the group of each, in order, and fails if one
/// does.
pub proof fn lists_read_as_their_groups(values: Seq<Json>, from: int)
    requires
        0 <= from <= values.len(),
    ensures
        groups_decoded(values, from) matches Ok(groups) ==> groups.len() == values.len() - from
            && forall|i: int|
            0 <= i < groups.len() ==> group_decoded(values[from + i]) == Ok::<
                GroupModel,
                Seq<char>,
            >(#[trigger] groups[i]),
        groups_decoded(values, from) is Err <==> exists|i: int|
            from <= i < values.len() && group_decoded(#[trigger] values[i]) is Err,
    decreases values.len() - from,
{
    if from < values.len() {
        lists_read_as_their_groups(values, from + 1);
        match group_decoded(values[from]) {
            Ok(group) => match groups_decoded(values, from + 1) {
                Ok(rest) => {
                    let groups = seq![group] + rest;
                    assert forall|i: int| 0 <= i < groups.len() implies group_decoded(
                        values[from + i],
                    ) == Ok::<GroupModel, Seq<char>>(#[trigger] groups[i]) by {
                        if i > 0 {
                            assert(groups[i] == rest[i - 1]);
                            assert(values[from + 1 + (i - 1)] == values[from + i]);
                        }
                    }
                },
                Err(_) => {},
            },
            Err(_) => {},
        }
    }
}

/// An entry of a keyed list is what is given under its key; the key stands in
/// for an absent identifier, and the name, or else the key, for an absent
/// package. Nothing else changes.
pub proof fn keyed_entries_are_completed(id: Seq<char>, given: Seq<(Seq<char>, Json)>, key: Seq<char>)
    ensures
        ({
            let entry = keyed_entry(id, Json::Object(given));
            &&& lookup(given, "id"@) matches Some(own) ==> property(entry, "id"@) == Some(own)
            &&& lookup(given, "id"@) is None ==> property(entry, "id"@) == Some(Json::String(id))
            &&& lookup(given, "package"@) matches Some(own) ==> property(entry, "package"@) == Some(
                own,
            )
            &&& lookup(given, "package"@) is None ==> property(entry, "package"@) == (match lookup(
                given,
                "name"@,
            ) {
                Some(name) => Some(name),
                None => Some(Json::String(id)),
            })
            &&& key != "id"@ && key != "package"@ ==> property(entry, key) == lookup(given, key)
        }),
{
    reveal_strlit("id");
    reveal_strlit("package");
    reveal_strlit("name");
    assert("id"@[0] == 'i' && "package"@[0] == 'p' && "name"@[0] == 'n');
    let named = if lookup(given, "id"@) is None {
        with_member(given, "id"@, Json::String(id))
    } else {
        given
    };
    if lookup(given, "id"@) is None {
        set_member_is_readable(given, "id"@, Json::String(id));
        set_member_keeps_other_keys(given, "id"@, Json::String(id), "package"@);
        set_member_keeps_other_keys(given, "id"@, Json::String(id), "name"@);
        if key != "id"@ {
            set_member_keeps_other_keys(given, "id"@, Json::String(id), key);
        }
    }
    if lookup(named, "package"@) is None {
        let package = match lookup(named, "name"@) {
            Some(name) => name,
            None => Json::String(id),
        };
        set_member_is_readable(named, "package"@, package);
        set_member_keeps_other_keys(named, "package"@, package, "id"@);
        if key != "package"@ {
            set_member_keeps_other_keys(named, "package"@, package, key);
        }
    }
}

/// A keyed list becomes a list of its entries in order; any other value stays.
pub proof fn keyed_lists_become_lists(value: Json)
    ensures
        value matches Json::Object(members) ==> (normalized(value) matches Json::Array(values)
            && values.len() == members.len() && forall|i: int|
            0 <= i < values.len() ==> #[trigger] values[i] == keyed_entry(
                members[i].0,
                members[i].1,
            )),
        !(value is Object) ==> normalized(value) == value,
{
}

/// A document that is a list gives a tree of those entries alone. Otherwise its
/// entries are those under `entries`, or under `plugins` when there are none,
/// and its groups those under `groups`.
pub proof fn trees_say_what_their_document_says(members: Seq<(Seq<char>, Json)>, values: Seq<Json>)
    ensures
        tree_of_value(Json::Array(values)) matches Ok(tree) ==> tree.groups.len() == 0
            && entries_of(values, 0) == Ok::<Seq<EntryModel>, Seq<char>>(tree.entries),
        ({
            let all = tree_members(members);
            &&& lookup(members, "entries"@) matches Some(entries) ==> lookup(all, "entries"@)
                == Some(normalized(entries))
            &&& lookup(members, "entries"@) is None ==> (lookup(members, "plugins"@)
                matches Some(plugins) ==> lookup(all, "entries"@) == Some(normalized(plugins)))
            &&& lookup(members, "entries"@) is None && lookup(members, "plugins"@) is None ==> all
                == members
            &&& lookup(all, "groups"@) == lookup(members, "groups"@)
            &&& tree_of_value(Json::Object(members)) matches Ok(tree) ==> {
                &&& lookup(all, "entries"@) matches Some(list) ==> (list matches Json::Array(
                    entries,
                ) && entries_of(entries, 0) == Ok::<Seq<EntryModel>, Seq<char>>(tree.entries))
                &&& lookup(all, "entries"@) is None ==> tree.entries.len() == 0
                &&& lookup(all, "groups"@) matches Some(list) ==> (list matches Json::Array(groups)
                    && groups_decoded(groups, 0) == Ok::<Seq<GroupModel>, Seq<char>>(tree.groups))
                &&& lookup(all, "groups"@) is None ==> tree.groups.len() == 0
            }
        }),
{
    reveal_strlit("entries");
    reveal_strlit("plugins");
    reveal_strlit("groups");
    assert("entries"@[0] == 'e' && "plugins"@[0] == 'p' && "groups"@[0] == 'g');
    others_stay(members, "entries"@, "groups"@);
    others_stay(members, "plugins"@, "groups"@);
    match lookup(members, "entries"@) {
        Some(entries) => {
            let rest = without_member(members, "entries"@);
            set_member_is_readable(rest, "entries"@, normalized(entries));
            set_member_keeps_other_keys(rest, "entries"@, normalized(entries), "groups"@);
        },
        None => match lookup(members, "plugins"@) {
            Some(plugins) => {
                let rest = without_member(members, "plugins"@);
                set_member_is_readable(rest, "entries"@, normalized(plugins));
                set_member_keeps_other_keys(rest, "entries"@, normalized(plugins), "groups"@);
            },
            None => {},
        },
    }
}

proof fn others_stay(members: Seq<(Seq<char>, Json)>, key: Seq<char>, other: Seq<char>)
    requires
        other != key,
    ensures
        lookup(without_member(members, key), other) == lookup(members, other),
    decreases members.len(),
{
    if members.len() > 0 && members[0].0 != key {
        others_stay(members.drop_first(), key, other);
        let result = without_member(members, key);
        assert(result.drop_first() =~= without_member(members.drop_first(), key));
    }
}

/// A document is read as JSON if it is JSON, else as YAML if it is that; when
/// it is neither, both reasons are told.
pub proof fn documents_are_json_or_yaml(
    json: Result<Json, Seq<char>>,
    yaml: Result<Json, Seq<char>>,
)
    ensures
        json matches Ok(value) ==> chosen_document(json, yaml) == Ok::<Json, LoaderFailure>(value),
        json is Err ==> (yaml matches Ok(value) ==> chosen_document(json, yaml) == Ok::<
            Json,
            LoaderFailure,
        >(value)),
        json is Err && yaml is Err ==> (chosen_document(json, yaml) matches Err(
            LoaderFailure::Parse(message),
        ) && crate::text::occurs(message, json->Err_0) && crate::text::occurs(
            message,
            yaml->Err_0,
        )),
{
    if json is Err && yaml is Err {
        let a = json->Err_0;
        let b = yaml->Err_0;
        let message = "invalid JSON ("@ + a + ") or YAML ("@ + b + ")"@;
        crate::text_laws::parts_are_surrounded(message, a);
        crate::text_laws::parts_are_surrounded(message, b);
        assert(message =~= "invalid JSON ("@ + a + (") or YAML ("@ + b + ")"@));
        assert(message =~= ("invalid JSON ("@ + a + ") or YAML ("@) + b + ")"@);
    }
}

/// What a patch does to the entries of a tree, taken in tree order: a removal
/// takes out the first of that name, a replacement puts another in its place,
/// and a new configuration changes nothing of it but that. Each succeeds
/// exactly if the entry is there and, for a replacement, keeps its name.
pub proof fn patches_change_one_entry(tree: TreeModel, patch: Patch)
    ensures
        match patch {
            Patch::Remove { id } => match patched(tree, patch) {
                Ok(after) => exists|at: int|
                    0 <= at < flat(tree).len() && (#[trigger] flat(tree)[at]).options.id == id@
                        && flat(after) == flat(tree).remove(at),
                Err(_) => !occurs_in(tree, id@),
            },
            Patch::Update { id, entry } => match patched(tree, patch) {
                Ok(after) => entry@.options.id == id@ && exists|at: int|
                    0 <= at < flat(tree).len() && (#[trigger] flat(tree)[at]).options.id == id@
                        && flat(after) == flat(tree).update(at, entry@),
                Err(_) => entry@.options.id != id@ || !occurs_in(tree, id@),
            },
            Patch::UpdateConfig { id, config } => match patched(tree, patch) {
                Ok(after) => exists|at: int|
                    0 <= at < flat(tree).len() && (#[trigger] flat(tree)[at]).options.id == id@
                        && flat(after) == flat(tree).update(
                        at,
                        EntryModel {
                            options: OptionsModel { config: config@, ..flat(tree)[at].options },
                            ..flat(tree)[at]
                        },
                    ),
                Err(_) => !occurs_in(tree, id@),
            },
            Patch::Insert { entry, before: Some(target) } => match patched(tree, patch) {
                Ok(after) => exists|at: int|
                    0 <= at < flat(tree).len() && (#[trigger] flat(tree)[at]).options.id == target@
                        && flat(after) == flat(tree).insert(at, entry@),
                Err(_) => !occurs_in(tree, target@),
            },
            Patch::Insert { entry, before: None } => patched(tree, patch) matches Ok(after)
                && after == (TreeModel { entries: tree.entries.push(entry@), ..tree }),
            Patch::Move { .. } => true,
        },
{
    let all = flat(tree);
    match patch {
        Patch::Remove { id } => {
            one_edit(tree, id@, EditModel::Remove);
        },
        Patch::Update { id, entry } => {
            one_edit(tree, id@, EditModel::Replace(entry@));
        },
        Patch::UpdateConfig { id, config } => {
            one_edit(tree, id@, EditModel::Configure(config@));
            match patched(tree, patch) {
                Ok(after) => {
                    let at = place(all, id@)->0;
                    assert(flat(after) == all.update(
                        at,
                        EntryModel {
                            options: OptionsModel { config: config@, ..all[at].options },
                            ..all[at]
                        },
                    ));
                },
                Err(_) => {},
            }
        },
        Patch::Insert { entry, before } => match before {
            Some(target) => one_edit(tree, target@, EditModel::Precede(entry@)),
            None => {},
        },
        Patch::Move { .. } => {},
    }
}

proof fn one_edit(tree: TreeModel, id: Seq<char>, edit: EditModel)
    ensures
        match crate::patch::edited_tree(tree, id, edit) {
            Some(after) => place(flat(tree), id) matches Some(at) && 0 <= at < flat(tree).len()
                && flat(tree)[at].options.id == id && flat(after) == edited_list(
                flat(tree),
                at,
                edit,
            ),
            None => !occurs_in(tree, id),
        },
{
    edit_acts_on_tree_order(tree, id, edit);
    place_is_inside(flat(tree), id, 0);
    place_is_first(flat(tree), id, 0);
}

/// A file is written as YAML exactly if its extension is one of YAML's.
pub proof fn formats_follow_the_extension(extension: Option<Seq<char>>)
    ensures
        format_of(extension) == DocumentFormat::Yaml <==> (extension matches Some(text) && (text
            == "yaml"@ || text == "yml"@)),
        format_of(extension) == DocumentFormat::Json || format_of(extension)
            == DocumentFormat::Yaml,
{
}

proof fn strays_are_found(members: Seq<(Seq<char>, Json)>, from: int, shape: Shape)
    requires
        0 <= from,
    ensures
        unknown_key(members, from, shape) is None <==> forall|i: int|
            from <= i < members.len() ==> crate::decode::allows(shape, (#[trigger] members[i]).0),
    decreases members.len() - from,
{
    if from < members.len() {
        strays_are_found(members, from + 1, shape);
    }
}

/// The keys that a document may have: those of an entry, of a group and of a
/// tree. Anything with another key is refused.
pub proof fn documents_have_no_other_keys(value: Json)
    ensures
        entry_of(value) is Ok ==> (value matches Json::Object(members) && forall|i: int|
            0 <= i < members.len() ==> {
                let key = (#[trigger] members[i]).0;
                names_package(key) || key == "id"@ || key == "name"@ || key == "runtime"@ || key
                    == "config"@ || key == "inject"@ || key == "isolate"@ || key == "intercept"@
                    || key == "disabled"@ || key == "group"@
            }),
        group_decoded(value) is Ok ==> (record(value, group_fields(), 1) matches Json::Object(
            members,
        ) && forall|i: int|
            0 <= i < members.len() ==> {
                let key = (#[trigger] members[i]).0;
                key == "id"@ || key == "entries"@ || key == "groups"@ || key == "disabled"@
            }),
        tree_of_value(value) is Ok ==> (value matches Json::Object(given) ==> forall|i: int|
            0 <= i < tree_members(given).len() ==> {
                let key = (#[trigger] tree_members(given)[i]).0;
                key == "entries"@ || key == "groups"@
            }),
{
    match value {
        Json::Object(members) => {
            strays_are_found(members, 0, Shape::Entry);
            strays_are_found(tree_members(members), 0, Shape::Tree);
        },
        _ => {},
    }
    match record(value, group_fields(), 1) {
        Json::Object(members) => strays_are_found(members, 0, Shape::Group),
        _ => {},
    }
}

/// A tree is written exactly if it is valid and there is a file name to write
/// it under; what is written is the tree, in the format of the extension.
pub proof fn valid_trees_are_written(
    tree: TreeModel,
    extension: Option<Seq<char>>,
    file: Option<Seq<char>>,
    process: u64,
    number: u64,
    result: Result<crate::persist::Persistence, crate::error::LoaderError>,
)
    requires
        crate::persist::persists(tree, extension, file, process, number, result),
    ensures
        result is Ok <==> crate::tree::tree_fault(tree) is None && file is Some,
        result matches Ok(written) ==> written.document@ == crate::persist::tree_json(tree)
            && written.format == format_of(extension),
        result matches Err(error) ==> (crate::tree::tree_fault(tree) matches Some(failure)
            ==> error@ == failure),
{
}

}
