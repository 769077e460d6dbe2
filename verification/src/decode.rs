//! Entry trees read from documents.

use vstd::prelude::*;
use vstd::string::*;

use crate::document::{json_of_text, parse_json, parse_yaml, yaml_of_text};
use crate::error::{optional_text, LoaderError, LoaderFailure};
use crate::forms::{
    as_merged_name, as_name, as_record, fields_are_smaller, merged_name, named, names_of, record,
};
use crate::json::{
    find_member, json_list, json_members, lemma_array_view, lookup, property, set_member, with_member, Json, JsonValue, Member,
};
use crate::patch::{accepted, tree_outcome};
use crate::text::{contains_part, join3, occurs, same_text, text_list};
use crate::tree::{
    entry_list, group_list, lemma_group_view, Entry, EntryGroup, EntryId, EntryModel,
    EntryOptions, EntryTree, GroupModel, OptionsModel, RuntimeKind, TreeModel,
};

verus! {

/// The message that a field is absent.
pub open spec fn missing_field(key: Seq<char>) -> Seq<char> {
    "missing field `"@ + key + "`"@
}

/// The message that a field is not what it should be.
pub open spec fn wrong_field(key: Seq<char>, wanted: Seq<char>) -> Seq<char> {
    "field `"@ + key + "` must be "@ + wanted
}

pub(crate) fn missing(key: &str) -> (result: String)
    ensures
        result@ == missing_field(key@),
{
    join3("missing field `", key, "`")
}

pub(crate) fn wrong(key: &str, wanted: &str) -> (result: String)
    ensures
        result@ == wrong_field(key@, wanted@),
{
    let mut message = join3("field `", key, "` must be ");
    message.append(wanted);
    message
}

/// A text field that must be there.
pub open spec fn text_field(members: Seq<(Seq<char>, Json)>, key: Seq<char>) -> Result<
    Seq<char>,
    Seq<char>,
> {
    match lookup(members, key) {
        None => Err(missing_field(key)),
        Some(Json::String(text)) => Ok(text),
        Some(_) => Err(wrong_field(key, "a string"@)),
    }
}

/// A name that must be there.
pub open spec fn name_field(members: Seq<(Seq<char>, Json)>, key: Seq<char>) -> Result<
    Seq<char>,
    Seq<char>,
> {
    match lookup(members, key) {
        None => Err(missing_field(key)),
        Some(value) => match named(value) {
            Json::String(text) => Ok(text),
            _ => Err(wrong_field(key, "a string"@)),
        },
    }
}

pub(crate) fn read_name(members: &Vec<Member>, key: &str) -> (result: Result<String, String>)
    ensures
        name_field(json_members(members@), key@) == (match result {
            Ok(text) => Ok::<Seq<char>, Seq<char>>(text@),
            Err(message) => Err::<Seq<char>, Seq<char>>(message@),
        }),
{
    match find_member(members, key) {
        None => Err(missing(key)),
        Some(at) => match as_name(&members[at].value).as_str() {
            Some(text) => Ok(text.to_owned()),
            None => Err(wrong(key, "a string")),
        },
    }
}

/// A text field that may be absent or null.
pub open spec fn optional_field(members: Seq<(Seq<char>, Json)>, key: Seq<char>) -> Result<
    Option<Seq<char>>,
    Seq<char>,
> {
    match lookup(members, key) {
        None => Ok(None),
        Some(Json::Null) => Ok(None),
        Some(Json::String(text)) => Ok(Some(text)),
        Some(_) => Err(wrong_field(key, "a string"@)),
    }
}

/// A flag that is off when it is absent.
pub open spec fn flag_field(members: Seq<(Seq<char>, Json)>, key: Seq<char>) -> Result<
    bool,
    Seq<char>,
> {
    match lookup(members, key) {
        None => Ok(false),
        Some(Json::Bool(flag)) => Ok(flag),
        Some(_) => Err(wrong_field(key, "a boolean"@)),
    }
}

/// A value that is an empty object when it is absent.
pub open spec fn value_field(members: Seq<(Seq<char>, Json)>, key: Seq<char>) -> Json {
    match lookup(members, key) {
        None => Json::Object(Seq::empty()),
        Some(value) => value,
    }
}

/// The texts of `values[from..]`; nothing when one is no text.
pub open spec fn texts_from(values: Seq<Json>, from: int) -> Option<Seq<Seq<char>>>
    decreases values.len() - from,
{
    if from < 0 || from >= values.len() {
        Some(Seq::empty())
    } else {
        match (values[from], texts_from(values, from + 1)) {
            (Json::String(text), Some(rest)) => Some(seq![text] + rest),
            _ => None,
        }
    }
}

/// A list of texts that is empty when it is absent.
pub open spec fn texts_field(members: Seq<(Seq<char>, Json)>, key: Seq<char>) -> Result<
    Seq<Seq<char>>,
    Seq<char>,
> {
    match lookup(members, key) {
        None => Ok(Seq::empty()),
        Some(Json::Array(values)) => match texts_from(values, 0) {
            Some(texts) => Ok(texts),
            None => Err(wrong_field(key, "a list of strings"@)),
        },
        Some(_) => Err(wrong_field(key, "a list of strings"@)),
    }
}

pub(crate) fn read_text(members: &Vec<Member>, key: &str) -> (result: Result<String, String>)
    ensures
        text_field(json_members(members@), key@) == (match result {
            Ok(text) => Ok::<Seq<char>, Seq<char>>(text@),
            Err(message) => Err::<Seq<char>, Seq<char>>(message@),
        }),
{
    match find_member(members, key) {
        None => Err(missing(key)),
        Some(at) => match members[at].value.as_str() {
            Some(text) => Ok(text.to_owned()),
            None => Err(wrong(key, "a string")),
        },
    }
}

pub(crate) fn read_optional(members: &Vec<Member>, key: &str) -> (result: Result<Option<String>, String>)
    ensures
        optional_field(json_members(members@), key@) == (match result {
            Ok(text) => Ok::<Option<Seq<char>>, Seq<char>>(optional_text(text)),
            Err(message) => Err::<Option<Seq<char>>, Seq<char>>(message@),
        }),
{
    match find_member(members, key) {
        None => Ok(None),
        Some(at) => match &members[at].value {
            JsonValue::Null => Ok(None),
            JsonValue::String(text) => Ok(Some(text.clone())),
            _ => Err(wrong(key, "a string")),
        },
    }
}

fn read_flag(members: &Vec<Member>, key: &str) -> (result: Result<bool, String>)
    ensures
        flag_field(json_members(members@), key@) == (match result {
            Ok(flag) => Ok::<bool, Seq<char>>(flag),
            Err(message) => Err::<bool, Seq<char>>(message@),
        }),
{
    match find_member(members, key) {
        None => Ok(false),
        Some(at) => match members[at].value.as_bool() {
            Some(flag) => Ok(flag),
            None => Err(wrong(key, "a boolean")),
        },
    }
}

fn read_value(members: &Vec<Member>, key: &str) -> (result: JsonValue)
    ensures
        result@ == value_field(json_members(members@), key@),
{
    match find_member(members, key) {
        None => {
            let result = JsonValue::Object(Vec::new());
            proof {
                lemma_array_view(result);
                assert(result@->Object_0 =~= Seq::empty());
            }
            result
        },
        Some(at) => members[at].value.clone(),
    }
}

pub(crate) fn read_text_list(values: &Vec<JsonValue>) -> (result: Option<Vec<String>>)
    ensures
        match result {
            Some(texts) => texts_from(json_list(values@), 0) == Some(text_list(texts@)),
            None => texts_from(json_list(values@), 0) is None,
        },
{
    let ghost model = json_list(values@);
    let mut texts: Vec<String> = Vec::new();
    let mut i: usize = 0;
    proof {
        assert(text_list(texts@) =~= Seq::empty());
        if texts_from(model, 0) is Some {
            assert(Seq::<Seq<char>>::empty() + texts_from(model, 0)->Some_0 =~= texts_from(
                model,
                0,
            )->Some_0);
        }
    }
    while i < values.len()
        invariant
            i <= values@.len(),
            model == json_list(values@),
            texts_from(model, 0) == (match texts_from(model, i as int) {
                Some(rest) => Some(text_list(texts@) + rest),
                None => None,
            }),
        decreases values@.len() - i,
    {
        assert(model[i as int] == values@[i as int]@);
        match values[i].as_str() {
            Some(text) => {
                let ghost before = text_list(texts@);
                texts.push(text.to_owned());
                proof {
                    assert(text_list(texts@) =~= before.push(text@));
                    if texts_from(model, i + 1) is Some {
                        let rest = texts_from(model, i + 1)->Some_0;
                        assert(before + (seq![text@] + rest) =~= text_list(texts@) + rest);
                    }
                }
            },
            None => {
                return None;
            },
        }
        i += 1;
    }
    assert(text_list(texts@) + Seq::<Seq<char>>::empty() =~= text_list(texts@));
    Some(texts)
}

pub(crate) fn read_texts(members: &Vec<Member>, key: &str) -> (result: Result<Vec<String>, String>)
    ensures
        texts_field(json_members(members@), key@) == (match result {
            Ok(texts) => Ok::<Seq<Seq<char>>, Seq<char>>(text_list(texts@)),
            Err(message) => Err::<Seq<Seq<char>>, Seq<char>>(message@),
        }),
{
    match find_member(members, key) {
        None => {
            let texts: Vec<String> = Vec::new();
            assert(text_list(texts@) =~= Seq::empty());
            Ok(texts)
        },
        Some(at) => match members[at].value.as_array() {
            None => Err(wrong(key, "a list of strings")),
            Some(values) => match read_text_list(values) {
                Some(texts) => Ok(texts),
                None => Err(wrong(key, "a list of strings")),
            },
        },
    }
}

/// The key is one of the names under which an entry gives its package.
pub open spec fn is_package_key(key: Seq<char>) -> bool {
    key == "package"@ || key == "module"@ || key == "plugin"@ || key == "source"@
}

/// The key is a field of an entry.
pub open spec fn is_entry_key(key: Seq<char>) -> bool {
    is_package_key(key) || key == "id"@ || key == "name"@ || key == "runtime"@ || key == "config"@
        || key == "inject"@ || key == "isolate"@ || key == "intercept"@ || key == "disabled"@
        || key == "group"@
}

/// The key is a field of a group.
pub open spec fn is_group_key(key: Seq<char>) -> bool {
    key == "id"@ || key == "entries"@ || key == "groups"@ || key == "disabled"@
}

/// The key is a field of a tree.
pub open spec fn is_tree_key(key: Seq<char>) -> bool {
    key == "entries"@ || key == "groups"@
}

/// What kind of object a key belongs to.
#[derive(Clone, Copy, PartialEq, Eq, Structural)]
pub enum Shape {
    Entry,
    Group,
    Tree,
}

/// The key is a field of an object of that shape.
pub open spec fn allows(shape: Shape, key: Seq<char>) -> bool {
    match shape {
        Shape::Entry => is_entry_key(key),
        Shape::Group => is_group_key(key),
        Shape::Tree => is_tree_key(key),
    }
}

/// The first key in `members[from..]` that is no field of the shape.
pub open spec fn unknown_key(members: Seq<(Seq<char>, Json)>, from: int, shape: Shape) -> Option<
    Seq<char>,
>
    decreases members.len() - from,
{
    if from < 0 || from >= members.len() {
        None
    } else if !allows(shape, members[from].0) {
        Some(members[from].0)
    } else {
        unknown_key(members, from + 1, shape)
    }
}

fn package_key(key: &str) -> (result: bool)
    ensures
        result == is_package_key(key@),
{
    same_text(key, "package") || same_text(key, "module") || same_text(key, "plugin")
        || same_text(key, "source")
}

fn allowed(shape: Shape, key: &str) -> (result: bool)
    ensures
        result == allows(shape, key@),
{
    match shape {
        Shape::Entry => package_key(key) || same_text(key, "id") || same_text(key, "name")
            || same_text(key, "runtime") || same_text(key, "config") || same_text(key, "inject")
            || same_text(key, "isolate") || same_text(key, "intercept") || same_text(
            key,
            "disabled",
        ) || same_text(key, "group"),
        Shape::Group => same_text(key, "id") || same_text(key, "entries") || same_text(
            key,
            "groups",
        ) || same_text(key, "disabled"),
        Shape::Tree => same_text(key, "entries") || same_text(key, "groups"),
    }
}

fn find_unknown(members: &Vec<Member>, shape: Shape) -> (result: Option<usize>)
    ensures
        match result {
            Some(at) => at < members@.len() && unknown_key(json_members(members@), 0, shape)
                == Some(members@[at as int].key@),
            None => unknown_key(json_members(members@), 0, shape) is None,
        },
{
    let ghost model = json_members(members@);
    let mut i: usize = 0;
    while i < members.len()
        invariant
            i <= members@.len(),
            model == json_members(members@),
            unknown_key(model, 0, shape) == unknown_key(model, i as int, shape),
        decreases members@.len() - i,
    {
        assert(model[i as int].0 == members@[i as int].key@);
        if !allowed(shape, members[i].key.as_str()) {
            return Some(i);
        }
        i += 1;
    }
    None
}

/// The message that a key is no field.
pub open spec fn unknown_field(key: Seq<char>) -> Seq<char> {
    "unknown field `"@ + key + "`"@
}

/// The value under the one package name that `members[from..]` use. `held` is
/// a value met before.
pub open spec fn package_from(
    members: Seq<(Seq<char>, Json)>,
    from: int,
    held: Option<Json>,
) -> Result<Option<Json>, Seq<char>>
    decreases members.len() - from,
{
    if from < 0 || from >= members.len() {
        Ok(held)
    } else if is_package_key(members[from].0) {
        if held is Some {
            Err("duplicate field `package`"@)
        } else {
            package_from(members, from + 1, Some(members[from].1))
        }
    } else {
        package_from(members, from + 1, held)
    }
}

/// The package of an entry.
pub open spec fn package_field(members: Seq<(Seq<char>, Json)>) -> Result<Seq<char>, Seq<char>> {
    match package_from(members, 0, None) {
        Err(message) => Err(message),
        Ok(None) => Err(missing_field("package"@)),
        Ok(Some(Json::String(text))) => Ok(text),
        Ok(Some(_)) => Err(wrong_field("package"@, "a string"@)),
    }
}

fn read_package(members: &Vec<Member>) -> (result: Result<String, String>)
    ensures
        package_field(json_members(members@)) == (match result {
            Ok(text) => Ok::<Seq<char>, Seq<char>>(text@),
            Err(message) => Err::<Seq<char>, Seq<char>>(message@),
        }),
{
    let ghost model = json_members(members@);
    let mut held: Option<usize> = None;
    let mut i: usize = 0;
    while i < members.len()
        invariant
            i <= members@.len(),
            model == json_members(members@),
            held matches Some(at) ==> at < i,
            package_from(model, 0, None) == package_from(
                model,
                i as int,
                match held {
                    Some(at) => Some(members@[at as int].value@),
                    None => None,
                },
            ),
        decreases members@.len() - i,
    {
        assert(model[i as int] == (members@[i as int].key@, members@[i as int].value@));
        if package_key(members[i].key.as_str()) {
            if held.is_some() {
                return Err("duplicate field `package`".to_owned());
            }
            held = Some(i);
        }
        i += 1;
    }
    match held {
        None => Err(missing("package")),
        Some(at) => match members[at].value.as_str() {
            Some(text) => Ok(text.to_owned()),
            None => Err(wrong("package", "a string")),
        },
    }
}

/// The backend that an entry names; the native one when it names none.
pub open spec fn runtime_field(members: Seq<(Seq<char>, Json)>) -> Result<RuntimeKind, Seq<char>> {
    match lookup(members, "runtime"@) {
        None => Ok(RuntimeKind::Native),
        Some(value) => match merged_name(value) {
            Json::String(name) => if name == "native"@ {
                Ok(RuntimeKind::Native)
            } else if name == "wasm"@ {
                Ok(RuntimeKind::Wasm)
            } else if name == "legacy-node"@ || name == "legacy_node"@ {
                Ok(RuntimeKind::LegacyNode)
            } else {
                Err("unknown runtime `"@ + name + "`"@)
            },
            _ => Err(wrong_field("runtime"@, "a string"@)),
        },
    }
}

fn read_runtime(members: &Vec<Member>) -> (result: Result<RuntimeKind, String>)
    ensures
        runtime_field(json_members(members@)) == (match result {
            Ok(kind) => Ok::<RuntimeKind, Seq<char>>(kind),
            Err(message) => Err::<RuntimeKind, Seq<char>>(message@),
        }),
{
    match find_member(members, "runtime") {
        None => Ok(RuntimeKind::Native),
        Some(at) => match as_merged_name(&members[at].value).as_str() {
            None => Err(wrong("runtime", "a string")),
            Some(name) => if same_text(name, "native") {
                Ok(RuntimeKind::Native)
            } else if same_text(name, "wasm") {
                Ok(RuntimeKind::Wasm)
            } else if same_text(name, "legacy-node") || same_text(name, "legacy_node") {
                Ok(RuntimeKind::LegacyNode)
            } else {
                Err(join3("unknown runtime `", name, "`"))
            },
        },
    }
}

/// The options that the fields of an entry give.
pub open spec fn options_of(members: Seq<(Seq<char>, Json)>) -> Result<OptionsModel, Seq<char>> {
    match text_field(members, "id"@) {
        Err(message) => Err(message),
        Ok(id) => match optional_field(members, "name"@) {
            Err(message) => Err(message),
            Ok(name) => match runtime_field(members) {
                Err(message) => Err(message),
                Ok(runtime) => match texts_field(members, "inject"@) {
                    Err(message) => Err(message),
                    Ok(inject) => match texts_field(members, "isolate"@) {
                        Err(message) => Err(message),
                        Ok(isolate) => match flag_field(members, "disabled"@) {
                            Err(message) => Err(message),
                            Ok(disabled) => match optional_field(members, "group"@) {
                                Err(message) => Err(message),
                                Ok(group) => Ok(
                                    OptionsModel {
                                        id,
                                        name,
                                        runtime,
                                        config: value_field(members, "config"@),
                                        inject,
                                        isolate,
                                        intercept: value_field(members, "intercept"@),
                                        disabled,
                                        group,
                                    },
                                ),
                            },
                        },
                    },
                },
            },
        },
    }
}

fn read_options(members: &Vec<Member>) -> (result: Result<EntryOptions, String>)
    ensures
        options_of(json_members(members@)) == (match result {
            Ok(options) => Ok::<OptionsModel, Seq<char>>(options@),
            Err(message) => Err::<OptionsModel, Seq<char>>(message@),
        }),
{
    let id = match read_text(members, "id") {
        Ok(id) => id,
        Err(message) => return Err(message),
    };
    let name = match read_optional(members, "name") {
        Ok(name) => name,
        Err(message) => return Err(message),
    };
    let runtime = match read_runtime(members) {
        Ok(runtime) => runtime,
        Err(message) => return Err(message),
    };
    let inject = match read_texts(members, "inject") {
        Ok(inject) => inject,
        Err(message) => return Err(message),
    };
    let isolate = match read_texts(members, "isolate") {
        Ok(isolate) => isolate,
        Err(message) => return Err(message),
    };
    let disabled = match read_flag(members, "disabled") {
        Ok(disabled) => disabled,
        Err(message) => return Err(message),
    };
    let group = match read_optional(members, "group") {
        Ok(group) => group,
        Err(message) => return Err(message),
    };
    Ok(
        EntryOptions {
            id: EntryId(id),
            name,
            runtime,
            config: read_value(members, "config"),
            inject,
            isolate,
            intercept: read_value(members, "intercept"),
            disabled,
            group,
        },
    )
}

/// The entry that a value gives.
pub open spec fn entry_of(value: Json) -> Result<EntryModel, Seq<char>> {
    match value {
        Json::Object(members) => match unknown_key(members, 0, Shape::Entry) {
            Some(key) => Err(unknown_field(key)),
            None => match package_field(members) {
                Err(message) => Err(message),
                Ok(package) => match options_of(members) {
                    Err(message) => Err(message),
                    Ok(options) => Ok(EntryModel { package, options }),
                },
            },
        },
        _ => Err("an entry must be an object"@),
    }
}

fn read_entry(value: &JsonValue) -> (result: Result<Entry, String>)
    ensures
        entry_of(value@) == (match result {
            Ok(entry) => Ok::<EntryModel, Seq<char>>(entry@),
            Err(message) => Err::<EntryModel, Seq<char>>(message@),
        }),
{
    let members = match value.as_object() {
        None => return Err("an entry must be an object".to_owned()),
        Some(members) => members,
    };
    if let Some(at) = find_unknown(members, Shape::Entry) {
        return Err(join3("unknown field `", members[at].key.as_str(), "`"));
    }
    let package = match read_package(members) {
        Ok(package) => package,
        Err(message) => return Err(message),
    };
    match read_options(members) {
        Ok(options) => Ok(Entry { package, options }),
        Err(message) => Err(message),
    }
}

/// The entries that `values[from..]` give, or the first failure.
pub open spec fn entries_of(values: Seq<Json>, from: int) -> Result<Seq<EntryModel>, Seq<char>>
    decreases values.len() - from,
{
    if from < 0 || from >= values.len() {
        Ok(Seq::empty())
    } else {
        match entry_of(values[from]) {
            Err(message) => Err(message),
            Ok(entry) => match entries_of(values, from + 1) {
                Err(message) => Err(message),
                Ok(rest) => Ok(seq![entry] + rest),
            },
        }
    }
}

fn read_entries(values: &Vec<JsonValue>) -> (result: Result<Vec<Entry>, String>)
    ensures
        entries_of(json_list(values@), 0) == (match result {
            Ok(entries) => Ok::<Seq<EntryModel>, Seq<char>>(entry_list(entries@)),
            Err(message) => Err::<Seq<EntryModel>, Seq<char>>(message@),
        }),
{
    let ghost model = json_list(values@);
    let ghost whole = entries_of(model, 0);
    let mut entries: Vec<Entry> = Vec::new();
    let mut i: usize = 0;
    proof {
        assert(entry_list(entries@) =~= Seq::empty());
        if whole is Ok {
            assert(Seq::<EntryModel>::empty() + whole->Ok_0 =~= whole->Ok_0);
        }
    }
    while i < values.len()
        invariant
            i <= values@.len(),
            model == json_list(values@),
            whole == entries_of(model, 0),
            whole == (match entries_of(model, i as int) {
                Ok(rest) => Ok::<Seq<EntryModel>, Seq<char>>(entry_list(entries@) + rest),
                Err(message) => Err::<Seq<EntryModel>, Seq<char>>(message),
            }),
        decreases values@.len() - i,
    {
        assert(model[i as int] == values@[i as int]@);
        match read_entry(&values[i]) {
            Err(message) => {
                return Err(message);
            },
            Ok(entry) => {
                let ghost before = entry_list(entries@);
                entries.push(entry);
                proof {
                    assert(entry_list(entries@) =~= before.push(entry@));
                    if entries_of(model, i + 1) is Ok {
                        let rest = entries_of(model, i + 1)->Ok_0;
                        assert(before + (seq![entry@] + rest) =~= entry_list(entries@) + rest);
                    }
                }
            },
        }
        i += 1;
    }
    assert(entry_list(entries@) + Seq::<EntryModel>::empty() =~= entry_list(entries@));
    Ok(entries)
}

/// The entries under the key `entries`; none when it is absent.
pub open spec fn entries_field(members: Seq<(Seq<char>, Json)>) -> Result<
    Seq<EntryModel>,
    Seq<char>,
> {
    match lookup(members, "entries"@) {
        None => Ok(Seq::empty()),
        Some(Json::Array(values)) => entries_of(values, 0),
        Some(_) => Err(wrong_field("entries"@, "a list"@)),
    }
}

fn read_entries_field(members: &Vec<Member>) -> (result: Result<Vec<Entry>, String>)
    ensures
        entries_field(json_members(members@)) == (match result {
            Ok(entries) => Ok::<Seq<EntryModel>, Seq<char>>(entry_list(entries@)),
            Err(message) => Err::<Seq<EntryModel>, Seq<char>>(message@),
        }),
{
    match find_member(members, "entries") {
        None => {
            let entries: Vec<Entry> = Vec::new();
            assert(entry_list(entries@) =~= Seq::empty());
            Ok(entries)
        },
        Some(at) => match members[at].value.as_array() {
            Some(values) => read_entries(values),
            None => Err(wrong("entries", "a list")),
        },
    }
}

/// The fields of a group, in order.
pub open spec fn group_fields() -> Seq<Seq<char>> {
    seq!["id"@, "entries"@, "groups"@, "disabled"@]
}

/// The group that a value gives.
pub open spec fn group_decoded(value: Json) -> Result<GroupModel, Seq<char>>
    decreases value, 0int,
{
    match record(value, group_fields(), 1) {
        Json::Object(members) => match unknown_key(members, 0, Shape::Group) {
            Some(key) => Err(unknown_field(key)),
            None => match text_field(members, "id"@) {
                Err(message) => Err(message),
                Ok(id) => match entries_field(members) {
                    Err(message) => Err(message),
                    Ok(entries) => {
                        proof {
                            fields_are_smaller(value, group_fields(), 1, "groups"@);
                        }
                        let nested = match property(
                            record(value, group_fields(), 1),
                            "groups"@,
                        ) {
                            None => Ok(Seq::empty()),
                            Some(Json::Array(values)) => groups_decoded(values, 0),
                            Some(_) => Err(wrong_field("groups"@, "a list"@)),
                        };
                        match nested {
                            Err(message) => Err(message),
                            Ok(groups) => match flag_field(members, "disabled"@) {
                                Err(message) => Err(message),
                                Ok(disabled) => Ok(GroupModel { id, entries, groups, disabled }),
                            },
                        }
                    },
                },
            },
        },
        _ => Err("a group must be an object"@),
    }
}

/// The groups that `values[from..]` give, or the first failure.
pub open spec fn groups_decoded(values: Seq<Json>, from: int) -> Result<
    Seq<GroupModel>,
    Seq<char>,
>
    decreases values, values.len() - from,
{
    if from < 0 || from >= values.len() {
        Ok(Seq::empty())
    } else {
        match group_decoded(values[from]) {
            Err(message) => Err(message),
            Ok(group) => match groups_decoded(values, from + 1) {
                Err(message) => Err(message),
                Ok(rest) => Ok(seq![group] + rest),
            },
        }
    }
}

/// The groups under the key `groups`; none when it is absent.
pub open spec fn groups_field(value: Json) -> Result<Seq<GroupModel>, Seq<char>> {
    match property(value, "groups"@) {
        None => Ok(Seq::empty()),
        Some(Json::Array(values)) => groups_decoded(values, 0),
        Some(_) => Err(wrong_field("groups"@, "a list"@)),
    }
}

fn read_groups(list: &JsonValue) -> (result: Result<Vec<EntryGroup>, String>)
    ensures
        (match list@ {
            Json::Array(values) => groups_decoded(values, 0),
            _ => Err::<Seq<GroupModel>, Seq<char>>(wrong_field("groups"@, "a list"@)),
        }) == (match result {
            Ok(groups) => Ok::<Seq<GroupModel>, Seq<char>>(group_list(groups@)),
            Err(message) => Err::<Seq<GroupModel>, Seq<char>>(message@),
        }),
    decreases list@, 0int,
{
    let mut groups: Vec<EntryGroup> = Vec::new();
    assert(group_list(groups@) =~= Seq::empty());
    let values = match list.as_array() {
        None => return Err(wrong("groups", "a list")),
        Some(values) => values,
    };
    let ghost model = json_list(values@);
    let ghost whole = groups_decoded(model, 0);
    let mut i: usize = 0;
    proof {
        if whole is Ok {
            assert(Seq::<GroupModel>::empty() + whole->Ok_0 =~= whole->Ok_0);
        }
    }
    while i < values.len()
        invariant
            i <= values@.len(),
            model == json_list(values@),
            list@ == Json::Array(model),
            whole == groups_decoded(model, 0),
            whole == (match groups_decoded(model, i as int) {
                Ok(rest) => Ok::<Seq<GroupModel>, Seq<char>>(group_list(groups@) + rest),
                Err(message) => Err::<Seq<GroupModel>, Seq<char>>(message),
            }),
        decreases values@.len() - i,
    {
        assert(model[i as int] == values@[i as int]@);
        assert(decreases_to!(list@ => list@->Array_0));
        assert(decreases_to!(model => model[i as int]));
        match read_group(&values[i]) {
            Err(message) => {
                return Err(message);
            },
            Ok(group) => {
                let ghost before = group_list(groups@);
                groups.push(group);
                proof {
                    assert(group_list(groups@) =~= before.push(group@));
                    if groups_decoded(model, i + 1) is Ok {
                        let rest = groups_decoded(model, i + 1)->Ok_0;
                        assert(before + (seq![group@] + rest) =~= group_list(groups@) + rest);
                    }
                }
            },
        }
        i += 1;
    }
    assert(group_list(groups@) + Seq::<GroupModel>::empty() =~= group_list(groups@));
    Ok(groups)
}

fn read_group(value: &JsonValue) -> (result: Result<EntryGroup, String>)
    ensures
        group_decoded(value@) == (match result {
            Ok(group) => Ok::<GroupModel, Seq<char>>(group@),
            Err(message) => Err::<GroupModel, Seq<char>>(message@),
        }),
    decreases value@, 1int,
{
    let fields = names_of(&["id", "entries", "groups", "disabled"]);
    assert(text_list(fields@) =~= group_fields());
    let plain = as_record(value, &fields, 1);
    let members = match plain.as_object() {
        None => return Err("a group must be an object".to_owned()),
        Some(members) => members,
    };
    if let Some(at) = find_unknown(members, Shape::Group) {
        return Err(join3("unknown field `", members[at].key.as_str(), "`"));
    }
    let id = match read_text(members, "id") {
        Ok(id) => id,
        Err(message) => return Err(message),
    };
    let entries = match read_entries_field(members) {
        Ok(entries) => entries,
        Err(message) => return Err(message),
    };
    let groups = match plain.get("groups") {
        None => {
            let groups: Vec<EntryGroup> = Vec::new();
            assert(group_list(groups@) =~= Seq::empty());
            groups
        },
        Some(list) => {
            proof {
                fields_are_smaller(value@, group_fields(), 1, "groups"@);
            }
            match read_groups(list) {
                Ok(groups) => groups,
                Err(message) => return Err(message),
            }
        },
    };
    let disabled = match read_flag(members, "disabled") {
        Ok(disabled) => disabled,
        Err(message) => return Err(message),
    };
    let group = EntryGroup { id, entries, groups, disabled };
    proof {
        lemma_group_view(group);
    }
    Ok(group)
}

/// The object that gives one entry of a keyed list: the key stands in for an
/// absent identifier, and the name or the key for an absent package.
pub open spec fn keyed_entry(id: Seq<char>, value: Json) -> Json {
    let given = match value {
        Json::Object(members) => members,
        _ => Seq::empty(),
    };
    let named = if lookup(given, "id"@) is None {
        with_member(given, "id"@, Json::String(id))
    } else {
        given
    };
    let complete = if lookup(named, "package"@) is None {
        let package = match lookup(named, "name"@) {
            Some(name) => name,
            None => Json::String(id),
        };
        with_member(named, "package"@, package)
    } else {
        named
    };
    Json::Object(complete)
}

/// A keyed list of entries as a plain list; any other value as it is.
pub open spec fn normalized(value: Json) -> Json {
    match value {
        Json::Object(members) => Json::Array(
            Seq::new(members.len(), |i: int| keyed_entry(members[i].0, members[i].1)),
        ),
        _ => value,
    }
}

fn clone_members(members: &Vec<Member>) -> (result: Vec<Member>)
    ensures
        json_members(result@) == json_members(members@),
{
    let mut result: Vec<Member> = Vec::new();
    let mut i: usize = 0;
    while i < members.len()
        invariant
            i <= members@.len(),
            result@.len() == i,
            forall|j: int|
                0 <= j < i ==> (#[trigger] result@[j]).key@ == members@[j].key@
                    && result@[j].value@ == members@[j].value@,
        decreases members@.len() - i,
    {
        result.push(
            Member { key: members[i].key.clone(), value: members[i].value.clone() },
        );
        i += 1;
    }
    assert(json_members(result@) =~= json_members(members@));
    result
}

fn complete_entry(id: &String, value: &JsonValue) -> (result: JsonValue)
    ensures
        result@ == keyed_entry(id@, value@),
{
    let mut members: Vec<Member> = match value.as_object() {
        Some(members) => clone_members(members),
        None => Vec::new(),
    };
    proof {
        if !(value@ is Object) {
            assert(json_members(members@) =~= Seq::empty());
        }
    }
    if find_member(&members, "id").is_none() {
        set_member(&mut members, "id".to_owned(), JsonValue::String(id.clone()));
    }
    if find_member(&members, "package").is_none() {
        let package = match find_member(&members, "name") {
            Some(at) => members[at].value.clone(),
            None => JsonValue::String(id.clone()),
        };
        set_member(&mut members, "package".to_owned(), package);
    }
    let result = JsonValue::Object(members);
    proof {
        lemma_array_view(result);
    }
    result
}

/// Turns a keyed list of entries into a plain list.
pub fn normalize_entries(value: &JsonValue) -> (result: JsonValue)
    ensures
        result@ == normalized(value@),
{
    let members = match value.as_object() {
        None => return value.clone(),
        Some(members) => members,
    };
    let ghost model = json_members(members@);
    let mut entries: Vec<JsonValue> = Vec::new();
    let mut i: usize = 0;
    while i < members.len()
        invariant
            i <= members@.len(),
            model == json_members(members@),
            entries@.len() == i,
            forall|j: int|
                0 <= j < i ==> (#[trigger] entries@[j])@ == keyed_entry(model[j].0, model[j].1),
        decreases members@.len() - i,
    {
        assert(model[i as int] == (members@[i as int].key@, members@[i as int].value@));
        entries.push(complete_entry(&members[i].key, &members[i].value));
        i += 1;
    }
    let result = JsonValue::Array(entries);
    proof {
        lemma_array_view(result);
        assert(result@->Array_0 =~= Seq::new(
            model.len(),
            |i: int| keyed_entry(model[i].0, model[i].1),
        ));
    }
    result
}

/// Members without the first one named `key`.
pub open spec fn without_member(members: Seq<(Seq<char>, Json)>, key: Seq<char>) -> Seq<
    (Seq<char>, Json),
>
    decreases members.len(),
{
    if members.len() == 0 {
        members
    } else if members[0].0 == key {
        members.drop_first()
    } else {
        seq![members[0]] + without_member(members.drop_first(), key)
    }
}

fn remove_member(members: &mut Vec<Member>, key: &str) -> (result: Option<JsonValue>)
    ensures
        json_members(final(members)@) == without_member(json_members(old(members)@), key@),
        match result {
            Some(value) => lookup(json_members(old(members)@), key@) == Some(value@),
            None => lookup(json_members(old(members)@), key@) is None,
        },
{
    let ghost model = json_members(members@);
    let mut i: usize = 0;
    assert(model.subrange(0, model.len() as int) =~= model);
    assert(model.subrange(0, 0) + without_member(model, key@) =~= without_member(model, key@));
    while i < members.len()
        invariant
            i <= members@.len(),
            members@ == old(members)@,
            model == json_members(old(members)@),
            lookup(model, key@) == lookup(model.subrange(i as int, model.len() as int), key@),
            without_member(model, key@) == model.subrange(0, i as int) + without_member(
                model.subrange(i as int, model.len() as int),
                key@,
            ),
        decreases members@.len() - i,
    {
        let ghost rest = model.subrange(i as int, model.len() as int);
        assert(rest[0] == model[i as int]);
        assert(rest.drop_first() =~= model.subrange(i + 1, model.len() as int));
        if same_text(members[i].key.as_str(), key) {
            let member = members.remove(i);
            assert(json_members(members@) =~= model.subrange(0, i as int) + rest.drop_first());
            return Some(member.value);
        }
        assert(model.subrange(0, i + 1) =~= model.subrange(0, i as int) + seq![rest[0]]);
        assert(without_member(model, key@) =~= model.subrange(0, i + 1) + without_member(
            rest.drop_first(),
            key@,
        ));
        i += 1;
    }
    assert(model.subrange(i as int, model.len() as int) =~= Seq::empty());
    assert(model.subrange(0, i as int) + Seq::<(Seq<char>, Json)>::empty() =~= model);
    None
}

/// The members of a tree document with its entries as a plain list. Entries
/// may be given under `plugins` when there is no `entries`.
pub open spec fn tree_members(members: Seq<(Seq<char>, Json)>) -> Seq<(Seq<char>, Json)> {
    match lookup(members, "entries"@) {
        Some(entries) => with_member(
            without_member(members, "entries"@),
            "entries"@,
            normalized(entries),
        ),
        None => match lookup(members, "plugins"@) {
            Some(plugins) => with_member(
                without_member(members, "plugins"@),
                "entries"@,
                normalized(plugins),
            ),
            None => members,
        },
    }
}

/// The tree that the members of a document give.
pub open spec fn tree_of_members(members: Seq<(Seq<char>, Json)>) -> Result<
    TreeModel,
    Seq<char>,
> {
    match unknown_key(members, 0, Shape::Tree) {
        Some(key) => Err(unknown_field(key)),
        None => match entries_field(members) {
            Err(message) => Err(message),
            Ok(entries) => match groups_field(Json::Object(members)) {
                Err(message) => Err(message),
                Ok(groups) => Ok(TreeModel { entries, groups }),
            },
        },
    }
}

/// The tree that a document gives: an entry list, or an object with entries
/// and groups.
pub open spec fn tree_of_value(value: Json) -> Result<TreeModel, LoaderFailure> {
    match value {
        Json::Array(values) => match entries_of(values, 0) {
            Err(message) => Err(LoaderFailure::Parse(message)),
            Ok(entries) => Ok(TreeModel { entries, groups: Seq::empty() }),
        },
        Json::Object(members) => match tree_of_members(tree_members(members)) {
            Err(message) => Err(LoaderFailure::Parse(message)),
            Ok(tree) => Ok(tree),
        },
        _ => Err(LoaderFailure::Parse("entry tree must be an object or entry list"@)),
    }
}

/// Reads a tree from the value of a document.
pub fn parse_tree_value(value: &JsonValue) -> (result: Result<EntryTree, LoaderError>)
    ensures
        tree_outcome(result) == tree_of_value(value@),
{
    if let Some(values) = value.as_array() {
        return match read_entries(values) {
            Ok(entries) => {
                let groups: Vec<EntryGroup> = Vec::new();
                assert(group_list(groups@) =~= Seq::empty());
                Ok(EntryTree { entries, groups })
            },
            Err(message) => Err(LoaderError::Parse(message)),
        };
    }
    let given = match value.as_object() {
        None => {
            return Err(
                LoaderError::Parse("entry tree must be an object or entry list".to_owned()),
            );
        },
        Some(given) => given,
    };
    let mut members = clone_members(given);
    if find_member(&members, "entries").is_none() {
        if find_member(&members, "plugins").is_some() {
            if let Some(plugins) = remove_member(&mut members, "plugins") {
                set_member(&mut members, "entries".to_owned(), normalize_entries(&plugins));
            }
        }
    } else if let Some(entries) = remove_member(&mut members, "entries") {
        set_member(&mut members, "entries".to_owned(), normalize_entries(&entries));
    }
    assert(json_members(members@) == tree_members(json_members(given@)));
    if let Some(at) = find_unknown(&members, Shape::Tree) {
        return Err(LoaderError::Parse(join3("unknown field `", members[at].key.as_str(), "`")));
    }
    let entries = match read_entries_field(&members) {
        Ok(entries) => entries,
        Err(message) => return Err(LoaderError::Parse(message)),
    };
    let object = JsonValue::Object(members);
    proof {
        lemma_array_view(object);
    }
    match object.get("groups") {
        None => {
            let groups: Vec<EntryGroup> = Vec::new();
            assert(group_list(groups@) =~= Seq::empty());
            Ok(EntryTree { entries, groups })
        },
        Some(list) => match read_groups(list) {
            Ok(groups) => Ok(EntryTree { entries, groups }),
            Err(message) => Err(LoaderError::Parse(message)),
        },
    }
}

/// The value of a document that is JSON or else YAML, given what each reader
/// makes of it.
pub open spec fn chosen_document(
    json: Result<Json, Seq<char>>,
    yaml: Result<Json, Seq<char>>,
) -> Result<Json, LoaderFailure> {
    match json {
        Ok(value) => Ok(value),
        Err(json_error) => match yaml {
            Ok(value) => Ok(value),
            Err(yaml_error) => Err(
                LoaderFailure::Parse(
                    "invalid JSON ("@ + json_error + ") or YAML ("@ + yaml_error + ")"@,
                ),
            ),
        },
    }
}

/// What a document gives, given what each reader makes of it: its tree, when
/// the tree passes every rule.
pub open spec fn tree_of_document(
    document: Seq<char>,
    json: Result<Json, Seq<char>>,
    yaml: Result<Json, Seq<char>>,
) -> Result<TreeModel, LoaderFailure> {
    if occurs(document, "!!js"@) {
        Err(
            LoaderFailure::Expression(
                "YAML !!js values must be handled by the legacy-node runtime"@,
            ),
        )
    } else {
        match chosen_document(json, yaml) {
            Err(failure) => Err(failure),
            Ok(value) => accepted(tree_of_value(value)),
        }
    }
}

/// Reads a tree from the value of a document and checks every rule on trees.
pub fn accept_tree_value(value: &JsonValue) -> (result: Result<EntryTree, LoaderError>)
    ensures
        tree_outcome(result) == accepted(tree_of_value(value@)),
{
    match parse_tree_value(value) {
        Err(error) => Err(error),
        Ok(tree) => match tree.validate() {
            Ok(()) => Ok(tree),
            Err(error) => Err(error),
        },
    }
}

/// Reads an entry tree from a JSON or YAML document.
pub fn parse_entry_tree(document: &str) -> (result: Result<EntryTree, LoaderError>)
    ensures
        tree_outcome(result) == tree_of_document(
            document@,
            json_of_text(document@),
            yaml_of_text(document@),
        ),
{
    if contains_part(document, "!!js") {
        return Err(
            LoaderError::Expression(
                "YAML !!js values must be handled by the legacy-node runtime".to_owned(),
            ),
        );
    }
    match parse_json(document) {
        Ok(value) => accept_tree_value(&value),
        Err(json_error) => match parse_yaml(document) {
            Ok(value) => accept_tree_value(&value),
            Err(yaml_error) => {
                let mut message = join3("invalid JSON (", json_error.as_str(), ") or YAML (");
                message.append(yaml_error.as_str());
                message.append(")");
                Err(LoaderError::Parse(message))
            },
        },
    }
}

impl EntryTree {
    /// Reads an entry tree from a JSON or YAML document.
    pub fn parse(document: &str) -> (result: Result<EntryTree, LoaderError>)
        ensures
            tree_outcome(result) == tree_of_document(
                document@,
                json_of_text(document@),
                yaml_of_text(document@),
            ),
    {
        parse_entry_tree(document)
    }
}

}
