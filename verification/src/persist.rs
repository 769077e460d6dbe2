//! Entry trees as documents, and how a document replaces its predecessor.

use vstd::prelude::*;
use vstd::string::*;

use crate::decode::{
    allows, chosen_document, entries_of, entry_of, group_decoded, groups_decoded, is_package_key,
    package_from, texts_from, tree_of_document, tree_of_value, unknown_key, Shape,
};
use crate::error::{LoaderError, LoaderFailure};
use crate::json::{
    json_list, json_members, lemma_array_view, member_is_found, with_member, Json, JsonValue,
    Member,
};
use crate::loader::Loader;
use crate::text::{decimal, decimal_text, decimal_text_is_injective, occurs, same_text, text_list};
use crate::tree::{
    entry_list, group_list, lemma_group_view, tree_fault, Entry, EntryGroup, EntryModel, EntryTree,
    GroupModel, RuntimeKind, TreeModel,
};
use crate::wasm_runtime::json_texts;

verus! {

/// The name of a backend in a document.
pub open spec fn runtime_key(runtime: RuntimeKind) -> Seq<char> {
    match runtime {
        RuntimeKind::Native => "native"@,
        RuntimeKind::Wasm => "wasm"@,
        RuntimeKind::LegacyNode => "legacy-node"@,
    }
}

/// A text, or null when it is absent.
pub open spec fn text_or_null(text: Option<Seq<char>>) -> Json {
    match text {
        Some(text) => Json::String(text),
        None => Json::Null,
    }
}

/// The members of an entry's document.
pub open spec fn entry_members(entry: EntryModel) -> Seq<(Seq<char>, Json)> {
    let options = entry.options;
    seq![
        ("config"@, options.config),
        ("disabled"@, Json::Bool(options.disabled)),
        ("group"@, text_or_null(options.group)),
        ("id"@, Json::String(options.id)),
        ("inject"@, Json::Array(json_texts(options.inject))),
        ("intercept"@, options.intercept),
        ("isolate"@, Json::Array(json_texts(options.isolate))),
        ("name"@, text_or_null(options.name)),
        ("package"@, Json::String(entry.package)),
        ("runtime"@, Json::String(runtime_key(options.runtime))),
    ]
}

/// The document of an entry.
pub open spec fn entry_json(entry: EntryModel) -> Json {
    Json::Object(entry_members(entry))
}

/// The documents of entries.
pub open spec fn entries_json(entries: Seq<EntryModel>) -> Seq<Json> {
    Seq::new(entries.len(), |i: int| entry_json(entries[i]))
}

/// The members of a group's document.
pub open spec fn group_members(group: GroupModel) -> Seq<(Seq<char>, Json)>
    decreases group, 0int,
{
    seq![
        ("disabled"@, Json::Bool(group.disabled)),
        ("entries"@, Json::Array(entries_json(group.entries))),
        ("groups"@, Json::Array(groups_json(group.groups, 0))),
        ("id"@, Json::String(group.id)),
    ]
}

/// The documents of `groups[from..]`.
pub open spec fn groups_json(groups: Seq<GroupModel>, from: int) -> Seq<Json>
    decreases groups, groups.len() - from,
{
    if from < 0 || from >= groups.len() {
        Seq::empty()
    } else {
        seq![Json::Object(group_members(groups[from]))] + groups_json(groups, from + 1)
    }
}

/// The members of a tree's document.
pub open spec fn document_members(tree: TreeModel) -> Seq<(Seq<char>, Json)> {
    seq![
        ("entries"@, Json::Array(entries_json(tree.entries))),
        ("groups"@, Json::Array(groups_json(tree.groups, 0))),
    ]
}

/// The document of a tree.
pub open spec fn tree_json(tree: TreeModel) -> Json {
    Json::Object(document_members(tree))
}

fn text_values(texts: &Vec<String>) -> (result: JsonValue)
    ensures
        result@ == Json::Array(json_texts(text_list(texts@))),
{
    let mut values: Vec<JsonValue> = Vec::new();
    let mut i: usize = 0;
    while i < texts.len()
        invariant
            i <= texts@.len(),
            values@.len() == i,
            forall|k: int| 0 <= k < i ==> (#[trigger] values@[k])@ == Json::String(texts@[k]@),
        decreases texts@.len() - i,
    {
        let value = JsonValue::String(texts[i].clone());
        values.push(value);
        i += 1;
    }
    let result = JsonValue::Array(values);
    proof {
        lemma_array_view(result);
        assert(json_list(values@) =~= json_texts(text_list(texts@)));
    }
    result
}

fn text_value(text: &Option<String>) -> (result: JsonValue)
    ensures
        result@ == text_or_null(crate::error::optional_text(*text)),
{
    match text {
        Some(text) => JsonValue::String(text.clone()),
        None => JsonValue::Null,
    }
}

fn entry_value(entry: &Entry) -> (result: JsonValue)
    ensures
        result@ == entry_json(entry@),
{
    let options = &entry.options;
    let runtime = match options.runtime {
        RuntimeKind::Native => "native",
        RuntimeKind::Wasm => "wasm",
        RuntimeKind::LegacyNode => "legacy-node",
    };
    let disabled = JsonValue::Bool(options.disabled);
    let id = JsonValue::String(options.id.0.clone());
    let package = JsonValue::String(entry.package.clone());
    let kind = JsonValue::String(runtime.to_owned());
    let members = vec![
        Member { key: "config".to_owned(), value: options.config.clone() },
        Member { key: "disabled".to_owned(), value: disabled },
        Member { key: "group".to_owned(), value: text_value(&options.group) },
        Member { key: "id".to_owned(), value: id },
        Member { key: "inject".to_owned(), value: text_values(&options.inject) },
        Member { key: "intercept".to_owned(), value: options.intercept.clone() },
        Member { key: "isolate".to_owned(), value: text_values(&options.isolate) },
        Member { key: "name".to_owned(), value: text_value(&options.name) },
        Member { key: "package".to_owned(), value: package },
        Member { key: "runtime".to_owned(), value: kind },
    ];
    let result = JsonValue::Object(members);
    proof {
        lemma_array_view(result);
        assert(json_members(members@) =~= entry_members(entry@));
    }
    result
}

fn entry_values(entries: &Vec<Entry>) -> (result: JsonValue)
    ensures
        result@ == Json::Array(entries_json(entry_list(entries@))),
{
    let mut values: Vec<JsonValue> = Vec::new();
    let mut i: usize = 0;
    while i < entries.len()
        invariant
            i <= entries@.len(),
            values@.len() == i,
            forall|k: int| 0 <= k < i ==> (#[trigger] values@[k])@ == entry_json(entries@[k]@),
        decreases entries@.len() - i,
    {
        values.push(entry_value(&entries[i]));
        i += 1;
    }
    let result = JsonValue::Array(values);
    proof {
        lemma_array_view(result);
        assert(json_list(values@) =~= entries_json(entry_list(entries@)));
    }
    result
}

fn group_value(group: &EntryGroup) -> (result: JsonValue)
    ensures
        result@ == Json::Object(group_members(group@)),
    decreases *group,
{
    proof {
        lemma_group_view(*group);
    }
    let ghost models = group_list(group.groups@);
    let mut values: Vec<JsonValue> = Vec::new();
    let mut i: usize = 0;
    while i < group.groups.len()
        invariant
            i <= group.groups@.len(),
            models == group_list(group.groups@),
            values@.len() == i,
            forall|k: int|
                0 <= k < i ==> (#[trigger] values@[k])@ == Json::Object(group_members(models[k])),
        decreases group.groups@.len() - i,
    {
        assert(decreases_to!(*group => group.groups@[i as int]));
        values.push(group_value(&group.groups[i]));
        i += 1;
    }
    let groups = JsonValue::Array(values);
    let disabled = JsonValue::Bool(group.disabled);
    let id = JsonValue::String(group.id.clone());
    let members = vec![
        Member { key: "disabled".to_owned(), value: disabled },
        Member { key: "entries".to_owned(), value: entry_values(&group.entries) },
        Member { key: "groups".to_owned(), value: groups },
        Member { key: "id".to_owned(), value: id },
    ];
    let result = JsonValue::Object(members);
    proof {
        lemma_array_view(groups);
        lemma_array_view(result);
        group_documents(models, 0);
        assert(json_list(values@) =~= groups_json(models, 0));
        assert(json_members(members@) =~= group_members(group@));
    }
    result
}

proof fn group_documents(groups: Seq<GroupModel>, from: int)
    requires
        0 <= from <= groups.len(),
    ensures
        groups_json(groups, from).len() == groups.len() - from,
        forall|k: int|
            0 <= k < groups.len() - from ==> #[trigger] groups_json(groups, from)[k]
                == Json::Object(group_members(groups[from + k])),
    decreases groups.len() - from,
{
    if from < groups.len() {
        group_documents(groups, from + 1);
        let rest = groups_json(groups, from + 1);
        assert forall|k: int| 0 <= k < groups.len() - from implies #[trigger] groups_json(
            groups,
            from,
        )[k] == Json::Object(group_members(groups[from + k])) by {
            if k > 0 {
                assert(groups_json(groups, from)[k] == rest[k - 1]);
            }
        }
    }
}

/// How a document is written down.
#[derive(Clone, Copy, Debug, PartialEq, Eq, Structural)]
pub enum DocumentFormat {
    Json,
    Yaml,
}

/// The format that the extension of a file asks for.
pub open spec fn format_of(extension: Option<Seq<char>>) -> DocumentFormat {
    if extension == Some("yaml"@) || extension == Some("yml"@) {
        DocumentFormat::Yaml
    } else {
        DocumentFormat::Json
    }
}

/// The name of a file that is written before it takes the place of `file`. The
/// number is another one each time.
pub open spec fn temporary_name(file: Seq<char>, process: u64, number: u64) -> Seq<char> {
    "."@ + file + "."@ + decimal_text(process as nat) + "."@ + decimal_text(number as nat)
        + ".tmp"@
}

/// What to write: a document, first under another name in the same directory.
#[derive(Debug)]
pub struct Persistence {
    pub format: DocumentFormat,
    pub document: JsonValue,
    pub temporary: String,
}

/// What becomes of the wish to write a tree to a file.
pub open spec fn persists(
    tree: TreeModel,
    extension: Option<Seq<char>>,
    file: Option<Seq<char>>,
    process: u64,
    number: u64,
    result: Result<Persistence, LoaderError>,
) -> bool {
    match tree_fault(tree) {
        Some(failure) => result is Err && result->Err_0@ == failure,
        None => match file {
            None => result is Err && result->Err_0@ == LoaderFailure::Persistence(
                "persistence path has no file name"@,
            ),
            Some(file) => result is Ok && result->Ok_0.format == format_of(extension)
                && result->Ok_0.document@ == tree_json(tree) && result->Ok_0.temporary@
                == temporary_name(file, process, number),
        },
    }
}

/// The model of an optional text.
pub open spec fn given_text(text: Option<&str>) -> Option<Seq<char>> {
    match text {
        Some(text) => Some(text@),
        None => None,
    }
}

/// Decides how a tree that passes every rule is written to a file. `extension`
/// and `file` are those of the path; `process` and `number` tell this write
/// from others.
pub fn persist_entry_tree(
    tree: &EntryTree,
    extension: Option<&str>,
    file: Option<&str>,
    process: u64,
    number: u64,
) -> (result: Result<Persistence, LoaderError>)
    ensures
        persists(tree@, given_text(extension), given_text(file), process, number, result),
{
    match tree.validate() {
        Ok(()) => {},
        Err(error) => return Err(error),
    }
    let format = match extension {
        Some(extension) => if same_text(extension, "yaml") || same_text(extension, "yml") {
            DocumentFormat::Yaml
        } else {
            DocumentFormat::Json
        },
        None => DocumentFormat::Json,
    };
    let file = match file {
        Some(file) => file,
        None => return Err(
            LoaderError::Persistence("persistence path has no file name".to_owned()),
        ),
    };
    let mut temporary = ".".to_owned();
    temporary.append(file);
    temporary.append(".");
    temporary.append(decimal(process).as_str());
    temporary.append(".");
    temporary.append(decimal(number).as_str());
    temporary.append(".tmp");
    Ok(Persistence { format, document: tree.document(), temporary })
}

impl EntryTree {
    /// This tree as a document.
    pub fn document(&self) -> (result: JsonValue)
        ensures
            result@ == tree_json(self@),
    {
        let ghost models = group_list(self.groups@);
        let mut values: Vec<JsonValue> = Vec::new();
        let mut i: usize = 0;
        while i < self.groups.len()
            invariant
                i <= self.groups@.len(),
                models == group_list(self.groups@),
                values@.len() == i,
                forall|k: int|
                    0 <= k < i ==> (#[trigger] values@[k])@ == Json::Object(
                        group_members(models[k]),
                    ),
            decreases self.groups@.len() - i,
        {
            values.push(group_value(&self.groups[i]));
            i += 1;
        }
        let groups = JsonValue::Array(values);
        let members = vec![
            Member { key: "entries".to_owned(), value: entry_values(&self.entries) },
            Member { key: "groups".to_owned(), value: groups },
        ];
        let result = JsonValue::Object(members);
        proof {
            lemma_array_view(groups);
            lemma_array_view(result);
            group_documents(models, 0);
            assert(json_list(values@) =~= groups_json(models, 0));
            assert(json_members(members@) =~= document_members(self@));
        }
        result
    }

    /// Decides how this tree is written to a file.
    pub fn persist(
        &self,
        extension: Option<&str>,
        file: Option<&str>,
        process: u64,
        number: u64,
    ) -> (result: Result<Persistence, LoaderError>)
        ensures
            persists(self@, given_text(extension), given_text(file), process, number, result),
    {
        persist_entry_tree(self, extension, file, process, number)
    }
}

impl Loader {
    /// Decides how the committed tree is written to a file.
    pub fn persist(
        &self,
        extension: Option<&str>,
        file: Option<&str>,
        process: u64,
        number: u64,
    ) -> (result: Result<Persistence, LoaderError>)
        ensures
            persists(self.tree@, given_text(extension), given_text(file), process, number, result),
    {
        self.tree.persist(extension, file, process, number)
    }
}

proof fn key_names()
    ensures
        "config"@.len() == 6 && "config"@[0] == 'c',
        "disabled"@.len() == 8,
        "group"@.len() == 5,
        "id"@.len() == 2,
        "inject"@.len() == 6 && "inject"@[0] == 'i',
        "intercept"@.len() == 9,
        "isolate"@.len() == 7 && "isolate"@[0] == 'i',
        "name"@.len() == 4,
        "package"@.len() == 7 && "package"@[0] == 'p',
        "runtime"@.len() == 7 && "runtime"@[0] == 'r',
        "module"@.len() == 6 && "module"@[0] == 'm',
        "plugin"@.len() == 6 && "plugin"@[0] == 'p',
        "source"@.len() == 6 && "source"@[0] == 's',
        "entries"@.len() == 7 && "entries"@[0] == 'e',
        "groups"@.len() == 6 && "groups"@[0] == 'g',
        "native"@.len() == 6,
        "wasm"@.len() == 4,
        "legacy-node"@.len() == 11,
{
    reveal_strlit("config");
    reveal_strlit("disabled");
    reveal_strlit("group");
    reveal_strlit("id");
    reveal_strlit("inject");
    reveal_strlit("intercept");
    reveal_strlit("isolate");
    reveal_strlit("name");
    reveal_strlit("package");
    reveal_strlit("runtime");
    reveal_strlit("module");
    reveal_strlit("plugin");
    reveal_strlit("source");
    reveal_strlit("entries");
    reveal_strlit("groups");
    reveal_strlit("native");
    reveal_strlit("wasm");
    reveal_strlit("legacy-node");
}

proof fn known_keys(members: Seq<(Seq<char>, Json)>, from: int, shape: Shape)
    requires
        0 <= from,
        forall|j: int| from <= j < members.len() ==> allows(shape, (#[trigger] members[j]).0),
    ensures
        unknown_key(members, from, shape) is None,
    decreases members.len() - from,
{
    if from < members.len() {
        known_keys(members, from + 1, shape);
    }
}

proof fn one_package(members: Seq<(Seq<char>, Json)>, at: int, from: int)
    requires
        0 <= at < members.len(),
        0 <= from <= members.len(),
        forall|j: int|
            0 <= j < members.len() ==> (is_package_key((#[trigger] members[j]).0) <==> j == at),
    ensures
        package_from(
            members,
            from,
            if from <= at {
                None
            } else {
                Some(members[at].1)
            },
        ) == Ok::<Option<Json>, Seq<char>>(Some(members[at].1)),
    decreases members.len() - from,
{
    if from < members.len() {
        one_package(members, at, from + 1);
        assert(is_package_key(members[from].0) <==> from == at);
    }
}

proof fn texts_read_back(texts: Seq<Seq<char>>, from: int)
    requires
        0 <= from <= texts.len(),
    ensures
        texts_from(json_texts(texts), from) == Some(texts.subrange(from, texts.len() as int)),
    decreases texts.len() - from,
{
    if from < texts.len() {
        texts_read_back(texts, from + 1);
        assert(seq![texts[from]] + texts.subrange(from + 1, texts.len() as int) =~= texts.subrange(
            from,
            texts.len() as int,
        ));
    } else {
        assert(texts.subrange(from, texts.len() as int) =~= Seq::empty());
    }
}

/// The document of an entry reads as the entry.
pub proof fn documents_keep_entries(entry: EntryModel)
    ensures
        entry_of(entry_json(entry)) == Ok::<EntryModel, Seq<char>>(entry),
{
    let members = entry_members(entry);
    let options = entry.options;
    key_names();
    assert(members.len() == 10);
    assert forall|i: int, j: int| 0 <= i < j < members.len() implies (#[trigger] members[i]).0 != (
    #[trigger] members[j]).0 by {}
    known_keys(members, 0, Shape::Entry);
    one_package(members, 8, 0);
    member_is_found(members, 0);
    member_is_found(members, 1);
    member_is_found(members, 2);
    member_is_found(members, 3);
    member_is_found(members, 4);
    member_is_found(members, 5);
    member_is_found(members, 6);
    member_is_found(members, 7);
    member_is_found(members, 9);
    texts_read_back(options.inject, 0);
    texts_read_back(options.isolate, 0);
    assert(options.inject.subrange(0, options.inject.len() as int) =~= options.inject);
    assert(options.isolate.subrange(0, options.isolate.len() as int) =~= options.isolate);
}

proof fn entries_read_back(entries: Seq<EntryModel>, from: int)
    requires
        0 <= from <= entries.len(),
    ensures
        entries_of(entries_json(entries), from) == Ok::<Seq<EntryModel>, Seq<char>>(
            entries.subrange(from, entries.len() as int),
        ),
    decreases entries.len() - from,
{
    if from < entries.len() {
        entries_read_back(entries, from + 1);
        documents_keep_entries(entries[from]);
        assert(seq![entries[from]] + entries.subrange(from + 1, entries.len() as int)
            =~= entries.subrange(from, entries.len() as int));
    } else {
        assert(entries.subrange(from, entries.len() as int) =~= Seq::empty());
    }
}

proof fn group_reads_back(group: GroupModel)
    ensures
        group_decoded(Json::Object(group_members(group))) == Ok::<GroupModel, Seq<char>>(group),
    decreases group, 0int,
{
    let members = group_members(group);
    key_names();
    assert forall|i: int, j: int| 0 <= i < j < members.len() implies (#[trigger] members[i]).0 != (
    #[trigger] members[j]).0 by {}
    known_keys(members, 0, Shape::Group);
    member_is_found(members, 0);
    member_is_found(members, 1);
    member_is_found(members, 2);
    member_is_found(members, 3);
    entries_read_back(group.entries, 0);
    assert(group.entries.subrange(0, group.entries.len() as int) =~= group.entries);
    groups_read_back(group.groups, 0);
    assert(group.groups.subrange(0, group.groups.len() as int) =~= group.groups);
}

proof fn groups_read_back(groups: Seq<GroupModel>, from: int)
    requires
        0 <= from <= groups.len(),
    ensures
        groups_decoded(groups_json(groups, 0), from) == Ok::<Seq<GroupModel>, Seq<char>>(
            groups.subrange(from, groups.len() as int),
        ),
    decreases groups, groups.len() - from,
{
    group_documents(groups, 0);
    if from < groups.len() {
        groups_read_back(groups, from + 1);
        group_reads_back(groups[from]);
        assert(groups_json(groups, 0)[from] == Json::Object(group_members(groups[0 + from])));
        assert(seq![groups[from]] + groups.subrange(from + 1, groups.len() as int)
            =~= groups.subrange(from, groups.len() as int));
    } else {
        assert(groups.subrange(from, groups.len() as int) =~= Seq::empty());
    }
}

/// The document of a tree reads as the tree.
pub proof fn documents_keep_trees(tree: TreeModel)
    ensures
        tree_of_value(tree_json(tree)) == Ok::<TreeModel, LoaderFailure>(tree),
{
    let members = document_members(tree);
    key_names();
    member_is_found(members, 0);
    assert(members[0].0 != members[1].0);
    member_is_found(members, 1);
    let rest = crate::decode::without_member(members, "entries"@);
    assert(rest =~= seq![members[1]]);
    assert(with_member(rest, "entries"@, members[0].1) =~= members);
    assert(crate::decode::tree_members(members) == members);
    known_keys(members, 0, Shape::Tree);
    entries_read_back(tree.entries, 0);
    assert(tree.entries.subrange(0, tree.entries.len() as int) =~= tree.entries);
    groups_read_back(tree.groups, 0);
    assert(tree.groups.subrange(0, tree.groups.len() as int) =~= tree.groups);
}

/// A tree that passed every rule comes back from any text, JSON or YAML, that
/// holds its document and no `!!js`.
pub proof fn persisted_trees_read_back(
    tree: TreeModel,
    text: Seq<char>,
    json: Result<Json, Seq<char>>,
    yaml: Result<Json, Seq<char>>,
)
    requires
        tree_fault(tree) is None,
        !occurs(text, "!!js"@),
        chosen_document(json, yaml) == Ok::<Json, LoaderFailure>(tree_json(tree)),
    ensures
        tree_of_document(text, json, yaml) == Ok::<TreeModel, LoaderFailure>(tree),
{
    documents_keep_trees(tree);
}

/// A document is never written over the file that it is to replace, and two
/// writes of one process never share a name.
pub proof fn unfinished_documents_are_apart(file: Seq<char>, process: u64, a: u64, b: u64)
    ensures
        temporary_name(file, process, a) != file,
        a != b ==> temporary_name(file, process, a) != temporary_name(file, process, b),
{
    let prefix = "."@ + file + "."@ + decimal_text(process as nat) + "."@;
    let x = temporary_name(file, process, a);
    let y = temporary_name(file, process, b);
    reveal_strlit(".");
    reveal_strlit(".tmp");
    assert(x.len() > file.len());
    if x == y {
        let end = x.len() - ".tmp"@.len();
        assert(x.subrange(prefix.len() as int, end) =~= decimal_text(a as nat));
        assert(y.subrange(prefix.len() as int, end) =~= decimal_text(b as nat));
        decimal_text_is_injective(a as nat, b as nat);
    }
}

}
