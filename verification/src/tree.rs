//! The declarative entry tree: its rules, its order, and which entries are
//! active.

use vstd::prelude::*;
use vstd::string::*;

use crate::config::{
    contains_script, embedded_expression, embedded_reference, has_script_key,
};
use crate::error::{optional_text, LoaderError, LoaderFailure};
use crate::json::{
    find_member, json_list, json_members, lemma_array_view, lookup, Json, JsonValue,
};
use crate::text::{
    alphanumeric, blank, characters, clone_texts, has_prefix, holds_text, is_alphanumeric,
    is_blank, join2, join3, quoted, quoted_text, starts_with, text_list,
};

verus! {

/// A stable identifier for one configured runtime entry.
#[derive(Debug, PartialEq, Eq)]
pub struct EntryId(pub String);

impl View for EntryId {
    type V = Seq<char>;

    open spec fn view(&self) -> Seq<char> {
        self.0@
    }
}

impl Clone for EntryId {
    fn clone(&self) -> (result: Self)
        ensures
            result@ == self@,
    {
        EntryId(self.0.clone())
    }
}

/// A character that an identifier may hold besides letters and digits.
pub open spec fn is_joint(c: char) -> bool {
    c == '.' || c == '-' || c == '_' || c == ':'
}

/// A non-empty text of letters, digits and `.`, `-`, `_`, `:` that starts with
/// a letter or a digit.
pub open spec fn identifier_shape(text: Seq<char>) -> bool {
    text.len() > 0 && !is_joint(text[0]) && forall|i: int|
        0 <= i < text.len() ==> is_alphanumeric(#[trigger] text[i]) || is_joint(text[i])
}

/// Whether `text` is an identifier.
pub fn is_identifier(text: &str) -> (result: bool)
    ensures
        result == identifier_shape(text@),
{
    let chars = characters(text);
    if chars.len() == 0 {
        return false;
    }
    let first = chars[0];
    if first == '.' || first == '-' || first == '_' || first == ':' {
        return false;
    }
    let mut i: usize = 0;
    while i < chars.len()
        invariant
            i <= chars@.len(),
            chars@ == text@,
            forall|j: int| 0 <= j < i ==> is_alphanumeric(#[trigger] text@[j]) || is_joint(text@[j]),
        decreases chars@.len() - i,
    {
        let c = chars[i];
        if !(alphanumeric(c) || c == '.' || c == '-' || c == '_' || c == ':') {
            assert(!(is_alphanumeric(text@[i as int]) || is_joint(text@[i as int])));
            return false;
        }
        i += 1;
    }
    true
}

/// The message that refuses an entry identifier.
pub open spec fn bad_entry_id(text: Seq<char>) -> LoaderFailure {
    LoaderFailure::Validation(
        "entry id "@ + quoted_text(text) + " must be a non-empty identifier"@,
    )
}

impl EntryId {
    pub fn new(value: String) -> (result: Result<Self, LoaderError>)
        ensures
            match result {
                Ok(id) => identifier_shape(value@) && id@ == value@,
                Err(error) => !identifier_shape(value@) && error@ == bad_entry_id(value@),
            },
    {
        if is_identifier(value.as_str()) {
            Ok(EntryId(value))
        } else {
            Err(
                LoaderError::Validation(
                    join3(
                        "entry id ",
                        quoted(value.as_str()).as_str(),
                        " must be a non-empty identifier",
                    ),
                ),
            )
        }
    }

    pub fn as_str(&self) -> (result: &str)
        ensures
            result@ == self@,
    {
        self.0.as_str()
    }

    /// Whether both identifiers are the same text.
    pub fn same(&self, other: &EntryId) -> (result: bool)
        ensures
            result == (self@ == other@),
    {
        self.0 == other.0
    }
}

/// The supported plugin execution backends.
#[derive(Clone, Copy, Debug, PartialEq, Eq, PartialOrd, Ord, Hash, Structural)]
pub enum RuntimeKind {
    Native,
    Wasm,
    LegacyNode,
}

impl Default for RuntimeKind {
    fn default() -> (result: Self)
        ensures
            result == RuntimeKind::Native,
    {
        RuntimeKind::Native
    }
}

impl RuntimeKind {
    /// The name of the backend, as diagnostics show it.
    pub open spec fn spec_name(self) -> Seq<char> {
        match self {
            RuntimeKind::Native => "Native"@,
            RuntimeKind::Wasm => "Wasm"@,
            RuntimeKind::LegacyNode => "LegacyNode"@,
        }
    }

    /// The name of the backend, as diagnostics show it.
    pub fn name(self) -> (result: &'static str)
        ensures
            result@ == self.spec_name(),
    {
        match self {
            RuntimeKind::Native => "Native",
            RuntimeKind::Wasm => "Wasm",
            RuntimeKind::LegacyNode => "LegacyNode",
        }
    }
}

/// Declarative options shared by every entry runtime.
#[derive(Debug, PartialEq)]
pub struct EntryOptions {
    pub id: EntryId,
    pub name: Option<String>,
    pub runtime: RuntimeKind,
    pub config: JsonValue,
    pub inject: Vec<String>,
    pub isolate: Vec<String>,
    pub intercept: JsonValue,
    pub disabled: bool,
    pub group: Option<String>,
}

/// The model of an entry's options.
#[verifier::ext_equal]
pub struct OptionsModel {
    pub id: Seq<char>,
    pub name: Option<Seq<char>>,
    pub runtime: RuntimeKind,
    pub config: Json,
    pub inject: Seq<Seq<char>>,
    pub isolate: Seq<Seq<char>>,
    pub intercept: Json,
    pub disabled: bool,
    pub group: Option<Seq<char>>,
}

impl View for EntryOptions {
    type V = OptionsModel;

    open spec fn view(&self) -> OptionsModel {
        OptionsModel {
            id: self.id@,
            name: optional_text(self.name),
            runtime: self.runtime,
            config: self.config@,
            inject: text_list(self.inject@),
            isolate: text_list(self.isolate@),
            intercept: self.intercept@,
            disabled: self.disabled,
            group: optional_text(self.group),
        }
    }
}

fn clone_optional(text: &Option<String>) -> (result: Option<String>)
    ensures
        optional_text(result) == optional_text(*text),
{
    match text {
        Some(text) => Some(text.clone()),
        None => None,
    }
}

impl Clone for EntryOptions {
    fn clone(&self) -> (result: Self)
        ensures
            result@ == self@,
    {
        EntryOptions {
            id: self.id.clone(),
            name: clone_optional(&self.name),
            runtime: self.runtime,
            config: self.config.clone(),
            inject: clone_texts(&self.inject),
            isolate: clone_texts(&self.isolate),
            intercept: self.intercept.clone(),
            disabled: self.disabled,
            group: clone_optional(&self.group),
        }
    }
}

/// Some text of the list is blank.
pub open spec fn any_blank(texts: Seq<Seq<char>>) -> bool {
    exists|i: int| 0 <= i < texts.len() && blank(#[trigger] texts[i])
}

fn has_blank(texts: &Vec<String>) -> (result: bool)
    ensures
        result == any_blank(text_list(texts@)),
{
    let ghost model = text_list(texts@);
    let mut i: usize = 0;
    while i < texts.len()
        invariant
            i <= texts@.len(),
            model == text_list(texts@),
            forall|j: int| 0 <= j < i ==> !blank(#[trigger] model[j]),
        decreases texts@.len() - i,
    {
        assert(model[i as int] == texts@[i as int]@);
        if is_blank(texts[i].as_str()) {
            return true;
        }
        i += 1;
    }
    false
}

/// Why a configuration value is refused: its first embedded script, or its
/// first malformed expression object.
pub open spec fn config_fault(value: Json) -> Option<Seq<char>>
    decreases value, 0int,
{
    match value {
        Json::Array(values) => list_fault(values, 0),
        Json::Object(members) => if has_script_key(members) {
            Some("arbitrary JavaScript expressions are not supported"@)
        } else {
            match lookup(members, "$expr"@) {
                Some(expression) => match embedded_reference(members, expression) {
                    Ok(_) => None,
                    Err(message) => Some(message),
                },
                None => member_fault(members, 0),
            }
        },
        _ => None,
    }
}

/// The first fault in `values[from..]`.
pub open spec fn list_fault(values: Seq<Json>, from: int) -> Option<Seq<char>>
    decreases values, values.len() - from,
{
    if from < 0 || from >= values.len() {
        None
    } else {
        match config_fault(values[from]) {
            Some(message) => Some(message),
            None => list_fault(values, from + 1),
        }
    }
}

/// The first fault in the values of `members[from..]`.
pub open spec fn member_fault(members: Seq<(Seq<char>, Json)>, from: int) -> Option<Seq<char>>
    decreases members, members.len() - from,
{
    if from < 0 || from >= members.len() {
        None
    } else {
        match config_fault(members[from].1) {
            Some(message) => Some(message),
            None => member_fault(members, from + 1),
        }
    }
}

/// Looks for the first fault of a configuration value.
pub fn find_config_fault(value: &JsonValue) -> (result: Option<String>)
    ensures
        optional_text(result) == config_fault(value@),
    decreases *value,
{
    proof {
        lemma_array_view(*value);
    }
    match value {
        JsonValue::Array(values) => {
            let ghost model = json_list(values@);
            let mut i: usize = 0;
            while i < values.len()
                invariant
                    i <= values@.len(),
                    decreases_to!(*value => values@),
                    model == json_list(values@),
                    config_fault(value@) == list_fault(model, i as int),
                decreases values@.len() - i,
            {
                assert(model[i as int] == values@[i as int]@);
                if let Some(message) = find_config_fault(&values[i]) {
                    return Some(message);
                }
                i += 1;
            }
            None
        },
        JsonValue::Object(members) => {
            let ghost model = json_members(members@);
            if contains_script(members) {
                return Some("arbitrary JavaScript expressions are not supported".to_owned());
            }
            if let Some(at) = find_member(members, "$expr") {
                return match embedded_expression(members, &members[at].value) {
                    Ok(_) => None,
                    Err(message) => Some(message),
                };
            }
            let mut i: usize = 0;
            while i < members.len()
                invariant
                    i <= members@.len(),
                    decreases_to!(*value => members@),
                    model == json_members(members@),
                    config_fault(value@) == member_fault(model, i as int),
                decreases members@.len() - i,
            {
                assert(model[i as int].1 == members@[i as int].value@);
                if let Some(message) = find_config_fault(&members[i].value) {
                    return Some(message);
                }
                i += 1;
            }
            None
        },
        _ => None,
    }
}

/// Why options are refused: the first rule, in order, that they break.
pub open spec fn options_fault(options: OptionsModel) -> Option<LoaderFailure> {
    if !identifier_shape(options.id) {
        Some(bad_entry_id(options.id))
    } else if options.name is Some && blank(options.name->Some_0) {
        Some(LoaderFailure::Validation("entry "@ + options.id + " has a blank name"@))
    } else if any_blank(options.inject) {
        Some(LoaderFailure::Validation("entry "@ + options.id + " has a blank inject item"@))
    } else if any_blank(options.isolate) {
        Some(LoaderFailure::Validation("entry "@ + options.id + " has a blank isolate item"@))
    } else if options.group is Some && !identifier_shape(options.group->Some_0) {
        Some(LoaderFailure::Validation("entry "@ + options.id + " has an invalid group"@))
    } else {
        match config_fault(options.config) {
            Some(message) => Some(LoaderFailure::Expression(message)),
            None => match config_fault(options.intercept) {
                Some(message) => Some(LoaderFailure::Expression(message)),
                None => None,
            },
        }
    }
}

/// A check that passes, or the failure that it reports.
pub open spec fn fault_of(result: Result<(), LoaderError>) -> Option<LoaderFailure> {
    match result {
        Ok(()) => None,
        Err(error) => Some(error@),
    }
}

fn entry_message(id: &EntryId, problem: &str) -> (result: LoaderError)
    ensures
        result@ == LoaderFailure::Validation("entry "@ + id@ + problem@),
{
    LoaderError::Validation(join3("entry ", id.as_str(), problem))
}

impl EntryOptions {
    /// Checks every rule on options.
    pub fn validate(&self) -> (result: Result<(), LoaderError>)
        ensures
            fault_of(result) == options_fault(self@),
    {
        match EntryId::new(self.id.0.clone()) {
            Ok(_) => {},
            Err(error) => {
                return Err(error);
            },
        }
        if let Some(name) = &self.name {
            if is_blank(name.as_str()) {
                return Err(entry_message(&self.id, " has a blank name"));
            }
        }
        if has_blank(&self.inject) {
            return Err(entry_message(&self.id, " has a blank inject item"));
        }
        if has_blank(&self.isolate) {
            return Err(entry_message(&self.id, " has a blank isolate item"));
        }
        if let Some(group) = &self.group {
            if !is_identifier(group.as_str()) {
                return Err(entry_message(&self.id, " has an invalid group"));
            }
        }
        if let Some(message) = find_config_fault(&self.config) {
            return Err(LoaderError::Expression(message));
        }
        if let Some(message) = find_config_fault(&self.intercept) {
            return Err(LoaderError::Expression(message));
        }
        Ok(())
    }
}

/// One package-backed entry.
#[derive(Debug, PartialEq)]
pub struct Entry {
    pub package: String,
    pub options: EntryOptions,
}

/// The model of an entry.
#[verifier::ext_equal]
pub struct EntryModel {
    pub package: Seq<char>,
    pub options: OptionsModel,
}

impl View for Entry {
    type V = EntryModel;

    open spec fn view(&self) -> EntryModel {
        EntryModel { package: self.package@, options: self.options@ }
    }
}

impl Clone for Entry {
    fn clone(&self) -> (result: Self)
        ensures
            result@ == self@,
    {
        Entry { package: self.package.clone(), options: self.options.clone() }
    }
}

/// The models of a list of entries.
pub open spec fn entry_list(entries: Seq<Entry>) -> Seq<EntryModel> {
    Seq::new(entries.len(), |i: int| entries[i]@)
}

/// Copies a list of entries.
pub fn clone_entries(entries: &Vec<Entry>) -> (result: Vec<Entry>)
    ensures
        entry_list(result@) == entry_list(entries@),
{
    let mut result: Vec<Entry> = Vec::new();
    let mut i: usize = 0;
    while i < entries.len()
        invariant
            i <= entries@.len(),
            result@.len() == i,
            forall|j: int| 0 <= j < i ==> (#[trigger] result@[j])@ == entries@[j]@,
        decreases entries@.len() - i,
    {
        result.push(entries[i].clone());
        i += 1;
    }
    assert(entry_list(result@) =~= entry_list(entries@));
    result
}

/// Why an entry is refused.
pub open spec fn entry_fault(entry: EntryModel) -> Option<LoaderFailure> {
    if blank(entry.package) {
        Some(LoaderFailure::Validation("entry "@ + entry.options.id + " has a blank package"@))
    } else {
        options_fault(entry.options)
    }
}

impl Entry {
    pub fn new(package: String, options: EntryOptions) -> (result: Self)
        ensures
            result@ == (EntryModel { package: package@, options: options@ }),
    {
        Entry { package, options }
    }

    /// Checks every rule on an entry.
    pub fn validate(&self) -> (result: Result<(), LoaderError>)
        ensures
            fault_of(result) == entry_fault(self@),
    {
        if is_blank(self.package.as_str()) {
            return Err(entry_message(&self.options.id, " has a blank package"));
        }
        self.options.validate()
    }
}

/// A nested, ordered group of entries. A disabled group suppresses every
/// nested entry without changing its persisted configuration.
#[derive(Debug, PartialEq)]
pub struct EntryGroup {
    pub id: String,
    pub entries: Vec<Entry>,
    pub groups: Vec<EntryGroup>,
    pub disabled: bool,
}

/// The model of a group.
#[verifier::ext_equal]
pub struct GroupModel {
    pub id: Seq<char>,
    pub entries: Seq<EntryModel>,
    pub groups: Seq<GroupModel>,
    pub disabled: bool,
}

/// The model of one group.
pub open spec fn group_of(group: EntryGroup) -> GroupModel
    decreases group,
{
    GroupModel {
        id: group.id@,
        entries: entry_list(group.entries@),
        groups: Seq::new(
            group.groups@.len(),
            |i: int|
                if 0 <= i < group.groups@.len() {
                    group_of(group.groups@[i])
                } else {
                    arbitrary()
                },
        ),
        disabled: group.disabled,
    }
}

impl View for EntryGroup {
    type V = GroupModel;

    open spec fn view(&self) -> GroupModel {
        group_of(*self)
    }
}

/// The models of a list of groups.
pub open spec fn group_list(groups: Seq<EntryGroup>) -> Seq<GroupModel> {
    Seq::new(groups.len(), |i: int| groups[i]@)
}

/// The model of a group lists the models of its nested groups.
pub proof fn lemma_group_view(group: EntryGroup)
    ensures
        group@ == (GroupModel {
            id: group.id@,
            entries: entry_list(group.entries@),
            groups: group_list(group.groups@),
            disabled: group.disabled,
        }),
{
    assert(group@.groups =~= group_list(group.groups@));
}

impl Clone for EntryGroup {
    fn clone(&self) -> (result: Self)
        ensures
            result@ == self@,
        decreases *self,
    {
        let mut groups: Vec<EntryGroup> = Vec::new();
        let mut i: usize = 0;
        while i < self.groups.len()
            invariant
                i <= self.groups@.len(),
                groups@.len() == i,
                forall|j: int| 0 <= j < i ==> (#[trigger] groups@[j])@ == self.groups@[j]@,
            decreases self.groups@.len() - i,
        {
            assert(decreases_to!(*self => self.groups@[i as int]));
            groups.push(self.groups[i].clone());
            i += 1;
        }
        let result = EntryGroup {
            id: self.id.clone(),
            entries: clone_entries(&self.entries),
            groups,
            disabled: self.disabled,
        };
        proof {
            lemma_group_view(*self);
            lemma_group_view(result);
            assert(group_list(groups@) =~= group_list(self.groups@));
        }
        result
    }
}

/// The persistable declarative loader configuration.
#[derive(Debug, PartialEq)]
pub struct EntryTree {
    pub entries: Vec<Entry>,
    pub groups: Vec<EntryGroup>,
}

/// The model of a tree.
#[verifier::ext_equal]
pub struct TreeModel {
    pub entries: Seq<EntryModel>,
    pub groups: Seq<GroupModel>,
}

impl View for EntryTree {
    type V = TreeModel;

    open spec fn view(&self) -> TreeModel {
        TreeModel { entries: entry_list(self.entries@), groups: group_list(self.groups@) }
    }
}

impl Clone for EntryTree {
    fn clone(&self) -> (result: Self)
        ensures
            result@ == self@,
    {
        let mut groups: Vec<EntryGroup> = Vec::new();
        let mut i: usize = 0;
        while i < self.groups.len()
            invariant
                i <= self.groups@.len(),
                groups@.len() == i,
                forall|j: int| 0 <= j < i ==> (#[trigger] groups@[j])@ == self.groups@[j]@,
            decreases self.groups@.len() - i,
        {
            groups.push(self.groups[i].clone());
            i += 1;
        }
        let result = EntryTree { entries: clone_entries(&self.entries), groups };
        assert(group_list(groups@) =~= group_list(self.groups@));
        result
    }
}

impl Default for EntryTree {
    fn default() -> (result: Self)
        ensures
            result@ == (TreeModel { entries: Seq::empty(), groups: Seq::empty() }),
    {
        let result = EntryTree { entries: Vec::new(), groups: Vec::new() };
        assert(result@.entries =~= Seq::empty());
        assert(result@.groups =~= Seq::empty());
        result
    }
}

/// The names seen while a tree is checked.
#[verifier::ext_equal]
pub struct Names {
    pub ids: Seq<Seq<char>>,
    pub groups: Seq<Seq<char>>,
}

/// The entry identifiers after `entries[from..]` passed every rule and were
/// added to `ids`, or the first failure.
pub open spec fn checked_entries(
    entries: Seq<EntryModel>,
    from: int,
    ids: Seq<Seq<char>>,
) -> Result<Seq<Seq<char>>, LoaderFailure>
    decreases entries.len() - from,
{
    if from < 0 || from >= entries.len() {
        Ok(ids)
    } else {
        match entry_fault(entries[from]) {
            Some(failure) => Err(failure),
            None => if ids.contains(entries[from].options.id) {
                Err(
                    LoaderFailure::Validation("duplicate entry id "@ + entries[from].options.id),
                )
            } else {
                checked_entries(entries, from + 1, ids.push(entries[from].options.id))
            },
        }
    }
}

/// The full name of a group inside the group named `parent`.
pub open spec fn qualified(parent: Seq<char>, id: Seq<char>) -> Seq<char> {
    if parent.len() == 0 || starts_with(id, parent + "."@) {
        id
    } else {
        parent + "."@ + id
    }
}

/// The names seen after `group` passed every rule, or the first failure.
pub open spec fn checked_group(group: GroupModel, parent: Seq<char>, names: Names) -> Result<
    Names,
    LoaderFailure,
>
    decreases group, 0int,
{
    let name = qualified(parent, group.id);
    if !identifier_shape(group.id) {
        Err(
            LoaderFailure::Validation(
                "group id "@ + quoted_text(group.id) + " must be a non-empty identifier"@,
            ),
        )
    } else if names.groups.contains(name) {
        Err(LoaderFailure::Validation("duplicate group id "@ + quoted_text(name)))
    } else {
        match checked_entries(group.entries, 0, names.ids) {
            Err(failure) => Err(failure),
            Ok(ids) => checked_groups(
                group.groups,
                0,
                name,
                Names { ids, groups: names.groups.push(name) },
            ),
        }
    }
}

/// The names seen after `groups[from..]` passed every rule, or the first
/// failure.
pub open spec fn checked_groups(
    groups: Seq<GroupModel>,
    from: int,
    parent: Seq<char>,
    names: Names,
) -> Result<Names, LoaderFailure>
    decreases groups, groups.len() - from,
{
    if from < 0 || from >= groups.len() {
        Ok(names)
    } else {
        match checked_group(groups[from], parent, names) {
            Err(failure) => Err(failure),
            Ok(seen) => checked_groups(groups, from + 1, parent, seen),
        }
    }
}

/// The names in a tree that passes every rule, or the first failure.
pub open spec fn checked_tree(tree: TreeModel) -> Result<Names, LoaderFailure> {
    match checked_entries(tree.entries, 0, Seq::empty()) {
        Err(failure) => Err(failure),
        Ok(ids) => checked_groups(
            tree.groups,
            0,
            Seq::empty(),
            Names { ids, groups: Seq::empty() },
        ),
    }
}

/// Why a tree is refused.
pub open spec fn tree_fault(tree: TreeModel) -> Option<LoaderFailure> {
    match checked_tree(tree) {
        Ok(_) => None,
        Err(failure) => Some(failure),
    }
}

fn check_entries(entries: &Vec<Entry>, ids: &mut Vec<String>) -> (result: Result<(), LoaderError>)
    ensures
        match result {
            Ok(()) => checked_entries(entry_list(entries@), 0, text_list(old(ids)@)) == Ok::<
                Seq<Seq<char>>,
                LoaderFailure,
            >(text_list(final(ids)@)),
            Err(error) => checked_entries(entry_list(entries@), 0, text_list(old(ids)@)) == Err::<
                Seq<Seq<char>>,
                LoaderFailure,
            >(error@),
        },
{
    let ghost model = entry_list(entries@);
    let ghost start = text_list(ids@);
    let mut i: usize = 0;
    while i < entries.len()
        invariant
            i <= entries@.len(),
            model == entry_list(entries@),
            start == text_list(old(ids)@),
            checked_entries(model, 0, start) == checked_entries(
                model,
                i as int,
                text_list(ids@),
            ),
        decreases entries@.len() - i,
    {
        let entry = &entries[i];
        assert(model[i as int] == entry@);
        match entry.validate() {
            Ok(()) => {},
            Err(error) => {
                return Err(error);
            },
        }
        if holds_text(ids, &entry.options.id.0) {
            return Err(
                LoaderError::Validation(join2("duplicate entry id ", entry.options.id.as_str())),
            );
        }
        let ghost before = text_list(ids@);
        ids.push(entry.options.id.0.clone());
        assert(text_list(ids@) =~= before.push(entry.options.id@));
        i += 1;
    }
    Ok(())
}

fn qualified_name(parent: &str, id: &str) -> (result: String)
    ensures
        result@ == qualified(parent@, id@),
{
    if parent.is_empty() || has_prefix(id, join2(parent, ".").as_str()) {
        id.to_owned()
    } else {
        join3(parent, ".", id)
    }
}

fn check_group(
    group: &EntryGroup,
    parent: &str,
    ids: &mut Vec<String>,
    groups: &mut Vec<String>,
) -> (result: Result<(), LoaderError>)
    ensures
        checked_group(
            group@,
            parent@,
            Names { ids: text_list(old(ids)@), groups: text_list(old(groups)@) },
        ) == (match result {
            Ok(()) => Ok::<Names, LoaderFailure>(
                Names { ids: text_list(final(ids)@), groups: text_list(final(groups)@) },
            ),
            Err(error) => Err::<Names, LoaderFailure>(error@),
        }),
    decreases *group,
{
    proof {
        lemma_group_view(*group);
    }
    if !is_identifier(group.id.as_str()) {
        return Err(
            LoaderError::Validation(
                join3(
                    "group id ",
                    quoted(group.id.as_str()).as_str(),
                    " must be a non-empty identifier",
                ),
            ),
        );
    }
    let name = qualified_name(parent, group.id.as_str());
    if holds_text(groups, &name) {
        return Err(
            LoaderError::Validation(
                join2("duplicate group id ", quoted(name.as_str()).as_str()),
            ),
        );
    }
    let ghost before = text_list(groups@);
    groups.push(name.clone());
    assert(text_list(groups@) =~= before.push(name@));
    match check_entries(&group.entries, ids) {
        Ok(()) => {},
        Err(error) => {
            return Err(error);
        },
    }
    let ghost model = group_list(group.groups@);
    let ghost whole = checked_groups(
        model,
        0,
        name@,
        Names { ids: text_list(ids@), groups: text_list(groups@) },
    );
    let ghost expected = checked_group(
        group@,
        parent@,
        Names { ids: text_list(old(ids)@), groups: text_list(old(groups)@) },
    );
    let mut i: usize = 0;
    while i < group.groups.len()
        invariant
            i <= group.groups@.len(),
            model == group_list(group.groups@),
            expected == checked_group(
                group@,
                parent@,
                Names { ids: text_list(old(ids)@), groups: text_list(old(groups)@) },
            ),
            expected == checked_groups(
                model,
                i as int,
                name@,
                Names { ids: text_list(ids@), groups: text_list(groups@) },
            ),
        decreases group.groups@.len() - i,
    {
        assert(model[i as int] == group.groups@[i as int]@);
        assert(decreases_to!(*group => group.groups@[i as int]));
        match check_group(&group.groups[i], name.as_str(), ids, groups) {
            Ok(()) => {},
            Err(error) => {
                return Err(error);
            },
        }
        i += 1;
    }
    Ok(())
}

/// The entries of `groups[from..]`, each group before the next, and in each
/// group its own entries before those of its nested groups.
pub open spec fn flat_groups(groups: Seq<GroupModel>, from: int) -> Seq<EntryModel>
    decreases groups, groups.len() - from,
{
    if from < 0 || from >= groups.len() {
        Seq::empty()
    } else {
        groups[from].entries + flat_groups(groups[from].groups, 0) + flat_groups(groups, from + 1)
    }
}

/// Every entry of a tree, in tree order.
pub open spec fn flat(tree: TreeModel) -> Seq<EntryModel> {
    tree.entries + flat_groups(tree.groups, 0)
}

/// The entries that are switched on, in order; none when `off`.
pub open spec fn enabled(entries: Seq<EntryModel>, off: bool) -> Seq<EntryModel>
    decreases entries.len(),
{
    if entries.len() == 0 {
        Seq::empty()
    } else if !entries.last().options.disabled && !off {
        enabled(entries.drop_last(), off).push(entries.last())
    } else {
        enabled(entries.drop_last(), off)
    }
}

/// The active entries of `groups[from..]`. A disabled group suppresses every
/// nested entry.
pub open spec fn active_groups(groups: Seq<GroupModel>, from: int, off: bool) -> Seq<EntryModel>
    decreases groups, groups.len() - from,
{
    if from < 0 || from >= groups.len() {
        Seq::empty()
    } else {
        let hidden = off || groups[from].disabled;
        enabled(groups[from].entries, hidden) + active_groups(groups[from].groups, 0, hidden)
            + active_groups(groups, from + 1, off)
    }
}

/// The active entries of a tree, in tree order.
pub open spec fn active(tree: TreeModel) -> Seq<EntryModel> {
    enabled(tree.entries, false) + active_groups(tree.groups, 0, false)
}

/// The models of a list of borrowed entries.
pub open spec fn borrowed_list(entries: Seq<&Entry>) -> Seq<EntryModel> {
    Seq::new(entries.len(), |i: int| entries[i]@)
}

fn collect_list<'a>(entries: &'a Vec<Entry>, output: &mut Vec<&'a Entry>)
    ensures
        borrowed_list(final(output)@) == borrowed_list(old(output)@) + entry_list(entries@),
{
    let ghost start = borrowed_list(output@);
    let ghost model = entry_list(entries@);
    let mut i: usize = 0;
    assert(start + model.subrange(0, 0) =~= start);
    while i < entries.len()
        invariant
            i <= entries@.len(),
            model == entry_list(entries@),
            start == borrowed_list(old(output)@),
            borrowed_list(output@) == start + model.subrange(0, i as int),
        decreases entries@.len() - i,
    {
        let ghost before = borrowed_list(output@);
        output.push(&entries[i]);
        assert(borrowed_list(output@) =~= before.push(model[i as int]));
        assert(start + model.subrange(0, i + 1) =~= (start + model.subrange(0, i as int)).push(
            model[i as int],
        ));
        i += 1;
    }
    assert(model.subrange(0, i as int) =~= model);
}

fn collect_groups<'a>(groups: &'a Vec<EntryGroup>, output: &mut Vec<&'a Entry>)
    ensures
        borrowed_list(final(output)@) == borrowed_list(old(output)@) + flat_groups(
            group_list(groups@),
            0,
        ),
    decreases *groups,
{
    let ghost start = borrowed_list(output@);
    let ghost model = group_list(groups@);
    let ghost whole = start + flat_groups(model, 0);
    let mut i: usize = 0;
    while i < groups.len()
        invariant
            i <= groups@.len(),
            model == group_list(groups@),
            whole == borrowed_list(output@) + flat_groups(model, i as int),
        decreases groups@.len() - i,
    {
        let ghost before = borrowed_list(output@);
        proof {
            lemma_group_view(groups@[i as int]);
            assert(model[i as int] == groups@[i as int]@);
            assert(decreases_to!(*groups => groups@[i as int].groups));
        }
        collect_list(&groups[i].entries, output);
        collect_groups(&groups[i].groups, output);
        proof {
            let own = model[i as int].entries;
            let nested = flat_groups(model[i as int].groups, 0);
            let rest = flat_groups(model, i + 1);
            assert(before + (own + nested + rest) =~= ((before + own) + nested) + rest);
        }
        i += 1;
    }
    assert(borrowed_list(output@) + Seq::<EntryModel>::empty() =~= borrowed_list(output@));
}

fn collect_enabled(entries: &Vec<Entry>, off: bool, output: &mut Vec<Entry>)
    ensures
        entry_list(final(output)@) == entry_list(old(output)@) + enabled(entry_list(entries@), off),
{
    let ghost start = entry_list(output@);
    let ghost model = entry_list(entries@);
    let mut i: usize = 0;
    assert(model.subrange(0, 0) =~= Seq::empty());
    assert(start + enabled(model.subrange(0, 0), off) =~= start);
    while i < entries.len()
        invariant
            i <= entries@.len(),
            model == entry_list(entries@),
            start == entry_list(old(output)@),
            entry_list(output@) == start + enabled(model.subrange(0, i as int), off),
        decreases entries@.len() - i,
    {
        let ghost before = entry_list(output@);
        let ghost longer = model.subrange(0, i + 1);
        proof {
            assert(longer.drop_last() =~= model.subrange(0, i as int));
            assert(longer.last() == model[i as int]);
        }
        if !entries[i].options.disabled && !off {
            output.push(entries[i].clone());
            assert(entry_list(output@) =~= before.push(model[i as int]));
            assert(start + enabled(longer, off) =~= before.push(model[i as int]));
        }
        i += 1;
    }
    assert(model.subrange(0, i as int) =~= model);
}

fn collect_active(groups: &Vec<EntryGroup>, off: bool, output: &mut Vec<Entry>)
    ensures
        entry_list(final(output)@) == entry_list(old(output)@) + active_groups(
            group_list(groups@),
            0,
            off,
        ),
    decreases *groups,
{
    let ghost start = entry_list(output@);
    let ghost model = group_list(groups@);
    let ghost whole = start + active_groups(model, 0, off);
    let mut i: usize = 0;
    while i < groups.len()
        invariant
            i <= groups@.len(),
            model == group_list(groups@),
            whole == entry_list(output@) + active_groups(model, i as int, off),
        decreases groups@.len() - i,
    {
        let ghost before = entry_list(output@);
        proof {
            lemma_group_view(groups@[i as int]);
            assert(model[i as int] == groups@[i as int]@);
            assert(decreases_to!(*groups => groups@[i as int].groups));
        }
        let hidden = off || groups[i].disabled;
        collect_enabled(&groups[i].entries, hidden, output);
        collect_active(&groups[i].groups, hidden, output);
        proof {
            let own = enabled(model[i as int].entries, hidden);
            let nested = active_groups(model[i as int].groups, 0, hidden);
            let rest = active_groups(model, i + 1, off);
            assert(before + (own + nested + rest) =~= ((before + own) + nested) + rest);
        }
        i += 1;
    }
    assert(entry_list(output@) + Seq::<EntryModel>::empty() =~= entry_list(output@));
}

impl EntryTree {
    /// Checks every rule on a tree: each entry and group on its own, and no
    /// identifier twice.
    pub fn validate(&self) -> (result: Result<(), LoaderError>)
        ensures
            fault_of(result) == tree_fault(self@),
    {
        let mut ids: Vec<String> = Vec::new();
        let mut groups: Vec<String> = Vec::new();
        assert(text_list(ids@) =~= Seq::empty());
        assert(text_list(groups@) =~= Seq::empty());
        match check_entries(&self.entries, &mut ids) {
            Ok(()) => {},
            Err(error) => {
                return Err(error);
            },
        }
        let ghost model = group_list(self.groups@);
        let ghost expected = checked_tree(self@);
        let mut i: usize = 0;
        while i < self.groups.len()
            invariant
                i <= self.groups@.len(),
                model == group_list(self.groups@),
                expected == checked_tree(self@),
                expected == checked_groups(
                    model,
                    i as int,
                    Seq::empty(),
                    Names { ids: text_list(ids@), groups: text_list(groups@) },
                ),
            decreases self.groups@.len() - i,
        {
            assert(model[i as int] == self.groups@[i as int]@);
            proof {
                reveal_strlit("");
                assert(""@ =~= Seq::<char>::empty());
            }
            match check_group(&self.groups[i], "", &mut ids, &mut groups) {
                Ok(()) => {},
                Err(error) => {
                    return Err(error);
                },
            }
            i += 1;
        }
        Ok(())
    }

    /// Every entry, in tree order.
    pub fn entries(&self) -> (result: Vec<&Entry>)
        ensures
            borrowed_list(result@) == flat(self@),
    {
        let mut output: Vec<&Entry> = Vec::new();
        assert(borrowed_list(output@) =~= Seq::empty());
        collect_list(&self.entries, &mut output);
        collect_groups(&self.groups, &mut output);
        assert(Seq::<EntryModel>::empty() + self@.entries =~= self@.entries);
        output
    }

    /// Copies of the active entries, in tree order.
    pub fn active_entries(&self) -> (result: Vec<Entry>)
        ensures
            entry_list(result@) == active(self@),
    {
        let mut output: Vec<Entry> = Vec::new();
        assert(entry_list(output@) =~= Seq::empty());
        collect_enabled(&self.entries, false, &mut output);
        collect_active(&self.groups, false, &mut output);
        assert(Seq::<EntryModel>::empty() + enabled(self@.entries, false) =~= enabled(
            self@.entries,
            false,
        ));
        output
    }
}

/// The identifiers of a list of entries.
pub open spec fn ids_of(entries: Seq<EntryModel>) -> Seq<Seq<char>> {
    Seq::new(entries.len(), |i: int| entries[i].options.id)
}

/// Every entry of the list passes every rule on entries.
pub open spec fn faultless(entries: Seq<EntryModel>) -> bool {
    forall|i: int| 0 <= i < entries.len() ==> entry_fault(#[trigger] entries[i]) is None
}

pub(crate) proof fn checked_entries_collect(entries: Seq<EntryModel>, from: int, ids: Seq<Seq<char>>)
    requires
        0 <= from <= entries.len(),
        ids.no_duplicates(),
        checked_entries(entries, from, ids) is Ok,
    ensures
        checked_entries(entries, from, ids)->Ok_0 == ids + ids_of(
            entries.subrange(from, entries.len() as int),
        ),
        checked_entries(entries, from, ids)->Ok_0.no_duplicates(),
        faultless(entries.subrange(from, entries.len() as int)),
    decreases entries.len() - from,
{
    let tail = entries.subrange(from, entries.len() as int);
    if from < entries.len() {
        let id = entries[from].options.id;
        let rest = entries.subrange(from + 1, entries.len() as int);
        assert(ids.push(id).no_duplicates());
        checked_entries_collect(entries, from + 1, ids.push(id));
        assert(ids.push(id) + ids_of(rest) =~= ids + ids_of(tail));
        assert forall|i: int| 0 <= i < tail.len() implies entry_fault(#[trigger] tail[i]) is None by {
            if i > 0 {
                assert(tail[i] == rest[i - 1]);
            }
        }
    } else {
        assert(ids + ids_of(tail) =~= ids);
    }
}

proof fn checked_group_collects(group: GroupModel, parent: Seq<char>, names: Names)
    requires
        names.ids.no_duplicates(),
        checked_group(group, parent, names) is Ok,
    ensures
        checked_group(group, parent, names)->Ok_0.ids == names.ids + ids_of(
            group.entries + flat_groups(group.groups, 0),
        ),
        checked_group(group, parent, names)->Ok_0.ids.no_duplicates(),
        faultless(group.entries + flat_groups(group.groups, 0)),
    decreases group, 0int,
{
    let name = qualified(parent, group.id);
    checked_entries_collect(group.entries, 0, names.ids);
    assert(group.entries.subrange(0, group.entries.len() as int) =~= group.entries);
    let ids = checked_entries(group.entries, 0, names.ids)->Ok_0;
    let seen = Names { ids, groups: names.groups.push(name) };
    checked_groups_collect(group.groups, 0, name, seen);
    let nested = flat_groups(group.groups, 0);
    assert((names.ids + ids_of(group.entries)) + ids_of(nested) =~= names.ids + ids_of(
        group.entries + nested,
    ));
}

pub(crate) proof fn checked_groups_collect(
    groups: Seq<GroupModel>,
    from: int,
    parent: Seq<char>,
    names: Names,
)
    requires
        0 <= from <= groups.len(),
        names.ids.no_duplicates(),
        checked_groups(groups, from, parent, names) is Ok,
    ensures
        checked_groups(groups, from, parent, names)->Ok_0.ids == names.ids + ids_of(
            flat_groups(groups, from),
        ),
        checked_groups(groups, from, parent, names)->Ok_0.ids.no_duplicates(),
        faultless(flat_groups(groups, from)),
    decreases groups, groups.len() - from,
{
    if from < groups.len() {
        checked_group_collects(groups[from], parent, names);
        let seen = checked_group(groups[from], parent, names)->Ok_0;
        checked_groups_collect(groups, from + 1, parent, seen);
        let first = groups[from].entries + flat_groups(groups[from].groups, 0);
        let rest = flat_groups(groups, from + 1);
        assert((names.ids + ids_of(first)) + ids_of(rest) =~= names.ids + ids_of(first + rest));
    } else {
        assert(names.ids + ids_of(flat_groups(groups, from)) =~= names.ids);
    }
}

/// In a tree that passes every rule, each entry passes every rule on its own
/// and no two entries, in whatever groups, share an identifier.
pub proof fn valid_trees_have_distinct_entries(tree: TreeModel)
    requires
        tree_fault(tree) is None,
    ensures
        ids_of(flat(tree)).no_duplicates(),
        faultless(flat(tree)),
{
    checked_entries_collect(tree.entries, 0, Seq::empty());
    assert(tree.entries.subrange(0, tree.entries.len() as int) =~= tree.entries);
    let ids = checked_entries(tree.entries, 0, Seq::empty())->Ok_0;
    let names = Names { ids, groups: Seq::empty() };
    checked_groups_collect(tree.groups, 0, Seq::empty(), names);
    let rest = flat_groups(tree.groups, 0);
    assert((Seq::<Seq<char>>::empty() + ids_of(tree.entries)) + ids_of(rest) =~= ids_of(
        flat(tree),
    ));
}

proof fn enabled_facts(entries: Seq<EntryModel>, off: bool)
    ensures
        off ==> enabled(entries, off) == Seq::<EntryModel>::empty(),
        forall|i: int|
            0 <= i < enabled(entries, off).len() ==> !(#[trigger] enabled(
                entries,
                off,
            )[i]).options.disabled && entries.contains(enabled(entries, off)[i]),
        (!off && forall|i: int|
            0 <= i < entries.len() ==> !(#[trigger] entries[i]).options.disabled) ==> enabled(
            entries,
            off,
        ) == entries,
    decreases entries.len(),
{
    if entries.len() > 0 {
        let shorter = entries.drop_last();
        enabled_facts(shorter, off);
        let kept = enabled(entries, off);
        assert forall|i: int| 0 <= i < kept.len() implies !(#[trigger] kept[i]).options.disabled
            && entries.contains(kept[i]) by {
            if i < enabled(shorter, off).len() {
                assert(shorter.contains(enabled(shorter, off)[i]));
                let k = choose|k: int| 0 <= k < shorter.len() && shorter[k] == kept[i];
                assert(entries[k] == kept[i]);
            } else {
                assert(entries[entries.len() - 1] == kept[i]);
            }
        }
        if !off && forall|i: int|
            0 <= i < entries.len() ==> !(#[trigger] entries[i]).options.disabled {
            assert forall|i: int| 0 <= i < shorter.len() implies !(
            #[trigger] shorter[i]).options.disabled by {
                assert(shorter[i] == entries[i]);
            }
            assert(!entries[entries.len() - 1].options.disabled);
            assert(shorter.push(entries.last()) =~= entries);
        }
    }
}

proof fn hidden_groups_are_inactive(groups: Seq<GroupModel>, from: int)
    ensures
        active_groups(groups, from, true) == Seq::<EntryModel>::empty(),
    decreases groups, groups.len() - from,
{
    if 0 <= from < groups.len() {
        enabled_facts(groups[from].entries, true);
        hidden_groups_are_inactive(groups[from].groups, 0);
        hidden_groups_are_inactive(groups, from + 1);
        assert(active_groups(groups, from, true) =~= Seq::empty());
    }
}

/// A disabled group contributes no active entry, however its entries and
/// nested groups are set.
pub proof fn disabled_groups_are_inactive(group: GroupModel)
    requires
        group.disabled,
    ensures
        active(TreeModel { entries: Seq::empty(), groups: seq![group] })
            == Seq::<EntryModel>::empty(),
{
    enabled_facts(group.entries, true);
    hidden_groups_are_inactive(group.groups, 0);
    let groups = seq![group];
    reveal_with_fuel(active_groups, 2);
    assert(active(TreeModel { entries: Seq::empty(), groups }) =~= Seq::empty());
}

proof fn active_groups_are_enabled(groups: Seq<GroupModel>, from: int, off: bool, i: int)
    requires
        0 <= from,
        0 <= i < active_groups(groups, from, off).len(),
    ensures
        !active_groups(groups, from, off)[i].options.disabled,
        flat_groups(groups, from).contains(active_groups(groups, from, off)[i]),
    decreases groups, groups.len() - from,
{
    if from < groups.len() {
        let hidden = off || groups[from].disabled;
        let own = enabled(groups[from].entries, hidden);
        let nested = active_groups(groups[from].groups, 0, hidden);
        let kept = active_groups(groups, from, off);
        let all = flat_groups(groups, from);
        let all_own = groups[from].entries;
        let all_nested = flat_groups(groups[from].groups, 0);
        let all_rest = flat_groups(groups, from + 1);
        if i < own.len() {
            enabled_facts(groups[from].entries, hidden);
            assert(kept[i] == own[i]);
            let k = choose|k: int| 0 <= k < all_own.len() && all_own[k] == own[i];
            assert(all[k] == kept[i]);
        } else if i < own.len() + nested.len() {
            active_groups_are_enabled(groups[from].groups, 0, hidden, i - own.len());
            assert(kept[i] == nested[i - own.len()]);
            let k = choose|k: int| 0 <= k < all_nested.len() && all_nested[k] == kept[i];
            assert(all[all_own.len() + k] == kept[i]);
        } else {
            active_groups_are_enabled(groups, from + 1, off, i - own.len() - nested.len());
            assert(kept[i] == active_groups(groups, from + 1, off)[i - own.len() - nested.len()]);
            let k = choose|k: int| 0 <= k < all_rest.len() && all_rest[k] == kept[i];
            assert(all[all_own.len() + all_nested.len() + k] == kept[i]);
        }
    }
}

/// Every active entry is an entry of the tree that is not disabled.
pub proof fn active_entries_are_enabled(tree: TreeModel, i: int)
    requires
        0 <= i < active(tree).len(),
    ensures
        !active(tree)[i].options.disabled,
        flat(tree).contains(active(tree)[i]),
{
    let own = enabled(tree.entries, false);
    enabled_facts(tree.entries, false);
    if i < own.len() {
        assert(active(tree)[i] == own[i]);
        let k = choose|k: int| 0 <= k < tree.entries.len() && tree.entries[k] == own[i];
        assert(flat(tree)[k] == own[i]);
    } else {
        active_groups_are_enabled(tree.groups, 0, false, i - own.len());
        let rest = flat_groups(tree.groups, 0);
        let kept = active_groups(tree.groups, 0, false)[i - own.len()];
        assert(active(tree)[i] == kept);
        let k = choose|k: int| 0 <= k < rest.len() && rest[k] == kept;
        assert(flat(tree)[tree.entries.len() + k] == kept);
    }
}

/// Nothing in `groups[from..]` is disabled.
pub open spec fn all_on(groups: Seq<GroupModel>, from: int) -> bool
    decreases groups, groups.len() - from,
{
    0 <= from < groups.len() ==> {
        &&& !groups[from].disabled
        &&& forall|i: int|
            0 <= i < groups[from].entries.len() ==> !(
            #[trigger] groups[from].entries[i]).options.disabled
        &&& all_on(groups[from].groups, 0)
        &&& all_on(groups, from + 1)
    }
}

proof fn all_on_groups_are_active(groups: Seq<GroupModel>, from: int)
    requires
        all_on(groups, from),
    ensures
        active_groups(groups, from, false) == flat_groups(groups, from),
    decreases groups, groups.len() - from,
{
    if 0 <= from < groups.len() {
        enabled_facts(groups[from].entries, false);
        all_on_groups_are_active(groups[from].groups, 0);
        all_on_groups_are_active(groups, from + 1);
    }
}

/// When nothing is disabled, every entry is active, in tree order.
pub proof fn trees_without_disabled_parts_are_active(tree: TreeModel)
    requires
        forall|i: int|
            0 <= i < tree.entries.len() ==> !(#[trigger] tree.entries[i]).options.disabled,
        all_on(tree.groups, 0),
    ensures
        active(tree) == flat(tree),
{
    enabled_facts(tree.entries, false);
    all_on_groups_are_active(tree.groups, 0);
}

}
