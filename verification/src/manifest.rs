//! The manifest of a WebAssembly plugin: its rules and its configuration
//! schema.

use vstd::prelude::*;
use vstd::string::*;

use crate::error::{plugin_failure, plugin_fault, PluginError, PluginFailure};
use crate::json::{
    find_member, json_list, json_members, lookup, properties_are_smaller, property, same_json,
    values_equal, Json, Member, Number, JsonValue,
};
use crate::module::{
    function_exports, function_list, wasm_function_exports, FunctionExport, SignatureModel,
    MAX_WASM_BYTES,
};
use crate::text::{
    blank, characters, clone_texts, decimal, decimal_text, is_blank, is_digit, join2, join3,
    numeric, pieces, pieces_are_never_empty, same_text, split, text_list,
};

verus! {

/// The only ABI that is accepted.
pub const ABI_VERSION: &'static str = "cordis.plugin/v1";

/// Stable host capabilities available to a guest only when both its manifest
/// and the host policy allow them.
#[derive(Clone, Copy, Debug, PartialEq, Eq, PartialOrd, Ord, Structural)]
pub enum Capability {
    Log,
    ConfigGet,
    ServiceCall,
    EventEmit,
    EventSubscribe,
    RegistrationDispose,
    KvGet,
    KvSet,
}

impl Capability {
    /// The stable name of a capability.
    pub open spec fn spec_str(self) -> Seq<char> {
        match self {
            Capability::Log => "cordis.log"@,
            Capability::ConfigGet => "cordis.config.get"@,
            Capability::ServiceCall => "cordis.service.call"@,
            Capability::EventEmit => "cordis.event.emit"@,
            Capability::EventSubscribe => "cordis.event.subscribe"@,
            Capability::RegistrationDispose => "cordis.registration.dispose"@,
            Capability::KvGet => "cordis.kv.get"@,
            Capability::KvSet => "cordis.kv.set"@,
        }
    }

    /// The stable name of a capability.
    pub fn as_str(self) -> (result: &'static str)
        ensures
            result@ == self.spec_str(),
    {
        match self {
            Capability::Log => "cordis.log",
            Capability::ConfigGet => "cordis.config.get",
            Capability::ServiceCall => "cordis.service.call",
            Capability::EventEmit => "cordis.event.emit",
            Capability::EventSubscribe => "cordis.event.subscribe",
            Capability::RegistrationDispose => "cordis.registration.dispose",
            Capability::KvGet => "cordis.kv.get",
            Capability::KvSet => "cordis.kv.set",
        }
    }

    /// Every capability, in a fixed order.
    pub fn all() -> (result: [Capability; 8])
        ensures
            result@ == seq![
                Capability::Log,
                Capability::ConfigGet,
                Capability::ServiceCall,
                Capability::EventEmit,
                Capability::EventSubscribe,
                Capability::RegistrationDispose,
                Capability::KvGet,
                Capability::KvSet,
            ],
    {
        let result = [
            Capability::Log,
            Capability::ConfigGet,
            Capability::ServiceCall,
            Capability::EventEmit,
            Capability::EventSubscribe,
            Capability::RegistrationDispose,
            Capability::KvGet,
            Capability::KvSet,
        ];
        assert(result@ =~= seq![
            Capability::Log,
            Capability::ConfigGet,
            Capability::ServiceCall,
            Capability::EventEmit,
            Capability::EventSubscribe,
            Capability::RegistrationDispose,
            Capability::KvGet,
            Capability::KvSet,
        ]);
        result
    }
}

/// The lifecycle exports that every guest has.
#[derive(Clone, Copy, Debug, PartialEq, Eq, PartialOrd, Ord, Structural)]
pub enum GuestExport {
    Init,
    Call,
    Event,
    Update,
    Stop,
}

impl GuestExport {
    /// The name of the exported function.
    pub open spec fn spec_str(self) -> Seq<char> {
        match self {
            GuestExport::Init => "cordis_init"@,
            GuestExport::Call => "cordis_call"@,
            GuestExport::Event => "cordis_event"@,
            GuestExport::Update => "cordis_update"@,
            GuestExport::Stop => "cordis_stop"@,
        }
    }

    /// The name of the exported function.
    pub fn as_str(self) -> (result: &'static str)
        ensures
            result@ == self.spec_str(),
    {
        match self {
            GuestExport::Init => "cordis_init",
            GuestExport::Call => "cordis_call",
            GuestExport::Event => "cordis_event",
            GuestExport::Update => "cordis_update",
            GuestExport::Stop => "cordis_stop",
        }
    }

    /// The phase that errors of this export name.
    pub open spec fn spec_phase(self) -> Seq<char> {
        match self {
            GuestExport::Init => "init"@,
            GuestExport::Call => "call"@,
            GuestExport::Event => "event"@,
            GuestExport::Update => "update"@,
            GuestExport::Stop => "stop"@,
        }
    }

    /// The phase that errors of this export name.
    pub fn phase(self) -> (result: &'static str)
        ensures
            result@ == self.spec_phase(),
    {
        match self {
            GuestExport::Init => "init",
            GuestExport::Call => "call",
            GuestExport::Event => "event",
            GuestExport::Update => "update",
            GuestExport::Stop => "stop",
        }
    }

    /// Every export, in a fixed order.
    pub open spec fn spec_all() -> Seq<GuestExport> {
        seq![
            GuestExport::Init,
            GuestExport::Call,
            GuestExport::Event,
            GuestExport::Update,
            GuestExport::Stop,
        ]
    }

    /// Every export, in a fixed order.
    pub fn all() -> (result: [GuestExport; 5])
        ensures
            result@ == GuestExport::spec_all(),
    {
        let result = [
            GuestExport::Init,
            GuestExport::Call,
            GuestExport::Event,
            GuestExport::Update,
            GuestExport::Stop,
        ];
        assert(result@ =~= GuestExport::spec_all());
        result
    }
}

/// The package-side manifest of a guest.
#[derive(Debug, PartialEq)]
pub struct PluginManifest {
    pub id: String,
    pub version: String,
    pub entry: String,
    pub abi: String,
    pub inject: Vec<String>,
    pub permissions: Vec<Capability>,
    pub config_schema: JsonValue,
    pub exports: Vec<GuestExport>,
}

/// The model of a manifest.
#[verifier::ext_equal]
pub struct ManifestModel {
    pub id: Seq<char>,
    pub version: Seq<char>,
    pub entry: Seq<char>,
    pub abi: Seq<char>,
    pub inject: Seq<Seq<char>>,
    pub permissions: Seq<Capability>,
    pub config_schema: Json,
    pub exports: Seq<GuestExport>,
}

impl View for PluginManifest {
    type V = ManifestModel;

    open spec fn view(&self) -> ManifestModel {
        ManifestModel {
            id: self.id@,
            version: self.version@,
            entry: self.entry@,
            abi: self.abi@,
            inject: text_list(self.inject@),
            permissions: self.permissions@,
            config_schema: self.config_schema@,
            exports: self.exports@,
        }
    }
}

impl Clone for PluginManifest {
    fn clone(&self) -> (result: Self)
        ensures
            result@ == self@,
    {
        let mut permissions: Vec<Capability> = Vec::new();
        let mut i: usize = 0;
        while i < self.permissions.len()
            invariant
                i <= self.permissions@.len(),
                permissions@ == self.permissions@.subrange(0, i as int),
            decreases self.permissions@.len() - i,
        {
            permissions.push(self.permissions[i]);
            i += 1;
            assert(permissions@ =~= self.permissions@.subrange(0, i as int));
        }
        assert(permissions@ =~= self.permissions@);
        let mut exports: Vec<GuestExport> = Vec::new();
        let mut k: usize = 0;
        while k < self.exports.len()
            invariant
                k <= self.exports@.len(),
                exports@ == self.exports@.subrange(0, k as int),
            decreases self.exports@.len() - k,
        {
            exports.push(self.exports[k]);
            k += 1;
            assert(exports@ =~= self.exports@.subrange(0, k as int));
        }
        assert(exports@ =~= self.exports@);
        PluginManifest {
            id: self.id.clone(),
            version: self.version.clone(),
            entry: self.entry.clone(),
            abi: self.abi.clone(),
            inject: clone_texts(&self.inject),
            permissions,
            config_schema: self.config_schema.clone(),
            exports,
        }
    }
}

/// The failure that refuses a manifest.
pub open spec fn manifest_failure(message: Seq<char>) -> PluginFailure {
    plugin_failure("MANIFEST_INVALID"@, message, "manifest"@)
}

/// The error that refuses a manifest.
pub fn manifest_error(message: &str) -> (result: PluginError)
    ensures
        result@ == manifest_failure(message@),
{
    PluginError::new("MANIFEST_INVALID", message, "manifest")
}

/// A number of a version: digits without a leading zero.
pub open spec fn version_number(text: Seq<char>) -> bool {
    &&& text.len() > 0
    &&& forall|i: int| 0 <= i < text.len() ==> is_digit(#[trigger] text[i])
    &&& (text.len() == 1 || text[0] != '0')
}

/// Three numbers separated by dots, optionally followed by a dash and anything
/// else.
pub open spec fn semver_shape(version: Seq<char>) -> bool {
    let numbers = pieces(pieces(version, '-')[0], '.');
    numbers.len() == 3 && version_number(numbers[0]) && version_number(numbers[1])
        && version_number(numbers[2])
}

fn is_version_number(text: &str) -> (result: bool)
    ensures
        result == version_number(text@),
{
    let chars = characters(text);
    if chars.len() == 0 {
        return false;
    }
    let mut i: usize = 0;
    while i < chars.len()
        invariant
            i <= chars@.len(),
            chars@ == text@,
            forall|j: int| 0 <= j < i ==> is_digit(#[trigger] text@[j]),
        decreases chars@.len() - i,
    {
        if !numeric(chars[i]) {
            assert(!is_digit(text@[i as int]));
            return false;
        }
        i += 1;
    }
    chars.len() == 1 || chars[0] != '0'
}

/// Whether `version` is a semantic version.
pub fn is_semver(version: &str) -> (result: bool)
    ensures
        result == semver_shape(version@),
{
    proof {
        pieces_are_never_empty(version@, '-');
    }
    let parts = split(version, '-');
    assert(text_list(parts@)[0] == parts@[0]@);
    let numbers = split(parts[0].as_str(), '.');
    let ghost model = pieces(pieces(version@, '-')[0], '.');
    assert(text_list(numbers@) == model);
    if numbers.len() != 3 {
        return false;
    }
    assert(model[0] == numbers@[0]@ && model[1] == numbers@[1]@ && model[2] == numbers@[2]@);
    is_version_number(numbers[0].as_str()) && is_version_number(numbers[1].as_str())
        && is_version_number(numbers[2].as_str())
}

/// A relative path without traversal: it does not start at the root or at the
/// current directory, and no step of it goes up.
pub open spec fn confined(entry: Seq<char>) -> bool {
    let steps = pieces(entry, '/');
    &&& !(entry.len() > 0 && entry[0] == '/')
    &&& steps[0] != "."@
    &&& forall|i: int| 0 <= i < steps.len() ==> #[trigger] steps[i] != ".."@
}

/// Whether `entry` stays inside its package directory.
pub fn is_confined_entry(entry: &str) -> (result: bool)
    ensures
        result == confined(entry@),
{
    let chars = characters(entry);
    if chars.len() > 0 && chars[0] == '/' {
        return false;
    }
    proof {
        pieces_are_never_empty(entry@, '/');
    }
    let steps = split(entry, '/');
    let ghost model = pieces(entry@, '/');
    assert(model[0] == steps@[0]@);
    if same_text(steps[0].as_str(), ".") {
        return false;
    }
    let mut i: usize = 0;
    while i < steps.len()
        invariant
            i <= steps@.len(),
            model == text_list(steps@),
            model == pieces(entry@, '/'),
            forall|j: int| 0 <= j < i ==> #[trigger] model[j] != ".."@,
        decreases steps@.len() - i,
    {
        assert(model[i as int] == steps@[i as int]@);
        if same_text(steps[i].as_str(), "..") {
            return false;
        }
        i += 1;
    }
    true
}

/// Some text is blank or repeats an earlier one.
pub open spec fn blank_or_repeated(texts: Seq<Seq<char>>) -> bool {
    exists|i: int|
        0 <= i < texts.len() && (blank(#[trigger] texts[i]) || exists|j: int|
            0 <= j < i && #[trigger] texts[j] == texts[i])
}

/// Some value repeats an earlier one.
pub open spec fn repeated<T>(values: Seq<T>) -> bool {
    exists|i: int, j: int| 0 <= j < i < values.len() && #[trigger] values[j] == #[trigger] values[i]
}

fn has_blank_or_repeated(texts: &Vec<String>) -> (result: bool)
    ensures
        result == blank_or_repeated(text_list(texts@)),
{
    let ghost model = text_list(texts@);
    let mut i: usize = 0;
    while i < texts.len()
        invariant
            i <= texts@.len(),
            model == text_list(texts@),
            forall|k: int|
                0 <= k < i ==> !blank(#[trigger] model[k]) && !exists|j: int|
                    0 <= j < k && #[trigger] model[j] == model[k],
        decreases texts@.len() - i,
    {
        assert(model[i as int] == texts@[i as int]@);
        if is_blank(texts[i].as_str()) {
            return true;
        }
        let mut j: usize = 0;
        while j < i
            invariant
                j <= i < texts@.len(),
                model == text_list(texts@),
                model[i as int] == texts@[i as int]@,
                forall|k: int| 0 <= k < j ==> #[trigger] model[k] != model[i as int],
            decreases i - j,
        {
            assert(model[j as int] == texts@[j as int]@);
            if texts[j] == texts[i] {
                return true;
            }
            j += 1;
        }
        i += 1;
    }
    false
}

fn has_repeated_capability(values: &Vec<Capability>) -> (result: bool)
    ensures
        result == repeated(values@),
{
    let mut i: usize = 0;
    while i < values.len()
        invariant
            i <= values@.len(),
            forall|a: int, b: int|
                0 <= b < a < i ==> #[trigger] values@[b] != #[trigger] values@[a],
        decreases values@.len() - i,
    {
        let mut j: usize = 0;
        while j < i
            invariant
                j <= i < values@.len(),
                forall|k: int| 0 <= k < j ==> #[trigger] values@[k] != values@[i as int],
            decreases i - j,
        {
            if values[j] == values[i] {
                return true;
            }
            j += 1;
        }
        i += 1;
    }
    false
}

fn has_repeated_export(values: &Vec<GuestExport>) -> (result: bool)
    ensures
        result == repeated(values@),
{
    let mut i: usize = 0;
    while i < values.len()
        invariant
            i <= values@.len(),
            forall|a: int, b: int|
                0 <= b < a < i ==> #[trigger] values@[b] != #[trigger] values@[a],
        decreases values@.len() - i,
    {
        let mut j: usize = 0;
        while j < i
            invariant
                j <= i < values@.len(),
                forall|k: int| 0 <= k < j ==> #[trigger] values@[k] != values@[i as int],
            decreases i - j,
        {
            if values[j] == values[i] {
                return true;
            }
            j += 1;
        }
        i += 1;
    }
    false
}

fn holds_export(values: &Vec<GuestExport>, export: GuestExport) -> (result: bool)
    ensures
        result == values@.contains(export),
{
    let mut i: usize = 0;
    while i < values.len()
        invariant
            i <= values@.len(),
            forall|k: int| 0 <= k < i ==> #[trigger] values@[k] != export,
        decreases values@.len() - i,
    {
        if values[i] == export {
            return true;
        }
        i += 1;
    }
    false
}

/// A type name that a schema may use.
pub open spec fn known_type(kind: Seq<char>) -> bool {
    kind == "null"@ || kind == "boolean"@ || kind == "integer"@ || kind == "number"@ || kind
        == "string"@ || kind == "array"@ || kind == "object"@
}

fn is_known_type(kind: &str) -> (result: bool)
    ensures
        result == known_type(kind@),
{
    same_text(kind, "null") || same_text(kind, "boolean") || same_text(kind, "integer")
        || same_text(kind, "number") || same_text(kind, "string") || same_text(kind, "array")
        || same_text(kind, "object")
}

/// Why the `type` of a schema is refused.
pub open spec fn type_fault(schema: Json, path: Seq<char>) -> Option<Seq<char>> {
    match property(schema, "type"@) {
        None => None,
        Some(Json::String(kind)) => if known_type(kind) {
            None
        } else {
            Some(path + ".type is unsupported"@)
        },
        Some(_) => Some(path + ".type must be a string"@),
    }
}

/// Why a schema is refused: the first rule, in order, that it breaks.
pub open spec fn schema_fault(schema: Json, path: Seq<char>) -> Option<Seq<char>>
    decreases schema, 0int,
{
    if !(schema is Object) {
        Some(path + " must be an object"@)
    } else if type_fault(schema, path) is Some {
        type_fault(schema, path)
    } else {
        let nested = match property(schema, "properties"@) {
            None => None,
            Some(Json::Object(properties)) => {
                proof {
                    properties_are_smaller(schema, "properties"@);
                }
                properties_fault(properties, 0, path)
            },
            Some(_) => Some(path + ".properties must be an object"@),
        };
        if nested is Some {
            nested
        } else if required_rule_fault(schema, path) is Some {
            required_rule_fault(schema, path)
        } else if additional_fault(schema, path) is Some {
            additional_fault(schema, path)
        } else {
            let items = match property(schema, "items"@) {
                None => None,
                Some(items) => {
                    proof {
                        properties_are_smaller(schema, "items"@);
                    }
                    schema_fault(items, path + ".items"@)
                },
            };
            if items is Some {
                items
            } else {
                enum_fault(schema, path)
            }
        }
    }
}

/// The first fault of the property schemas `properties[from..]`.
pub open spec fn properties_fault(
    properties: Seq<(Seq<char>, Json)>,
    from: int,
    path: Seq<char>,
) -> Option<Seq<char>>
    decreases properties, properties.len() - from,
{
    if from < 0 || from >= properties.len() {
        None
    } else {
        match schema_fault(properties[from].1, path + ".properties."@ + properties[from].0) {
            Some(message) => Some(message),
            None => properties_fault(properties, from + 1, path),
        }
    }
}

/// Why the `required` list of a schema is refused.
pub open spec fn required_rule_fault(schema: Json, path: Seq<char>) -> Option<Seq<char>> {
    match property(schema, "required"@) {
        None => None,
        Some(Json::Array(names)) => required_names_fault(
            names,
            0,
            property(schema, "properties"@),
            path,
        ),
        Some(_) => Some(path + ".required must be an array"@),
    }
}

/// The first fault in `names[from..]`: something that is no name, a name given
/// twice, or a name without a property.
pub open spec fn required_names_fault(
    names: Seq<Json>,
    from: int,
    properties: Option<Json>,
    path: Seq<char>,
) -> Option<Seq<char>>
    decreases names.len() - from,
{
    if from < 0 || from >= names.len() {
        None
    } else {
        match names[from] {
            Json::String(name) => if given_before(names, from) {
                Some(path + ".required contains duplicate "@ + name)
            } else if !declares(properties, name) {
                Some(path + ".required references missing property "@ + name)
            } else {
                required_names_fault(names, from + 1, properties, path)
            },
            _ => Some(path + ".required must contain strings"@),
        }
    }
}

/// The name at `at` was given before.
pub open spec fn given_before(names: Seq<Json>, at: int) -> bool {
    exists|j: int| 0 <= j < at && #[trigger] names[j] == names[at]
}

/// The property schemas have one of that name.
pub open spec fn declares(properties: Option<Json>, name: Seq<char>) -> bool {
    properties is Some && property(properties->Some_0, name) is Some
}

/// Why the `additionalProperties` of a schema is refused.
pub open spec fn additional_fault(schema: Json, path: Seq<char>) -> Option<Seq<char>> {
    match property(schema, "additionalProperties"@) {
        None => None,
        Some(Json::Bool(_)) => None,
        Some(_) => Some(path + ".additionalProperties must be a boolean"@),
    }
}

/// Why the `enum` of a schema is refused.
pub open spec fn enum_fault(schema: Json, path: Seq<char>) -> Option<Seq<char>> {
    match property(schema, "enum"@) {
        None => None,
        Some(Json::Array(_)) => None,
        Some(_) => Some(path + ".enum must be an array"@),
    }
}

/// A message, or none.
pub open spec fn message_of(result: Option<String>) -> Option<Seq<char>> {
    match result {
        Some(message) => Some(message@),
        None => None,
    }
}

fn find_type_fault(schema: &JsonValue, path: &str) -> (result: Option<String>)
    ensures
        message_of(result) == type_fault(schema@, path@),
{
    match schema.get("type") {
        None => None,
        Some(kind) => match kind.as_str() {
            Some(kind) => if is_known_type(kind) {
                None
            } else {
                Some(join2(path, ".type is unsupported"))
            },
            None => Some(join2(path, ".type must be a string")),
        },
    }
}

fn find_required_fault(schema: &JsonValue, path: &str) -> (result: Option<String>)
    ensures
        message_of(result) == required_rule_fault(schema@, path@),
{
    let required = match schema.get("required") {
        None => return None,
        Some(required) => required,
    };
    let names = match required.as_array() {
        None => return Some(join2(path, ".required must be an array")),
        Some(names) => names,
    };
    let properties = schema.get("properties");
    let ghost declared = property(schema@, "properties"@);
    let ghost model = json_list(names@);
    let mut i: usize = 0;
    while i < names.len()
        invariant
            i <= names@.len(),
            model == json_list(names@),
            declared == property(schema@, "properties"@),
            match properties {
                Some(value) => declared == Some(value@),
                None => declared is None,
            },
            required_rule_fault(schema@, path@) == required_names_fault(
                model,
                i as int,
                declared,
                path@,
            ),
        decreases names@.len() - i,
    {
        assert(model[i as int] == names@[i as int]@);
        let name = match names[i].as_str() {
            None => return Some(join2(path, ".required must contain strings")),
            Some(name) => name,
        };
        let mut j: usize = 0;
        while j < i
            invariant
                j <= i < names@.len(),
                model == json_list(names@),
                model[i as int] == Json::String(name@),
                forall|k: int| 0 <= k < j ==> #[trigger] model[k] != model[i as int],
                required_rule_fault(schema@, path@) == required_names_fault(
                    model,
                    i as int,
                    declared,
                    path@,
                ),
            decreases i - j,
        {
            assert(model[j as int] == names@[j as int]@);
            if let Some(earlier) = names[j].as_str() {
                if same_text(earlier, name) {
                    assert(given_before(model, i as int));
                    return Some(join3(path, ".required contains duplicate ", name));
                }
            }
            j += 1;
        }
        assert(!given_before(model, i as int));
        let declared_here = match properties {
            Some(properties) => properties.get(name).is_some(),
            None => false,
        };
        if !declared_here {
            return Some(join3(path, ".required references missing property ", name));
        }
        i += 1;
    }
    None
}

/// Looks for the first fault of a configuration schema.
pub fn find_schema_fault(schema: &JsonValue, path: &str) -> (result: Option<String>)
    ensures
        message_of(result) == schema_fault(schema@, path@),
    decreases schema@,
{
    if !schema.is_object() {
        return Some(join2(path, " must be an object"));
    }
    if let Some(message) = find_type_fault(schema, path) {
        return Some(message);
    }
    if let Some(properties) = schema.get("properties") {
        proof {
            properties_are_smaller(schema@, "properties"@);
        }
        let members = match properties.as_object() {
            None => return Some(join2(path, ".properties must be an object")),
            Some(members) => members,
        };
        let ghost model = json_members(members@);
        let ghost expected = properties_fault(model, 0, path@);
        let mut i: usize = 0;
        while i < members.len()
            invariant
                i <= members@.len(),
                model == json_members(members@),
                decreases_to!(schema@ => properties@),
                properties@ == Json::Object(model),
                expected == properties_fault(model, i as int, path@),
                expected is Some ==> schema_fault(schema@, path@) == expected,
            decreases members@.len() - i,
        {
            let ghost pair = model[i as int];
            assert(pair == (members@[i as int].key@, members@[i as int].value@));
            assert(decreases_to!(properties@ => properties@->Object_0));
            assert(decreases_to!(model => model[i as int]));
            assert(decreases_to!(pair => pair.1));
            let nested_path = join3(path, ".properties.", members[i].key.as_str());
            if let Some(message) = find_schema_fault(&members[i].value, nested_path.as_str()) {
                return Some(message);
            }
            i += 1;
        }
    }
    if let Some(message) = find_required_fault(schema, path) {
        return Some(message);
    }
    if let Some(additional) = schema.get("additionalProperties") {
        if additional.as_bool().is_none() {
            return Some(join2(path, ".additionalProperties must be a boolean"));
        }
    }
    if let Some(items) = schema.get("items") {
        proof {
            properties_are_smaller(schema@, "items"@);
        }
        if let Some(message) = find_schema_fault(items, join2(path, ".items").as_str()) {
            return Some(message);
        }
    }
    if let Some(values) = schema.get("enum") {
        if values.as_array().is_none() {
            return Some(join2(path, ".enum must be an array"));
        }
    }
    None
}

/// A value is of the named type.
pub open spec fn has_type(value: Json, kind: Seq<char>) -> bool {
    if kind == "null"@ {
        value is Null
    } else if kind == "boolean"@ {
        value is Bool
    } else if kind == "integer"@ {
        value is Number && !(value->Number_0 is Float)
    } else if kind == "number"@ {
        value is Number
    } else if kind == "string"@ {
        value is String
    } else if kind == "array"@ {
        value is Array
    } else if kind == "object"@ {
        value is Object
    } else {
        false
    }
}

fn is_of_type(value: &JsonValue, kind: &str) -> (result: bool)
    ensures
        result == has_type(value@, kind@),
{
    if same_text(kind, "null") {
        value.is_null()
    } else if same_text(kind, "boolean") {
        value.as_bool().is_some()
    } else if same_text(kind, "integer") {
        match value {
            JsonValue::Number(Number::Unsigned(_)) | JsonValue::Number(Number::Negative(_)) => true,
            _ => false,
        }
    } else if same_text(kind, "number") {
        match value {
            JsonValue::Number(_) => true,
            _ => false,
        }
    } else if same_text(kind, "string") {
        value.as_str().is_some()
    } else if same_text(kind, "array") {
        value.as_array().is_some()
    } else if same_text(kind, "object") {
        value.is_object()
    } else {
        false
    }
}

/// Why a value is refused for its type.
pub open spec fn value_type_fault(schema: Json, value: Json, path: Seq<char>) -> Option<Seq<char>> {
    match property(schema, "type"@) {
        Some(Json::String(kind)) => if has_type(value, kind) {
            None
        } else {
            Some(path + " must be "@ + kind)
        },
        _ => None,
    }
}

/// One of the values is equal to `value`.
pub open spec fn lists(values: Seq<Json>, value: Json) -> bool {
    exists|i: int| 0 <= i < values.len() && same_json(#[trigger] values[i], value)
}

/// Why a value is refused for not being listed.
pub open spec fn value_enum_fault(schema: Json, value: Json, path: Seq<char>) -> Option<Seq<char>> {
    match property(schema, "enum"@) {
        Some(Json::Array(values)) => if lists(values, value) {
            None
        } else {
            Some(path + " is not an allowed value"@)
        },
        _ => None,
    }
}

/// The first name in `names[from..]` that the members lack.
pub open spec fn missing_from(
    names: Seq<Json>,
    from: int,
    members: Seq<(Seq<char>, Json)>,
    path: Seq<char>,
) -> Option<Seq<char>>
    decreases names.len() - from,
{
    if from < 0 || from >= names.len() {
        None
    } else {
        match names[from] {
            Json::String(name) => if lookup(members, name) is None {
                Some(path + "."@ + name + " is required"@)
            } else {
                missing_from(names, from + 1, members, path)
            },
            _ => missing_from(names, from + 1, members, path),
        }
    }
}

/// Why an object is refused for what it lacks.
pub open spec fn value_required_fault(
    schema: Json,
    members: Seq<(Seq<char>, Json)>,
    path: Seq<char>,
) -> Option<Seq<char>> {
    match property(schema, "required"@) {
        Some(Json::Array(names)) => missing_from(names, 0, members, path),
        _ => None,
    }
}

/// The first member in `members[from..]` that has no property schema.
pub open spec fn unknown_from(
    members: Seq<(Seq<char>, Json)>,
    from: int,
    properties: Seq<(Seq<char>, Json)>,
    path: Seq<char>,
) -> Option<Seq<char>>
    decreases members.len() - from,
{
    if from < 0 || from >= members.len() {
        None
    } else if lookup(properties, members[from].0) is None {
        Some(path + "."@ + members[from].0 + " is not allowed"@)
    } else {
        unknown_from(members, from + 1, properties, path)
    }
}

/// Why a configuration value is refused by a schema: the first rule, in order,
/// that it breaks.
pub open spec fn config_rule_fault(schema: Json, value: Json, path: Seq<char>) -> Option<Seq<char>>
    decreases schema, 0int, 0int,
{
    if value_type_fault(schema, value, path) is Some {
        value_type_fault(schema, value, path)
    } else if value_enum_fault(schema, value, path) is Some {
        value_enum_fault(schema, value, path)
    } else {
        let by_members = match value {
            Json::Object(members) => if value_required_fault(schema, members, path) is Some {
                value_required_fault(schema, members, path)
            } else {
                match property(schema, "properties"@) {
                    Some(Json::Object(properties)) => {
                        proof {
                            properties_are_smaller(schema, "properties"@);
                        }
                        let nested = member_rules_fault(properties, 0, members, path);
                        if nested is Some {
                            nested
                        } else if property(schema, "additionalProperties"@) == Some(
                            Json::Bool(false),
                        ) {
                            unknown_from(members, 0, properties, path)
                        } else {
                            None
                        }
                    },
                    _ => None,
                }
            },
            _ => None,
        };
        if by_members is Some {
            by_members
        } else {
            match (property(schema, "items"@), value) {
                (Some(items), Json::Array(values)) => {
                    proof {
                        properties_are_smaller(schema, "items"@);
                    }
                    item_rules_fault(items, values, 0, path)
                },
                _ => None,
            }
        }
    }
}

/// The first fault that the schemas `properties[from..]` find in the members
/// they describe.
pub open spec fn member_rules_fault(
    properties: Seq<(Seq<char>, Json)>,
    from: int,
    members: Seq<(Seq<char>, Json)>,
    path: Seq<char>,
) -> Option<Seq<char>>
    decreases properties, 0int, properties.len() - from,
{
    if from < 0 || from >= properties.len() {
        None
    } else {
        let (name, schema) = properties[from];
        let fault = match lookup(members, name) {
            Some(value) => config_rule_fault(properties[from].1, value, path + "."@ + name),
            None => None,
        };
        if fault is Some {
            fault
        } else {
            member_rules_fault(properties, from + 1, members, path)
        }
    }
}

/// The first fault that the schema `items` finds in `values[from..]`.
pub open spec fn item_rules_fault(items: Json, values: Seq<Json>, from: int, path: Seq<char>) -> Option<
    Seq<char>,
>
    decreases items, 1int, values.len() - from,
{
    if from < 0 || from >= values.len() {
        None
    } else {
        match config_rule_fault(
            items,
            values[from],
            path + "["@ + decimal_text(from as nat) + "]"@,
        ) {
            Some(message) => Some(message),
            None => item_rules_fault(items, values, from + 1, path),
        }
    }
}

fn is_listed(values: &Vec<JsonValue>, value: &JsonValue) -> (result: bool)
    ensures
        result == lists(json_list(values@), value@),
{
    let ghost model = json_list(values@);
    let mut i: usize = 0;
    while i < values.len()
        invariant
            i <= values@.len(),
            model == json_list(values@),
            forall|k: int| 0 <= k < i ==> !same_json(#[trigger] model[k], value@),
        decreases values@.len() - i,
    {
        assert(model[i as int] == values@[i as int]@);
        if values_equal(&values[i], value) {
            return true;
        }
        i += 1;
    }
    false
}

fn find_missing(schema: &JsonValue, members: &Vec<Member>, path: &str) -> (result: Option<String>)
    ensures
        message_of(result) == value_required_fault(schema@, json_members(members@), path@),
{
    let names = match schema.get("required") {
        None => return None,
        Some(required) => match required.as_array() {
            None => return None,
            Some(names) => names,
        },
    };
    let ghost model = json_list(names@);
    let ghost given = json_members(members@);
    let mut i: usize = 0;
    while i < names.len()
        invariant
            i <= names@.len(),
            model == json_list(names@),
            given == json_members(members@),
            value_required_fault(schema@, given, path@) == missing_from(
                model,
                i as int,
                given,
                path@,
            ),
        decreases names@.len() - i,
    {
        assert(model[i as int] == names@[i as int]@);
        if let Some(name) = names[i].as_str() {
            if find_member(members, name).is_none() {
                let mut message = join3(path, ".", name);
                message.append(" is required");
                return Some(message);
            }
        }
        i += 1;
    }
    None
}

fn find_unknown(members: &Vec<Member>, properties: &Vec<Member>, path: &str) -> (result: Option<
    String,
>)
    ensures
        message_of(result) == unknown_from(
            json_members(members@),
            0,
            json_members(properties@),
            path@,
        ),
{
    let ghost model = json_members(members@);
    let ghost declared = json_members(properties@);
    let mut i: usize = 0;
    while i < members.len()
        invariant
            i <= members@.len(),
            model == json_members(members@),
            declared == json_members(properties@),
            unknown_from(model, 0, declared, path@) == unknown_from(
                model,
                i as int,
                declared,
                path@,
            ),
        decreases members@.len() - i,
    {
        assert(model[i as int].0 == members@[i as int].key@);
        if find_member(properties, members[i].key.as_str()).is_none() {
            let mut message = join3(path, ".", members[i].key.as_str());
            message.append(" is not allowed");
            return Some(message);
        }
        i += 1;
    }
    None
}

/// Looks for the first fault of a configuration value.
fn find_config_rule_fault(schema: &JsonValue, value: &JsonValue, path: &str) -> (result: Option<
    String,
>)
    ensures
        message_of(result) == config_rule_fault(schema@, value@, path@),
    decreases schema@,
{
    if let Some(kind) = schema.get("type") {
        if let Some(kind) = kind.as_str() {
            if !is_of_type(value, kind) {
                return Some(join3(path, " must be ", kind));
            }
        }
    }
    if let Some(values) = schema.get("enum") {
        if let Some(values) = values.as_array() {
            if !is_listed(values, value) {
                return Some(join2(path, " is not an allowed value"));
            }
        }
    }
    if let Some(members) = value.as_object() {
        if let Some(message) = find_missing(schema, members, path) {
            return Some(message);
        }
        if let Some(declared) = schema.get("properties") {
            proof {
                properties_are_smaller(schema@, "properties"@);
            }
            if let Some(properties) = declared.as_object() {
                let ghost model = json_members(properties@);
                let ghost given = json_members(members@);
                let ghost expected = member_rules_fault(model, 0, given, path@);
                let mut i: usize = 0;
                while i < properties.len()
                    invariant
                        i <= properties@.len(),
                        model == json_members(properties@),
                        given == json_members(members@),
                        value@ == Json::Object(given),
                        decreases_to!(schema@ => declared@),
                        declared@ == Json::Object(model),
                        expected == member_rules_fault(model, i as int, given, path@),
                        expected is Some ==> config_rule_fault(schema@, value@, path@) == expected,
                    decreases properties@.len() - i,
                {
                    let ghost pair = model[i as int];
                    assert(pair == (properties@[i as int].key@, properties@[i as int].value@));
                    assert(decreases_to!(declared@ => declared@->Object_0));
                    assert(decreases_to!(model => model[i as int]));
                    assert(decreases_to!(pair => pair.1));
                    if let Some(at) = find_member(members, properties[i].key.as_str()) {
                        let nested_path = join3(path, ".", properties[i].key.as_str());
                        if let Some(message) = find_config_rule_fault(
                            &properties[i].value,
                            &members[at].value,
                            nested_path.as_str(),
                        ) {
                            return Some(message);
                        }
                    }
                    i += 1;
                }
                let closed_world = match schema.get("additionalProperties") {
                    Some(additional) => match additional.as_bool() {
                        Some(allowed) => !allowed,
                        None => false,
                    },
                    None => false,
                };
                if closed_world {
                    if let Some(message) = find_unknown(members, properties, path) {
                        return Some(message);
                    }
                }
            }
        }
    }
    if let Some(items) = schema.get("items") {
        proof {
            properties_are_smaller(schema@, "items"@);
        }
        if let Some(values) = value.as_array() {
            let ghost model = json_list(values@);
            let mut i: usize = 0;
            while i < values.len()
                invariant
                    i <= values@.len(),
                    model == json_list(values@),
                    decreases_to!(schema@ => items@),
                    config_rule_fault(schema@, value@, path@) == item_rules_fault(
                        items@,
                        model,
                        i as int,
                        path@,
                    ),
                decreases values@.len() - i,
            {
                assert(model[i as int] == values@[i as int]@);
                let mut nested_path = join3(path, "[", decimal(i as u64).as_str());
                nested_path.append("]");
                if let Some(message) = find_config_rule_fault(
                    items,
                    &values[i],
                    nested_path.as_str(),
                ) {
                    return Some(message);
                }
                i += 1;
            }
        }
    }
    None
}

/// The first export in `GuestExport::spec_all()[from..]` that is not listed.
pub open spec fn unlisted_export(exports: Seq<GuestExport>, from: int) -> Option<GuestExport>
    decreases 5 - from,
{
    if from < 0 || from >= 5 {
        None
    } else if !exports.contains(GuestExport::spec_all()[from]) {
        Some(GuestExport::spec_all()[from])
    } else {
        unlisted_export(exports, from + 1)
    }
}

/// Why a manifest is refused: the first rule, in order, that it breaks.
pub open spec fn manifest_fault(manifest: ManifestModel) -> Option<PluginFailure> {
    if blank(manifest.id) {
        Some(manifest_failure("id must not be blank"@))
    } else if blank(manifest.version) {
        Some(manifest_failure("version must not be blank"@))
    } else if blank(manifest.entry) {
        Some(manifest_failure("entry must not be blank"@))
    } else if !confined(manifest.entry) {
        Some(manifest_failure("entry must be a relative path without traversal"@))
    } else if !semver_shape(manifest.version) {
        Some(manifest_failure("version must be a semantic version"@))
    } else if manifest.abi != ABI_VERSION@ {
        Some(
            plugin_failure(
                "ABI_UNSUPPORTED"@,
                "expected "@ + ABI_VERSION@ + ", got "@ + manifest.abi,
                "manifest"@,
            ),
        )
    } else if blank_or_repeated(manifest.inject) {
        Some(manifest_failure("inject contains a blank or duplicate value"@))
    } else if repeated(manifest.permissions) {
        Some(manifest_failure("permissions contains a duplicate value"@))
    } else if repeated(manifest.exports) {
        Some(manifest_failure("exports contains a duplicate value"@))
    } else {
        match unlisted_export(manifest.exports, 0) {
            Some(export) => Some(manifest_failure("exports must include "@ + export.spec_str())),
            None => match schema_fault(manifest.config_schema, "$schema"@) {
                Some(message) => Some(manifest_failure(message)),
                None => None,
            },
        }
    }
}

/// Why a configuration is refused: a fault of the manifest, or the first rule
/// of its schema that the configuration breaks.
pub open spec fn configuration_fault(manifest: ManifestModel, config: Json) -> Option<
    PluginFailure,
> {
    match manifest_fault(manifest) {
        Some(failure) => Some(failure),
        None => match config_rule_fault(manifest.config_schema, config, "$"@) {
            Some(message) => Some(plugin_failure("CONFIG_INVALID"@, message, "config"@)),
            None => None,
        },
    }
}

fn find_unlisted(exports: &Vec<GuestExport>) -> (result: Option<GuestExport>)
    ensures
        result == unlisted_export(exports@, 0),
{
    let all = GuestExport::all();
    let mut i: usize = 0;
    while i < 5
        invariant
            i <= 5,
            all@ == GuestExport::spec_all(),
            unlisted_export(exports@, 0) == unlisted_export(exports@, i as int),
        decreases 5 - i,
    {
        if !holds_export(exports, all[i]) {
            return Some(all[i]);
        }
        i += 1;
    }
    None
}

impl PluginManifest {
    /// Checks the ABI and every rule on a manifest.
    pub fn validate(&self) -> (result: Result<(), PluginError>)
        ensures
            plugin_fault(result) == manifest_fault(self@),
    {
        if is_blank(self.id.as_str()) {
            return Err(manifest_error("id must not be blank"));
        }
        if is_blank(self.version.as_str()) {
            return Err(manifest_error("version must not be blank"));
        }
        if is_blank(self.entry.as_str()) {
            return Err(manifest_error("entry must not be blank"));
        }
        if !is_confined_entry(self.entry.as_str()) {
            return Err(manifest_error("entry must be a relative path without traversal"));
        }
        if !is_semver(self.version.as_str()) {
            return Err(manifest_error("version must be a semantic version"));
        }
        if !same_text(self.abi.as_str(), ABI_VERSION) {
            let mut message = join3("expected ", ABI_VERSION, ", got ");
            message.append(self.abi.as_str());
            return Err(PluginError::new("ABI_UNSUPPORTED", message.as_str(), "manifest"));
        }
        if has_blank_or_repeated(&self.inject) {
            return Err(manifest_error("inject contains a blank or duplicate value"));
        }
        if has_repeated_capability(&self.permissions) {
            return Err(manifest_error("permissions contains a duplicate value"));
        }
        if has_repeated_export(&self.exports) {
            return Err(manifest_error("exports contains a duplicate value"));
        }
        if let Some(export) = find_unlisted(&self.exports) {
            return Err(manifest_error(join2("exports must include ", export.as_str()).as_str()));
        }
        match find_schema_fault(&self.config_schema, "$schema") {
            Some(message) => Err(manifest_error(message.as_str())),
            None => Ok(()),
        }
    }

    /// Checks a concrete configuration against the schema of the manifest.
    pub fn validate_config(&self, config: &JsonValue) -> (result: Result<(), PluginError>)
        ensures
            plugin_fault(result) == configuration_fault(self@, config@),
    {
        match self.validate() {
            Ok(()) => {},
            Err(error) => {
                return Err(error);
            },
        }
        match find_config_rule_fault(&self.config_schema, config, "$") {
            Some(message) => Err(PluginError::new("CONFIG_INVALID", message.as_str(), "config")),
            None => Ok(()),
        }
    }
}

/// The function type `() -> i32` that every lifecycle export has.
pub open spec fn lifecycle_signature(signature: SignatureModel) -> bool {
    signature.parameters.len() == 0 && signature.results == seq![0x7fu8]
}

/// The first of the exports `GuestExport::spec_all()[from..]` that the module
/// lacks or gives another type.
pub open spec fn export_fault(exports: Seq<(Seq<char>, SignatureModel)>, from: int) -> Option<
    PluginFailure,
>
    decreases 5 - from,
{
    if from < 0 || from >= 5 {
        None
    } else {
        let name = GuestExport::spec_all()[from].spec_str();
        match lookup(exports, name) {
            None => Some(
                plugin_failure(
                    "ABI_EXPORT_MISSING"@,
                    "module does not export "@ + name,
                    "manifest"@,
                ),
            ),
            Some(signature) => if lifecycle_signature(signature) {
                export_fault(exports, from + 1)
            } else {
                Some(
                    plugin_failure(
                        "ABI_EXPORT_INVALID"@,
                        "module export "@ + name + " must have type () -> i32"@,
                        "manifest"@,
                    ),
                )
            },
        }
    }
}

/// Why a module is refused.
pub open spec fn module_fault(wasm: Seq<u8>) -> Option<PluginFailure> {
    if wasm.len() > MAX_WASM_BYTES {
        Some(crate::module::module_failure("module exceeds the 8 MiB size limit"@))
    } else {
        match function_exports(wasm) {
            Err(message) => Some(crate::module::module_failure(message)),
            Ok(exports) => export_fault(exports, 0),
        }
    }
}

fn find_function(exports: &Vec<FunctionExport>, name: &str) -> (result: Option<usize>)
    ensures
        match result {
            Some(i) => i < exports@.len() && lookup(function_list(exports@), name@) == Some(
                exports@[i as int].signature@,
            ),
            None => lookup(function_list(exports@), name@) is None,
        },
{
    let ghost model = function_list(exports@);
    let mut i: usize = 0;
    assert(model.subrange(0, model.len() as int) =~= model);
    while i < exports.len()
        invariant
            i <= exports@.len(),
            model == function_list(exports@),
            lookup(model, name@) == lookup(model.subrange(i as int, model.len() as int), name@),
        decreases exports@.len() - i,
    {
        let ghost rest = model.subrange(i as int, model.len() as int);
        assert(rest[0] == model[i as int]);
        assert(rest.drop_first() =~= model.subrange(i + 1, model.len() as int));
        if same_text(exports[i].name.as_str(), name) {
            return Some(i);
        }
        i += 1;
    }
    None
}

/// Checks that a module is small enough and has every lifecycle export with
/// its type.
pub fn validate_wasm_exports(wasm: &[u8]) -> (result: Result<(), PluginError>)
    ensures
        plugin_fault(result) == module_fault(wasm@),
{
    if wasm.len() > MAX_WASM_BYTES {
        return Err(crate::module::module_error("module exceeds the 8 MiB size limit"));
    }
    let exports = match wasm_function_exports(wasm) {
        Ok(exports) => exports,
        Err(error) => return Err(error),
    };
    let ghost model = function_list(exports@);
    let all = GuestExport::all();
    let mut i: usize = 0;
    while i < 5
        invariant
            i <= 5,
            all@ == GuestExport::spec_all(),
            model == function_list(exports@),
            module_fault(wasm@) == export_fault(model, i as int),
        decreases 5 - i,
    {
        let name = all[i].as_str();
        match find_function(&exports, name) {
            None => {
                return Err(
                    PluginError::new(
                        "ABI_EXPORT_MISSING",
                        join2("module does not export ", name).as_str(),
                        "manifest",
                    ),
                );
            },
            Some(at) => {
                let signature = exports[at].signature;
                let right = signature.parameters.len() == 0 && signature.results.len() == 1
                    && signature.results[0] == 0x7f;
                proof {
                    if right {
                        assert(signature.results@ =~= seq![0x7fu8]);
                    }
                }
                if !right {
                    return Err(
                        PluginError::new(
                            "ABI_EXPORT_INVALID",
                            join3("module export ", name, " must have type () -> i32").as_str(),
                            "manifest",
                        ),
                    );
                }
            },
        }
        i += 1;
    }
    Ok(())
}

}
