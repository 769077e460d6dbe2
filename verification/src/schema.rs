//! The configuration contract of a native plugin.

use vstd::prelude::*;
use vstd::string::*;

use crate::json::{
    find_member, json_list, json_members, lemma_array_view, lookup, with_member, Json, JsonValue,
    Number,
};
use crate::text::{
    clone_texts, comes_before, decimal, decimal_text, join2, join3, same_text, text_list,
};

verus! {

/// A closed configuration contract for a native plugin.
#[derive(Debug, PartialEq, Eq)]
pub enum NativeConfigSchema {
    Any,
    Null,
    Boolean,
    Integer,
    Number,
    String,
    Array(Box<NativeConfigSchema>),
    /// The properties and the names of the required ones, each in name order.
    Object { properties: Vec<SchemaProperty>, required: Vec<String>, allow_additional: bool },
}

/// The contract of one property of an object.
#[derive(Debug, PartialEq, Eq)]
pub struct SchemaProperty {
    pub name: String,
    pub schema: NativeConfigSchema,
}

/// The model of a configuration contract.
#[verifier::ext_equal]
pub enum SchemaModel {
    Any,
    Null,
    Boolean,
    Integer,
    Number,
    String,
    Array(Box<SchemaModel>),
    Object {
        properties: Seq<(Seq<char>, SchemaModel)>,
        required: Seq<Seq<char>>,
        allow_additional: bool,
    },
}

/// The model of one contract.
pub open spec fn schema_of(schema: NativeConfigSchema) -> SchemaModel
    decreases schema,
{
    match schema {
        NativeConfigSchema::Any => SchemaModel::Any,
        NativeConfigSchema::Null => SchemaModel::Null,
        NativeConfigSchema::Boolean => SchemaModel::Boolean,
        NativeConfigSchema::Integer => SchemaModel::Integer,
        NativeConfigSchema::Number => SchemaModel::Number,
        NativeConfigSchema::String => SchemaModel::String,
        NativeConfigSchema::Array(items) => SchemaModel::Array(Box::new(schema_of(*items))),
        NativeConfigSchema::Object {
            properties,
            required,
            allow_additional,
        } => SchemaModel::Object {
            properties: Seq::new(
                properties@.len(),
                |i: int|
                    if 0 <= i < properties@.len() {
                        (properties@[i].name@, schema_of(properties@[i].schema))
                    } else {
                        (Seq::empty(), SchemaModel::Any)
                    },
            ),
            required: text_list(required@),
            allow_additional,
        },
    }
}

impl View for NativeConfigSchema {
    type V = SchemaModel;

    open spec fn view(&self) -> SchemaModel {
        schema_of(*self)
    }
}

/// The models of a list of properties.
pub open spec fn property_list(properties: Seq<SchemaProperty>) -> Seq<(Seq<char>, SchemaModel)> {
    Seq::new(properties.len(), |i: int| (properties[i].name@, properties[i].schema@))
}

/// The model of an object contract lists the models of its properties.
pub proof fn lemma_schema_view(schema: NativeConfigSchema)
    ensures
        schema matches NativeConfigSchema::Object { properties, required, allow_additional }
            ==> schema@ == (SchemaModel::Object {
            properties: property_list(properties@),
            required: text_list(required@),
            allow_additional,
        }),
{
    match schema {
        NativeConfigSchema::Object { properties, .. } => {
            assert(schema@->properties =~= property_list(properties@));
        },
        _ => {},
    }
}

impl Default for NativeConfigSchema {
    fn default() -> (result: Self)
        ensures
            result@ == SchemaModel::Any,
    {
        NativeConfigSchema::Any
    }
}

impl Clone for NativeConfigSchema {
    fn clone(&self) -> (result: Self)
        ensures
            result@ == self@,
        decreases *self,
    {
        proof {
            lemma_schema_view(*self);
        }
        match self {
            NativeConfigSchema::Any => NativeConfigSchema::Any,
            NativeConfigSchema::Null => NativeConfigSchema::Null,
            NativeConfigSchema::Boolean => NativeConfigSchema::Boolean,
            NativeConfigSchema::Integer => NativeConfigSchema::Integer,
            NativeConfigSchema::Number => NativeConfigSchema::Number,
            NativeConfigSchema::String => NativeConfigSchema::String,
            NativeConfigSchema::Array(items) => {
                let copy = (**items).clone();
                NativeConfigSchema::Array(Box::new(copy))
            },
            NativeConfigSchema::Object { properties, required, allow_additional } => {
                let mut copies: Vec<SchemaProperty> = Vec::new();
                let mut i: usize = 0;
                while i < properties.len()
                    invariant
                        i <= properties@.len(),
                        copies@.len() == i,
                        decreases_to!(*self => properties@),
                        forall|k: int|
                            0 <= k < i ==> (#[trigger] copies@[k]).name@ == properties@[k].name@
                                && copies@[k].schema@ == properties@[k].schema@,
                    decreases properties@.len() - i,
                {
                    let schema = properties[i].schema.clone();
                    copies.push(SchemaProperty { name: properties[i].name.clone(), schema });
                    i += 1;
                }
                let result = NativeConfigSchema::Object {
                    properties: copies,
                    required: clone_texts(required),
                    allow_additional: *allow_additional,
                };
                proof {
                    lemma_schema_view(result);
                    assert(property_list(copies@) =~= property_list(properties@));
                }
                result
            },
        }
    }
}

/// Sets the contract of a property, keeping the properties in name order.
pub fn set_property(properties: &mut Vec<SchemaProperty>, name: String, schema: NativeConfigSchema)
    ensures
        property_list(final(properties)@) == with_member(
            property_list(old(properties)@),
            name@,
            schema@,
        ),
{
    let ghost model = property_list(properties@);
    let mut i: usize = 0;
    assert(model.subrange(0, model.len() as int) =~= model);
    assert(model.subrange(0, 0) =~= Seq::empty());
    assert(Seq::<(Seq<char>, SchemaModel)>::empty() + with_member(model, name@, schema@)
        =~= with_member(model, name@, schema@));
    while i < properties.len()
        invariant
            i <= properties@.len(),
            properties@ == old(properties)@,
            model == property_list(old(properties)@),
            with_member(model, name@, schema@) == model.subrange(0, i as int) + with_member(
                model.subrange(i as int, model.len() as int),
                name@,
                schema@,
            ),
        decreases properties@.len() - i,
    {
        let ghost rest = model.subrange(i as int, model.len() as int);
        assert(rest[0] == model[i as int]);
        assert(rest.drop_first() =~= model.subrange(i + 1, model.len() as int));
        if properties[i].name == name {
            properties[i].schema = schema;
            assert(property_list(properties@) =~= model.subrange(0, i as int) + (seq![
                (name@, schema@),
            ] + rest.drop_first()));
            return;
        }
        if comes_before(name.as_str(), properties[i].name.as_str()) {
            properties.insert(i, SchemaProperty { name, schema });
            assert(property_list(properties@) =~= model.subrange(0, i as int) + (seq![
                (name@, schema@),
            ] + rest));
            return;
        }
        assert(model.subrange(0, i + 1) =~= model.subrange(0, i as int) + seq![rest[0]]);
        assert(with_member(model, name@, schema@) =~= model.subrange(0, i + 1) + with_member(
            rest.drop_first(),
            name@,
            schema@,
        ));
        i += 1;
    }
    assert(model.subrange(i as int, model.len() as int) =~= Seq::empty());
    properties.push(SchemaProperty { name, schema });
    assert(property_list(properties@) =~= model.subrange(0, i as int) + seq![(name@, schema@)]);
}

/// One native configuration value kind, used in structured validation errors.
#[derive(Clone, Copy, Debug, PartialEq, Eq, Structural)]
pub enum NativeConfigKind {
    Any,
    Null,
    Boolean,
    Integer,
    Number,
    String,
    Array,
    Object,
}

impl NativeConfigKind {
    pub open spec fn spec_text(self) -> Seq<char> {
        match self {
            NativeConfigKind::Any => "any value"@,
            NativeConfigKind::Null => "null"@,
            NativeConfigKind::Boolean => "boolean"@,
            NativeConfigKind::Integer => "integer"@,
            NativeConfigKind::Number => "number"@,
            NativeConfigKind::String => "string"@,
            NativeConfigKind::Array => "array"@,
            NativeConfigKind::Object => "object"@,
        }
    }

    /// The words that name this kind in messages.
    pub fn text(self) -> (result: &'static str)
        ensures
            result@ == self.spec_text(),
    {
        match self {
            NativeConfigKind::Any => "any value",
            NativeConfigKind::Null => "null",
            NativeConfigKind::Boolean => "boolean",
            NativeConfigKind::Integer => "integer",
            NativeConfigKind::Number => "number",
            NativeConfigKind::String => "string",
            NativeConfigKind::Array => "array",
            NativeConfigKind::Object => "object",
        }
    }
}

/// The kind of a value: a number is an integer unless it is a fraction.
pub open spec fn json_kind(value: Json) -> NativeConfigKind {
    match value {
        Json::Null => NativeConfigKind::Null,
        Json::Bool(_) => NativeConfigKind::Boolean,
        Json::Number(Number::Float(_)) => NativeConfigKind::Number,
        Json::Number(_) => NativeConfigKind::Integer,
        Json::String(_) => NativeConfigKind::String,
        Json::Array(_) => NativeConfigKind::Array,
        Json::Object(_) => NativeConfigKind::Object,
    }
}

/// The kind of value that a contract asks for.
pub open spec fn schema_kind(schema: SchemaModel) -> NativeConfigKind {
    match schema {
        SchemaModel::Any => NativeConfigKind::Any,
        SchemaModel::Null => NativeConfigKind::Null,
        SchemaModel::Boolean => NativeConfigKind::Boolean,
        SchemaModel::Integer => NativeConfigKind::Integer,
        SchemaModel::Number => NativeConfigKind::Number,
        SchemaModel::String => NativeConfigKind::String,
        SchemaModel::Array(_) => NativeConfigKind::Array,
        SchemaModel::Object { .. } => NativeConfigKind::Object,
    }
}

/// The kind of a value.
pub fn kind_of(value: &JsonValue) -> (result: NativeConfigKind)
    ensures
        result == json_kind(value@),
{
    match value {
        JsonValue::Null => NativeConfigKind::Null,
        JsonValue::Bool(_) => NativeConfigKind::Boolean,
        JsonValue::Number(Number::Float(_)) => NativeConfigKind::Number,
        JsonValue::Number(_) => NativeConfigKind::Integer,
        JsonValue::String(_) => NativeConfigKind::String,
        JsonValue::Array(_) => NativeConfigKind::Array,
        JsonValue::Object(_) => NativeConfigKind::Object,
    }
}

/// A structured native configuration validation failure.
#[allow(inconsistent_fields)]
#[derive(Debug, PartialEq, Eq)]
pub enum NativeConfigError {
    InvalidSchema { path: String, message: String },
    Type { path: String, expected: NativeConfigKind, actual: NativeConfigKind },
    Required { path: String, property: String },
    AdditionalProperty { path: String, property: String },
}

/// The model of a configuration failure.
#[allow(inconsistent_fields)]
#[verifier::ext_equal]
pub enum ConfigFailure {
    InvalidSchema { path: Seq<char>, message: Seq<char> },
    Type { path: Seq<char>, expected: NativeConfigKind, actual: NativeConfigKind },
    Required { path: Seq<char>, property: Seq<char> },
    AdditionalProperty { path: Seq<char>, property: Seq<char> },
}

impl View for NativeConfigError {
    type V = ConfigFailure;

    open spec fn view(&self) -> ConfigFailure {
        match self {
            NativeConfigError::InvalidSchema { path, message } => ConfigFailure::InvalidSchema {
                path: path@,
                message: message@,
            },
            NativeConfigError::Type { path, expected, actual } => ConfigFailure::Type {
                path: path@,
                expected: *expected,
                actual: *actual,
            },
            NativeConfigError::Required { path, property } => ConfigFailure::Required {
                path: path@,
                property: property@,
            },
            NativeConfigError::AdditionalProperty { path, property } => {
                ConfigFailure::AdditionalProperty { path: path@, property: property@ }
            },
        }
    }
}

impl Clone for NativeConfigError {
    fn clone(&self) -> (result: Self)
        ensures
            result@ == self@,
    {
        match self {
            NativeConfigError::InvalidSchema { path, message } => {
                NativeConfigError::InvalidSchema { path: path.clone(), message: message.clone() }
            },
            NativeConfigError::Type { path, expected, actual } => {
                NativeConfigError::Type {
                    path: path.clone(),
                    expected: *expected,
                    actual: *actual,
                }
            },
            NativeConfigError::Required { path, property } => {
                NativeConfigError::Required { path: path.clone(), property: property.clone() }
            },
            NativeConfigError::AdditionalProperty { path, property } => {
                NativeConfigError::AdditionalProperty {
                    path: path.clone(),
                    property: property.clone(),
                }
            },
        }
    }
}

/// The message that a configuration failure shows.
pub open spec fn config_message(error: ConfigFailure) -> Seq<char> {
    match error {
        ConfigFailure::InvalidSchema { path, message } => "invalid native config schema at "@
            + path + ": "@ + message,
        ConfigFailure::Type { path, expected, actual } => "native config at "@ + path
            + " must be "@ + expected.spec_text() + ", found "@ + actual.spec_text(),
        ConfigFailure::Required { path, property } => "native config at "@ + path
            + " is missing required property "@ + property,
        ConfigFailure::AdditionalProperty { path, property } => "native config at "@ + path
            + " has unexpected property "@ + property,
    }
}

impl NativeConfigError {
    /// The message that this failure shows.
    pub fn message(&self) -> (result: String)
        ensures
            result@ == config_message(self@),
    {
        match self {
            NativeConfigError::InvalidSchema { path, message } => {
                let mut text = join2("invalid native config schema at ", path.as_str());
                text.append(": ");
                text.append(message.as_str());
                text
            },
            NativeConfigError::Type { path, expected, actual } => {
                let mut text = join2("native config at ", path.as_str());
                text.append(" must be ");
                text.append(expected.text());
                text.append(", found ");
                text.append(actual.text());
                text
            },
            NativeConfigError::Required { path, property } => {
                let mut text = join2("native config at ", path.as_str());
                text.append(" is missing required property ");
                text.append(property.as_str());
                text
            },
            NativeConfigError::AdditionalProperty { path, property } => {
                let mut text = join2("native config at ", path.as_str());
                text.append(" has unexpected property ");
                text.append(property.as_str());
                text
            },
        }
    }
}

/// The failure of a check, if any.
pub open spec fn config_failure(result: Result<(), NativeConfigError>) -> Option<ConfigFailure> {
    match result {
        Ok(()) => None,
        Err(error) => Some(error@),
    }
}

/// The path of a property below `path`.
pub open spec fn property_path(path: Seq<char>, property: Seq<char>) -> Seq<char> {
    path + "."@ + property
}

/// The path of an item below `path`.
pub open spec fn item_path(path: Seq<char>, index: nat) -> Seq<char> {
    path + "["@ + decimal_text(index) + "]"@
}

/// The first of `names[from..]` that is not among the keys of `members`.
pub open spec fn first_missing<V>(
    names: Seq<Seq<char>>,
    members: Seq<(Seq<char>, V)>,
    from: int,
) -> Option<Seq<char>>
    decreases names.len() - from,
{
    if from < 0 || from >= names.len() {
        None
    } else if lookup(members, names[from]) is None {
        Some(names[from])
    } else {
        first_missing(names, members, from + 1)
    }
}

/// Why a contract is refused: a required property without a contract, at the
/// outermost and first place.
pub open spec fn schema_fault(schema: SchemaModel, path: Seq<char>) -> Option<ConfigFailure>
    decreases schema, 0int,
{
    match schema {
        SchemaModel::Array(items) => schema_fault(*items, path + "[]"@),
        SchemaModel::Object { properties, required, .. } => match first_missing(
            required,
            properties,
            0,
        ) {
            Some(property) => Some(
                ConfigFailure::InvalidSchema {
                    path,
                    message: "required property "@ + property + " has no schema"@,
                },
            ),
            None => properties_fault(properties, path, 0),
        },
        _ => None,
    }
}

/// The first fault in the contracts of `properties[from..]`.
pub open spec fn properties_fault(
    properties: Seq<(Seq<char>, SchemaModel)>,
    path: Seq<char>,
    from: int,
) -> Option<ConfigFailure>
    decreases properties, properties.len() - from,
{
    if from < 0 || from >= properties.len() {
        None
    } else {
        match schema_fault(properties[from].1, property_path(path, properties[from].0)) {
            Some(failure) => Some(failure),
            None => properties_fault(properties, path, from + 1),
        }
    }
}

/// Why a value is refused: the first place where it leaves its contract.
pub open spec fn value_fault(schema: SchemaModel, value: Json, path: Seq<char>) -> Option<
    ConfigFailure,
>
    decreases value, 0int,
{
    let mismatch = Some(
        ConfigFailure::Type { path, expected: schema_kind(schema), actual: json_kind(value) },
    );
    match schema {
        SchemaModel::Any => None,
        SchemaModel::Number => if value is Number {
            None
        } else {
            mismatch
        },
        SchemaModel::Array(items) => match value {
            Json::Array(values) => items_fault(*items, values, path, 0),
            _ => mismatch,
        },
        SchemaModel::Object { properties, required, allow_additional } => match value {
            Json::Object(members) => match first_missing(required, members, 0) {
                Some(property) => Some(ConfigFailure::Required { path, property }),
                None => members_fault(properties, allow_additional, members, path, 0),
            },
            _ => mismatch,
        },
        _ => if json_kind(value) == schema_kind(schema) {
            None
        } else {
            mismatch
        },
    }
}

/// The first fault in `values[from..]`.
pub open spec fn items_fault(
    items: SchemaModel,
    values: Seq<Json>,
    path: Seq<char>,
    from: int,
) -> Option<ConfigFailure>
    decreases values, values.len() - from,
{
    if from < 0 || from >= values.len() {
        None
    } else {
        match value_fault(items, values[from], item_path(path, from as nat)) {
            Some(failure) => Some(failure),
            None => items_fault(items, values, path, from + 1),
        }
    }
}

/// The first fault in `members[from..]`.
pub open spec fn members_fault(
    properties: Seq<(Seq<char>, SchemaModel)>,
    allow_additional: bool,
    members: Seq<(Seq<char>, Json)>,
    path: Seq<char>,
    from: int,
) -> Option<ConfigFailure>
    decreases members, members.len() - from,
{
    if from < 0 || from >= members.len() {
        None
    } else {
        let (property, value) = members[from];
        let fault = match lookup(properties, property) {
            Some(schema) => value_fault(schema, value, property_path(path, property)),
            None => if allow_additional {
                None
            } else {
                Some(ConfigFailure::AdditionalProperty { path, property })
            },
        };
        match fault {
            Some(failure) => Some(failure),
            None => members_fault(properties, allow_additional, members, path, from + 1),
        }
    }
}

fn find_property(properties: &Vec<SchemaProperty>, name: &str) -> (result: Option<usize>)
    ensures
        match result {
            Some(at) => at < properties@.len() && lookup(property_list(properties@), name@) == Some(
                properties@[at as int].schema@,
            ),
            None => lookup(property_list(properties@), name@) is None,
        },
{
    let ghost model = property_list(properties@);
    let mut i: usize = 0;
    assert(model.subrange(0, model.len() as int) =~= model);
    while i < properties.len()
        invariant
            i <= properties@.len(),
            model == property_list(properties@),
            lookup(model, name@) == lookup(
                model.subrange(i as int, model.len() as int),
                name@,
            ),
        decreases properties@.len() - i,
    {
        let ghost rest = model.subrange(i as int, model.len() as int);
        assert(rest[0] == model[i as int]);
        assert(rest.drop_first() =~= model.subrange(i + 1, model.len() as int));
        if same_text(properties[i].name.as_str(), name) {
            return Some(i);
        }
        i += 1;
    }
    assert(model.subrange(i as int, model.len() as int) =~= Seq::empty());
    None
}

impl NativeConfigSchema {
    /// The kind of value that this contract asks for.
    pub fn kind(&self) -> (result: NativeConfigKind)
        ensures
            result == schema_kind(self@),
    {
        match self {
            NativeConfigSchema::Any => NativeConfigKind::Any,
            NativeConfigSchema::Null => NativeConfigKind::Null,
            NativeConfigSchema::Boolean => NativeConfigKind::Boolean,
            NativeConfigSchema::Integer => NativeConfigKind::Integer,
            NativeConfigSchema::Number => NativeConfigKind::Number,
            NativeConfigSchema::String => NativeConfigKind::String,
            NativeConfigSchema::Array(_) => NativeConfigKind::Array,
            NativeConfigSchema::Object { .. } => NativeConfigKind::Object,
        }
    }

    /// Checks that every required property has a contract, at every depth.
    pub fn validate_schema(&self, path: &str) -> (result: Result<(), NativeConfigError>)
        ensures
            config_failure(result) == schema_fault(self@, path@),
        decreases *self,
    {
        proof {
            lemma_schema_view(*self);
        }
        match self {
            NativeConfigSchema::Array(items) => {
                let below = join2(path, "[]");
                items.validate_schema(below.as_str())
            },
            NativeConfigSchema::Object { properties, required, .. } => {
                let ghost model = property_list(properties@);
                let ghost names = text_list(required@);
                let mut i: usize = 0;
                while i < required.len()
                    invariant
                        i <= required@.len(),
                        model == property_list(properties@),
                        names == text_list(required@),
                        schema_fault(self@, path@) == match first_missing(names, model, i as int) {
                            Some(property) => Some(
                                ConfigFailure::InvalidSchema {
                                    path: path@,
                                    message: "required property "@ + property + " has no schema"@,
                                },
                            ),
                            None => properties_fault(model, path@, 0),
                        },
                    decreases required@.len() - i,
                {
                    assert(names[i as int] == required@[i as int]@);
                    if find_property(properties, required[i].as_str()).is_none() {
                        let message = join3(
                            "required property ",
                            required[i].as_str(),
                            " has no schema",
                        );
                        return Err(
                            NativeConfigError::InvalidSchema { path: path.to_owned(), message },
                        );
                    }
                    i += 1;
                }
                let mut k: usize = 0;
                while k < properties.len()
                    invariant
                        k <= properties@.len(),
                        model == property_list(properties@),
                        decreases_to!(*self => properties@),
                        schema_fault(self@, path@) == properties_fault(model, path@, k as int),
                    decreases properties@.len() - k,
                {
                    let below = join3(path, ".", properties[k].name.as_str());
                    assert(model[k as int] == (
                        properties@[k as int].name@,
                        properties@[k as int].schema@,
                    ));
                    match properties[k].schema.validate_schema(below.as_str()) {
                        Ok(()) => {},
                        Err(error) => return Err(error),
                    }
                    k += 1;
                }
                Ok(())
            },
            _ => Ok(()),
        }
    }

    fn mismatch(&self, value: &JsonValue, path: &str) -> (result: NativeConfigError)
        ensures
            result@ == (ConfigFailure::Type {
                path: path@,
                expected: schema_kind(self@),
                actual: json_kind(value@),
            }),
    {
        NativeConfigError::Type {
            path: path.to_owned(),
            expected: self.kind(),
            actual: kind_of(value),
        }
    }

    /// Checks a value against this contract.
    pub fn validate_value(&self, value: &JsonValue, path: &str) -> (result: Result<
        (),
        NativeConfigError,
    >)
        ensures
            config_failure(result) == value_fault(self@, value@, path@),
        decreases *value,
    {
        proof {
            lemma_schema_view(*self);
            lemma_array_view(*value);
        }
        match self {
            NativeConfigSchema::Any => Ok(()),
            NativeConfigSchema::Number => match value {
                JsonValue::Number(_) => Ok(()),
                _ => Err(self.mismatch(value, path)),
            },
            NativeConfigSchema::Array(items) => match value {
                JsonValue::Array(values) => {
                    let ghost model = json_list(values@);
                    let mut i: usize = 0;
                    while i < values.len()
                        invariant
                            i <= values@.len(),
                            model == json_list(values@),
                            decreases_to!(*value => values@),
                            value_fault(self@, value@, path@) == items_fault(
                                items@,
                                model,
                                path@,
                                i as int,
                            ),
                        decreases values@.len() - i,
                    {
                        let mut below = join3(path, "[", decimal(i as u64).as_str());
                        below.append("]");
                        assert(model[i as int] == values@[i as int]@);
                        match items.validate_value(&values[i], below.as_str()) {
                            Ok(()) => {},
                            Err(error) => return Err(error),
                        }
                        i += 1;
                    }
                    Ok(())
                },
                _ => Err(self.mismatch(value, path)),
            },
            NativeConfigSchema::Object { properties, required, allow_additional } => match value {
                JsonValue::Object(members) => {
                    let ghost model = json_members(members@);
                    let ghost names = text_list(required@);
                    let mut i: usize = 0;
                    while i < required.len()
                        invariant
                            i <= required@.len(),
                            model == json_members(members@),
                            names == text_list(required@),
                            value_fault(self@, value@, path@) == match first_missing(
                                names,
                                model,
                                i as int,
                            ) {
                                Some(property) => Some(
                                    ConfigFailure::Required { path: path@, property },
                                ),
                                None => members_fault(
                                    property_list(properties@),
                                    *allow_additional,
                                    model,
                                    path@,
                                    0,
                                ),
                            },
                        decreases required@.len() - i,
                    {
                        assert(names[i as int] == required@[i as int]@);
                        if find_member(members, required[i].as_str()).is_none() {
                            return Err(
                                NativeConfigError::Required {
                                    path: path.to_owned(),
                                    property: required[i].clone(),
                                },
                            );
                        }
                        i += 1;
                    }
                    let ghost contracts = property_list(properties@);
                    let mut k: usize = 0;
                    while k < members.len()
                        invariant
                            k <= members@.len(),
                            model == json_members(members@),
                            contracts == property_list(properties@),
                            decreases_to!(*value => members@),
                            value_fault(self@, value@, path@) == members_fault(
                                contracts,
                                *allow_additional,
                                model,
                                path@,
                                k as int,
                            ),
                        decreases members@.len() - k,
                    {
                        let member = &members[k];
                        assert(model[k as int] == (member.key@, member.value@));
                        match find_property(properties, member.key.as_str()) {
                            Some(at) => {
                                let below = join3(path, ".", member.key.as_str());
                                match properties[at].schema.validate_value(
                                    &member.value,
                                    below.as_str(),
                                ) {
                                    Ok(()) => {},
                                    Err(error) => return Err(error),
                                }
                            },
                            None => {
                                if !*allow_additional {
                                    return Err(
                                        NativeConfigError::AdditionalProperty {
                                            path: path.to_owned(),
                                            property: member.key.clone(),
                                        },
                                    );
                                }
                            },
                        }
                        k += 1;
                    }
                    Ok(())
                },
                _ => Err(self.mismatch(value, path)),
            },
            _ => {
                if kind_of(value) == self.kind() {
                    Ok(())
                } else {
                    Err(self.mismatch(value, path))
                }
            },
        }
    }
}

}
