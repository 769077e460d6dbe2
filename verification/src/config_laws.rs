//! Which configurations are accepted: those that conform to their schema.

use vstd::prelude::*;

use crate::json::{lookup, properties_are_smaller, property, same_json, Json, Number};
use crate::manifest::{
    config_rule_fault, configuration_fault, item_rules_fault, manifest_fault, member_rules_fault,
    missing_from, unknown_from, ManifestModel,
};
use crate::schema::{
    first_missing, items_fault, lemma_schema_view, members_fault, property_list, value_fault,
    ConfigFailure, NativeConfigKind, NativeConfigSchema, SchemaModel, SchemaProperty,
};
use crate::text::text_list;

verus! {

/// The value is a whole number.
pub open spec fn whole(value: Json) -> bool {
    match value {
        Json::Number(Number::Unsigned(_)) => true,
        Json::Number(Number::Negative(_)) => true,
        _ => false,
    }
}

/// The value is what a type name of a schema says. No other name is a type.
pub open spec fn is_a(value: Json, kind: Seq<char>) -> bool {
    ||| kind == "null"@ && value == Json::Null
    ||| kind == "boolean"@ && (value == Json::Bool(true) || value == Json::Bool(false))
    ||| kind == "integer"@ && whole(value)
    ||| kind == "number"@ && value is Number
    ||| kind == "string"@ && value is String
    ||| kind == "array"@ && value is Array
    ||| kind == "object"@ && value is Object
}

/// A value conforms to a schema: it is of the named type, it equals one of the
/// listed values when values are listed, it has every required member, it has
/// no undeclared member when those are not allowed, and its members and items
/// conform in turn.
pub open spec fn meets(schema: Json, value: Json) -> bool
    decreases schema,
{
    &&& property(schema, "type"@) matches Some(Json::String(kind)) ==> is_a(value, kind)
    &&& property(schema, "enum"@) matches Some(Json::Array(values)) ==> exists|i: int|
        0 <= i < values.len() && same_json(#[trigger] values[i], value)
    &&& property(schema, "required"@) matches Some(Json::Array(names)) ==> (value
        matches Json::Object(members) ==> forall|i: int|
        0 <= i < names.len() ==> (#[trigger] names[i] matches Json::String(name) ==> has_key(
            members,
            name,
        )))
    &&& {
        proof {
            properties_are_smaller(schema, "properties"@);
        }
        match property(schema, "properties"@) {
            Some(Json::Object(properties)) => value matches Json::Object(members) ==> {
                &&& forall|p: int|
                    0 <= p < properties.len() ==> (lookup(members, (#[trigger] properties[p]).0)
                        matches Some(member) ==> meets(properties[p].1, member))
                &&& property(schema, "additionalProperties"@) == Some(Json::Bool(false))
                    ==> forall|m: int|
                    0 <= m < members.len() ==> has_key(properties, (#[trigger] members[m]).0)
            },
            _ => true,
        }
    }
    &&& {
        proof {
            properties_are_smaller(schema, "items"@);
        }
        match property(schema, "items"@) {
            Some(items) => value matches Json::Array(values) ==> forall|i: int|
                0 <= i < values.len() ==> meets(items, #[trigger] values[i]),
            None => true,
        }
    }
}

/// One of the members has that key.
pub open spec fn has_key<V>(members: Seq<(Seq<char>, V)>, key: Seq<char>) -> bool {
    exists|i: int| 0 <= i < members.len() && (#[trigger] members[i]).0 == key
}

proof fn keys_are_found<V>(members: Seq<(Seq<char>, V)>, key: Seq<char>)
    ensures
        lookup(members, key) is Some <==> has_key(members, key),
    decreases members.len(),
{
    if members.len() > 0 {
        let rest = members.drop_first();
        keys_are_found(rest, key);
        if has_key(rest, key) {
            let i = choose|i: int| 0 <= i < rest.len() && (#[trigger] rest[i]).0 == key;
            assert(members[i + 1].0 == key);
        }
        if has_key(members, key) && members[0].0 != key {
            let i = choose|i: int| 0 <= i < members.len() && (#[trigger] members[i]).0 == key;
            assert(rest[i - 1].0 == key);
        }
    }
}

proof fn missing_names_are_told(
    names: Seq<Json>,
    from: int,
    members: Seq<(Seq<char>, Json)>,
    path: Seq<char>,
)
    requires
        0 <= from,
    ensures
        missing_from(names, from, members, path) is None <==> forall|i: int|
            from <= i < names.len() ==> (#[trigger] names[i] matches Json::String(name) ==> has_key(
                members,
                name,
            )),
    decreases names.len() - from,
{
    if from < names.len() {
        missing_names_are_told(names, from + 1, members, path);
        if names[from] is String {
            keys_are_found(members, names[from]->String_0);
        }
    }
}

proof fn unknown_names_are_told(
    members: Seq<(Seq<char>, Json)>,
    from: int,
    properties: Seq<(Seq<char>, Json)>,
    path: Seq<char>,
)
    requires
        0 <= from,
    ensures
        unknown_from(members, from, properties, path) is None <==> forall|m: int|
            from <= m < members.len() ==> has_key(properties, (#[trigger] members[m]).0),
    decreases members.len() - from,
{
    if from < members.len() {
        unknown_names_are_told(members, from + 1, properties, path);
        keys_are_found(properties, members[from].0);
    }
}

/// A configuration is accepted if and only if it conforms to the schema.
pub proof fn accepted_configurations_conform(schema: Json, value: Json, path: Seq<char>)
    ensures
        config_rule_fault(schema, value, path) is None <==> meets(schema, value),
    decreases schema, 0int, 0int,
{
    reveal_strlit("null");
    reveal_strlit("boolean");
    reveal_strlit("integer");
    reveal_strlit("number");
    reveal_strlit("string");
    reveal_strlit("array");
    reveal_strlit("object");
    distinct_types();
    match property(schema, "type"@) {
        Some(Json::String(kind)) => {
            types_are_what_they_say(value, kind);
        },
        _ => {},
    }
    match value {
        Json::Object(members) => {
            match property(schema, "required"@) {
                Some(Json::Array(names)) => missing_names_are_told(names, 0, members, path),
                _ => {},
            }
            match property(schema, "properties"@) {
                Some(Json::Object(properties)) => {
                    properties_are_smaller(schema, "properties"@);
                    members_conform(properties, 0, members, path);
                    unknown_names_are_told(members, 0, properties, path);
                },
                _ => {},
            }
        },
        Json::Array(values) => {
            match property(schema, "items"@) {
                Some(items) => {
                    properties_are_smaller(schema, "items"@);
                    items_conform(items, values, 0, path);
                },
                None => {},
            }
        },
        _ => {},
    }
}

proof fn distinct_types()
    ensures
        "null"@ != "boolean"@,
        "null"@ != "integer"@,
        "null"@ != "number"@,
        "null"@ != "string"@,
        "null"@ != "array"@,
        "null"@ != "object"@,
        "boolean"@ != "integer"@,
        "boolean"@ != "number"@,
        "boolean"@ != "string"@,
        "boolean"@ != "array"@,
        "boolean"@ != "object"@,
        "integer"@ != "number"@,
        "integer"@ != "string"@,
        "integer"@ != "array"@,
        "integer"@ != "object"@,
        "number"@ != "string"@,
        "number"@ != "array"@,
        "number"@ != "object"@,
        "string"@ != "array"@,
        "string"@ != "object"@,
        "array"@ != "object"@,
{
    reveal_strlit("null");
    reveal_strlit("boolean");
    reveal_strlit("integer");
    reveal_strlit("number");
    reveal_strlit("string");
    reveal_strlit("array");
    reveal_strlit("object");
    assert("null"@[1] == 'u' && "number"@[1] == 'u' && "null"@.len() == 4 && "number"@.len() == 6);
    assert("boolean"@[0] == 'b' && "integer"@[0] == 'i' && "string"@[0] == 's');
    assert("array"@[0] == 'a' && "object"@[0] == 'o' && "null"@[0] == 'n' && "number"@[0] == 'n');
}

proof fn types_are_what_they_say(value: Json, kind: Seq<char>)
    ensures
        crate::manifest::has_type(value, kind) <==> is_a(value, kind),
{
    distinct_types();
    match value {
        Json::Bool(flag) => {
            assert(flag == true || flag == false);
        },
        Json::Number(number) => match number {
            Number::Unsigned(_) => {},
            Number::Negative(_) => {},
            Number::Float(_) => {},
        },
        _ => {},
    }
}

proof fn members_conform(
    properties: Seq<(Seq<char>, Json)>,
    from: int,
    members: Seq<(Seq<char>, Json)>,
    path: Seq<char>,
)
    requires
        0 <= from,
    ensures
        member_rules_fault(properties, from, members, path) is None <==> forall|p: int|
            from <= p < properties.len() ==> (lookup(members, (#[trigger] properties[p]).0)
                matches Some(member) ==> meets(properties[p].1, member)),
    decreases properties, 0int, properties.len() - from,
{
    if from < properties.len() {
        members_conform(properties, from + 1, members, path);
        let name = properties[from].0;
        match lookup(members, name) {
            Some(member) => {
                assert(decreases_to!(properties => properties[from]));
                assert(decreases_to!(properties[from] => properties[from].1));
                accepted_configurations_conform(properties[from].1, member, path + "."@ + name);
            },
            None => {},
        }
    }
}

proof fn items_conform(items: Json, values: Seq<Json>, from: int, path: Seq<char>)
    requires
        0 <= from,
    ensures
        item_rules_fault(items, values, from, path) is None <==> forall|i: int|
            from <= i < values.len() ==> meets(items, #[trigger] values[i]),
    decreases items, 1int, values.len() - from,
{
    if from < values.len() {
        items_conform(items, values, from + 1, path);
        accepted_configurations_conform(
            items,
            values[from],
            path + "["@ + crate::text::decimal_text(from as nat) + "]"@,
        );
    }
}

/// What is said of a value that breaks a rule: its type first, then that it is
/// not listed, then what it lacks.
pub proof fn refusals_name_the_rule(schema: Json, value: Json, path: Seq<char>)
    ensures
        property(schema, "type"@) matches Some(Json::String(kind)) ==> (!is_a(value, kind)
            ==> config_rule_fault(schema, value, path) == Some(path + " must be "@ + kind)),
        (property(schema, "enum"@) matches Some(Json::Array(values)) ==> ((property(schema, "type"@)
            matches Some(Json::String(kind)) ==> is_a(value, kind)) && !(exists|i: int|
            0 <= i < values.len() && same_json(#[trigger] values[i], value)) ==> config_rule_fault(
            schema,
            value,
            path,
        ) == Some(path + " is not an allowed value"@))),
{
    match property(schema, "type"@) {
        Some(Json::String(kind)) => {
            types_are_what_they_say(value, kind);
        },
        _ => {},
    }
}

/// A plugin accepts a configuration exactly if its manifest is valid and the
/// configuration conforms to the manifest's schema. What does not conform is
/// refused as an invalid configuration.
pub proof fn plugins_accept_what_conforms(manifest: ManifestModel, config: Json)
    ensures
        configuration_fault(manifest, config) is None <==> manifest_fault(manifest) is None
            && meets(manifest.config_schema, config),
        manifest_fault(manifest) is None && !meets(manifest.config_schema, config) ==> (
        configuration_fault(manifest, config) matches Some(failure) && failure.code
            == "CONFIG_INVALID"@ && failure.phase == "config"@),
{
    accepted_configurations_conform(manifest.config_schema, config, "$"@);
}

/// A value conforms to the contract of a native plugin: a number contract takes
/// every number, an integer contract every whole one; a list conforms if all
/// items do; an object has all that is required, what it has conforms, and it
/// has nothing else unless that is allowed.
pub open spec fn conforms(schema: NativeConfigSchema, value: Json) -> bool
    decreases schema,
{
    match schema {
        NativeConfigSchema::Any => true,
        NativeConfigSchema::Null => value == Json::Null,
        NativeConfigSchema::Boolean => value is Bool,
        NativeConfigSchema::Integer => whole(value),
        NativeConfigSchema::Number => value is Number,
        NativeConfigSchema::String => value is String,
        NativeConfigSchema::Array(items) => match value {
            Json::Array(values) => forall|i: int|
                0 <= i < values.len() ==> conforms(*items, #[trigger] values[i]),
            _ => false,
        },
        NativeConfigSchema::Object { properties, required, allow_additional } => match value {
            Json::Object(members) => {
                &&& forall|r: int|
                    0 <= r < required@.len() ==> has_key(members, (#[trigger] required@[r])@)
                &&& forall|m: int, p: int|
                    0 <= m < members.len() && 0 <= p < properties@.len() && names_first(
                        properties@,
                        p,
                        members[m].0,
                    ) ==> conforms((#[trigger] properties@[p]).schema, (#[trigger] members[m]).1)
                &&& !allow_additional ==> forall|m: int|
                    0 <= m < members.len() ==> exists|p: int|
                        0 <= p < properties@.len() && (#[trigger] properties@[p]).name@ == (
                        #[trigger] members[m]).0
            },
            _ => false,
        },
    }
}

/// Property `p` is the first of that name.
pub open spec fn names_first(properties: Seq<SchemaProperty>, p: int, name: Seq<char>) -> bool {
    &&& properties[p].name@ == name
    &&& forall|q: int| 0 <= q < p ==> (#[trigger] properties[q]).name@ != name
}

proof fn first_property(properties: Seq<SchemaProperty>, name: Seq<char>) -> (p: int)
    ensures
        match lookup(property_list(properties), name) {
            Some(schema) => 0 <= p < properties.len() && names_first(properties, p, name) && schema
                == properties[p].schema@,
            None => forall|q: int| 0 <= q < properties.len() ==> (#[trigger] properties[q]).name@
                != name,
        },
    decreases properties.len(),
{
    let list = property_list(properties);
    if properties.len() == 0 {
        0
    } else if properties[0].name@ == name {
        assert(list[0] == (properties[0].name@, properties[0].schema@));
        0
    } else {
        let rest = properties.drop_first();
        let p = first_property(rest, name);
        assert(list[0].0 == properties[0].name@);
        assert(list.drop_first() =~= property_list(rest));
        assert forall|q: int| 1 <= q < properties.len() implies (#[trigger] properties[q])
            == rest[q - 1] by {}
        p + 1
    }
}

proof fn required_names_are_there<V>(
    names: Seq<Seq<char>>,
    members: Seq<(Seq<char>, V)>,
    from: int,
)
    requires
        0 <= from,
    ensures
        first_missing(names, members, from) is None <==> forall|r: int|
            from <= r < names.len() ==> has_key(members, #[trigger] names[r]),
    decreases names.len() - from,
{
    if from < names.len() {
        required_names_are_there(names, members, from + 1);
        keys_are_found(members, names[from]);
    }
}

/// The name that is said to be missing is the first one that is.
pub proof fn the_first_missing_name_is_told<V>(
    names: Seq<Seq<char>>,
    members: Seq<(Seq<char>, V)>,
    from: int,
)
    requires
        0 <= from,
    ensures
        first_missing(names, members, from) matches Some(name) ==> exists|r: int|
            from <= r < names.len() && #[trigger] names[r] == name && !has_key(members, name)
                && forall|q: int| from <= q < r ==> has_key(members, #[trigger] names[q]),
    decreases names.len() - from,
{
    if from < names.len() {
        the_first_missing_name_is_told(names, members, from + 1);
        keys_are_found(members, names[from]);
        if first_missing(names, members, from) is Some {
            let name = first_missing(names, members, from)->0;
            if has_key(members, names[from]) {
                let r = choose|r: int|
                    from + 1 <= r < names.len() && #[trigger] names[r] == name && !has_key(
                        members,
                        name,
                    ) && forall|q: int| from + 1 <= q < r ==> has_key(members, #[trigger] names[q]);
                assert forall|q: int| from <= q < r implies has_key(
                    members,
                    #[trigger] names[q],
                ) by {}
                assert(names[r] == name);
            } else {
                assert(names[from] == name);
            }
        }
    }
}

proof fn list_conforms(
    items: NativeConfigSchema,
    values: Seq<Json>,
    path: Seq<char>,
    from: int,
)
    requires
        0 <= from,
    ensures
        items_fault(items@, values, path, from) is None <==> forall|i: int|
            from <= i < values.len() ==> conforms(items, #[trigger] values[i]),
    decreases values, values.len() - from,
{
    if from < values.len() {
        list_conforms(items, values, path, from + 1);
        native_values_are_accepted_if_they_conform(
            items,
            values[from],
            crate::schema::item_path(path, from as nat),
        );
    }
}

/// Member `m` conforms to the property of its name, and has one unless others
/// are allowed.
spec fn member_conforms(
    properties: Seq<SchemaProperty>,
    allow_additional: bool,
    members: Seq<(Seq<char>, Json)>,
    m: int,
) -> bool {
    &&& forall|p: int|
        0 <= p < properties.len() && names_first(properties, p, members[m].0) ==> conforms(
            (#[trigger] properties[p]).schema,
            members[m].1,
        )
    &&& !allow_additional ==> exists|p: int|
        0 <= p < properties.len() && (#[trigger] properties[p]).name@ == members[m].0
}

proof fn object_conforms(
    properties: Seq<SchemaProperty>,
    allow_additional: bool,
    members: Seq<(Seq<char>, Json)>,
    path: Seq<char>,
    from: int,
)
    requires
        0 <= from,
    ensures
        members_fault(property_list(properties), allow_additional, members, path, from) is None
            <==> forall|m: int|
            from <= m < members.len() ==> #[trigger] member_conforms(
                properties,
                allow_additional,
                members,
                m,
            ),
    decreases members, members.len() - from,
{
    if from < members.len() {
        object_conforms(properties, allow_additional, members, path, from + 1);
        let (name, value) = members[from];
        let p = first_property(properties, name);
        match lookup(property_list(properties), name) {
            Some(schema) => {
                assert(decreases_to!(members => members[from]));
                assert(decreases_to!(members[from] => members[from].1));
                native_values_are_accepted_if_they_conform(
                    properties[p].schema,
                    value,
                    crate::schema::property_path(path, name),
                );
                assert forall|q: int|
                    0 <= q < properties.len() && names_first(properties, q, name) implies q
                    == p by {
                    if q < p {
                        assert(properties[q].name@ != name);
                    } else if p < q {
                        assert(properties[p].name@ != name);
                    }
                }
                assert(member_conforms(properties, allow_additional, members, from) <==> conforms(
                    properties[p].schema,
                    value,
                ));
            },
            None => {
                assert(member_conforms(properties, allow_additional, members, from)
                    <==> allow_additional);
            },
        }
    }
}

/// A native plugin accepts a configuration if and only if it conforms to the
/// plugin's contract, wherever in the configuration it stands.
pub proof fn native_values_are_accepted_if_they_conform(
    schema: NativeConfigSchema,
    value: Json,
    path: Seq<char>,
)
    ensures
        value_fault(schema@, value, path) is None <==> conforms(schema, value),
    decreases value, 0int,
{
    lemma_schema_view(schema);
    match schema {
        NativeConfigSchema::Array(items) => match value {
            Json::Array(values) => {
                assert(schema@ == SchemaModel::Array(Box::new(items@)));
                list_conforms(*items, values, path, 0);
            },
            _ => {},
        },
        NativeConfigSchema::Object { properties, required, allow_additional } => match value {
            Json::Object(members) => {
                let names = text_list(required@);
                required_names_are_there(names, members, 0);
                object_conforms(properties@, allow_additional, members, path, 0);
                assert((forall|r: int|
                    0 <= r < required@.len() ==> has_key(members, (#[trigger] required@[r])@))
                    <==> (forall|r: int|
                    0 <= r < names.len() ==> has_key(members, #[trigger] names[r]))) by {
                    if forall|r: int| 0 <= r < names.len() ==> has_key(members, #[trigger] names[r]) {
                        assert forall|r: int| 0 <= r < required@.len() implies has_key(
                            members,
                            (#[trigger] required@[r])@,
                        ) by {
                            assert(names[r] == required@[r]@);
                        }
                    }
                }
                if conforms(schema, value) {
                    assert forall|m: int| 0 <= m < members.len() implies #[trigger] member_conforms(
                        properties@,
                        allow_additional,
                        members,
                        m,
                    ) by {
                        assert(members[m].0 == members[m].0);
                    }
                }
                if forall|m: int|
                    0 <= m < members.len() ==> #[trigger] member_conforms(
                        properties@,
                        allow_additional,
                        members,
                        m,
                    ) {
                    assert forall|m: int, p: int|
                        0 <= m < members.len() && 0 <= p < properties@.len() && names_first(
                            properties@,
                            p,
                            members[m].0,
                        ) implies conforms(
                        (#[trigger] properties@[p]).schema,
                        (#[trigger] members[m]).1,
                    ) by {
                        assert(member_conforms(properties@, allow_additional, members, m));
                    }
                    if !allow_additional {
                        assert forall|m: int| 0 <= m < members.len() implies exists|p: int|
                            0 <= p < properties@.len() && (#[trigger] properties@[p]).name@ == (
                            #[trigger] members[m]).0 by {
                            assert(member_conforms(properties@, allow_additional, members, m));
                        }
                    }
                }
            },
            _ => {},
        },
        _ => {
            match value {
                Json::Number(number) => match number {
                    Number::Unsigned(_) => {},
                    Number::Negative(_) => {},
                    Number::Float(_) => {},
                },
                _ => {},
            }
        },
    }
}

/// Whatever an integer contract takes, a number contract takes too, and any
/// value passes without a contract.
pub proof fn integers_are_numbers(value: Json, path: Seq<char>)
    ensures
        value_fault(SchemaModel::Integer, value, path) is None ==> value_fault(
            SchemaModel::Number,
            value,
            path,
        ) is None,
        value_fault(SchemaModel::Any, value, path) is None,
        forall|kind: Number| #[trigger]
            value_fault(SchemaModel::Number, Json::Number(kind), path) is None,
{
}

/// A value of the wrong kind is refused at its place, with the kind that was
/// asked for and the kind that was found.
pub proof fn wrong_kinds_are_named(schema: NativeConfigSchema, value: Json, path: Seq<char>)
    requires
        match schema {
            NativeConfigSchema::Any => false,
            NativeConfigSchema::Null => !(value is Null),
            NativeConfigSchema::Boolean => !(value is Bool),
            NativeConfigSchema::Integer => !whole(value),
            NativeConfigSchema::Number => !(value is Number),
            NativeConfigSchema::String => !(value is String),
            NativeConfigSchema::Array(_) => !(value is Array),
            NativeConfigSchema::Object { .. } => !(value is Object),
        },
    ensures
        value_fault(schema@, value, path) matches Some(
            ConfigFailure::Type { path: place, expected, actual },
        ) && place == path && expected == (match schema {
            NativeConfigSchema::Any => NativeConfigKind::Any,
            NativeConfigSchema::Null => NativeConfigKind::Null,
            NativeConfigSchema::Boolean => NativeConfigKind::Boolean,
            NativeConfigSchema::Integer => NativeConfigKind::Integer,
            NativeConfigSchema::Number => NativeConfigKind::Number,
            NativeConfigSchema::String => NativeConfigKind::String,
            NativeConfigSchema::Array(_) => NativeConfigKind::Array,
            NativeConfigSchema::Object { .. } => NativeConfigKind::Object,
        }) && (actual == NativeConfigKind::Null <==> value is Null) && (actual
            == NativeConfigKind::Boolean <==> value is Bool) && (actual == NativeConfigKind::String
            <==> value is String) && (actual == NativeConfigKind::Array <==> value is Array) && (
        actual == NativeConfigKind::Object <==> value is Object) && (actual
            == NativeConfigKind::Integer <==> whole(value)) && (actual == NativeConfigKind::Number
            <==> value is Number && !whole(value)),
{
    lemma_schema_view(schema);
    match value {
        Json::Number(number) => match number {
            Number::Unsigned(_) => {},
            Number::Negative(_) => {},
            Number::Float(_) => {},
        },
        _ => {},
    }
}

}
