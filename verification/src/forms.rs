//! The forms in which a document may give a record or a name, besides the
//! plain ones.

use vstd::prelude::*;
use vstd::string::*;

use crate::json::{json_list, json_members, lemma_array_view, lookup_finds_a_member, property, Json, JsonValue, Member};
use crate::text::text_list;

verus! {

/// A record as an object. A record may be given as a list of its fields in
/// order, of which the last ones may be left out, but not the first `least`.
pub open spec fn record(value: Json, names: Seq<Seq<char>>, least: nat) -> Json {
    match value {
        Json::Array(values) => if least <= values.len() <= names.len() {
            Json::Object(Seq::new(values.len(), |i: int| (names[i], values[i])))
        } else {
            value
        },
        _ => value,
    }
}

/// Gives a record as an object.
pub fn as_record(value: &JsonValue, names: &Vec<String>, least: usize) -> (result: JsonValue)
    ensures
        result@ == record(value@, text_list(names@), least as nat),
{
    proof {
        lemma_array_view(*value);
    }
    let values = match value {
        JsonValue::Array(values) => values,
        _ => return value.clone(),
    };
    if values.len() < least || values.len() > names.len() {
        return value.clone();
    }
    let mut members: Vec<Member> = Vec::new();
    let mut i: usize = 0;
    while i < values.len()
        invariant
            i <= values@.len() <= names@.len(),
            members@.len() == i,
            forall|k: int|
                0 <= k < i ==> (#[trigger] members@[k]).key@ == names@[k]@ && members@[k].value@
                    == values@[k]@,
        decreases values@.len() - i,
    {
        members.push(Member { key: names[i].clone(), value: values[i].clone() });
        i += 1;
    }
    let result = JsonValue::Object(members);
    proof {
        lemma_array_view(result);
        assert(json_members(members@) =~= record(
            value@,
            text_list(names@),
            least as nat,
        )->Object_0) by {
            assert(json_list(values@).len() == values@.len());
        }
    }
    result
}

/// The fields of a record are smaller than what gives it.
pub proof fn fields_are_smaller(
    value: Json,
    names: Seq<Seq<char>>,
    least: nat,
    key: Seq<char>,
)
    ensures
        property(record(value, names, least), key) matches Some(field) ==> decreases_to!(
            value => field
        ),
{
    crate::json::properties_are_smaller(value, key);
    match value {
        Json::Array(values) => {
            if least <= values.len() <= names.len() {
                let members = record(value, names, least)->Object_0;
                lookup_finds_a_member(members, key);
                if property(record(value, names, least), key) is Some {
                    let field = property(record(value, names, least), key)->0;
                    let i = choose|i: int|
                        0 <= i < members.len() && (#[trigger] members[i]).0 == key && members[i].1
                            == field;
                    assert(members[i].1 == values[i]);
                    assert(decreases_to!(value => value->Array_0));
                    assert(decreases_to!(values => values[i]));
                }
            }
        },
        _ => {},
    }
}

/// A name of a list of names. A name may be given as an object whose only key
/// it is, with null for a value.
pub open spec fn named(value: Json) -> Json {
    match value {
        Json::Object(members) => if members.len() == 1 && members[0].1 is Null {
            Json::String(members[0].0)
        } else {
            value
        },
        _ => value,
    }
}

/// Gives a name as a text.
pub fn as_name(value: &JsonValue) -> (result: JsonValue)
    ensures
        result@ == named(value@),
{
    proof {
        lemma_array_view(*value);
    }
    match value {
        JsonValue::Object(members) => {
            if members.len() == 1 {
                assert(json_members(members@)[0] == (members@[0].key@, members@[0].value@));
                if members[0].value.is_null() {
                    return JsonValue::String(members[0].key.clone());
                }
            }
            value.clone()
        },
        _ => value.clone(),
    }
}

/// The name of a variant within a record whose fields are merged with others:
/// an empty object may stand for null too.
pub open spec fn merged_name(value: Json) -> Json {
    match value {
        Json::Object(members) => if members.len() == 1 && (members[0].1 is Null || members[0].1
            == Json::Object(Seq::<(Seq<char>, Json)>::empty())) {
            Json::String(members[0].0)
        } else {
            value
        },
        _ => value,
    }
}

/// Gives such a name as a text.
pub fn as_merged_name(value: &JsonValue) -> (result: JsonValue)
    ensures
        result@ == merged_name(value@),
{
    proof {
        lemma_array_view(*value);
    }
    match value {
        JsonValue::Object(members) => {
            if members.len() == 1 {
                let inner = &members[0].value;
                assert(json_members(members@)[0] == (members@[0].key@, members@[0].value@));
                proof {
                    lemma_array_view(*inner);
                }
                let nothing = match inner {
                    JsonValue::Null => true,
                    JsonValue::Object(fields) => {
                        proof {
                            if fields@.len() == 0 {
                                assert(json_members(fields@) =~= Seq::empty());
                            } else {
                                assert(json_members(fields@).len() > 0);
                            }
                        }
                        fields.len() == 0
                    },
                    _ => false,
                };
                if nothing {
                    return JsonValue::String(members[0].key.clone());
                }
            }
            value.clone()
        },
        _ => value.clone(),
    }
}

/// The names of a list.
pub open spec fn all_named(values: Seq<Json>) -> Seq<Json> {
    Seq::new(values.len(), |i: int| named(values[i]))
}

/// Gives the names of a list as texts.
pub fn as_names(values: &Vec<JsonValue>) -> (result: Vec<JsonValue>)
    ensures
        json_list(result@) == all_named(json_list(values@)),
{
    let mut result: Vec<JsonValue> = Vec::new();
    let mut i: usize = 0;
    while i < values.len()
        invariant
            i <= values@.len(),
            result@.len() == i,
            forall|k: int| 0 <= k < i ==> (#[trigger] result@[k])@ == named(values@[k]@),
        decreases values@.len() - i,
    {
        result.push(as_name(&values[i]));
        i += 1;
    }
    assert(json_list(result@) =~= all_named(json_list(values@)));
    result
}

/// A list of names as the library keeps them.
pub fn names_of(names: &[&'static str]) -> (result: Vec<String>)
    ensures
        text_list(result@) == Seq::new(names@.len(), |i: int| names@[i]@),
{
    let mut result: Vec<String> = Vec::new();
    let mut i: usize = 0;
    while i < names.len()
        invariant
            i <= names@.len(),
            result@.len() == i,
            forall|k: int| 0 <= k < i ==> (#[trigger] result@[k])@ == names@[k]@,
        decreases names@.len() - i,
    {
        result.push(names[i].to_owned());
        i += 1;
    }
    assert(text_list(result@) =~= Seq::new(names@.len(), |i: int| names@[i]@));
    result
}

}
