//! JSON and YAML documents, as `serde_json` and `serde_yaml` read them.

use vstd::prelude::*;
use vstd::string::*;

use crate::json::{
    canonical, json_list, json_members, lemma_array_view, ordered, Json, JsonValue, Member, Number,
};

verus! {

/// A document as `serde_json` holds it.
#[verifier::external_type_specification]
#[verifier::external_body]
pub struct ExDocument(serde_json::Value);

/// What a document holds: its scalars, the values of an array in order, and
/// the members of an object in key order.
pub uninterp spec fn document_model(document: serde_json::Value) -> Json;

/// What `serde_json::from_str` makes of a text: the value, or the message of
/// its error.
pub uninterp spec fn json_of_text(text: Seq<char>) -> Result<Json, Seq<char>>;

/// What `serde_json::from_slice` makes of bytes: the value, or the message of
/// its error.
pub uninterp spec fn json_of_bytes(bytes: Seq<u8>) -> Result<Json, Seq<char>>;

/// What `serde_yaml::from_str` makes of a text: the value, or the message of
/// its error.
pub uninterp spec fn yaml_of_text(text: Seq<char>) -> Result<Json, Seq<char>>;

/// Reads a JSON text with `serde_json::from_str`. The outcome depends on the
/// text alone; which texts are JSON is not stated.
#[verifier::external_body]
fn read_json_text(text: &str) -> (result: Result<serde_json::Value, String>)
    ensures
        match result {
            Ok(document) => json_of_text(text@) == Ok::<Json, Seq<char>>(document_model(document)),
            Err(message) => json_of_text(text@) == Err::<Json, Seq<char>>(message@),
        },
{
    match serde_json::from_str::<serde_json::Value>(text) {
        Ok(document) => Ok(document),
        Err(error) => Err(error.to_string()),
    }
}

/// Reads JSON bytes with `serde_json::from_slice`. The outcome depends on the
/// bytes alone; which bytes are JSON is not stated.
#[verifier::external_body]
fn read_json_bytes(bytes: &[u8]) -> (result: Result<serde_json::Value, String>)
    ensures
        match result {
            Ok(document) => json_of_bytes(bytes@) == Ok::<Json, Seq<char>>(
                document_model(document),
            ),
            Err(message) => json_of_bytes(bytes@) == Err::<Json, Seq<char>>(message@),
        },
{
    match serde_json::from_slice::<serde_json::Value>(bytes) {
        Ok(document) => Ok(document),
        Err(error) => Err(error.to_string()),
    }
}

/// Reads a YAML text with `serde_yaml::from_str`. The outcome depends on the
/// text alone; which texts are YAML is not stated.
#[verifier::external_body]
fn read_yaml_text(text: &str) -> (result: Result<serde_json::Value, String>)
    ensures
        match result {
            Ok(document) => yaml_of_text(text@) == Ok::<Json, Seq<char>>(document_model(document)),
            Err(message) => yaml_of_text(text@) == Err::<Json, Seq<char>>(message@),
        },
{
    match serde_yaml::from_str::<serde_json::Value>(text) {
        Ok(document) => Ok(document),
        Err(error) => Err(error.to_string()),
    }
}

/// The outermost part of a document.
enum Part {
    Null,
    Bool(bool),
    Number(Number),
    Text(String),
    List(Vec<serde_json::Value>),
    Fields(Vec<(String, serde_json::Value)>),
}

/// The models of a list of documents.
spec fn document_list(documents: Seq<serde_json::Value>) -> Seq<Json> {
    Seq::new(documents.len(), |i: int| document_model(documents[i]))
}

/// The models of named documents.
spec fn document_members(members: Seq<(String, serde_json::Value)>) -> Seq<(Seq<char>, Json)> {
    Seq::new(members.len(), |i: int| (members[i].0@, document_model(members[i].1)))
}

/// Takes a `serde_json::Value` apart by its variants. Its objects are ordered
/// maps, so members come in key order and no key comes twice. A number is an
/// unsigned or a negative integer where `as_u64` or `as_i64` gives one, and
/// else the bits of the double that `as_f64` gives.
#[verifier::external_body]
fn part(document: serde_json::Value) -> (result: Part)
    ensures
        document_model(document) == (match result {
            Part::Null => Json::Null,
            Part::Bool(flag) => Json::Bool(flag),
            Part::Number(number) => Json::Number(number),
            Part::Text(text) => Json::String(text@),
            Part::List(items) => Json::Array(document_list(items@)),
            Part::Fields(members) => Json::Object(document_members(members@)),
        }),
        result matches Part::Fields(members) ==> ordered(document_members(members@)),
{
    match document {
        serde_json::Value::Null => Part::Null,
        serde_json::Value::Bool(flag) => Part::Bool(flag),
        serde_json::Value::Number(n) => Part::Number(match (n.as_u64(), n.as_i64()) {
            (Some(number), _) => Number::Unsigned(number),
            (None, Some(number)) => Number::Negative(number),
            (None, None) => Number::Float(n.as_f64().unwrap_or_default().to_bits()),
        }),
        serde_json::Value::String(text) => Part::Text(text),
        serde_json::Value::Array(items) => Part::List(items),
        serde_json::Value::Object(map) => Part::Fields(map.into_iter().collect()),
    }
}

/// Takes the contents out of a document.
fn contents(document: serde_json::Value) -> (result: JsonValue)
    ensures
        result@ == document_model(document),
        canonical(result@),
    decreases document_model(document),
{
    let ghost whole = document_model(document);
    match part(document) {
        Part::Null => JsonValue::Null,
        Part::Bool(flag) => JsonValue::Bool(flag),
        Part::Number(number) => JsonValue::Number(number),
        Part::Text(text) => JsonValue::String(text),
        Part::List(items) => {
            let ghost models = document_list(items@);
            let mut items = items;
            let mut backwards: Vec<JsonValue> = Vec::new();
            while items.len() > 0
                invariant
                    whole == document_model(document),
                    whole == Json::Array(models),
                    items@.len() + backwards@.len() == models.len(),
                    forall|k: int|
                        0 <= k < items@.len() ==> document_model(#[trigger] items@[k])
                            == models[k],
                    forall|k: int|
                        0 <= k < backwards@.len() ==> (#[trigger] backwards@[k])@
                            == models[models.len() - 1 - k] && canonical(backwards@[k]@),
                decreases items@.len(),
            {
                let ghost before = items@;
                if let Some(item) = items.pop() {
                    proof {
                        let last = before.len() - 1;
                        assert(document_model(before[last]) == models[last]);
                        assert(decreases_to!(whole => whole->Array_0));
                        assert(decreases_to!(models => models[last]));
                    }
                    backwards.push(contents(item));
                }
            }
            let mut values: Vec<JsonValue> = Vec::new();
            while backwards.len() > 0
                invariant
                    values@.len() + backwards@.len() == models.len(),
                    forall|k: int|
                        0 <= k < values@.len() ==> (#[trigger] values@[k])@ == models[k]
                            && canonical(values@[k]@),
                    forall|k: int|
                        0 <= k < backwards@.len() ==> (#[trigger] backwards@[k])@
                            == models[models.len() - 1 - k] && canonical(backwards@[k]@),
                decreases backwards@.len(),
            {
                let ghost before = backwards@;
                if let Some(value) = backwards.pop() {
                    assert(value == before[before.len() - 1]);
                    values.push(value);
                }
            }
            let result = JsonValue::Array(values);
            proof {
                lemma_array_view(result);
                assert(json_list(values@) =~= models);
            }
            result
        },
        Part::Fields(members) => {
            let ghost models = document_members(members@);
            let mut members = members;
            let mut backwards: Vec<Member> = Vec::new();
            while members.len() > 0
                invariant
                    whole == document_model(document),
                    whole == Json::Object(models),
                    members@.len() + backwards@.len() == models.len(),
                    forall|k: int|
                        0 <= k < members@.len() ==> ((#[trigger] members@[k]).0@, document_model(
                            members@[k].1,
                        )) == models[k],
                    forall|k: int|
                        0 <= k < backwards@.len() ==> ((#[trigger] backwards@[k]).key@, backwards@[
                        k].value@) == models[models.len() - 1 - k] && canonical(
                            backwards@[k].value@,
                        ),
                decreases members@.len(),
            {
                let ghost before = members@;
                if let Some((key, item)) = members.pop() {
                    proof {
                        let last = before.len() - 1;
                        assert(before[last] == (key, item));
                        assert((key@, document_model(item)) == models[last]);
                        assert(decreases_to!(whole => whole->Object_0));
                        assert(decreases_to!(models => models[last]));
                        assert(decreases_to!(models[last] => models[last].1));
                    }
                    let value = contents(item);
                    backwards.push(Member { key, value });
                }
            }
            let mut values: Vec<Member> = Vec::new();
            while backwards.len() > 0
                invariant
                    values@.len() + backwards@.len() == models.len(),
                    forall|k: int|
                        0 <= k < values@.len() ==> ((#[trigger] values@[k]).key@, values@[k].value@)
                            == models[k] && canonical(values@[k].value@),
                    forall|k: int|
                        0 <= k < backwards@.len() ==> ((#[trigger] backwards@[k]).key@, backwards@[
                        k].value@) == models[models.len() - 1 - k] && canonical(
                            backwards@[k].value@,
                        ),
                decreases backwards@.len(),
            {
                let ghost before = backwards@;
                if let Some(member) = backwards.pop() {
                    assert(member == before[before.len() - 1]);
                    values.push(member);
                }
            }
            let result = JsonValue::Object(values);
            proof {
                lemma_array_view(result);
                assert(json_members(values@) =~= models);
                assert forall|i: int| 0 <= i < models.len() implies canonical(
                    (#[trigger] models[i]).1,
                ) by {
                    assert(models[i] == (values@[i].key@, values@[i].value@));
                }
            }
            result
        },
    }
}

/// A value, or the message of the error that took its place.
pub open spec fn read_outcome(result: Result<JsonValue, String>) -> Result<Json, Seq<char>> {
    match result {
        Ok(value) => Ok(value@),
        Err(message) => Err(message@),
    }
}

/// Reads a JSON text.
pub fn parse_json(text: &str) -> (result: Result<JsonValue, String>)
    ensures
        read_outcome(result) == json_of_text(text@),
        result matches Ok(value) ==> canonical(value@),
{
    match read_json_text(text) {
        Ok(document) => Ok(contents(document)),
        Err(message) => Err(message),
    }
}

/// Reads JSON bytes.
pub fn parse_json_bytes(bytes: &[u8]) -> (result: Result<JsonValue, String>)
    ensures
        read_outcome(result) == json_of_bytes(bytes@),
        result matches Ok(value) ==> canonical(value@),
{
    match read_json_bytes(bytes) {
        Ok(document) => Ok(contents(document)),
        Err(message) => Err(message),
    }
}

/// Reads a YAML text.
pub fn parse_yaml(text: &str) -> (result: Result<JsonValue, String>)
    ensures
        read_outcome(result) == yaml_of_text(text@),
        result matches Ok(value) ==> canonical(value@),
{
    match read_yaml_text(text) {
        Ok(document) => Ok(contents(document)),
        Err(message) => Err(message),
    }
}

}
