//! What conformance fixtures ask for, and how traces are compared and shown.

use vstd::prelude::*;
use vstd::string::*;

use crate::fixture::{bare_event, trace_list, Fixture, TraceEvent, TraceEventKind, TraceModel};
use crate::json::{
    json_list, json_members, lemma_array_view, property, set_member, with_member, Json, JsonValue,
    Member,
};
use crate::text::text_list;

verus! {

/// A member of the input of a fixture.
pub open spec fn input_member(input: Option<Json>, key: Seq<char>) -> Option<Json> {
    match input {
        Some(input) => property(input, key),
        None => None,
    }
}

/// A text of the input, if it is there and not empty.
pub open spec fn chosen_text(value: Option<Json>, fallback: Seq<char>) -> Seq<char> {
    match value {
        Some(Json::String(text)) => if text.len() == 0 {
            fallback
        } else {
            text
        },
        _ => fallback,
    }
}

fn text_or(value: Option<&JsonValue>, fallback: &str) -> (result: String)
    ensures
        result@ == chosen_text(
            match value {
                Some(value) => Some(value@),
                None => None,
            },
            fallback@,
        ),
{
    match value {
        Some(value) => match value.as_str() {
            Some(text) => {
                if text.unicode_len() == 0 {
                    fallback.to_owned()
                } else {
                    text.to_owned()
                }
            },
            None => fallback.to_owned(),
        },
        None => fallback.to_owned(),
    }
}

fn input_value<'a>(fixture: &'a Fixture, key: &str) -> (result: Option<&'a JsonValue>)
    ensures
        (match result {
            Some(value) => Some(value@),
            None => None,
        }) == input_member(fixture@.input, key@),
{
    match &fixture.input {
        Some(input) => input.get(key),
        None => None,
    }
}

/// A text of the input of a fixture, or what stands in for it.
pub fn input_text(fixture: &Fixture, key: &str, fallback: &str) -> (result: String)
    ensures
        result@ == chosen_text(input_member(fixture@.input, key@), fallback@),
{
    text_or(input_value(fixture, key), fallback)
}

/// The first of the effects that a lifecycle fixture names.
pub open spec fn effect_label(input: Option<Json>) -> Seq<char> {
    match input_member(input, "effects"@) {
        Some(Json::Array(effects)) => if effects.len() == 0 {
            "effect-dispose"@
        } else {
            chosen_text(Some(effects[0]), "effect-dispose"@)
        },
        _ => "effect-dispose"@,
    }
}

/// The label of the effect that a lifecycle fixture names.
pub fn lifecycle_effect_label(fixture: &Fixture) -> (result: String)
    ensures
        result@ == effect_label(fixture@.input),
{
    if let Some(value) = input_value(fixture, "effects") {
        if let Some(effects) = value.as_array() {
            if effects.len() > 0 {
                return text_or(Some(&effects[0]), "effect-dispose");
            }
        }
    }
    "effect-dispose".to_owned()
}

/// The labels of `listeners[from..]`; nothing when one has no label.
pub open spec fn labels_from(listeners: Seq<Json>, from: int) -> Option<Seq<Seq<char>>>
    decreases listeners.len() - from,
{
    if from < 0 || from >= listeners.len() {
        Some(Seq::empty())
    } else {
        match (property(listeners[from], "label"@), labels_from(listeners, from + 1)) {
            (Some(Json::String(label)), Some(rest)) => Some(seq![label] + rest),
            _ => None,
        }
    }
}

/// The labels of the listeners that an event fixture names.
pub open spec fn listener_labels(input: Option<Json>) -> Seq<Seq<char>> {
    match input_member(input, "listeners"@) {
        Some(Json::Array(listeners)) => match labels_from(listeners, 0) {
            Some(labels) => labels,
            None => seq!["first"@, "second"@],
        },
        _ => seq!["first"@, "second"@],
    }
}

fn default_labels() -> (result: Vec<String>)
    ensures
        text_list(result@) == seq!["first"@, "second"@],
{
    let result = vec!["first".to_owned(), "second".to_owned()];
    assert(text_list(result@) =~= seq!["first"@, "second"@]);
    result
}

/// The labels of the listeners that an event fixture names.
pub fn event_labels(fixture: &Fixture) -> (result: Vec<String>)
    ensures
        text_list(result@) == listener_labels(fixture@.input),
{
    let listeners = match input_value(fixture, "listeners") {
        Some(value) => match value.as_array() {
            Some(listeners) => listeners,
            None => return default_labels(),
        },
        None => return default_labels(),
    };
    let ghost model = json_list(listeners@);
    let mut labels: Vec<String> = Vec::new();
    let mut i: usize = 0;
    assert(text_list(labels@) =~= Seq::empty());
    proof {
        if labels_from(model, 0) is Some {
            assert(Seq::<Seq<char>>::empty() + labels_from(model, 0)->0 =~= labels_from(
                model,
                0,
            )->0);
        }
    }
    while i < listeners.len()
        invariant
            i <= listeners@.len(),
            model == json_list(listeners@),
            listener_labels(fixture@.input) == (match labels_from(model, 0) {
                Some(labels) => labels,
                None => seq!["first"@, "second"@],
            }),
            labels_from(model, 0) == (match labels_from(model, i as int) {
                Some(rest) => Some(text_list(labels@) + rest),
                None => None,
            }),
        decreases listeners@.len() - i,
    {
        assert(model[i as int] == listeners@[i as int]@);
        let label = match listeners[i].get("label") {
            Some(value) => match value.as_str() {
                Some(label) => label,
                None => return default_labels(),
            },
            None => return default_labels(),
        };
        let ghost before = text_list(labels@);
        labels.push(label.to_owned());
        proof {
            assert(text_list(labels@) =~= before.push(label@));
            if labels_from(model, i + 1) is Some {
                let rest = labels_from(model, i + 1)->0;
                assert(before + (seq![label@] + rest) =~= text_list(labels@) + rest);
            }
        }
        i += 1;
    }
    assert(text_list(labels@) + Seq::<Seq<char>>::empty() =~= text_list(labels@));
    labels
}

/// The identifiers of `cases[from..]`; nothing when one has none.
pub open spec fn ids_from(cases: Seq<Json>, from: int) -> Option<Seq<Seq<char>>>
    decreases cases.len() - from,
{
    if from < 0 || from >= cases.len() {
        Some(Seq::empty())
    } else {
        match (property(cases[from], "id"@), ids_from(cases, from + 1)) {
            (Some(Json::String(id)), Some(rest)) => if id.len() == 0 {
                None
            } else {
                Some(seq![id] + rest)
            },
            _ => None,
        }
    }
}

/// The scenarios that a fixture asks for.
pub open spec fn cases_of(input: Option<Json>) -> Result<Seq<Seq<char>>, Seq<char>> {
    match input_member(input, "cases"@) {
        Some(Json::Array(cases)) => if cases.len() == 0 {
            Err("conformance catalog requires at least one case"@)
        } else {
            match ids_from(cases, 0) {
                Some(ids) => Ok(ids),
                None => Err("conformance catalog case requires a non-empty id"@),
            }
        },
        _ => Err("conformance catalog requires a cases array"@),
    }
}

/// The outcome of reading scenarios.
pub open spec fn cases_outcome(result: Result<Vec<String>, String>) -> Result<
    Seq<Seq<char>>,
    Seq<char>,
> {
    match result {
        Ok(ids) => Ok(text_list(ids@)),
        Err(message) => Err(message@),
    }
}

/// The scenarios that a fixture asks for.
pub fn case_ids(fixture: &Fixture) -> (result: Result<Vec<String>, String>)
    ensures
        cases_outcome(result) == cases_of(fixture@.input),
{
    let cases = match input_value(fixture, "cases") {
        Some(value) => match value.as_array() {
            Some(cases) => cases,
            None => return Err("conformance catalog requires a cases array".to_owned()),
        },
        None => return Err("conformance catalog requires a cases array".to_owned()),
    };
    let ghost model = json_list(cases@);
    if cases.len() == 0 {
        return Err("conformance catalog requires at least one case".to_owned());
    }
    let mut ids: Vec<String> = Vec::new();
    let mut i: usize = 0;
    assert(text_list(ids@) =~= Seq::empty());
    proof {
        if ids_from(model, 0) is Some {
            assert(Seq::<Seq<char>>::empty() + ids_from(model, 0)->0 =~= ids_from(model, 0)->0);
        }
    }
    while i < cases.len()
        invariant
            i <= cases@.len(),
            model == json_list(cases@),
            cases_of(fixture@.input) == (match ids_from(model, 0) {
                Some(ids) => Ok::<Seq<Seq<char>>, Seq<char>>(ids),
                None => Err::<Seq<Seq<char>>, Seq<char>>(
                    "conformance catalog case requires a non-empty id"@,
                ),
            }),
            ids_from(model, 0) == (match ids_from(model, i as int) {
                Some(rest) => Some(text_list(ids@) + rest),
                None => None,
            }),
        decreases cases@.len() - i,
    {
        assert(model[i as int] == cases@[i as int]@);
        let id = match cases[i].get("id") {
            Some(value) => match value.as_str() {
                Some(id) => id,
                None => {
                    return Err("conformance catalog case requires a non-empty id".to_owned());
                },
            },
            None => return Err("conformance catalog case requires a non-empty id".to_owned()),
        };
        if id.unicode_len() == 0 {
            return Err("conformance catalog case requires a non-empty id".to_owned());
        }
        let ghost before = text_list(ids@);
        ids.push(id.to_owned());
        proof {
            assert(text_list(ids@) =~= before.push(id@));
            if ids_from(model, i + 1) is Some {
                let rest = ids_from(model, i + 1)->0;
                assert(before + (seq![id@] + rest) =~= text_list(ids@) + rest);
            }
        }
        i += 1;
    }
    assert(text_list(ids@) + Seq::<Seq<char>>::empty() =~= text_list(ids@));
    Ok(ids)
}

/// A change of state in a trace.
pub open spec fn state_event(subject: Seq<char>, from: Seq<char>, to: Seq<char>) -> TraceModel {
    TraceModel {
        subject: Some(subject),
        from: Some(from),
        to: Some(to),
        ..bare_event(TraceEventKind::FiberStateChanged)
    }
}

/// A new fiber in a trace.
pub open spec fn created_event(subject: Seq<char>) -> TraceModel {
    TraceModel { subject: Some(subject), ..bare_event(TraceEventKind::FiberCreated) }
}

/// An observation with a subject and a label.
pub open spec fn labelled_event(
    kind: TraceEventKind,
    subject: Seq<char>,
    label: Seq<char>,
) -> TraceModel {
    TraceModel { subject: Some(subject), label: Some(label), ..bare_event(kind) }
}

/// A trace in the making.
#[derive(Debug)]
pub struct Trace {
    pub events: Vec<TraceEvent>,
}

impl View for Trace {
    type V = Seq<TraceModel>;

    open spec fn view(&self) -> Seq<TraceModel> {
        trace_list(self.events@)
    }
}

impl Trace {
    pub fn new() -> (result: Self)
        ensures
            result@ == Seq::<TraceModel>::empty(),
    {
        let result = Trace { events: Vec::new() };
        assert(result@ =~= Seq::empty());
        result
    }

    /// Adds an observation.
    pub fn add(&mut self, event: TraceEvent)
        ensures
            final(self)@ == old(self)@.push(event@),
    {
        let ghost before = self@;
        self.events.push(event);
        assert(self@ =~= before.push(event@));
    }

    /// Adds a change of state.
    pub fn state(&mut self, subject: &str, from: &str, to: &str)
        ensures
            final(self)@ == old(self)@.push(state_event(subject@, from@, to@)),
    {
        let mut event = TraceEvent::bare(TraceEventKind::FiberStateChanged);
        event.subject = Some(subject.to_owned());
        event.from = Some(from.to_owned());
        event.to = Some(to.to_owned());
        self.add(event);
    }

    /// Adds a new fiber.
    pub fn created(&mut self, subject: &str)
        ensures
            final(self)@ == old(self)@.push(created_event(subject@)),
    {
        let mut event = TraceEvent::bare(TraceEventKind::FiberCreated);
        event.subject = Some(subject.to_owned());
        self.add(event);
    }

    /// Adds an observation with a subject and a label.
    pub fn labelled(&mut self, kind: TraceEventKind, subject: &str, label: &str)
        ensures
            final(self)@ == old(self)@.push(labelled_event(kind, subject@, label@)),
    {
        let mut event = TraceEvent::bare(kind);
        event.subject = Some(subject.to_owned());
        event.label = Some(label.to_owned());
        self.add(event);
    }
}

/// The same value with the members of every object in key order.
pub open spec fn normal_form(value: Json) -> Json
    decreases value, 0int,
{
    match value {
        Json::Array(values) => Json::Array(
            Seq::new(
                values.len(),
                |i: int|
                    if 0 <= i < values.len() {
                        normal_form(values[i])
                    } else {
                        Json::Null
                    },
            ),
        ),
        Json::Object(members) => Json::Object(
            normal_members(members, members.len() as int),
        ),
        _ => value,
    }
}

/// The first `count` members in key order, with their values normalized. Of
/// two members with one key the later one stays.
pub open spec fn normal_members(members: Seq<(Seq<char>, Json)>, count: int) -> Seq<
    (Seq<char>, Json),
>
    decreases members, count,
{
    if count <= 0 || count > members.len() {
        Seq::empty()
    } else {
        with_member(
            normal_members(members, count - 1),
            members[count - 1].0,
            normal_form(members[count - 1].1),
        )
    }
}

/// Puts the members of every object in a value in key order.
pub fn normalize_value(value: &JsonValue) -> (result: JsonValue)
    ensures
        result@ == normal_form(value@),
    decreases *value,
{
    proof {
        lemma_array_view(*value);
    }
    match value {
        JsonValue::Array(values) => {
            let ghost model = json_list(values@);
            let mut normal: Vec<JsonValue> = Vec::new();
            let mut i: usize = 0;
            while i < values.len()
                invariant
                    i <= values@.len(),
                    normal@.len() == i,
                    decreases_to!(*value => values@),
                    forall|k: int|
                        0 <= k < i ==> (#[trigger] normal@[k])@ == normal_form(values@[k]@),
                decreases values@.len() - i,
            {
                normal.push(normalize_value(&values[i]));
                i += 1;
            }
            let result = JsonValue::Array(normal);
            proof {
                lemma_array_view(result);
                assert(json_list(normal@) =~= normal_form(value@)->Array_0);
            }
            result
        },
        JsonValue::Object(members) => {
            let ghost model = json_members(members@);
            let mut normal: Vec<Member> = Vec::new();
            let mut i: usize = 0;
            assert(json_members(normal@) =~= Seq::empty());
            while i < members.len()
                invariant
                    i <= members@.len(),
                    model == json_members(members@),
                    decreases_to!(*value => members@),
                    json_members(normal@) == normal_members(model, i as int),
                decreases members@.len() - i,
            {
                assert(model[i as int] == (members@[i as int].key@, members@[i as int].value@));
                let inner = normalize_value(&members[i].value);
                set_member(&mut normal, members[i].key.clone(), inner);
                i += 1;
            }
            let result = JsonValue::Object(normal);
            proof {
                lemma_array_view(result);
            }
            result
        },
        other => other.clone(),
    }
}

/// An observation with its value normalized.
pub open spec fn normal_event(event: TraceModel) -> TraceModel {
    TraceModel {
        value: match event.value {
            Some(value) => Some(normal_form(value)),
            None => None,
        },
        ..event
    }
}

/// A trace with every value normalized.
pub open spec fn normal_trace(trace: Seq<TraceModel>) -> Seq<TraceModel> {
    Seq::new(trace.len(), |i: int| normal_event(trace[i]))
}

/// Normalizes every value in a trace.
pub fn normalize_trace(trace: &Vec<TraceEvent>) -> (result: Vec<TraceEvent>)
    ensures
        trace_list(result@) == normal_trace(trace_list(trace@)),
{
    let mut normal: Vec<TraceEvent> = Vec::new();
    let mut i: usize = 0;
    while i < trace.len()
        invariant
            i <= trace@.len(),
            normal@.len() == i,
            forall|k: int| 0 <= k < i ==> (#[trigger] normal@[k])@ == normal_event(trace@[k]@),
        decreases trace@.len() - i,
    {
        let mut event = trace[i].clone();
        event.value = match &event.value {
            Some(value) => Some(normalize_value(value)),
            None => None,
        };
        normal.push(event);
        i += 1;
    }
    assert(trace_list(normal@) =~= normal_trace(trace_list(trace@)));
    normal
}

}
