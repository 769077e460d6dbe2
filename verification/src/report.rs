//! What the conformance runner reports: whether a trace is the expected one,
//! and where they part.

use vstd::prelude::*;
use vstd::string::*;

use crate::conformance::{
    case_ids, cases_of, normal_form, normal_members, normal_trace, normalize_trace,
};
use crate::error::optional_text;
use crate::fixture::{trace_list, Domain, Fixture, FixtureModel, TraceEvent, TraceModel};
use crate::json::{
    canonical, json_list, json_members, lemma_array_view, same_json, set_member,
    set_member_keeps_canonical_form, values_equal, with_member, Json, JsonValue, Member, Number,
};
use crate::text::{
    decimal, decimal_text, join2, join3, text_before, text_list, text_order_is_irreflexive,
    text_order_is_transitive,
};

verus! {

/// Members with one more text, if it is given.
pub open spec fn with_text(
    members: Seq<(Seq<char>, Json)>,
    key: Seq<char>,
    text: Option<Seq<char>>,
) -> Seq<(Seq<char>, Json)> {
    match text {
        Some(text) => with_member(members, key, Json::String(text)),
        None => members,
    }
}

/// An observation as a document shows it: its kind and what it tells.
pub open spec fn event_json(event: TraceModel) -> Json {
    let kind = seq![("event"@, Json::String(event.kind.spec_name()))];
    let subject = with_text(kind, "subject"@, event.subject);
    let from = with_text(subject, "from"@, event.from);
    let to = with_text(from, "to"@, event.to);
    let label = with_text(to, "label"@, event.label);
    let phase = with_text(label, "phase"@, event.phase);
    let error = with_text(phase, "error"@, event.error);
    Json::Object(
        match event.value {
            Some(value) => with_member(error, "value"@, value),
            None => error,
        },
    )
}

fn add_text(members: &mut Vec<Member>, key: &str, text: &Option<String>)
    ensures
        json_members(final(members)@) == with_text(
            json_members(old(members)@),
            key@,
            optional_text(*text),
        ),
{
    if let Some(text) = text {
        set_member(members, key.to_owned(), JsonValue::String(text.clone()));
    }
}

fn object(members: Vec<Member>) -> (result: JsonValue)
    ensures
        result@ == Json::Object(json_members(members@)),
{
    let result = JsonValue::Object(members);
    proof {
        lemma_array_view(result);
    }
    result
}

/// An observation as a document shows it.
pub fn trace_value(event: &TraceEvent) -> (result: JsonValue)
    ensures
        result@ == event_json(event@),
{
    let kind = JsonValue::String(event.kind.name().to_owned());
    let mut members: Vec<Member> = Vec::new();
    members.push(Member { key: "event".to_owned(), value: kind });
    assert(json_members(members@) =~= seq![("event"@, Json::String(event.kind.spec_name()))]);
    add_text(&mut members, "subject", &event.subject);
    add_text(&mut members, "from", &event.from);
    add_text(&mut members, "to", &event.to);
    add_text(&mut members, "label", &event.label);
    add_text(&mut members, "phase", &event.phase);
    add_text(&mut members, "error", &event.error);
    if let Some(value) = &event.value {
        set_member(&mut members, "value".to_owned(), value.clone());
    }
    object(members)
}

/// A trace as a document shows it.
pub open spec fn trace_json(trace: Seq<TraceModel>) -> Json {
    Json::Array(Seq::new(trace.len(), |i: int| event_json(trace[i])))
}

/// A trace as a document shows it.
pub fn trace_values(trace: &Vec<TraceEvent>) -> (result: JsonValue)
    ensures
        result@ == trace_json(trace_list(trace@)),
{
    let mut values: Vec<JsonValue> = Vec::new();
    let mut i: usize = 0;
    while i < trace.len()
        invariant
            i <= trace@.len(),
            values@.len() == i,
            forall|k: int| 0 <= k < i ==> (#[trigger] values@[k])@ == event_json(trace@[k]@),
        decreases trace@.len() - i,
    {
        values.push(trace_value(&trace[i]));
        i += 1;
    }
    let result = JsonValue::Array(values);
    proof {
        lemma_array_view(result);
        assert(json_list(values@) =~= trace_json(trace_list(trace@))->Array_0);
    }
    result
}

/// Two observations tell the same.
pub open spec fn same_event(a: TraceModel, b: TraceModel) -> bool {
    &&& a.kind == b.kind
    &&& a.subject == b.subject
    &&& a.from == b.from
    &&& a.to == b.to
    &&& a.label == b.label
    &&& a.phase == b.phase
    &&& match (a.value, b.value) {
        (Some(a), Some(b)) => same_json(a, b),
        (None, None) => true,
        _ => false,
    }
    &&& a.error == b.error
}

fn texts_equal(a: &Option<String>, b: &Option<String>) -> (result: bool)
    ensures
        result == (optional_text(*a) == optional_text(*b)),
{
    match (a, b) {
        (Some(a), Some(b)) => *a == *b,
        (None, None) => true,
        _ => false,
    }
}

fn events_equal(a: &TraceEvent, b: &TraceEvent) -> (result: bool)
    ensures
        result == same_event(a@, b@),
{
    let values = match (&a.value, &b.value) {
        (Some(a), Some(b)) => values_equal(a, b),
        (None, None) => true,
        _ => false,
    };
    a.kind == b.kind && texts_equal(&a.subject, &b.subject) && texts_equal(&a.from, &b.from)
        && texts_equal(&a.to, &b.to) && texts_equal(&a.label, &b.label) && texts_equal(
        &a.phase,
        &b.phase,
    ) && values && texts_equal(&a.error, &b.error)
}

/// Where two traces part: the first place at or after `from` with different
/// observations, or the end of the shorter one.
pub open spec fn parting(expected: Seq<TraceModel>, actual: Seq<TraceModel>, from: int) -> int
    decreases expected.len() - from,
{
    if from < 0 || from >= expected.len() || from >= actual.len() || !same_event(
        expected[from],
        actual[from],
    ) {
        from
    } else {
        parting(expected, actual, from + 1)
    }
}

/// Two traces tell the same.
pub open spec fn same_trace(expected: Seq<TraceModel>, actual: Seq<TraceModel>) -> bool {
    expected.len() == actual.len() && forall|i: int|
        0 <= i < expected.len() ==> same_event(#[trigger] expected[i], actual[i])
}

/// Where two traces part.
pub fn find_parting(expected: &Vec<TraceEvent>, actual: &Vec<TraceEvent>) -> (result: usize)
    ensures
        result == parting(trace_list(expected@), trace_list(actual@), 0),
        result <= expected@.len(),
        result <= actual@.len(),
{
    let ghost left = trace_list(expected@);
    let ghost right = trace_list(actual@);
    let mut i: usize = 0;
    while i < expected.len() && i < actual.len() && events_equal(&expected[i], &actual[i])
        invariant
            i <= expected@.len(),
            i <= actual@.len(),
            left == trace_list(expected@),
            right == trace_list(actual@),
            parting(left, right, 0) == parting(left, right, i as int),
        decreases expected@.len() - i,
    {
        i += 1;
    }
    i
}

/// Two traces tell the same exactly if they do not part before both end.
pub proof fn equal_traces_do_not_part(
    expected: Seq<TraceModel>,
    actual: Seq<TraceModel>,
    from: int,
)
    requires
        0 <= from <= expected.len(),
        from <= actual.len(),
        forall|i: int| 0 <= i < from ==> same_event(#[trigger] expected[i], actual[i]),
    ensures
        same_trace(expected, actual) <==> parting(expected, actual, from) == expected.len()
            && expected.len() == actual.len(),
        from <= parting(expected, actual, from) <= expected.len(),
        parting(expected, actual, from) <= actual.len(),
    decreases expected.len() - from,
{
    if from < expected.len() && from < actual.len() {
        if same_event(expected[from], actual[from]) {
            equal_traces_do_not_part(expected, actual, from + 1);
        }
    }
}

/// Texts as a document shows them.
pub open spec fn texts_json(texts: Seq<Seq<char>>) -> Json {
    Json::Array(Seq::new(texts.len(), |i: int| Json::String(texts[i])))
}

fn text_values(texts: &Vec<String>) -> (result: JsonValue)
    ensures
        result@ == texts_json(text_list(texts@)),
{
    let mut values: Vec<JsonValue> = Vec::new();
    let mut i: usize = 0;
    while i < texts.len()
        invariant
            i <= texts@.len(),
            values@.len() == i,
            forall|k: int| 0 <= k < i ==> (#[trigger] values@[k])@ == Json::String(texts@[k]@),
        decreases texts@.len() - i,
    {
        values.push(JsonValue::String(texts[i].clone()));
        i += 1;
    }
    let result = JsonValue::Array(values);
    proof {
        lemma_array_view(result);
        assert(json_list(values@) =~= texts_json(text_list(texts@))->Array_0);
    }
    result
}

/// The report of a run that could not be judged.
pub open spec fn failure_report(status: Seq<char>, fixture: Seq<char>, message: Seq<char>) -> Json {
    let none = Seq::<(Seq<char>, Json)>::empty();
    let code = with_member(none, "code"@, Json::String(status));
    let named = with_member(code, "fixture"@, Json::String(fixture));
    let error = with_member(named, "message"@, Json::String(message));
    let top = with_member(none, "fixture"@, Json::String(fixture));
    let judged = with_member(top, "status"@, Json::String(status));
    Json::Object(with_member(judged, "error"@, Json::Object(error)))
}

fn set_text(members: &mut Vec<Member>, key: &str, text: &str)
    ensures
        json_members(final(members)@) == with_member(
            json_members(old(members)@),
            key@,
            Json::String(text@),
        ),
{
    set_member(members, key.to_owned(), JsonValue::String(text.to_owned()));
}

fn no_members() -> (result: Vec<Member>)
    ensures
        json_members(result@) == Seq::<(Seq<char>, Json)>::empty(),
{
    let members: Vec<Member> = Vec::new();
    assert(json_members(members@) =~= Seq::empty());
    members
}

/// The report of a run that could not be judged.
pub fn fail(status: &str, fixture: &str, message: &str) -> (result: JsonValue)
    ensures
        result@ == failure_report(status@, fixture@, message@),
{
    let mut error = no_members();
    set_text(&mut error, "code", status);
    set_text(&mut error, "fixture", fixture);
    set_text(&mut error, "message", message);
    let mut report = no_members();
    set_text(&mut report, "fixture", fixture);
    set_text(&mut report, "status", status);
    set_member(&mut report, "error".to_owned(), object(error));
    object(report)
}

/// The name of a domain in documents.
pub open spec fn domain_text(domain: Domain) -> Seq<char> {
    match domain {
        Domain::Lifecycle => "lifecycle"@,
        Domain::Service => "service"@,
        Domain::Event => "event"@,
        Domain::Loader => "loader"@,
    }
}

/// The report of a fixture that no runner knows.
pub fn unsupported(fixture: &Fixture) -> (result: JsonValue)
    ensures
        result@ == failure_report(
            "UNSUPPORTED_SCENARIO"@,
            fixture@.name,
            domain_text(fixture@.domain) + "/"@ + fixture@.scenario
                + " is not supported by the Rust conformance runner"@,
        ),
{
    let domain = match fixture.domain {
        Domain::Lifecycle => "lifecycle",
        Domain::Service => "service",
        Domain::Event => "event",
        Domain::Loader => "loader",
    };
    let mut message = join3(domain, "/", fixture.scenario.as_str());
    message.append(" is not supported by the Rust conformance runner");
    fail("UNSUPPORTED_SCENARIO", fixture.name.as_str(), message.as_str())
}

/// The report of a trace that is not the expected one.
pub open spec fn mismatch_report(
    fixture: FixtureModel,
    expected: Seq<TraceModel>,
    actual: Seq<TraceModel>,
    cases: Seq<Seq<char>>,
) -> Json {
    let none = Seq::<(Seq<char>, Json)>::empty();
    let index = parting(expected, actual, 0);
    let code = with_member(none, "code"@, Json::String("TRACE_MISMATCH"@));
    let named = with_member(code, "fixture"@, Json::String(fixture.name));
    let placed = with_member(named, "event"@, Json::Number(Number::Unsigned(index as u64)));
    let told = with_member(
        placed,
        "message"@,
        Json::String("trace mismatch at event "@ + decimal_text(index as nat)),
    );
    let wanted = if index < expected.len() {
        with_member(told, "expected"@, event_json(expected[index]))
    } else {
        told
    };
    let error = if index < actual.len() {
        with_member(wanted, "actual"@, event_json(actual[index]))
    } else {
        wanted
    };
    let top = with_member(none, "fixture"@, Json::String(fixture.name));
    let judged = with_member(top, "status"@, Json::String("MISMATCH"@));
    let traced = with_member(judged, "trace"@, trace_json(actual));
    let executed = with_member(traced, "executedCases"@, texts_json(cases));
    Json::Object(with_member(executed, "error"@, Json::Object(error)))
}

/// The report of a trace that is not the expected one.
pub fn mismatch(
    fixture: &Fixture,
    expected: &Vec<TraceEvent>,
    actual: &Vec<TraceEvent>,
    executed_cases: &Vec<String>,
) -> (result: JsonValue)
    ensures
        result@ == mismatch_report(
            fixture@,
            trace_list(expected@),
            trace_list(actual@),
            text_list(executed_cases@),
        ),
{
    let index = find_parting(expected, actual);
    let mut error = no_members();
    set_text(&mut error, "code", "TRACE_MISMATCH");
    set_text(&mut error, "fixture", fixture.name.as_str());
    set_member(
        &mut error,
        "event".to_owned(),
        JsonValue::Number(Number::Unsigned(index as u64)),
    );
    let message = join2("trace mismatch at event ", decimal(index as u64).as_str());
    set_text(&mut error, "message", message.as_str());
    if index < expected.len() {
        assert(trace_list(expected@)[index as int] == expected@[index as int]@);
        set_member(&mut error, "expected".to_owned(), trace_value(&expected[index]));
    }
    if index < actual.len() {
        assert(trace_list(actual@)[index as int] == actual@[index as int]@);
        set_member(&mut error, "actual".to_owned(), trace_value(&actual[index]));
    }
    let mut report = no_members();
    set_text(&mut report, "fixture", fixture.name.as_str());
    set_text(&mut report, "status", "MISMATCH");
    set_member(&mut report, "trace".to_owned(), trace_values(actual));
    set_member(&mut report, "executedCases".to_owned(), text_values(executed_cases));
    set_member(&mut report, "error".to_owned(), object(error));
    object(report)
}

/// The report of a trace that is the expected one.
pub open spec fn pass_report(
    fixture: FixtureModel,
    trace: Seq<TraceModel>,
    cases: Seq<Seq<char>>,
) -> Json {
    let none = Seq::<(Seq<char>, Json)>::empty();
    let top = with_member(none, "fixture"@, Json::String(fixture.name));
    let judged = with_member(top, "status"@, Json::String("PASS"@));
    let traced = with_member(judged, "trace"@, trace_json(trace));
    Json::Object(with_member(traced, "executedCases"@, texts_json(cases)))
}

/// The report of a trace that is the expected one.
pub fn passed(fixture: &Fixture, trace: &Vec<TraceEvent>, executed_cases: &Vec<String>) -> (result:
    JsonValue)
    ensures
        result@ == pass_report(fixture@, trace_list(trace@), text_list(executed_cases@)),
{
    let mut report = no_members();
    set_text(&mut report, "fixture", fixture.name.as_str());
    set_text(&mut report, "status", "PASS");
    set_member(&mut report, "trace".to_owned(), trace_values(trace));
    set_member(&mut report, "executedCases".to_owned(), text_values(executed_cases));
    object(report)
}

/// What is reported of a trace, and whether the run passes: its values are
/// compared in normal form, and a loader fixture that expects nothing takes
/// any trace.
pub open spec fn judgement(fixture: FixtureModel, trace: Seq<TraceModel>) -> (bool, Json) {
    let expected = normal_trace(fixture.expected_trace);
    let actual = normal_trace(trace);
    match cases_of(fixture.input) {
        Err(message) => (false, failure_report("EXECUTION_ERROR"@, fixture.name, message)),
        Ok(cases) => if (fixture.domain == Domain::Loader && expected.len() == 0) || same_trace(
            expected,
            actual,
        ) {
            (true, pass_report(fixture, actual, cases))
        } else {
            (false, mismatch_report(fixture, expected, actual, cases))
        },
    }
}

/// Judges the trace of a run.
pub fn judge(fixture: &Fixture, trace: &Vec<TraceEvent>) -> (result: (bool, JsonValue))
    ensures
        (result.0, result.1@) == judgement(fixture@, trace_list(trace@)),
{
    let expected = normalize_trace(&fixture.expected_trace);
    let actual = normalize_trace(trace);
    let cases = match case_ids(fixture) {
        Ok(cases) => cases,
        Err(message) => {
            return (false, fail("EXECUTION_ERROR", fixture.name.as_str(), message.as_str()));
        },
    };
    proof {
        equal_traces_do_not_part(trace_list(expected@), trace_list(actual@), 0);
    }
    let index = find_parting(&expected, &actual);
    let same = index == expected.len() && expected.len() == actual.len();
    if (fixture.domain == Domain::Loader && expected.len() == 0) || same {
        (true, passed(fixture, &actual, &cases))
    } else {
        (false, mismatch(fixture, &expected, &actual, &cases))
    }
}

proof fn lemma_last_member(members: Seq<(Seq<char>, Json)>, key: Seq<char>, value: Json)
    requires
        forall|i: int| 0 <= i < members.len() ==> text_before((#[trigger] members[i]).0, key),
    ensures
        with_member(members, key, value) == members.push((key, value)),
    decreases members.len(),
{
    if members.len() > 0 {
        let rest = members.drop_first();
        assert(text_before(members[0].0, key));
        text_order_is_irreflexive(key);
        if text_before(key, members[0].0) {
            text_order_is_transitive(key, members[0].0, key);
        }
        assert forall|i: int| 0 <= i < rest.len() implies text_before(
            (#[trigger] rest[i]).0,
            key,
        ) by {
            assert(rest[i] == members[i + 1]);
        }
        lemma_last_member(rest, key, value);
        assert(seq![members[0]] + rest.push((key, value)) =~= members.push((key, value)));
    } else {
        assert(with_member(members, key, value) =~= members.push((key, value)));
    }
}

/// A value in canonical form is its own normal form.
pub proof fn canonical_values_are_normal(value: Json)
    requires
        canonical(value),
    ensures
        normal_form(value) == value,
    decreases value, 0int,
{
    match value {
        Json::Array(values) => {
            assert forall|i: int| 0 <= i < values.len() implies normal_form(#[trigger] values[i])
                == values[i] by {
                canonical_values_are_normal(values[i]);
            }
            assert(normal_form(value)->Array_0 =~= values);
        },
        Json::Object(members) => {
            canonical_members_are_normal(members, members.len() as int);
            assert(members.subrange(0, members.len() as int) =~= members);
        },
        _ => {},
    }
}

proof fn canonical_members_are_normal(members: Seq<(Seq<char>, Json)>, count: int)
    requires
        canonical(Json::Object(members)),
        0 <= count <= members.len(),
    ensures
        normal_members(members, count) == members.subrange(0, count),
    decreases members, count,
{
    if count > 0 {
        canonical_members_are_normal(members, count - 1);
        let (key, inner) = members[count - 1];
        canonical_values_are_normal(inner);
        let part = members.subrange(0, count - 1);
        assert forall|i: int| 0 <= i < part.len() implies text_before(
            (#[trigger] part[i]).0,
            key,
        ) by {
            assert(part[i] == members[i]);
            assert(text_before(members[i].0, members[count - 1].0));
        }
        lemma_last_member(part, key, inner);
        assert(part.push(members[count - 1]) =~= members.subrange(0, count));
    } else {
        assert(members.subrange(0, 0) =~= Seq::empty());
    }
}

/// Every normal form is canonical.
pub proof fn normal_forms_are_canonical(value: Json)
    ensures
        canonical(normal_form(value)),
    decreases value, 0int,
{
    match value {
        Json::Array(values) => {
            let normal = normal_form(value)->Array_0;
            assert forall|i: int| 0 <= i < normal.len() implies canonical(#[trigger] normal[i]) by {
                normal_forms_are_canonical(values[i]);
            }
        },
        Json::Object(members) => {
            normal_members_are_canonical(members, members.len() as int);
        },
        _ => {},
    }
}

proof fn normal_members_are_canonical(members: Seq<(Seq<char>, Json)>, count: int)
    requires
        0 <= count <= members.len(),
    ensures
        canonical(Json::Object(normal_members(members, count))),
    decreases members, count,
{
    if count > 0 {
        normal_members_are_canonical(members, count - 1);
        normal_forms_are_canonical(members[count - 1].1);
        set_member_keeps_canonical_form(
            normal_members(members, count - 1),
            members[count - 1].0,
            normal_form(members[count - 1].1),
        );
    }
}

/// Normalizing twice is the same as normalizing once.
pub proof fn normalizing_is_idempotent(value: Json)
    ensures
        normal_form(normal_form(value)) == normal_form(value),
{
    normal_forms_are_canonical(value);
    canonical_values_are_normal(normal_form(value));
}

}
