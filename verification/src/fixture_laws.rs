//! Which fixtures are accepted, what they take from their document, and how a
//! trace is judged by them.

use vstd::prelude::*;
use vstd::string::*;

use crate::conformance::{
    cases_of, chosen_text, effect_label, ids_from, input_member, labels_from, listener_labels,
    normal_trace,
};
use crate::decode::name_field;
use crate::fixture::{
    catalog_shape, domain_of, fixture_fault, fixture_fields, fixture_of, is_fixture_key, kind_from,
    stray_key, trace_fault, trace_fields, trace_of, traces_of, Domain, FixtureModel,
    TraceEventKind, TraceModel,
};
use crate::forms::{merged_name, named, record};
use crate::json::{
    lookup, property, same_json, set_member_is_readable, set_member_keeps_other_keys, with_member,
    Json, Number,
};
use crate::report::{
    domain_text, event_json, judgement, parting, same_event, texts_json, trace_json, with_text,
};
use crate::text::{blank, decimal_text};
use crate::text_laws::letters_and_digits_are_ascii;

verus! {

/// A small letter or a digit of ASCII.
pub open spec fn plain_small(c: char) -> bool {
    0x30 <= c as u32 <= 0x39 || 0x61 <= c as u32 <= 0x7a
}

/// A catalogue name starts with a small letter and ends with a small letter or
/// a digit; between them, each dot or dash stands alone.
pub proof fn catalog_names_are_words_and_joints(text: Seq<char>)
    ensures
        catalog_shape(text) <==> {
            &&& text.len() > 0
            &&& 0x61 <= text[0] as u32 <= 0x7a
            &&& plain_small(text[text.len() - 1])
            &&& forall|i: int|
                0 <= i < text.len() ==> plain_small(#[trigger] text[i]) || ((text[i] == '.'
                    || text[i] == '-') && i > 0 && plain_small(text[i - 1]))
        },
{
    assert forall|i: int| 0 <= i < text.len() implies (crate::text::is_lower(#[trigger] text[i])
        <==> 0x61 <= text[i] as u32 <= 0x7a) && (crate::text::is_digit(text[i]) <==> 0x30
        <= text[i] as u32 <= 0x39) by {
        letters_and_digits_are_ascii(text[i]);
    }
    assert('.' as u32 == 0x2e && '-' as u32 == 0x2d);
    if text.len() > 0 {
        assert(text.last() == text[text.len() - 1]);
        if catalog_shape(text) {
            assert forall|i: int| 0 <= i < text.len() implies plain_small(#[trigger] text[i]) || ((
            text[i] == '.' || text[i] == '-') && i > 0 && plain_small(text[i - 1])) by {
                if i > 0 && !plain_small(text[i]) {
                    let before = text[i - 1];
                    assert(crate::fixture::is_separator(text[i]));
                    assert(!crate::fixture::is_separator(before));
                }
            }
        }
        if forall|i: int|
            0 <= i < text.len() ==> plain_small(#[trigger] text[i]) || ((text[i] == '.' || text[i]
                == '-') && i > 0 && plain_small(text[i - 1])) {
            assert forall|i: int, j: int|
                0 <= i < text.len() && j == i + 1 && j < text.len()
                    && crate::fixture::is_separator(
                    #[trigger] text[i],
                ) implies !crate::fixture::is_separator(#[trigger] text[j]) by {
                assert(plain_small(text[j]) || plain_small(text[j - 1]));
            }
        }
    }
}

/// Every text that an event gives shows something.
pub open spec fn nothing_blank(event: TraceModel) -> bool {
    &&& event.subject matches Some(text) ==> !blank(text)
    &&& event.from matches Some(text) ==> !blank(text)
    &&& event.to matches Some(text) ==> !blank(text)
    &&& event.label matches Some(text) ==> !blank(text)
    &&& event.phase matches Some(text) ==> !blank(text)
    &&& event.error matches Some(text) ==> !blank(text)
}

proof fn traces_show_something(trace: Seq<TraceModel>, from: int)
    requires
        0 <= from,
    ensures
        trace_fault(trace, from) is None <==> forall|i: int|
            from <= i < trace.len() ==> nothing_blank(#[trigger] trace[i]),
    decreases trace.len() - from,
{
    if from < trace.len() {
        traces_show_something(trace, from + 1);
    }
}

/// A fixture is accepted exactly if it is of the one version, is named and
/// has its scenario named as a catalogue does, has an object for input if any,
/// expects something unless it is about the loader, and expects nothing blank.
pub proof fn fixtures_are_accepted_if_sound(fixture: FixtureModel)
    ensures
        fixture_fault(fixture) is None <==> {
            &&& fixture.schema_version == "tessivum.conformance/v1"@
            &&& catalog_shape(fixture.name)
            &&& catalog_shape(fixture.scenario)
            &&& fixture.input matches Some(input) ==> input is Object
            &&& fixture.expected_trace.len() > 0 || fixture.domain == Domain::Loader
            &&& forall|i: int|
                0 <= i < fixture.expected_trace.len() ==> nothing_blank(
                    #[trigger] fixture.expected_trace[i],
                )
        },
{
    traces_show_something(fixture.expected_trace, 0);
}

proof fn kinds_are_found(text: Seq<char>, from: int)
    requires
        0 <= from <= 12,
    ensures
        kind_from(text, from) matches Some(kind) ==> kind.spec_name() == text,
        forall|i: int|
            from <= i < 12 && (#[trigger] TraceEventKind::spec_all()[i]).spec_name() == text
                ==> kind_from(text, from) is Some,
    decreases 12 - from,
{
    if from < 12 {
        kinds_are_found(text, from + 1);
    }
}

/// Every kind of event is read from its own name alone, and so is every domain.
pub proof fn names_are_read_back(kind: TraceEventKind, domain: Domain, text: Seq<char>)
    ensures
        kind_from(kind.spec_name(), 0) == Some(kind),
        kind_from(text, 0) == Some(kind) ==> text == kind.spec_name(),
        domain_of(domain_text(domain)) == Some(domain),
        domain_of(text) == Some(domain) ==> text == domain_text(domain),
{
    reveal_strlit("lifecycle");
    reveal_strlit("service");
    reveal_strlit("event");
    reveal_strlit("loader");
    assert("lifecycle"@.len() == 9 && "service"@.len() == 7 && "event"@.len() == 5
        && "loader"@.len() == 6);
    kinds_are_found(text, 0);
    kinds_are_found(kind.spec_name(), 0);
    let all = TraceEventKind::spec_all();
    assert(all.len() == 12);
    assert(exists|i: int| 0 <= i < 12 && #[trigger] all[i] == kind) by {
        match kind {
            TraceEventKind::FiberCreated => assert(all[0] == kind),
            TraceEventKind::FiberStateChanged => assert(all[1] == kind),
            TraceEventKind::ServiceProvided => assert(all[2] == kind),
            TraceEventKind::ServiceRemoved => assert(all[3] == kind),
            TraceEventKind::ListenerAdded => assert(all[4] == kind),
            TraceEventKind::ListenerRemoved => assert(all[5] == kind),
            TraceEventKind::EventDispatched => assert(all[6] == kind),
            TraceEventKind::EffectCreated => assert(all[7] == kind),
            TraceEventKind::EffectDisposed => assert(all[8] == kind),
            TraceEventKind::PluginError => assert(all[9] == kind),
            TraceEventKind::ConfigCommitted => assert(all[10] == kind),
            TraceEventKind::ConfigRolledBack => assert(all[11] == kind),
        }
    }
    let i = choose|i: int| 0 <= i < 12 && #[trigger] all[i] == kind;
    assert(all[i].spec_name() == kind.spec_name());
    names_differ(kind, kind_from(kind.spec_name(), 0)->0);
}

proof fn names_differ(a: TraceEventKind, b: TraceEventKind)
    ensures
        a.spec_name() == b.spec_name() ==> a == b,
{
    reveal_strlit("fiber-created");
    reveal_strlit("fiber-state-changed");
    reveal_strlit("service-provided");
    reveal_strlit("service-removed");
    reveal_strlit("listener-added");
    reveal_strlit("listener-removed");
    reveal_strlit("event-dispatched");
    reveal_strlit("effect-created");
    reveal_strlit("effect-disposed");
    reveal_strlit("plugin-error");
    reveal_strlit("config-committed");
    reveal_strlit("config-rolled-back");
    assert("fiber-created"@.len() == 13
        && "fiber-state-changed"@.len() == 19
        && "service-provided"@.len() == 16
        && "service-removed"@.len() == 15
        && "listener-added"@.len() == 14
        && "listener-removed"@.len() == 16
        && "event-dispatched"@.len() == 16
        && "effect-created"@.len() == 14
        && "effect-disposed"@.len() == 15
        && "plugin-error"@.len() == 12
        && "config-committed"@.len() == 16
        && "config-rolled-back"@.len() == 18);
    assert("service-provided"@[0] == 's' && "listener-removed"@[0] == 'l' && "event-dispatched"@[0]
        == 'e' && "config-committed"@[0] == 'c');
    assert("service-removed"@[0] == 's' && "effect-disposed"@[0] == 'e');
    assert("listener-added"@[0] == 'l' && "effect-created"@[0] == 'e');
}

/// The name that a value is: a text, or a mark by itself.
pub open spec fn is_name(value: Json, name: Seq<char>) -> bool {
    ||| value == Json::String(name)
    ||| value matches Json::Object(members) && members.len() == 1 && members[0].0 == name
        && members[0].1 is Null
}

/// The text under a key is the one given; without the key none is.
pub open spec fn gives(members: Seq<(Seq<char>, Json)>, key: Seq<char>, text: Option<Seq<char>>)
    -> bool {
    match text {
        Some(text) => lookup(members, key) == Some(Json::String(text)),
        None => lookup(members, key) is None,
    }
}

proof fn strays_are_found(members: Seq<(Seq<char>, Json)>, from: int, of_event: bool)
    requires
        0 <= from,
    ensures
        stray_key(members, from, of_event) is None <==> forall|i: int|
            from <= i < members.len() ==> is_fixture_key((#[trigger] members[i]).0, of_event),
    decreases members.len() - from,
{
    if from < members.len() {
        strays_are_found(members, from + 1, of_event);
    }
}

/// An expected event says what its document says under the same names, holds
/// a value if one that is no null is given, and has nothing else.
pub proof fn events_say_what_their_document_says(value: Json)
    ensures
        trace_of(value) matches Ok(event) ==> (record(value, trace_fields(), 7)
            matches Json::Object(members) && {
            &&& lookup(members, "event"@) matches Some(name) && is_name(name, event.kind.spec_name())
            &&& gives(members, "subject"@, event.subject)
            &&& gives(members, "from"@, event.from)
            &&& gives(members, "to"@, event.to)
            &&& gives(members, "label"@, event.label)
            &&& gives(members, "phase"@, event.phase)
            &&& gives(members, "error"@, event.error)
            &&& event.value is None <==> lookup(members, "value"@) is None || lookup(
                members,
                "value"@,
            ) == Some(Json::Null)
            &&& event.value is Some ==> lookup(members, "value"@) == event.value
            &&& forall|i: int|
                0 <= i < members.len() ==> {
                    let key = (#[trigger] members[i]).0;
                    key == "event"@ || key == "subject"@ || key == "from"@ || key == "to"@ || key
                        == "label"@ || key == "phase"@ || key == "value"@ || key == "error"@
                }
        }),
{
    match record(value, trace_fields(), 7) {
        Json::Object(members) => {
            strays_are_found(members, 0, true);
            match name_field(members, "event"@) {
                Ok(name) => kinds_are_found(name, 0),
                Err(_) => {},
            }
        },
        _ => {},
    }
}

/// A list of events reads as each of them, in order, and fails if one does.
pub proof fn lists_read_as_their_events(values: Seq<Json>, from: int)
    requires
        0 <= from <= values.len(),
    ensures
        traces_of(values, from) matches Ok(events) ==> events.len() == values.len() - from
            && forall|i: int|
            0 <= i < events.len() ==> trace_of(values[from + i]) == Ok::<TraceModel, Seq<char>>(
                #[trigger] events[i],
            ),
        traces_of(values, from) is Err <==> exists|i: int|
            from <= i < values.len() && trace_of(#[trigger] values[i]) is Err,
    decreases values.len() - from,
{
    if from < values.len() {
        lists_read_as_their_events(values, from + 1);
        match trace_of(values[from]) {
            Ok(event) => match traces_of(values, from + 1) {
                Ok(rest) => {
                    let events = seq![event] + rest;
                    assert forall|i: int| 0 <= i < events.len() implies trace_of(values[from + i])
                        == Ok::<TraceModel, Seq<char>>(#[trigger] events[i]) by {
                        if i > 0 {
                            assert(events[i] == rest[i - 1]);
                            assert(values[from + 1 + (i - 1)] == values[from + i]);
                        }
                    }
                },
                Err(_) => {},
            },
            Err(_) => {},
        }
    }
}

/// A fixture says what its document says under the same names, and nothing
/// else is in it.
pub proof fn fixtures_say_what_their_document_says(value: Json)
    ensures
        fixture_of(value) matches Ok(fixture) ==> (record(value, fixture_fields(), 6)
            matches Json::Object(members) && {
            &&& lookup(members, "schemaVersion"@) == Some(Json::String(fixture.schema_version))
            &&& lookup(members, "name"@) == Some(Json::String(fixture.name))
            &&& lookup(members, "domain"@) matches Some(name) && is_name(
                name,
                domain_text(fixture.domain),
            )
            &&& lookup(members, "scenario"@) == Some(Json::String(fixture.scenario))
            &&& lookup(members, "input"@) == fixture.input
            &&& lookup(members, "expectedTrace"@) matches Some(list) && (list
                matches Json::Array(values) && traces_of(values, 0) == Ok::<
                Seq<TraceModel>,
                Seq<char>,
            >(fixture.expected_trace))
            &&& forall|i: int|
                0 <= i < members.len() ==> {
                    let key = (#[trigger] members[i]).0;
                    key == "schemaVersion"@ || key == "name"@ || key == "domain"@ || key
                        == "scenario"@ || key == "input"@ || key == "expectedTrace"@
                }
        }),
{
    match record(value, fixture_fields(), 6) {
        Json::Object(members) => {
            strays_are_found(members, 0, false);
        },
        _ => {},
    }
}

/// A record may be given as an object, or as a list of its values in order if
/// there are enough of them and not too many; anything else stays as it is.
pub proof fn records_may_be_lists(values: Seq<Json>, names: Seq<Seq<char>>, least: nat, other: Json)
    ensures
        least <= values.len() <= names.len() ==> (record(Json::Array(values), names, least)
            matches Json::Object(members) && members.len() == values.len() && forall|i: int|
            0 <= i < members.len() ==> #[trigger] members[i] == (names[i], values[i])),
        !(least <= values.len() <= names.len()) ==> record(Json::Array(values), names, least)
            == Json::Array(values),
        !(other is Array) ==> record(other, names, least) == other,
{
}

/// A name may be given as a text or as the key of a single null; nothing else
/// stands for a name.
pub proof fn names_may_be_marks(value: Json, name: Seq<char>)
    ensures
        named(value) == Json::String(name) <==> is_name(value, name),
        !(named(value) is String) ==> named(value) == value,
{
}

/// Two events tell the same exactly if they agree in everything, their values
/// by what they mean.
pub proof fn events_agree_in_everything(a: TraceModel, b: TraceModel)
    ensures
        same_event(a, b) <==> a.kind == b.kind && a.subject == b.subject && a.from == b.from && a.to
            == b.to && a.label == b.label && a.phase == b.phase && a.error == b.error && (a.value
            is Some <==> b.value is Some) && (a.value is Some ==> same_json(a.value->0, b.value->0)),
        same_event(a, b) <==> same_event(b, a),
{
    if a.value is Some && b.value is Some {
        crate::json_laws::equality_is_symmetric(a.value->0, b.value->0);
    }
}

/// Traces part at the first event that differs, or where the shorter one ends.
pub proof fn traces_part_at_the_first_difference(
    expected: Seq<TraceModel>,
    actual: Seq<TraceModel>,
    from: int,
)
    requires
        0 <= from <= expected.len(),
        from <= actual.len(),
    ensures
        ({
            let at = parting(expected, actual, from);
            &&& from <= at <= expected.len() && at <= actual.len()
            &&& forall|i: int| from <= i < at ==> same_event(#[trigger] expected[i], actual[i])
            &&& at < expected.len() && at < actual.len() ==> !same_event(expected[at], actual[at])
        }),
    decreases expected.len() - from,
{
    if from < expected.len() && from < actual.len() && same_event(expected[from], actual[from]) {
        traces_part_at_the_first_difference(expected, actual, from + 1);
    }
}

/// The keys of reports are all different.
proof fn report_keys_differ()
    ensures
        forall|a: int, b: int|
            0 <= a < b < report_keys().len() ==> #[trigger] report_keys()[a]
                != #[trigger] report_keys()[b],
{
    reveal_strlit("fixture");
    reveal_strlit("status");
    reveal_strlit("trace");
    reveal_strlit("executedCases");
    reveal_strlit("error");
    reveal_strlit("code");
    reveal_strlit("event");
    reveal_strlit("message");
    reveal_strlit("expected");
    reveal_strlit("actual");
    assert("fixture"@.len() == 7
        && "status"@.len() == 6
        && "trace"@.len() == 5
        && "executedCases"@.len() == 13
        && "error"@.len() == 5
        && "code"@.len() == 4
        && "event"@.len() == 5
        && "message"@.len() == 7
        && "expected"@.len() == 8
        && "actual"@.len() == 6);
    assert("fixture"@[0] == 'f' && "message"@[0] == 'm');
    assert("status"@[0] == 's' && "actual"@[0] == 'a');
    assert("trace"@[0] == 't' && "error"@[0] == 'e' && "event"@[0] == 'e');
    assert("error"@[1] == 'r' && "event"@[1] == 'v');
}

spec fn report_keys() -> Seq<Seq<char>> {
    seq![
        "fixture"@,
        "status"@,
        "trace"@,
        "executedCases"@,
        "error"@,
        "code"@,
        "event"@,
        "message"@,
        "expected"@,
        "actual"@,
    ]
}

proof fn members_are_read<V>(members: Seq<(Seq<char>, V)>, key: Seq<char>, value: V)
    ensures
        lookup(with_member(members, key, value), key) == Some(value),
        forall|other: Seq<char>|
            other != key ==> #[trigger] lookup(with_member(members, key, value), other) == lookup(
                members,
                other,
            ),
{
    set_member_is_readable(members, key, value);
    assert forall|other: Seq<char>| other != key implies #[trigger] lookup(
        with_member(members, key, value),
        other,
    ) == lookup(members, other) by {
        set_member_keeps_other_keys(members, key, value, other);
    }
}

/// An event is shown with its kind and with just what it has, under the same
/// names.
pub proof fn events_are_shown_whole(event: TraceModel)
    ensures
        ({
            let shown = event_json(event);
            let text = |given: Option<Seq<char>>|
                match given {
                    Some(text) => Some(Json::String(text)),
                    None => None::<Json>,
                };
            &&& property(shown, "event"@) == Some(Json::String(event.kind.spec_name()))
            &&& property(shown, "subject"@) == text(event.subject)
            &&& property(shown, "from"@) == text(event.from)
            &&& property(shown, "to"@) == text(event.to)
            &&& property(shown, "label"@) == text(event.label)
            &&& property(shown, "phase"@) == text(event.phase)
            &&& property(shown, "error"@) == text(event.error)
            &&& property(shown, "value"@) == event.value
        }),
{
    reveal_strlit("event");
    reveal_strlit("subject");
    reveal_strlit("from");
    reveal_strlit("to");
    reveal_strlit("label");
    reveal_strlit("phase");
    reveal_strlit("error");
    reveal_strlit("value");
    assert("event"@[0] == 'e' && "label"@[0] == 'l' && "phase"@[0] == 'p' && "error"@[0] == 'e'
        && "value"@[0] == 'v');
    assert("event"@[1] == 'v' && "error"@[1] == 'r');
    let kind = seq![("event"@, Json::String(event.kind.spec_name()))];
    let rest = kind.drop_first();
    assert(rest.len() == 0);
    assert(forall|key: Seq<char>| key != "event"@ ==> #[trigger] lookup(kind, key) == lookup(
        rest,
        key,
    ));
    let subject = with_text(kind, "subject"@, event.subject);
    let from = with_text(subject, "from"@, event.from);
    let to = with_text(from, "to"@, event.to);
    let label = with_text(to, "label"@, event.label);
    let phase = with_text(label, "phase"@, event.phase);
    let error = with_text(phase, "error"@, event.error);
    members_are_read(kind, "subject"@, Json::String(event.subject->0));
    members_are_read(subject, "from"@, Json::String(event.from->0));
    members_are_read(from, "to"@, Json::String(event.to->0));
    members_are_read(to, "label"@, Json::String(event.label->0));
    members_are_read(label, "phase"@, Json::String(event.phase->0));
    members_are_read(phase, "error"@, Json::String(event.error->0));
    members_are_read(error, "value"@, event.value->0);
}

/// How a trace is judged. Without a list of cases the run fails. A fixture
/// about the loader that expects nothing is met by any trace; every other one
/// exactly if the traces are as long and tell the same event by event. The
/// report names the fixture, the cases and what was seen; a mismatch is told
/// with the place where the traces part and both events there.
pub proof fn judgements_compare_event_by_event(fixture: FixtureModel, trace: Seq<TraceModel>)
    ensures
        ({
            let expected = normal_trace(fixture.expected_trace);
            let actual = normal_trace(trace);
            let (passed, report) = judgement(fixture, trace);
            let at = parting(expected, actual, 0);
            &&& property(report, "fixture"@) == Some(Json::String(fixture.name))
            &&& passed <==> cases_of(fixture.input) is Ok && ((fixture.domain == Domain::Loader
                && fixture.expected_trace.len() == 0) || (expected.len() == actual.len() && forall|
                i: int,
            |
                0 <= i < expected.len() ==> same_event(#[trigger] expected[i], actual[i])))
            &&& cases_of(fixture.input) matches Err(message) ==> property(report, "status"@) == Some(
                Json::String("EXECUTION_ERROR"@),
            ) && property(property(report, "error"@)->0, "message"@) == Some(Json::String(message))
            &&& cases_of(fixture.input) matches Ok(cases) ==> {
                &&& property(report, "trace"@) == Some(trace_json(actual))
                &&& property(report, "executedCases"@) == Some(texts_json(cases))
                &&& property(report, "status"@) == Some(
                    Json::String(
                        if passed {
                            "PASS"@
                        } else {
                            "MISMATCH"@
                        },
                    ),
                )
                &&& passed ==> property(report, "error"@) is None
                &&& !passed ==> {
                    let error = property(report, "error"@)->0;
                    &&& property(error, "code"@) == Some(Json::String("TRACE_MISMATCH"@))
                    &&& property(error, "event"@) == Some(
                        Json::Number(Number::Unsigned(at as u64)),
                    )
                    &&& property(error, "expected"@) == (if at < expected.len() {
                        Some(event_json(expected[at]))
                    } else {
                        None
                    })
                    &&& property(error, "actual"@) == (if at < actual.len() {
                        Some(event_json(actual[at]))
                    } else {
                        None
                    })
                }
            }
        }),
{
    let expected = normal_trace(fixture.expected_trace);
    let actual = normal_trace(trace);
    let index = parting(expected, actual, 0);
    let none = Seq::<(Seq<char>, Json)>::empty();
    let keys = report_keys();
    report_keys_differ();
    assert(keys[0] == "fixture"@ && keys[1] == "status"@ && keys[2] == "trace"@ && keys[3]
        == "executedCases"@ && keys[4] == "error"@ && keys[5] == "code"@ && keys[6] == "event"@
        && keys[7] == "message"@ && keys[8] == "expected"@ && keys[9] == "actual"@);
    assert(expected.len() == fixture.expected_trace.len());
    match cases_of(fixture.input) {
        Err(message) => {
            let status = "EXECUTION_ERROR"@;
            let code = with_member(none, "code"@, Json::String(status));
            let named = with_member(code, "fixture"@, Json::String(fixture.name));
            let error = with_member(named, "message"@, Json::String(message));
            members_are_read(named, "message"@, Json::String(message));
            let top = with_member(none, "fixture"@, Json::String(fixture.name));
            members_are_read(none, "fixture"@, Json::String(fixture.name));
            let judged = with_member(top, "status"@, Json::String(status));
            members_are_read(top, "status"@, Json::String(status));
            members_are_read(judged, "error"@, Json::Object(error));
        },
        Ok(cases) => {
            let top = with_member(none, "fixture"@, Json::String(fixture.name));
            members_are_read(none, "fixture"@, Json::String(fixture.name));
            if judgement(fixture, trace).0 {
                let judged = with_member(top, "status"@, Json::String("PASS"@));
                members_are_read(top, "status"@, Json::String("PASS"@));
                let traced = with_member(judged, "trace"@, trace_json(actual));
                members_are_read(judged, "trace"@, trace_json(actual));
                members_are_read(traced, "executedCases"@, texts_json(cases));
            } else {
                let judged = with_member(top, "status"@, Json::String("MISMATCH"@));
                members_are_read(top, "status"@, Json::String("MISMATCH"@));
                let traced = with_member(judged, "trace"@, trace_json(actual));
                members_are_read(judged, "trace"@, trace_json(actual));
                let executed = with_member(traced, "executedCases"@, texts_json(cases));
                members_are_read(traced, "executedCases"@, texts_json(cases));
                let code = with_member(none, "code"@, Json::String("TRACE_MISMATCH"@));
                members_are_read(none, "code"@, Json::String("TRACE_MISMATCH"@));
                let named = with_member(code, "fixture"@, Json::String(fixture.name));
                members_are_read(code, "fixture"@, Json::String(fixture.name));
                let number = Json::Number(Number::Unsigned(index as u64));
                let placed = with_member(named, "event"@, number);
                members_are_read(named, "event"@, number);
                let message = Json::String(
                    "trace mismatch at event "@ + decimal_text(index as nat),
                );
                let told = with_member(placed, "message"@, message);
                members_are_read(placed, "message"@, message);
                let wanted = if index < expected.len() {
                    with_member(told, "expected"@, event_json(expected[index]))
                } else {
                    told
                };
                members_are_read(told, "expected"@, event_json(expected[index]));
                let error = if index < actual.len() {
                    with_member(wanted, "actual"@, event_json(actual[index]))
                } else {
                    wanted
                };
                members_are_read(wanted, "actual"@, event_json(actual[index]));
                members_are_read(executed, "error"@, Json::Object(error));
                traces_part_at_the_first_difference(expected, actual, 0);
            }
        },
    }
}

proof fn ids_are_read(cases: Seq<Json>, from: int)
    requires
        0 <= from <= cases.len(),
    ensures
        ids_from(cases, from) is Some <==> forall|i: int|
            from <= i < cases.len() ==> (property(#[trigger] cases[i], "id"@) matches Some(
                Json::String(id),
            ) && id.len() > 0),
        ids_from(cases, from) matches Some(ids) ==> ids.len() == cases.len() - from && forall|
            i: int,
        |
            0 <= i < ids.len() ==> property(cases[from + i], "id"@) == Some(
                Json::String(#[trigger] ids[i]),
            ),
    decreases cases.len() - from,
{
    if from < cases.len() {
        ids_are_read(cases, from + 1);
        match ids_from(cases, from) {
            Some(ids) => {
                let rest = ids_from(cases, from + 1)->0;
                assert forall|i: int| 0 <= i < ids.len() implies property(cases[from + i], "id"@)
                    == Some(Json::String(#[trigger] ids[i])) by {
                    if i > 0 {
                        assert(ids[i] == rest[i - 1]);
                        assert(cases[from + 1 + (i - 1)] == cases[from + i]);
                    }
                }
            },
            None => {
                if property(cases[from], "id"@) matches Some(Json::String(id)) && id.len() > 0 {
                    assert(ids_from(cases, from + 1) is None);
                } else {
                    let case = cases[from];
                    assert(!(property(case, "id"@) matches Some(Json::String(id)) && id.len() > 0));
                }
            },
        }
    }
}

/// The cases of a catalogue are the identifiers in its list, in order. They are
/// given exactly if there is a list that is not empty and every case in it has
/// an identifier that is not empty.
pub proof fn cases_are_those_listed(input: Option<Json>)
    ensures
        cases_of(input) is Ok <==> (input_member(input, "cases"@) matches Some(Json::Array(cases))
            && cases.len() > 0 && forall|i: int|
            0 <= i < cases.len() ==> (property(#[trigger] cases[i], "id"@) matches Some(
                Json::String(id),
            ) && id.len() > 0)),
        cases_of(input) matches Ok(ids) ==> (input_member(input, "cases"@) matches Some(
            Json::Array(cases),
        ) && ids.len() == cases.len() && forall|i: int|
            0 <= i < ids.len() ==> property(cases[i], "id"@) == Some(
                Json::String(#[trigger] ids[i]),
            )),
{
    match input_member(input, "cases"@) {
        Some(Json::Array(cases)) => {
            ids_are_read(cases, 0);
            if ids_from(cases, 0) is Some {
                let ids = ids_from(cases, 0)->0;
                assert forall|i: int| 0 <= i < ids.len() implies property(cases[i], "id"@) == Some(
                    Json::String(#[trigger] ids[i]),
                ) by {
                    assert(cases[0 + i] == cases[i]);
                }
            }
        },
        _ => {},
    }
}

proof fn labels_are_read(listeners: Seq<Json>, from: int)
    requires
        0 <= from <= listeners.len(),
    ensures
        labels_from(listeners, from) is Some <==> forall|i: int|
            from <= i < listeners.len() ==> property(#[trigger] listeners[i], "label"@) matches Some(
                Json::String(_),
            ),
        labels_from(listeners, from) matches Some(labels) ==> labels.len() == listeners.len() - from
            && forall|i: int|
            0 <= i < labels.len() ==> property(listeners[from + i], "label"@) == Some(
                Json::String(#[trigger] labels[i]),
            ),
    decreases listeners.len() - from,
{
    if from < listeners.len() {
        labels_are_read(listeners, from + 1);
        match labels_from(listeners, from) {
            Some(labels) => {
                let rest = labels_from(listeners, from + 1)->0;
                assert forall|i: int| 0 <= i < labels.len() implies property(
                    listeners[from + i],
                    "label"@,
                ) == Some(Json::String(#[trigger] labels[i])) by {
                    if i > 0 {
                        assert(labels[i] == rest[i - 1]);
                        assert(listeners[from + 1 + (i - 1)] == listeners[from + i]);
                    }
                }
            },
            None => {
                let listener = listeners[from];
                assert(property(listener, "label"@) matches Some(Json::String(_)) ==> labels_from(
                    listeners,
                    from + 1,
                ) is None);
            },
        }
    }
}

/// Listeners are labelled as listed when each has a label, and else as first
/// and second.
pub proof fn listeners_are_labelled_as_listed(input: Option<Json>)
    ensures
        match input_member(input, "listeners"@) {
            Some(Json::Array(listeners)) => if forall|i: int|
                0 <= i < listeners.len() ==> property(#[trigger] listeners[i], "label"@)
                    matches Some(Json::String(_)) {
                listener_labels(input).len() == listeners.len() && forall|i: int|
                    0 <= i < listeners.len() ==> property(listeners[i], "label"@) == Some(
                        Json::String(#[trigger] listener_labels(input)[i]),
                    )
            } else {
                listener_labels(input) == seq!["first"@, "second"@]
            },
            _ => listener_labels(input) == seq!["first"@, "second"@],
        },
{
    match input_member(input, "listeners"@) {
        Some(Json::Array(listeners)) => {
            labels_are_read(listeners, 0);
            if labels_from(listeners, 0) is Some {
                let labels = labels_from(listeners, 0)->0;
                assert forall|i: int| 0 <= i < listeners.len() implies property(
                    listeners[i],
                    "label"@,
                ) == Some(Json::String(#[trigger] listener_labels(input)[i])) by {
                    assert(labels[i] == listener_labels(input)[i]);
                    assert(listeners[0 + i] == listeners[i]);
                }
            }
        },
        _ => {},
    }
}

/// A text that is given and not empty is taken, and otherwise the one to fall
/// back on; the first effect is labelled that way.
pub proof fn given_texts_are_taken(text: Seq<char>, fallback: Seq<char>, other: Json, input: Json)
    ensures
        text.len() > 0 ==> chosen_text(Some(Json::String(text)), fallback) == text,
        text.len() == 0 ==> chosen_text(Some(Json::String(text)), fallback) == fallback,
        !(other is String) ==> chosen_text(Some(other), fallback) == fallback,
        chosen_text(None, fallback) == fallback,
        property(input, "effects"@) matches Some(Json::Array(effects)) ==> (effects.len() > 0
            && effects[0] == Json::String(text) && text.len() > 0 ==> effect_label(Some(input))
            == text),
        effect_label(None) == "effect-dispose"@,
{
}

/// Where names are merged, a name may be given as a text, or as the key of a
/// single null or a single empty object.
pub proof fn merged_names_may_be_marks(value: Json, name: Seq<char>)
    ensures
        merged_name(value) == Json::String(name) <==> is_name(value, name) || (value
            matches Json::Object(members) && members.len() == 1 && members[0].0 == name
            && members[0].1 == Json::Object(Seq::<(Seq<char>, Json)>::empty())),
        !(merged_name(value) is String) ==> merged_name(value) == value,
{
}

}
