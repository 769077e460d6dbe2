//! Conformance fixtures: recorded inputs and the traces they must give.

use vstd::prelude::*;
use vstd::string::*;

use crate::decode::{
    missing, missing_field, name_field, read_name, read_text, text_field, unknown_field, wrong,
    wrong_field,
};
use crate::document::{json_of_text, parse_json};
use crate::error::{optional_json, optional_text};
use crate::forms::{as_record, names_of, record};
use crate::json::{
    find_member, json_list, json_members, lemma_array_view, lookup, property, Json, JsonValue,
    Member,
};
use crate::package::outermost;
use crate::repeats::{count_in_text, text_codes, written_members};
use crate::text::{
    blank, characters, decimal, decimal_text, is_blank, is_digit, is_lower, join2, join3, lower,
    numeric, same_text, text_list,
};

verus! {

/// The version of the fixture format.
pub const SCHEMA_VERSION: &'static str = "tessivum.conformance/v1";

/// What a fixture is about.
#[derive(Clone, Copy, Debug, PartialEq, Eq, Structural)]
pub enum Domain {
    Lifecycle,
    Service,
    Event,
    Loader,
}

/// What a trace event reports.
#[derive(Clone, Copy, Debug, PartialEq, Eq, Structural)]
pub enum TraceEventKind {
    FiberCreated,
    FiberStateChanged,
    ServiceProvided,
    ServiceRemoved,
    ListenerAdded,
    ListenerRemoved,
    EventDispatched,
    EffectCreated,
    EffectDisposed,
    PluginError,
    ConfigCommitted,
    ConfigRolledBack,
}

/// The domain that a fixture names.
pub open spec fn domain_of(text: Seq<char>) -> Option<Domain> {
    if text == "lifecycle"@ {
        Some(Domain::Lifecycle)
    } else if text == "service"@ {
        Some(Domain::Service)
    } else if text == "event"@ {
        Some(Domain::Event)
    } else if text == "loader"@ {
        Some(Domain::Loader)
    } else {
        None
    }
}

impl Domain {
    /// Reads the name of a domain.
    pub fn parse(text: &str) -> (result: Option<Domain>)
        ensures
            result == domain_of(text@),
    {
        if same_text(text, "lifecycle") {
            Some(Domain::Lifecycle)
        } else if same_text(text, "service") {
            Some(Domain::Service)
        } else if same_text(text, "event") {
            Some(Domain::Event)
        } else if same_text(text, "loader") {
            Some(Domain::Loader)
        } else {
            None
        }
    }
}

impl TraceEventKind {
    /// The name of this kind in documents.
    pub open spec fn spec_name(self) -> Seq<char> {
        match self {
            TraceEventKind::FiberCreated => "fiber-created"@,
            TraceEventKind::FiberStateChanged => "fiber-state-changed"@,
            TraceEventKind::ServiceProvided => "service-provided"@,
            TraceEventKind::ServiceRemoved => "service-removed"@,
            TraceEventKind::ListenerAdded => "listener-added"@,
            TraceEventKind::ListenerRemoved => "listener-removed"@,
            TraceEventKind::EventDispatched => "event-dispatched"@,
            TraceEventKind::EffectCreated => "effect-created"@,
            TraceEventKind::EffectDisposed => "effect-disposed"@,
            TraceEventKind::PluginError => "plugin-error"@,
            TraceEventKind::ConfigCommitted => "config-committed"@,
            TraceEventKind::ConfigRolledBack => "config-rolled-back"@,
        }
    }

    pub fn name(self) -> (result: &'static str)
        ensures
            result@ == self.spec_name(),
    {
        match self {
            TraceEventKind::FiberCreated => "fiber-created",
            TraceEventKind::FiberStateChanged => "fiber-state-changed",
            TraceEventKind::ServiceProvided => "service-provided",
            TraceEventKind::ServiceRemoved => "service-removed",
            TraceEventKind::ListenerAdded => "listener-added",
            TraceEventKind::ListenerRemoved => "listener-removed",
            TraceEventKind::EventDispatched => "event-dispatched",
            TraceEventKind::EffectCreated => "effect-created",
            TraceEventKind::EffectDisposed => "effect-disposed",
            TraceEventKind::PluginError => "plugin-error",
            TraceEventKind::ConfigCommitted => "config-committed",
            TraceEventKind::ConfigRolledBack => "config-rolled-back",
        }
    }

    /// Every kind, once.
    pub open spec fn spec_all() -> Seq<TraceEventKind> {
        seq![
            TraceEventKind::FiberCreated,
            TraceEventKind::FiberStateChanged,
            TraceEventKind::ServiceProvided,
            TraceEventKind::ServiceRemoved,
            TraceEventKind::ListenerAdded,
            TraceEventKind::ListenerRemoved,
            TraceEventKind::EventDispatched,
            TraceEventKind::EffectCreated,
            TraceEventKind::EffectDisposed,
            TraceEventKind::PluginError,
            TraceEventKind::ConfigCommitted,
            TraceEventKind::ConfigRolledBack,
        ]
    }

    pub fn all() -> (result: Vec<TraceEventKind>)
        ensures
            result@ == TraceEventKind::spec_all(),
    {
        let result = vec![
            TraceEventKind::FiberCreated,
            TraceEventKind::FiberStateChanged,
            TraceEventKind::ServiceProvided,
            TraceEventKind::ServiceRemoved,
            TraceEventKind::ListenerAdded,
            TraceEventKind::ListenerRemoved,
            TraceEventKind::EventDispatched,
            TraceEventKind::EffectCreated,
            TraceEventKind::EffectDisposed,
            TraceEventKind::PluginError,
            TraceEventKind::ConfigCommitted,
            TraceEventKind::ConfigRolledBack,
        ];
        assert(result@ =~= TraceEventKind::spec_all());
        result
    }

    /// Reads the name of a kind.
    pub fn parse(text: &str) -> (result: Option<TraceEventKind>)
        ensures
            result == kind_from(text@, 0),
    {
        let kinds = TraceEventKind::all();
        let mut i: usize = 0;
        while i < kinds.len()
            invariant
                i <= kinds@.len(),
                kinds@ == TraceEventKind::spec_all(),
                kind_from(text@, 0) == kind_from(text@, i as int),
            decreases kinds@.len() - i,
        {
            if same_text(kinds[i].name(), text) {
                return Some(kinds[i]);
            }
            i += 1;
        }
        None
    }
}

/// The first kind, from the one at `from` on, with this name.
pub open spec fn kind_from(text: Seq<char>, from: int) -> Option<TraceEventKind>
    decreases TraceEventKind::spec_all().len() - from,
{
    if from < 0 || from >= TraceEventKind::spec_all().len() {
        None
    } else if TraceEventKind::spec_all()[from].spec_name() == text {
        Some(TraceEventKind::spec_all()[from])
    } else {
        kind_from(text, from + 1)
    }
}

/// One observation of a trace.
#[derive(Debug, PartialEq)]
pub struct TraceEvent {
    pub kind: TraceEventKind,
    pub subject: Option<String>,
    pub from: Option<String>,
    pub to: Option<String>,
    pub label: Option<String>,
    pub phase: Option<String>,
    pub value: Option<JsonValue>,
    pub error: Option<String>,
}

/// The model of an observation.
#[verifier::ext_equal]
pub struct TraceModel {
    pub kind: TraceEventKind,
    pub subject: Option<Seq<char>>,
    pub from: Option<Seq<char>>,
    pub to: Option<Seq<char>>,
    pub label: Option<Seq<char>>,
    pub phase: Option<Seq<char>>,
    pub value: Option<Json>,
    pub error: Option<Seq<char>>,
}

impl View for TraceEvent {
    type V = TraceModel;

    open spec fn view(&self) -> TraceModel {
        TraceModel {
            kind: self.kind,
            subject: optional_text(self.subject),
            from: optional_text(self.from),
            to: optional_text(self.to),
            label: optional_text(self.label),
            phase: optional_text(self.phase),
            value: optional_json(self.value),
            error: optional_text(self.error),
        }
    }
}

/// An observation that tells nothing but its kind.
pub open spec fn bare_event(kind: TraceEventKind) -> TraceModel {
    TraceModel {
        kind,
        subject: None,
        from: None,
        to: None,
        label: None,
        phase: None,
        value: None,
        error: None,
    }
}

/// The models of a trace.
pub open spec fn trace_list(trace: Seq<TraceEvent>) -> Seq<TraceModel> {
    Seq::new(trace.len(), |i: int| trace[i]@)
}

fn copy_text(text: &Option<String>) -> (result: Option<String>)
    ensures
        optional_text(result) == optional_text(*text),
{
    match text {
        Some(text) => Some(text.clone()),
        None => None,
    }
}

impl Clone for TraceEvent {
    fn clone(&self) -> (result: Self)
        ensures
            result@ == self@,
    {
        let value = match &self.value {
            Some(value) => Some(value.clone()),
            None => None,
        };
        TraceEvent {
            kind: self.kind,
            subject: copy_text(&self.subject),
            from: copy_text(&self.from),
            to: copy_text(&self.to),
            label: copy_text(&self.label),
            phase: copy_text(&self.phase),
            value,
            error: copy_text(&self.error),
        }
    }
}

impl TraceEvent {
    /// An observation that tells nothing but its kind.
    pub fn bare(kind: TraceEventKind) -> (result: Self)
        ensures
            result@ == bare_event(kind),
    {
        TraceEvent {
            kind,
            subject: None,
            from: None,
            to: None,
            label: None,
            phase: None,
            value: None,
            error: None,
        }
    }
}

/// A fixture could not be read.
#[derive(Debug, PartialEq, Eq)]
pub enum FixtureError {
    MalformedDocument(String),
    Invalid(String),
}

/// The model of a fixture error.
#[verifier::ext_equal]
pub enum FixtureFailure {
    MalformedDocument(Seq<char>),
    Invalid(Seq<char>),
}

impl View for FixtureError {
    type V = FixtureFailure;

    open spec fn view(&self) -> FixtureFailure {
        match self {
            FixtureError::MalformedDocument(message) => FixtureFailure::MalformedDocument(message@),
            FixtureError::Invalid(message) => FixtureFailure::Invalid(message@),
        }
    }
}

impl FixtureError {
    /// The message that this error shows.
    pub fn message(&self) -> (result: String)
        ensures
            result@ == (match self@ {
                FixtureFailure::MalformedDocument(message) => "malformed JSON fixture: "@ + message,
                FixtureFailure::Invalid(message) => message,
            }),
    {
        match self {
            FixtureError::MalformedDocument(message) => join2(
                "malformed JSON fixture: ",
                message.as_str(),
            ),
            FixtureError::Invalid(message) => message.clone(),
        }
    }
}

/// A fixture and the trace that its input must give.
#[derive(Debug, PartialEq)]
pub struct Fixture {
    pub schema_version: String,
    pub name: String,
    pub domain: Domain,
    pub scenario: String,
    pub input: Option<JsonValue>,
    pub expected_trace: Vec<TraceEvent>,
}

/// The model of a fixture.
#[verifier::ext_equal]
pub struct FixtureModel {
    pub schema_version: Seq<char>,
    pub name: Seq<char>,
    pub domain: Domain,
    pub scenario: Seq<char>,
    pub input: Option<Json>,
    pub expected_trace: Seq<TraceModel>,
}

impl View for Fixture {
    type V = FixtureModel;

    open spec fn view(&self) -> FixtureModel {
        FixtureModel {
            schema_version: self.schema_version@,
            name: self.name@,
            domain: self.domain,
            scenario: self.scenario@,
            input: optional_json(self.input),
            expected_trace: trace_list(self.expected_trace@),
        }
    }
}

/// A separator within a catalog identifier.
pub open spec fn is_separator(c: char) -> bool {
    c == '.' || c == '-'
}

/// Lowercase words with digits, joined by single dots or dashes, of which the
/// first starts with a letter.
pub open spec fn catalog_shape(text: Seq<char>) -> bool {
    &&& text.len() > 0
    &&& is_lower(text[0])
    &&& forall|i: int|
        0 <= i < text.len() ==> is_lower(#[trigger] text[i]) || is_digit(text[i]) || is_separator(
            text[i],
        )
    &&& forall|i: int, j: int|
        0 <= i < text.len() && j == i + 1 && j < text.len() && is_separator(#[trigger] text[i])
            ==> !is_separator(#[trigger] text[j])
    &&& !is_separator(text.last())
}

/// Whether a text is a catalog identifier.
pub fn is_catalog_identifier(value: &str) -> (result: bool)
    ensures
        result == catalog_shape(value@),
{
    let chars = characters(value);
    if chars.len() == 0 {
        return false;
    }
    if !lower(chars[0]) {
        assert(!is_lower(value@[0]));
        return false;
    }
    let mut after_separator: bool = false;
    let mut i: usize = 1;
    while i < chars.len()
        invariant
            1 <= i <= chars@.len(),
            chars@ == value@,
            is_lower(value@[0]),
            after_separator == is_separator(value@[i - 1]),
            forall|k: int|
                0 <= k < i ==> is_lower(#[trigger] value@[k]) || is_digit(value@[k])
                    || is_separator(value@[k]),
            forall|k: int, j: int|
                0 <= k < i && j == k + 1 && j < i && is_separator(#[trigger] value@[k])
                    ==> !is_separator(#[trigger] value@[j]),
        decreases chars@.len() - i,
    {
        let c = chars[i];
        assert(c == value@[i as int]);
        if lower(c) || numeric(c) {
            after_separator = false;
        } else if (c == '.' || c == '-') && !after_separator {
            after_separator = true;
        } else {
            assert(!catalog_shape(value@)) by {
                if is_separator(c) {
                    assert(is_separator(value@[i - 1]));
                }
            }
            return false;
        }
        i += 1;
    }
    !after_separator
}

/// A text that is given and blank.
pub open spec fn given_blank(text: Option<Seq<char>>) -> bool {
    text matches Some(text) && blank(text)
}

fn is_given_blank(text: &Option<String>) -> (result: bool)
    ensures
        result == given_blank(optional_text(*text)),
{
    match text {
        Some(text) => is_blank(text.as_str()),
        None => false,
    }
}

/// The first field of an observation that is given and blank.
pub open spec fn blank_field(event: TraceModel) -> Option<Seq<char>> {
    if given_blank(event.subject) {
        Some("subject"@)
    } else if given_blank(event.from) {
        Some("from"@)
    } else if given_blank(event.to) {
        Some("to"@)
    } else if given_blank(event.label) {
        Some("label"@)
    } else if given_blank(event.phase) {
        Some("phase"@)
    } else if given_blank(event.error) {
        Some("error"@)
    } else {
        None
    }
}

/// Why an observation is refused.
pub open spec fn event_fault(event: TraceModel, index: nat) -> Option<FixtureFailure> {
    match blank_field(event) {
        Some(field) => Some(
            FixtureFailure::Invalid(
                "expectedTrace["@ + decimal_text(index) + "]."@ + field + " must not be blank"@,
            ),
        ),
        None => None,
    }
}

/// The first fault in `trace[from..]`.
pub open spec fn trace_fault(trace: Seq<TraceModel>, from: int) -> Option<FixtureFailure>
    decreases trace.len() - from,
{
    if from < 0 || from >= trace.len() {
        None
    } else {
        match event_fault(trace[from], from as nat) {
            Some(failure) => Some(failure),
            None => trace_fault(trace, from + 1),
        }
    }
}

/// Why a fixture is refused: the first rule, in order, that it breaks.
pub open spec fn fixture_fault(fixture: FixtureModel) -> Option<FixtureFailure> {
    if fixture.schema_version != SCHEMA_VERSION@ {
        Some(
            FixtureFailure::Invalid("schemaVersion must be \"tessivum.conformance/v1\""@),
        )
    } else if !catalog_shape(fixture.name) {
        Some(
            FixtureFailure::Invalid("name must be a lowercase dot- or dash-separated identifier"@),
        )
    } else if !catalog_shape(fixture.scenario) {
        Some(
            FixtureFailure::Invalid(
                "scenario must be a lowercase dot- or dash-separated identifier"@,
            ),
        )
    } else if fixture.input matches Some(input) && !(input is Object) {
        Some(FixtureFailure::Invalid("input must be an object"@))
    } else if fixture.expected_trace.len() == 0 && fixture.domain != Domain::Loader {
        Some(FixtureFailure::Invalid("expectedTrace must not be empty"@))
    } else {
        trace_fault(fixture.expected_trace, 0)
    }
}

/// The failure of a check, if any.
pub open spec fn fixture_failure(result: Result<(), FixtureError>) -> Option<FixtureFailure> {
    match result {
        Ok(()) => None,
        Err(error) => Some(error@),
    }
}

impl TraceEvent {
    /// Checks that no text of this observation is blank.
    pub fn validate(&self, index: usize) -> (result: Result<(), FixtureError>)
        ensures
            fixture_failure(result) == event_fault(self@, index as nat),
    {
        let field = if is_given_blank(&self.subject) {
            "subject"
        } else if is_given_blank(&self.from) {
            "from"
        } else if is_given_blank(&self.to) {
            "to"
        } else if is_given_blank(&self.label) {
            "label"
        } else if is_given_blank(&self.phase) {
            "phase"
        } else if is_given_blank(&self.error) {
            "error"
        } else {
            return Ok(());
        };
        let mut message = join3("expectedTrace[", decimal(index as u64).as_str(), "].");
        message.append(field);
        message.append(" must not be blank");
        Err(FixtureError::Invalid(message))
    }
}

fn invalid(message: &str) -> (result: Result<(), FixtureError>)
    ensures
        fixture_failure(result) == Some(FixtureFailure::Invalid(message@)),
{
    Err(FixtureError::Invalid(message.to_owned()))
}

impl Fixture {
    /// Checks the rules that every fixture keeps.
    pub fn validate(&self) -> (result: Result<(), FixtureError>)
        ensures
            fixture_failure(result) == fixture_fault(self@),
    {
        if !same_text(self.schema_version.as_str(), SCHEMA_VERSION) {
            return invalid("schemaVersion must be \"tessivum.conformance/v1\"");
        }
        if !is_catalog_identifier(self.name.as_str()) {
            return invalid("name must be a lowercase dot- or dash-separated identifier");
        }
        if !is_catalog_identifier(self.scenario.as_str()) {
            return invalid("scenario must be a lowercase dot- or dash-separated identifier");
        }
        if let Some(input) = &self.input {
            if !input.is_object() {
                return invalid("input must be an object");
            }
        }
        if self.expected_trace.len() == 0 && self.domain != Domain::Loader {
            return invalid("expectedTrace must not be empty");
        }
        let ghost trace = trace_list(self.expected_trace@);
        let mut i: usize = 0;
        while i < self.expected_trace.len()
            invariant
                i <= self.expected_trace@.len(),
                trace == trace_list(self.expected_trace@),
                fixture_fault(self@) == trace_fault(trace, i as int),
            decreases self.expected_trace@.len() - i,
        {
            assert(trace[i as int] == self.expected_trace@[i as int]@);
            match self.expected_trace[i].validate(i) {
                Ok(()) => {},
                Err(error) => return Err(error),
            }
            i += 1;
        }
        Ok(())
    }
}


/// A text field that may be absent, but not null.
pub open spec fn given_text(members: Seq<(Seq<char>, Json)>, key: Seq<char>) -> Result<
    Option<Seq<char>>,
    Seq<char>,
> {
    match lookup(members, key) {
        None => Ok(None),
        Some(Json::String(text)) => Ok(Some(text)),
        Some(_) => Err(wrong_field(key, "a string"@)),
    }
}

fn read_given(members: &Vec<Member>, key: &str) -> (result: Result<Option<String>, String>)
    ensures
        given_text(json_members(members@), key@) == (match result {
            Ok(text) => Ok::<Option<Seq<char>>, Seq<char>>(optional_text(text)),
            Err(message) => Err::<Option<Seq<char>>, Seq<char>>(message@),
        }),
{
    match find_member(members, key) {
        None => Ok(None),
        Some(at) => match members[at].value.as_str() {
            Some(text) => Ok(Some(text.to_owned())),
            None => Err(wrong(key, "a string")),
        },
    }
}

/// The value of an observation; null counts as absent.
pub open spec fn given_value(members: Seq<(Seq<char>, Json)>) -> Option<Json> {
    match lookup(members, "value"@) {
        None => None,
        Some(Json::Null) => None,
        Some(value) => Some(value),
    }
}

/// The key is a field of an observation, or of a fixture.
pub open spec fn is_fixture_key(key: Seq<char>, of_event: bool) -> bool {
    if of_event {
        key == "event"@ || key == "subject"@ || key == "from"@ || key == "to"@ || key == "label"@
            || key == "phase"@ || key == "value"@ || key == "error"@
    } else {
        key == "schemaVersion"@ || key == "name"@ || key == "domain"@ || key == "scenario"@ || key
            == "input"@ || key == "expectedTrace"@
    }
}

/// The first key in `members[from..]` that is no field.
pub open spec fn stray_key(members: Seq<(Seq<char>, Json)>, from: int, of_event: bool) -> Option<
    Seq<char>,
>
    decreases members.len() - from,
{
    if from < 0 || from >= members.len() {
        None
    } else if !is_fixture_key(members[from].0, of_event) {
        Some(members[from].0)
    } else {
        stray_key(members, from + 1, of_event)
    }
}

fn find_stray(members: &Vec<Member>, of_event: bool) -> (result: Option<usize>)
    ensures
        match result {
            Some(at) => at < members@.len() && stray_key(json_members(members@), 0, of_event)
                == Some(members@[at as int].key@),
            None => stray_key(json_members(members@), 0, of_event) is None,
        },
{
    let ghost model = json_members(members@);
    let mut i: usize = 0;
    while i < members.len()
        invariant
            i <= members@.len(),
            model == json_members(members@),
            stray_key(model, 0, of_event) == stray_key(model, i as int, of_event),
        decreases members@.len() - i,
    {
        let key = members[i].key.as_str();
        assert(model[i as int].0 == key@);
        let known = if of_event {
            same_text(key, "event") || same_text(key, "subject") || same_text(key, "from")
                || same_text(key, "to") || same_text(key, "label") || same_text(key, "phase")
                || same_text(key, "value") || same_text(key, "error")
        } else {
            same_text(key, "schemaVersion") || same_text(key, "name") || same_text(key, "domain")
                || same_text(key, "scenario") || same_text(key, "input") || same_text(
                key,
                "expectedTrace",
            )
        };
        if !known {
            return Some(i);
        }
        i += 1;
    }
    None
}

/// The fields of an observation, in order.
pub open spec fn trace_fields() -> Seq<Seq<char>> {
    seq!["event"@, "subject"@, "from"@, "to"@, "label"@, "phase"@, "value"@, "error"@]
}

/// The observation that a value describes.
pub open spec fn trace_of(value: Json) -> Result<TraceModel, Seq<char>> {
    match record(value, trace_fields(), 7) {
        Json::Object(members) => if stray_key(members, 0, true) is Some {
            Err(unknown_field(stray_key(members, 0, true)->0))
        } else {
            match name_field(members, "event"@) {
                Err(message) => Err(message),
                Ok(name) => match kind_from(name, 0) {
                    None => Err(wrong_field("event"@, "a trace event"@)),
                    Some(kind) => match given_text(members, "subject"@) {
                        Err(message) => Err(message),
                        Ok(subject) => match given_text(members, "from"@) {
                            Err(message) => Err(message),
                            Ok(from) => match given_text(members, "to"@) {
                                Err(message) => Err(message),
                                Ok(to) => match given_text(members, "label"@) {
                                    Err(message) => Err(message),
                                    Ok(label) => match given_text(members, "phase"@) {
                                        Err(message) => Err(message),
                                        Ok(phase) => match given_text(members, "error"@) {
                                            Err(message) => Err(message),
                                            Ok(error) => Ok(
                                                TraceModel {
                                                    kind,
                                                    subject,
                                                    from,
                                                    to,
                                                    label,
                                                    phase,
                                                    value: given_value(members),
                                                    error,
                                                },
                                            ),
                                        },
                                    },
                                },
                            },
                        },
                    },
                },
            }
        },
        _ => Err("a trace event must be an object"@),
    }
}

/// Reads an observation.
pub fn read_trace_event(value: &JsonValue) -> (result: Result<TraceEvent, String>)
    ensures
        trace_of(value@) == (match result {
            Ok(event) => Ok::<TraceModel, Seq<char>>(event@),
            Err(message) => Err::<TraceModel, Seq<char>>(message@),
        }),
{
    let fields = names_of(
        &["event", "subject", "from", "to", "label", "phase", "value", "error"],
    );
    assert(text_list(fields@) =~= trace_fields());
    let plain = as_record(value, &fields, 7);
    proof {
        lemma_array_view(plain);
    }
    match &plain {
        JsonValue::Object(members) => {
            if let Some(at) = find_stray(members, true) {
                return Err(join3("unknown field `", members[at].key.as_str(), "`"));
            }
            let name = match read_name(members, "event") {
                Ok(text) => text,
                Err(message) => return Err(message),
            };
            let kind = match TraceEventKind::parse(name.as_str()) {
                Some(kind) => kind,
                None => return Err(wrong("event", "a trace event")),
            };
            let subject = match read_given(members, "subject") {
                Ok(text) => text,
                Err(message) => return Err(message),
            };
            let from = match read_given(members, "from") {
                Ok(text) => text,
                Err(message) => return Err(message),
            };
            let to = match read_given(members, "to") {
                Ok(text) => text,
                Err(message) => return Err(message),
            };
            let label = match read_given(members, "label") {
                Ok(text) => text,
                Err(message) => return Err(message),
            };
            let phase = match read_given(members, "phase") {
                Ok(text) => text,
                Err(message) => return Err(message),
            };
            let error = match read_given(members, "error") {
                Ok(text) => text,
                Err(message) => return Err(message),
            };
            let value = match find_member(members, "value") {
                None => None,
                Some(at) => match &members[at].value {
                    JsonValue::Null => None,
                    other => Some(other.clone()),
                },
            };
            Ok(TraceEvent { kind, subject, from, to, label, phase, value, error })
        },
        _ => Err("a trace event must be an object".to_owned()),
    }
}

/// The observations that `values[from..]` describe.
pub open spec fn traces_of(values: Seq<Json>, from: int) -> Result<Seq<TraceModel>, Seq<char>>
    decreases values.len() - from,
{
    if from < 0 || from >= values.len() {
        Ok(Seq::empty())
    } else {
        match trace_of(values[from]) {
            Err(message) => Err(message),
            Ok(event) => match traces_of(values, from + 1) {
                Err(message) => Err(message),
                Ok(rest) => Ok(seq![event] + rest),
            },
        }
    }
}

fn read_trace(values: &Vec<JsonValue>) -> (result: Result<Vec<TraceEvent>, String>)
    ensures
        traces_of(json_list(values@), 0) == (match result {
            Ok(trace) => Ok::<Seq<TraceModel>, Seq<char>>(trace_list(trace@)),
            Err(message) => Err::<Seq<TraceModel>, Seq<char>>(message@),
        }),
{
    let ghost model = json_list(values@);
    let mut trace: Vec<TraceEvent> = Vec::new();
    let mut i: usize = 0;
    assert(trace_list(trace@) =~= Seq::empty());
    proof {
        if traces_of(model, 0) is Ok {
            assert(Seq::<TraceModel>::empty() + traces_of(model, 0)->Ok_0 =~= traces_of(
                model,
                0,
            )->Ok_0);
        }
    }
    while i < values.len()
        invariant
            i <= values@.len(),
            model == json_list(values@),
            traces_of(model, 0) == (match traces_of(model, i as int) {
                Ok(rest) => Ok::<Seq<TraceModel>, Seq<char>>(trace_list(trace@) + rest),
                Err(message) => Err::<Seq<TraceModel>, Seq<char>>(message),
            }),
        decreases values@.len() - i,
    {
        assert(model[i as int] == values@[i as int]@);
        let ghost before = trace_list(trace@);
        match read_trace_event(&values[i]) {
            Ok(event) => {
                trace.push(event);
                proof {
                    assert(trace_list(trace@) =~= before.push(event@));
                    if traces_of(model, i + 1) is Ok {
                        let rest = traces_of(model, i + 1)->Ok_0;
                        assert(before + (seq![event@] + rest) =~= trace_list(trace@) + rest);
                    }
                }
            },
            Err(message) => return Err(message),
        }
        i += 1;
    }
    assert(trace_list(trace@) + Seq::<TraceModel>::empty() =~= trace_list(trace@));
    Ok(trace)
}

/// The fields of a fixture, in order.
pub open spec fn fixture_fields() -> Seq<Seq<char>> {
    seq!["schemaVersion"@, "name"@, "domain"@, "scenario"@, "input"@, "expectedTrace"@]
}

/// The fixture that a value describes.
pub open spec fn fixture_of(value: Json) -> Result<FixtureModel, Seq<char>> {
    match record(value, fixture_fields(), 6) {
        Json::Object(members) => if stray_key(members, 0, false) is Some {
            Err(unknown_field(stray_key(members, 0, false)->0))
        } else {
            match text_field(members, "schemaVersion"@) {
                Err(message) => Err(message),
                Ok(schema_version) => match text_field(members, "name"@) {
                    Err(message) => Err(message),
                    Ok(name) => match name_field(members, "domain"@) {
                        Err(message) => Err(message),
                        Ok(domain_name) => match domain_of(domain_name) {
                            None => Err(wrong_field("domain"@, "a domain"@)),
                            Some(domain) => match text_field(members, "scenario"@) {
                                Err(message) => Err(message),
                                Ok(scenario) => match lookup(members, "expectedTrace"@) {
                                    None => Err(missing_field("expectedTrace"@)),
                                    Some(Json::Array(values)) => match traces_of(values, 0) {
                                        Err(message) => Err(message),
                                        Ok(expected_trace) => Ok(
                                            FixtureModel {
                                                schema_version,
                                                name,
                                                domain,
                                                scenario,
                                                input: lookup(members, "input"@),
                                                expected_trace,
                                            },
                                        ),
                                    },
                                    Some(_) => Err(wrong_field("expectedTrace"@, "a list"@)),
                                },
                            },
                        },
                    },
                },
            }
        },
        _ => Err("a fixture must be an object"@),
    }
}

fn fixture_record(value: &JsonValue) -> (result: JsonValue)
    ensures
        result@ == record(value@, fixture_fields(), 6),
{
    let fields = names_of(
        &["schemaVersion", "name", "domain", "scenario", "input", "expectedTrace"],
    );
    assert(text_list(fields@) =~= fixture_fields());
    as_record(value, &fields, 6)
}

/// Reads a fixture, without checking its rules.
pub fn read_fixture(value: &JsonValue) -> (result: Result<Fixture, String>)
    ensures
        fixture_of(value@) == (match result {
            Ok(fixture) => Ok::<FixtureModel, Seq<char>>(fixture@),
            Err(message) => Err::<FixtureModel, Seq<char>>(message@),
        }),
{
    let plain = fixture_record(value);
    let members = match plain.as_object() {
        Some(members) => members,
        None => return Err("a fixture must be an object".to_owned()),
    };
    if let Some(at) = find_stray(members, false) {
        return Err(join3("unknown field `", members[at].key.as_str(), "`"));
    }
    let schema_version = match read_text(members, "schemaVersion") {
        Ok(text) => text,
        Err(message) => return Err(message),
    };
    let name = match read_text(members, "name") {
        Ok(text) => text,
        Err(message) => return Err(message),
    };
    let domain_name = match read_name(members, "domain") {
        Ok(text) => text,
        Err(message) => return Err(message),
    };
    let domain = match Domain::parse(domain_name.as_str()) {
        Some(domain) => domain,
        None => return Err(wrong("domain", "a domain")),
    };
    let scenario = match read_text(members, "scenario") {
        Ok(text) => text,
        Err(message) => return Err(message),
    };
    let at = match find_member(members, "expectedTrace") {
        Some(at) => at,
        None => return Err(missing("expectedTrace")),
    };
    let expected_trace = match members[at].value.as_array() {
        Some(values) => match read_trace(values) {
            Ok(trace) => trace,
            Err(message) => return Err(message),
        },
        None => return Err(wrong("expectedTrace", "a list")),
    };
    let input = match find_member(members, "input") {
        Some(at) => Some(members[at].value.clone()),
        None => None,
    };
    Ok(Fixture { schema_version, name, domain, scenario, input, expected_trace })
}

/// What reading a fixture from a document gives: it is well formed and keeps
/// every rule, or the first thing wrong with it.
pub open spec fn fixture_of_document(document: Result<Json, Seq<char>>) -> Result<
    FixtureModel,
    FixtureFailure,
> {
    match document {
        Err(message) => Err(FixtureFailure::MalformedDocument(message)),
        Ok(value) => match fixture_of(value) {
            Err(message) => Err(FixtureFailure::MalformedDocument(message)),
            Ok(fixture) => match fixture_fault(fixture) {
                Some(failure) => Err(failure),
                None => Ok(fixture),
            },
        },
    }
}

/// The outcome of reading a fixture.
pub open spec fn fixture_outcome(result: Result<Fixture, FixtureError>) -> Result<
    FixtureModel,
    FixtureFailure,
> {
    match result {
        Ok(fixture) => Ok(fixture@),
        Err(error) => Err(error@),
    }
}

/// Reads and checks a fixture that is already a value.
pub fn accept_fixture(value: &JsonValue) -> (result: Result<Fixture, FixtureError>)
    ensures
        fixture_outcome(result) == fixture_of_document(Ok(value@)),
{
    let fixture = match read_fixture(value) {
        Ok(fixture) => fixture,
        Err(message) => return Err(FixtureError::MalformedDocument(message)),
    };
    match fixture.validate() {
        Ok(()) => Ok(fixture),
        Err(error) => Err(error),
    }
}

/// How many members the observations `values[from..]` have.
pub open spec fn members_of(values: Seq<Json>, from: int) -> nat
    decreases values.len() - from,
{
    if from < 0 || from >= values.len() {
        0
    } else {
        members_of(values, from + 1) + (match values[from] {
            Json::Object(members) => members.len(),
            _ => 0,
        })
    }
}

/// The observations of a fixture lie in a list in it.
pub open spec fn observations(value: Json) -> Seq<bool> {
    seq![value is Object, false, true]
}

/// A field of the fixture or of an observation is given twice, in a text that
/// is written with so many members.
pub open spec fn repeats_a_field(value: Json, outer: nat, inner: nat) -> bool {
    ||| (value matches Json::Object(members) && members.len() != outer)
    ||| ({
        let plain = record(value, fixture_fields(), 6);
        &&& !(property(plain, "input"@) matches Some(Json::Array(_)))
        &&& property(plain, "expectedTrace"@) matches Some(Json::Array(values)) && members_of(
            values,
            0,
        ) != inner
    })
}

fn count_members(values: &Vec<JsonValue>) -> (result: Option<usize>)
    ensures
        match result {
            Some(count) => count == members_of(json_list(values@), 0),
            None => members_of(json_list(values@), 0) > usize::MAX,
        },
{
    let ghost model = json_list(values@);
    let mut count: usize = 0;
    let mut i: usize = values.len();
    while i > 0
        invariant
            i <= values@.len(),
            model == json_list(values@),
            count == members_of(model, i as int),
        decreases i,
    {
        i -= 1;
        assert(model[i as int] == values@[i as int]@);
        if let Some(members) = values[i].as_object() {
            assert(json_members(members@).len() == members@.len());
            if members.len() > usize::MAX - count {
                proof {
                    fewer_members(model, 0, i as int);
                }
                return None;
            }
            count = count + members.len();
        }
    }
    Some(count)
}

proof fn fewer_members(values: Seq<Json>, from: int, at: int)
    requires
        0 <= from <= at <= values.len(),
    ensures
        members_of(values, at) <= members_of(values, from),
    decreases at - from,
{
    if from < at {
        fewer_members(values, from + 1, at);
    }
}

fn gives_a_field_twice(value: &JsonValue, outer: usize, inner: usize) -> (result: bool)
    ensures
        result == repeats_a_field(value@, outer as nat, inner as nat),
{
    if let Some(members) = value.as_object() {
        assert(json_members(members@).len() == members@.len());
        if members.len() != outer {
            return true;
        }
    }
    let plain = fixture_record(value);
    if let Some(input) = plain.get("input") {
        if input.as_array().is_some() {
            return false;
        }
    }
    match plain.get("expectedTrace") {
        Some(trace) => match trace.as_array() {
            Some(values) => match count_members(values) {
                Some(count) => count != inner,
                None => true,
            },
            None => false,
        },
        None => false,
    }
}

/// What reading a fixture from a text gives, given what the text reads as and
/// how many members it is written with.
pub open spec fn fixture_of_source(
    document: Result<Json, Seq<char>>,
    outer: nat,
    inner: nat,
) -> Result<FixtureModel, FixtureFailure> {
    if document matches Ok(value) && repeats_a_field(value, outer, inner) {
        Err(FixtureFailure::MalformedDocument("a field is given twice"@))
    } else {
        fixture_of_document(document)
    }
}

/// How many members the observations in a text are written with, given what
/// the text reads as.
pub open spec fn written_observations(text: Seq<char>, document: Result<Json, Seq<char>>) -> nat {
    match document {
        Ok(value) => written_members(text_codes(text), observations(value)),
        Err(_) => 0,
    }
}

/// Reads a fixture from a JSON text.
pub fn parse_fixture(document: &str) -> (result: Result<Fixture, FixtureError>)
    ensures
        fixture_outcome(result) == fixture_of_source(
            json_of_text(document@),
            written_members(text_codes(document@), outermost()),
            written_observations(document@, json_of_text(document@)),
        ),
{
    match parse_json(document) {
        Ok(value) => {
            let outer = vec![true];
            let inner = vec![value.is_object(), false, true];
            assert(outer@ =~= outermost());
            assert(inner@ =~= observations(value@));
            if gives_a_field_twice(
                &value,
                count_in_text(document, &outer),
                count_in_text(document, &inner),
            ) {
                return Err(FixtureError::MalformedDocument("a field is given twice".to_owned()));
            }
            accept_fixture(&value)
        },
        Err(message) => Err(FixtureError::MalformedDocument(message)),
    }
}

/// Every fixture that is read keeps the rules of fixtures.
pub proof fn read_fixtures_are_valid(document: Result<Json, Seq<char>>, outer: nat, inner: nat)
    ensures
        fixture_of_source(document, outer, inner) matches Ok(fixture) ==> fixture_fault(fixture)
            is None,
{
}

}
