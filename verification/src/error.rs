//! Errors of lifecycle, service, event and loader operations.

use vstd::prelude::*;
use vstd::string::*;

use crate::ids::Generation;
use crate::json::{Json, JsonValue};
use crate::lifecycle::FiberState;
use crate::tree::EntryId;
use crate::text::{decimal, decimal_text, join2};

verus! {

/// A lifecycle operation could not complete.
#[derive(Debug, PartialEq, Eq)]
pub enum CoreError {
    /// The requested operation is not valid for the resource's current state.
    InvalidState { operation: String, state: FiberState },
    /// A cancellation-aware operation stopped before completing.
    Cancelled,
    /// User setup failed before the fiber became active.
    SetupFailed(String),
    /// One or more disposers failed after all cleanup was attempted.
    Cleanup(Vec<CoreError>),
    /// The provider of a service has another type than the one asked for.
    ServiceTypeMismatch { key: String },
    /// The handle names a provider that was replaced or removed.
    StaleServiceHandle { key: String, generation: Generation },
    /// An asynchronous listener took part in a synchronous dispatch.
    AsyncEventListener { operation: String, event: String },
    /// A waterfall continuation was called a second time.
    WaterfallContinuationUsed,
    /// The payload of an event has another type than its listener expects.
    EventTypeMismatch { event: String, expected: String },
    /// A plugin hook failed.
    Plugin { phase: String, message: String },
}

/// The model of a `CoreError`.
#[verifier::ext_equal]
pub enum CoreFailure {
    InvalidState { operation: Seq<char>, state: FiberState },
    Cancelled,
    SetupFailed(Seq<char>),
    Cleanup(Seq<CoreFailure>),
    ServiceTypeMismatch { key: Seq<char> },
    StaleServiceHandle { key: Seq<char>, generation: Generation },
    AsyncEventListener { operation: Seq<char>, event: Seq<char> },
    WaterfallContinuationUsed,
    EventTypeMismatch { event: Seq<char>, expected: Seq<char> },
    Plugin { phase: Seq<char>, message: Seq<char> },
}

/// The model of one error.
pub open spec fn failure_of(error: CoreError) -> CoreFailure
    decreases error,
{
    match error {
        CoreError::InvalidState { operation, state } => CoreFailure::InvalidState {
            operation: operation@,
            state,
        },
        CoreError::Cancelled => CoreFailure::Cancelled,
        CoreError::SetupFailed(message) => CoreFailure::SetupFailed(message@),
        CoreError::Cleanup(errors) => CoreFailure::Cleanup(
            Seq::new(
                errors@.len(),
                |i: int|
                    if 0 <= i < errors@.len() {
                        failure_of(errors@[i])
                    } else {
                        CoreFailure::Cancelled
                    },
            ),
        ),
        CoreError::ServiceTypeMismatch { key } => CoreFailure::ServiceTypeMismatch { key: key@ },
        CoreError::StaleServiceHandle { key, generation } => CoreFailure::StaleServiceHandle {
            key: key@,
            generation,
        },
        CoreError::AsyncEventListener { operation, event } => CoreFailure::AsyncEventListener {
            operation: operation@,
            event: event@,
        },
        CoreError::WaterfallContinuationUsed => CoreFailure::WaterfallContinuationUsed,
        CoreError::EventTypeMismatch { event, expected } => CoreFailure::EventTypeMismatch {
            event: event@,
            expected: expected@,
        },
        CoreError::Plugin { phase, message } => CoreFailure::Plugin {
            phase: phase@,
            message: message@,
        },
    }
}

impl View for CoreError {
    type V = CoreFailure;

    open spec fn view(&self) -> CoreFailure {
        failure_of(*self)
    }
}

/// The models of a list of errors.
pub open spec fn failure_list(errors: Seq<CoreError>) -> Seq<CoreFailure> {
    Seq::new(errors.len(), |i: int| errors[i]@)
}

/// The model of a cleanup error lists the models of its errors.
pub proof fn lemma_cleanup_view(error: CoreError)
    ensures
        error matches CoreError::Cleanup(errors) ==> error@ == CoreFailure::Cleanup(
            failure_list(errors@),
        ),
{
    match error {
        CoreError::Cleanup(errors) => {
            assert(error@->Cleanup_0 =~= failure_list(errors@));
        },
        _ => {},
    }
}

impl Clone for CoreError {
    fn clone(&self) -> (result: Self)
        ensures
            result@ == self@,
        decreases *self,
    {
        proof {
            lemma_cleanup_view(*self);
        }
        match self {
            CoreError::InvalidState { operation, state } => CoreError::InvalidState {
                operation: operation.clone(),
                state: *state,
            },
            CoreError::Cancelled => CoreError::Cancelled,
            CoreError::SetupFailed(message) => CoreError::SetupFailed(message.clone()),
            CoreError::Cleanup(errors) => {
                let mut copies: Vec<CoreError> = Vec::new();
                let mut i: usize = 0;
                while i < errors.len()
                    invariant
                        i <= errors@.len(),
                        copies@.len() == i,
                        decreases_to!(*self => errors@),
                        forall|j: int| 0 <= j < i ==> (#[trigger] copies@[j])@ == errors@[j]@,
                    decreases errors@.len() - i,
                {
                    copies.push(errors[i].clone());
                    i += 1;
                }
                let result = CoreError::Cleanup(copies);
                proof {
                    lemma_cleanup_view(result);
                    assert(failure_list(copies@) =~= failure_list(errors@));
                }
                result
            },
            CoreError::ServiceTypeMismatch { key } => CoreError::ServiceTypeMismatch {
                key: key.clone(),
            },
            CoreError::StaleServiceHandle { key, generation } => CoreError::StaleServiceHandle {
                key: key.clone(),
                generation: *generation,
            },
            CoreError::AsyncEventListener { operation, event } => CoreError::AsyncEventListener {
                operation: operation.clone(),
                event: event.clone(),
            },
            CoreError::WaterfallContinuationUsed => CoreError::WaterfallContinuationUsed,
            CoreError::EventTypeMismatch { event, expected } => CoreError::EventTypeMismatch {
                event: event.clone(),
                expected: expected.clone(),
            },
            CoreError::Plugin { phase, message } => CoreError::Plugin {
                phase: phase.clone(),
                message: message.clone(),
            },
        }
    }
}

/// The message of a lifecycle failure that names what could not be done.
pub open spec fn invalid_state_text(operation: Seq<char>, state: FiberState) -> Seq<char> {
    "cannot "@ + operation + " while "@ + state.spec_name()
}

/// The message that each kind of error shows.
pub open spec fn core_message(error: CoreFailure) -> Seq<char> {
    match error {
        CoreFailure::InvalidState { operation, state } => invalid_state_text(operation, state),
        CoreFailure::Cancelled => "operation cancelled"@,
        CoreFailure::SetupFailed(message) => message,
        CoreFailure::Cleanup(errors) => decimal_text(errors.len()) + " cleanup error(s)"@,
        CoreFailure::ServiceTypeMismatch { key } => "service type mismatch for "@ + key,
        CoreFailure::StaleServiceHandle { key, generation } => "stale service handle "@ + key
            + " at generation:"@ + decimal_text(generation.0 as nat),
        CoreFailure::AsyncEventListener { operation, event } => "cannot "@ + operation
            + " an asynchronous listener of "@ + event,
        CoreFailure::WaterfallContinuationUsed => "waterfall continuation was already used"@,
        CoreFailure::EventTypeMismatch { event, expected } => "event "@ + event + " expects "@
            + expected,
        CoreFailure::Plugin { phase, message } => phase + ": "@ + message,
    }
}

impl CoreError {
    pub fn cleanup(errors: Vec<CoreError>) -> (result: Self)
        ensures
            result@ == CoreFailure::Cleanup(failure_list(errors@)),
    {
        let result = CoreError::Cleanup(errors);
        proof {
            lemma_cleanup_view(result);
        }
        result
    }

    /// The errors that cleanup gathered; nothing for any other error.
    pub fn cleanup_errors(&self) -> (result: Option<&Vec<CoreError>>)
        ensures
            match result {
                Some(errors) => self@ == CoreFailure::Cleanup(failure_list(errors@)),
                None => !(self@ is Cleanup),
            },
    {
        proof {
            lemma_cleanup_view(*self);
        }
        match self {
            CoreError::Cleanup(errors) => Some(errors),
            _ => None,
        }
    }

    /// The message that this error shows.
    pub fn message(&self) -> (result: String)
        ensures
            result@ == core_message(self@),
    {
        proof {
            lemma_cleanup_view(*self);
        }
        match self {
            CoreError::InvalidState { operation, state } => {
                let mut text = join2("cannot ", operation.as_str());
                text.append(" while ");
                text.append(state.name());
                text
            },
            CoreError::Cancelled => "operation cancelled".to_owned(),
            CoreError::SetupFailed(message) => message.clone(),
            CoreError::Cleanup(errors) => join2(
                decimal(errors.len() as u64).as_str(),
                " cleanup error(s)",
            ),
            CoreError::ServiceTypeMismatch { key } => join2(
                "service type mismatch for ",
                key.as_str(),
            ),
            CoreError::StaleServiceHandle { key, generation } => {
                let mut text = join2("stale service handle ", key.as_str());
                text.append(" at generation:");
                text.append(decimal(generation.0).as_str());
                text
            },
            CoreError::AsyncEventListener { operation, event } => {
                let mut text = join2("cannot ", operation.as_str());
                text.append(" an asynchronous listener of ");
                text.append(event.as_str());
                text
            },
            CoreError::WaterfallContinuationUsed => {
                "waterfall continuation was already used".to_owned()
            },
            CoreError::EventTypeMismatch { event, expected } => {
                let mut text = join2("event ", event.as_str());
                text.append(" expects ");
                text.append(expected.as_str());
                text
            },
            CoreError::Plugin { phase, message } => {
                let mut text = join2(phase.as_str(), ": ");
                text.append(message.as_str());
                text
            },
        }
    }
}

impl From<String> for CoreError {
    fn from(message: String) -> (result: Self) {
        CoreError::SetupFailed(message)
    }
}

impl vstd::std_specs::convert::FromSpecImpl<String> for CoreError {
    open spec fn obeys_from_spec() -> bool {
        true
    }

    open spec fn from_spec(message: String) -> CoreError {
        CoreError::SetupFailed(message)
    }
}

impl From<&str> for CoreError {
    fn from(message: &str) -> (result: Self)
        ensures
            result@ == CoreFailure::SetupFailed(message@),
    {
        CoreError::SetupFailed(message.to_owned())
    }
}

impl vstd::std_specs::convert::FromSpecImpl<&str> for CoreError {
    open spec fn obeys_from_spec() -> bool {
        false
    }

    // `from` says itself what it gives.
    open spec fn from_spec(message: &str) -> CoreError {
        arbitrary()
    }
}

/// A copied or rebuilt outcome shows the same success or failure.
pub open spec fn outcome_of(result: Result<(), CoreError>) -> Result<(), CoreFailure> {
    match result {
        Ok(()) => Ok(()),
        Err(error) => Err(error@),
    }
}

/// A configuration or loader operation could not complete.
#[derive(Debug, PartialEq, Eq)]
pub enum LoaderError {
    /// A configuration expression is malformed or cannot be evaluated.
    Expression(String),
    /// A declarative value breaks a rule.
    Validation(String),
    /// A document is neither an entry list nor an entry tree.
    Parse(String),
    /// A document could not be written.
    Persistence(String),
    /// A patch contradicts itself.
    Patch(String),
    /// A patch names an entry that the tree does not hold.
    MissingEntry(EntryId),
    /// A runtime stage failed for one entry.
    Runtime { stage: String, entry: EntryId, name: Option<String>, message: String },
    /// Several failures of one stage.
    Aggregate(Vec<LoaderError>),
    /// A transaction failed, with whatever failed while it was undone.
    Transaction { failure: Box<LoaderError>, rollback: Vec<LoaderError> },
}

/// The model of a `LoaderError`.
#[verifier::ext_equal]
pub enum LoaderFailure {
    Expression(Seq<char>),
    Validation(Seq<char>),
    Parse(Seq<char>),
    Persistence(Seq<char>),
    Patch(Seq<char>),
    MissingEntry(Seq<char>),
    Runtime {
        stage: Seq<char>,
        entry: Seq<char>,
        name: Option<Seq<char>>,
        message: Seq<char>,
    },
    Aggregate(Seq<LoaderFailure>),
    Transaction { failure: Box<LoaderFailure>, rollback: Seq<LoaderFailure> },
}

/// The model of an optional text.
pub open spec fn optional_text(text: Option<String>) -> Option<Seq<char>> {
    match text {
        Some(text) => Some(text@),
        None => None,
    }
}

/// The model of one loader error.
pub open spec fn loader_failure_of(error: LoaderError) -> LoaderFailure
    decreases error,
{
    match error {
        LoaderError::Expression(message) => LoaderFailure::Expression(message@),
        LoaderError::Validation(message) => LoaderFailure::Validation(message@),
        LoaderError::Parse(message) => LoaderFailure::Parse(message@),
        LoaderError::Persistence(message) => LoaderFailure::Persistence(message@),
        LoaderError::Patch(message) => LoaderFailure::Patch(message@),
        LoaderError::MissingEntry(id) => LoaderFailure::MissingEntry(id@),
        LoaderError::Runtime { stage, entry, name, message } => LoaderFailure::Runtime {
            stage: stage@,
            entry: entry@,
            name: optional_text(name),
            message: message@,
        },
        LoaderError::Aggregate(errors) => LoaderFailure::Aggregate(
            Seq::new(
                errors@.len(),
                |i: int|
                    if 0 <= i < errors@.len() {
                        loader_failure_of(errors@[i])
                    } else {
                        LoaderFailure::Parse(Seq::empty())
                    },
            ),
        ),
        LoaderError::Transaction { failure, rollback } => LoaderFailure::Transaction {
            failure: Box::new(loader_failure_of(*failure)),
            rollback: Seq::new(
                rollback@.len(),
                |i: int|
                    if 0 <= i < rollback@.len() {
                        loader_failure_of(rollback@[i])
                    } else {
                        LoaderFailure::Parse(Seq::empty())
                    },
            ),
        },
    }
}

impl View for LoaderError {
    type V = LoaderFailure;

    open spec fn view(&self) -> LoaderFailure {
        loader_failure_of(*self)
    }
}

/// The models of a list of loader errors.
pub open spec fn loader_failures(errors: Seq<LoaderError>) -> Seq<LoaderFailure> {
    Seq::new(errors.len(), |i: int| errors[i]@)
}

impl LoaderError {
    /// Several failures of one stage as one error.
    pub fn aggregate(errors: Vec<LoaderError>) -> (result: Self)
        ensures
            result@ == LoaderFailure::Aggregate(loader_failures(errors@)),
    {
        let result = LoaderError::Aggregate(errors);
        assert(result@->Aggregate_0 =~= loader_failures(errors@));
        result
    }

    /// A failed transaction together with the failures of its rollback.
    pub fn transaction(failure: LoaderError, rollback: Vec<LoaderError>) -> (result: Self)
        ensures
            result@ == (LoaderFailure::Transaction {
                failure: Box::new(failure@),
                rollback: loader_failures(rollback@),
            }),
    {
        let result = LoaderError::Transaction { failure: Box::new(failure), rollback };
        assert(result@->rollback =~= loader_failures(rollback@));
        result
    }

    /// The failures met while a transaction was undone; none for any other
    /// error.
    pub fn rollback_errors(&self) -> (result: Vec<&LoaderError>)
        ensures
            result@.len() == rollback_of(self@).len(),
            forall|i: int|
                0 <= i < result@.len() ==> (#[trigger] result@[i])@ == rollback_of(self@)[i],
    {
        let mut result: Vec<&LoaderError> = Vec::new();
        if let LoaderError::Transaction { failure, rollback } = self {
            assert(self@->rollback =~= loader_failures(rollback@));
            let mut i: usize = 0;
            while i < rollback.len()
                invariant
                    i <= rollback@.len(),
                    result@.len() == i,
                    forall|k: int| 0 <= k < i ==> (#[trigger] result@[k])@ == rollback@[k]@,
                decreases rollback@.len() - i,
            {
                result.push(&rollback[i]);
                i += 1;
            }
        }
        result
    }

    /// The message that this error shows.
    pub fn message(&self) -> (result: String)
        ensures
            result@ == loader_message(self@),
        decreases *self,
    {
        match self {
            LoaderError::Expression(message) => message.clone(),
            LoaderError::Validation(message) => message.clone(),
            LoaderError::Parse(message) => message.clone(),
            LoaderError::Persistence(message) => message.clone(),
            LoaderError::Patch(message) => message.clone(),
            LoaderError::MissingEntry(id) => {
                let mut text = join2("entry ", id.as_str());
                text.append(" does not exist");
                text
            },
            LoaderError::Runtime { stage, entry, name, message } => {
                let mut text = join2(stage.as_str(), " failed for entry ");
                text.append(entry.as_str());
                text.append(": ");
                text.append(message.as_str());
                text
            },
            LoaderError::Aggregate(errors) => {
                assert(self@->Aggregate_0 =~= loader_failures(errors@));
                join2(decimal(errors.len() as u64).as_str(), " loader error(s)")
            },
            LoaderError::Transaction { failure, rollback } => {
                assert(self@->rollback =~= loader_failures(rollback@));
                let mut text = failure.message();
                text.append(" with ");
                text.append(decimal(rollback.len() as u64).as_str());
                text.append(" rollback error(s)");
                text
            },
        }
    }
}

/// The failures met while a transaction was undone.
pub open spec fn rollback_of(error: LoaderFailure) -> Seq<LoaderFailure> {
    match error {
        LoaderFailure::Transaction { rollback, .. } => rollback,
        _ => Seq::empty(),
    }
}

/// The message that each kind of loader error shows.
pub open spec fn loader_message(error: LoaderFailure) -> Seq<char>
    decreases error,
{
    match error {
        LoaderFailure::Expression(message) => message,
        LoaderFailure::Validation(message) => message,
        LoaderFailure::Parse(message) => message,
        LoaderFailure::Persistence(message) => message,
        LoaderFailure::Patch(message) => message,
        LoaderFailure::MissingEntry(id) => "entry "@ + id + " does not exist"@,
        LoaderFailure::Runtime { stage, entry, name, message } => stage + " failed for entry "@
            + entry + ": "@ + message,
        LoaderFailure::Aggregate(errors) => decimal_text(errors.len()) + " loader error(s)"@,
        LoaderFailure::Transaction { failure, rollback } => loader_message(*failure) + " with "@
            + decimal_text(rollback.len()) + " rollback error(s)"@,
    }
}

/// An error that crosses the plugin boundary.
#[derive(Debug, PartialEq)]
pub struct PluginError {
    pub code: String,
    pub message: String,
    pub phase: String,
    pub details: Option<JsonValue>,
}

/// The model of a `PluginError`.
#[verifier::ext_equal]
pub struct PluginFailure {
    pub code: Seq<char>,
    pub message: Seq<char>,
    pub phase: Seq<char>,
    pub details: Option<Json>,
}

/// The model of an optional value.
pub open spec fn optional_json(value: Option<JsonValue>) -> Option<Json> {
    match value {
        Some(value) => Some(value@),
        None => None,
    }
}

impl View for PluginError {
    type V = PluginFailure;

    open spec fn view(&self) -> PluginFailure {
        PluginFailure {
            code: self.code@,
            message: self.message@,
            phase: self.phase@,
            details: optional_json(self.details),
        }
    }
}

impl Clone for PluginError {
    fn clone(&self) -> (result: Self)
        ensures
            result@ == self@,
    {
        let details = match &self.details {
            Some(value) => Some(value.clone()),
            None => None,
        };
        PluginError {
            code: self.code.clone(),
            message: self.message.clone(),
            phase: self.phase.clone(),
            details,
        }
    }
}

/// A failure without details.
pub open spec fn plugin_failure(
    code: Seq<char>,
    message: Seq<char>,
    phase: Seq<char>,
) -> PluginFailure {
    PluginFailure { code, message, phase, details: None }
}

/// The message that a plugin error shows.
pub open spec fn plugin_message(error: PluginFailure) -> Seq<char> {
    error.code + " ("@ + error.phase + "): "@ + error.message
}

impl PluginError {
    pub fn new(code: &str, message: &str, phase: &str) -> (result: Self)
        ensures
            result@ == plugin_failure(code@, message@, phase@),
    {
        PluginError {
            code: code.to_owned(),
            message: message.to_owned(),
            phase: phase.to_owned(),
            details: None,
        }
    }

    /// This error with details for the host.
    pub fn with_details(self, details: JsonValue) -> (result: Self)
        ensures
            result@ == (PluginFailure { details: Some(details@), ..self@ }),
    {
        PluginError {
            code: self.code,
            message: self.message,
            phase: self.phase,
            details: Some(details),
        }
    }

    /// The message that this error shows.
    pub fn text(&self) -> (result: String)
        ensures
            result@ == plugin_message(self@),
    {
        let mut text = join2(self.code.as_str(), " (");
        text.append(self.phase.as_str());
        text.append("): ");
        text.append(self.message.as_str());
        text
    }
}

/// A check that passes, or the failure that it reports.
pub open spec fn plugin_fault(result: Result<(), PluginError>) -> Option<PluginFailure> {
    match result {
        Ok(()) => None,
        Err(error) => Some(error@),
    }
}

}
