//! The boundary between the host and a WebAssembly guest: limits, envelopes,
//! and what a reply means.

use vstd::prelude::*;
use vstd::string::*;

use crate::document::{json_of_bytes, parse_json_bytes};
use crate::error::{
    optional_json, plugin_failure, plugin_fault, PluginError, PluginFailure,
};
use crate::json::{
    json_members, lemma_array_view, lookup, property, Json, JsonValue, Member, Number,
};
use crate::manifest::GuestExport;
use crate::text::same_text;

verus! {

/// Limits applied to one guest instance.
#[derive(Clone, Copy, Debug, PartialEq, Eq, Structural)]
pub struct ResourceLimits {
    /// Maximum linear-memory pages of 64 KiB each.
    pub memory_pages: u32,
    /// How long one call may take, in nanoseconds.
    pub timeout_nanos: u64,
    pub fuel: u64,
    /// Exactly one call may be in flight per instance.
    pub max_concurrency: usize,
    pub max_input_bytes: usize,
    pub max_output_bytes: usize,
}

impl Default for ResourceLimits {
    fn default() -> (result: Self)
        ensures
            result == (ResourceLimits {
                memory_pages: 1_024,
                timeout_nanos: 5_000_000_000,
                fuel: 10_000_000,
                max_concurrency: 1,
                max_input_bytes: 1_048_576,
                max_output_bytes: 1_048_576,
            }),
    {
        ResourceLimits {
            memory_pages: 1_024,
            timeout_nanos: 5_000_000_000,
            fuel: 10_000_000,
            max_concurrency: 1,
            max_input_bytes: 1_048_576,
            max_output_bytes: 1_048_576,
        }
    }
}

/// The failure that refuses limits.
pub open spec fn limit_failure(message: Seq<char>) -> PluginFailure {
    plugin_failure("LIMIT_INVALID"@, message, "limit"@)
}

fn limit_error(message: &str) -> (result: PluginError)
    ensures
        result@ == limit_failure(message@),
{
    PluginError::new("LIMIT_INVALID", message, "limit")
}

/// Why limits are refused: the first rule, in order, that they break.
pub open spec fn limits_fault(limits: ResourceLimits) -> Option<PluginFailure> {
    if limits.memory_pages == 0 {
        Some(limit_failure("memory_pages must be greater than zero"@))
    } else if limits.timeout_nanos == 0 {
        Some(limit_failure("timeout must be greater than zero"@))
    } else if limits.fuel == 0 {
        Some(limit_failure("fuel must be greater than zero"@))
    } else if limits.max_concurrency != 1 {
        Some(limit_failure("cordis.plugin/v1 requires max_concurrency to equal one"@))
    } else if limits.max_input_bytes == 0 || limits.max_output_bytes == 0 {
        Some(limit_failure("input and output limits must be greater than zero"@))
    } else {
        None
    }
}

impl ResourceLimits {
    /// Checks every rule on limits.
    pub fn validate(&self) -> (result: Result<(), PluginError>)
        ensures
            plugin_fault(result) == limits_fault(*self),
    {
        if self.memory_pages == 0 {
            return Err(limit_error("memory_pages must be greater than zero"));
        }
        if self.timeout_nanos == 0 {
            return Err(limit_error("timeout must be greater than zero"));
        }
        if self.fuel == 0 {
            return Err(limit_error("fuel must be greater than zero"));
        }
        if self.max_concurrency != 1 {
            return Err(limit_error("cordis.plugin/v1 requires max_concurrency to equal one"));
        }
        if self.max_input_bytes == 0 || self.max_output_bytes == 0 {
            return Err(limit_error("input and output limits must be greater than zero"));
        }
        Ok(())
    }
}

/// The details of a broken size limit.
pub open spec fn size_details(limit: nat, actual: nat) -> Json {
    Json::Object(
        seq![
            ("actual"@, Json::Number(Number::Unsigned(actual as u64))),
            ("limit"@, Json::Number(Number::Unsigned(limit as u64))),
        ],
    )
}

fn size_detail(limit: usize, actual: usize) -> (result: JsonValue)
    ensures
        result@ == size_details(limit as nat, actual as nat),
{
    let result = JsonValue::Object(
        vec![
            Member {
                key: "actual".to_owned(),
                value: JsonValue::Number(Number::Unsigned(actual as u64)),
            },
            Member {
                key: "limit".to_owned(),
                value: JsonValue::Number(Number::Unsigned(limit as u64)),
            },
        ],
    );
    proof {
        lemma_array_view(result);
        assert(result@->Object_0 =~= size_details(limit as nat, actual as nat)->Object_0);
    }
    result
}

/// The failure of an input that is too large.
pub open spec fn input_limit_failure(limit: nat, actual: nat) -> PluginFailure {
    PluginFailure {
        details: Some(size_details(limit, actual)),
        ..plugin_failure("INPUT_LIMIT_EXCEEDED"@, "guest input exceeds limit"@, "call"@)
    }
}

/// The error of an input that is too large.
pub fn input_limit_error(limit: usize, actual: usize) -> (result: PluginError)
    ensures
        result@ == input_limit_failure(limit as nat, actual as nat),
{
    PluginError::new("INPUT_LIMIT_EXCEEDED", "guest input exceeds limit", "call").with_details(
        size_detail(limit, actual),
    )
}

/// The failure of an output that is too large.
pub open spec fn output_limit_failure(limit: nat, actual: nat) -> PluginFailure {
    PluginFailure {
        details: Some(size_details(limit, actual)),
        ..plugin_failure("OUTPUT_LIMIT_EXCEEDED"@, "guest output exceeds limit"@, "call"@)
    }
}

/// The error of an output that is too large.
pub fn output_limit_error(limit: usize, actual: usize) -> (result: PluginError)
    ensures
        result@ == output_limit_failure(limit as nat, actual as nat),
{
    PluginError::new("OUTPUT_LIMIT_EXCEEDED", "guest output exceeds limit", "call").with_details(
        size_detail(limit, actual),
    )
}

/// The failure of a call that was cancelled.
pub open spec fn cancelled_failure() -> PluginFailure {
    plugin_failure("CANCELLED"@, "guest call was cancelled"@, "call"@)
}

/// The failure of an operation on an instance that has stopped.
pub open spec fn stopped_failure(phase: Seq<char>) -> PluginFailure {
    plugin_failure("INSTANCE_STOPPED"@, "plugin instance has stopped"@, phase)
}

/// The error of an operation on an instance that has stopped.
pub fn stopped_error(phase: &str) -> (result: PluginError)
    ensures
        result@ == stopped_failure(phase@),
{
    PluginError::new("INSTANCE_STOPPED", "plugin instance has stopped", phase)
}

/// The error of a call that was cancelled.
pub fn cancelled_error() -> (result: PluginError)
    ensures
        result@ == cancelled_failure(),
{
    PluginError::new("CANCELLED", "guest call was cancelled", "call")
}

/// The failure of a guest that trapped. Nothing of what the guest said is kept.
pub open spec fn trap_failure(phase: Seq<char>) -> PluginFailure {
    plugin_failure("GUEST_TRAP"@, "guest execution failed"@, phase)
}

/// The error of a guest that the engine could not run or interrupt.
pub fn trap_error(phase: &str) -> (result: PluginError)
    ensures
        result@ == trap_failure(phase@),
{
    PluginError::new("GUEST_TRAP", "guest execution failed", phase)
}

/// The failure of a guest that used up its fuel.
pub open spec fn fuel_failure(phase: Seq<char>) -> PluginFailure {
    plugin_failure("FUEL_LIMIT_EXCEEDED"@, "guest exhausted its configured fuel"@, phase)
}

/// The error of a guest call that the engine could not complete. Only the
/// fuel meter, never the guest's own words, tells exhaustion from a trap.
pub fn engine_error(export: GuestExport, fuel_consumed: Option<u64>, fuel_limit: u64) -> (result:
    PluginError)
    ensures
        result@ == (if fuel_consumed == Some(fuel_limit) {
            fuel_failure(export.spec_phase())
        } else {
            trap_failure(export.spec_phase())
        }),
{
    match fuel_consumed {
        Some(consumed) if consumed == fuel_limit => PluginError::new(
            "FUEL_LIMIT_EXCEEDED",
            "guest exhausted its configured fuel",
            export.phase(),
        ),
        _ => trap_error(export.phase()),
    }
}

/// Every request crossing the boundary has this shape.
#[derive(Debug, PartialEq)]
pub struct RequestEnvelope {
    pub request_id: String,
    pub context: JsonValue,
    pub payload: JsonValue,
}

/// The model of a request.
#[verifier::ext_equal]
pub struct RequestModel {
    pub request_id: Seq<char>,
    pub context: Json,
    pub payload: Json,
}

impl View for RequestEnvelope {
    type V = RequestModel;

    open spec fn view(&self) -> RequestModel {
        RequestModel {
            request_id: self.request_id@,
            context: self.context@,
            payload: self.payload@,
        }
    }
}

impl RequestEnvelope {
    pub fn new(request_id: String, context: JsonValue, payload: JsonValue) -> (result: Self)
        ensures
            result@ == (RequestModel {
                request_id: request_id@,
                context: context@,
                payload: payload@,
            }),
    {
        RequestEnvelope { request_id, context, payload }
    }
}

/// The reply of a guest entry point.
#[derive(Debug, PartialEq)]
pub struct ResponseEnvelope {
    pub request_id: String,
    pub result: Option<JsonValue>,
    pub error: Option<PluginError>,
}

/// The model of an optional error.
pub open spec fn optional_failure(error: Option<PluginError>) -> Option<PluginFailure> {
    match error {
        Some(error) => Some(error@),
        None => None,
    }
}

/// The model of a reply.
#[verifier::ext_equal]
pub struct ResponseModel {
    pub request_id: Seq<char>,
    pub result: Option<Json>,
    pub error: Option<PluginFailure>,
}

impl View for ResponseEnvelope {
    type V = ResponseModel;

    open spec fn view(&self) -> ResponseModel {
        ResponseModel {
            request_id: self.request_id@,
            result: optional_json(self.result),
            error: optional_failure(self.error),
        }
    }
}

impl ResponseEnvelope {
    /// The reply of a guest that did what was asked.
    pub fn success(request: &RequestEnvelope, result: JsonValue) -> (response: Self)
        ensures
            response@ == (ResponseModel {
                request_id: request@.request_id,
                result: Some(result@),
                error: None,
            }),
    {
        ResponseEnvelope {
            request_id: request.request_id.clone(),
            result: Some(result),
            error: None,
        }
    }

    /// The reply of a guest that refused.
    pub fn failure(request: &RequestEnvelope, error: PluginError) -> (response: Self)
        ensures
            response@ == (ResponseModel {
                request_id: request@.request_id,
                result: None,
                error: Some(error@),
            }),
    {
        ResponseEnvelope {
            request_id: request.request_id.clone(),
            result: None,
            error: Some(error),
        }
    }
}

/// The failure of a reply that breaks the protocol.
pub open spec fn protocol_failure(message: Seq<char>, export: GuestExport) -> PluginFailure {
    plugin_failure("PROTOCOL_INVALID"@, message, export.spec_phase())
}

fn protocol_error(message: &str, export: GuestExport) -> (result: PluginError)
    ensures
        result@ == protocol_failure(message@, export),
{
    PluginError::new("PROTOCOL_INVALID", message, export.phase())
}

/// The error object of a reply: its code, message and phase as texts, and
/// details of any kind. Nothing else may stand in it.
pub open spec fn error_of(value: Json) -> Option<PluginFailure> {
    match value {
        Json::Object(members) => match (
            lookup(members, "code"@),
            lookup(members, "message"@),
            lookup(members, "phase"@),
        ) {
            (
                Some(Json::String(code)),
                Some(Json::String(message)),
                Some(Json::String(phase)),
            ) => if only_keys(members, true) {
                Some(
                    PluginFailure {
                        code,
                        message,
                        phase,
                        details: match lookup(members, "details"@) {
                            Some(Json::Null) => None,
                            other => other,
                        },
                    },
                )
            } else {
                None
            },
            _ => None,
        },
        _ => None,
    }
}

/// The key is a field of an error object or of a reply.
pub open spec fn reply_key(key: Seq<char>, of_error: bool) -> bool {
    if of_error {
        key == "code"@ || key == "message"@ || key == "phase"@ || key == "details"@
    } else {
        key == "requestId"@ || key == "result"@ || key == "error"@
    }
}

/// Every key is a field.
pub open spec fn only_keys(members: Seq<(Seq<char>, Json)>, of_error: bool) -> bool {
    forall|i: int| 0 <= i < members.len() ==> reply_key((#[trigger] members[i]).0, of_error)
}

fn has_only_keys(members: &Vec<Member>, of_error: bool) -> (result: bool)
    ensures
        result == only_keys(json_members(members@), of_error),
{
    let ghost model = json_members(members@);
    let mut i: usize = 0;
    while i < members.len()
        invariant
            i <= members@.len(),
            model == json_members(members@),
            forall|k: int| 0 <= k < i ==> reply_key((#[trigger] model[k]).0, of_error),
        decreases members@.len() - i,
    {
        let key = members[i].key.as_str();
        assert(model[i as int].0 == key@);
        let known = if of_error {
            same_text(key, "code") || same_text(key, "message") || same_text(key, "phase")
                || same_text(key, "details")
        } else {
            same_text(key, "requestId") || same_text(key, "result") || same_text(key, "error")
        };
        if !known {
            assert(!reply_key(model[i as int].0, of_error));
            return false;
        }
        i += 1;
    }
    true
}

fn read_error(value: &JsonValue) -> (result: Option<PluginError>)
    ensures
        optional_failure(result) == error_of(value@),
{
    let members = match value.as_object() {
        None => return None,
        Some(members) => members,
    };
    let code = match value.get("code") {
        Some(code) => match code.as_str() {
            Some(code) => code,
            None => return None,
        },
        None => return None,
    };
    let message = match value.get("message") {
        Some(message) => match message.as_str() {
            Some(message) => message,
            None => return None,
        },
        None => return None,
    };
    let phase = match value.get("phase") {
        Some(phase) => match phase.as_str() {
            Some(phase) => phase,
            None => return None,
        },
        None => return None,
    };
    if !has_only_keys(members, true) {
        return None;
    }
    let error = PluginError::new(code, message, phase);
    match value.get("details") {
        None => Some(error),
        Some(details) => if details.is_null() {
            Some(error)
        } else {
            Some(error.with_details(details.clone()))
        },
    }
}

/// What the document of a reply means for the caller. A guest must answer the
/// request it was given with exactly one result or error; its error is never
/// passed on.
pub open spec fn reply_meaning(export: GuestExport, request_id: Seq<char>, document: Json) -> Result<
    Json,
    PluginFailure,
> {
    let malformed = protocol_failure("guest response is not a valid response envelope"@, export);
    match document {
        Json::Object(members) => {
            let result = lookup(members, "result"@);
            let error = lookup(members, "error"@);
            if (result is Some) == (error is Some) {
                Err(
                    protocol_failure(
                        "guest response must contain exactly one result or error"@,
                        export,
                    ),
                )
            } else if !only_keys(members, false) || (error is Some && !(error->Some_0 is Null)
                && error_of(error->Some_0) is None) {
                Err(malformed)
            } else {
                match lookup(members, "requestId"@) {
                    Some(Json::String(id)) => if id != request_id {
                        Err(
                            protocol_failure(
                                "guest response requestId does not match request"@,
                                export,
                            ),
                        )
                    } else if result is Some {
                        Ok(result->Some_0)
                    } else if error->Some_0 is Null {
                        Err(protocol_failure("guest error must not be null"@, export))
                    } else if error_of(error->Some_0)->Some_0.phase != export.spec_phase() {
                        Err(
                            protocol_failure(
                                "guest error phase does not match invoked export"@,
                                export,
                            ),
                        )
                    } else {
                        Err(
                            plugin_failure(
                                "GUEST_REJECTED"@,
                                "guest rejected request"@,
                                export.spec_phase(),
                            ),
                        )
                    },
                    _ => Err(malformed),
                }
            }
        },
        _ => Err(malformed),
    }
}

/// A value, or the failure that took its place.
pub open spec fn guest_outcome(result: Result<JsonValue, PluginError>) -> Result<
    Json,
    PluginFailure,
> {
    match result {
        Ok(value) => Ok(value@),
        Err(error) => Err(error@),
    }
}

/// Decides what the document of a reply means for the caller.
pub fn read_reply(export: GuestExport, request_id: &str, document: &JsonValue) -> (result: Result<
    JsonValue,
    PluginError,
>)
    ensures
        guest_outcome(result) == reply_meaning(export, request_id@, document@),
{
    let members = match document.as_object() {
        None => {
            return Err(
                protocol_error("guest response is not a valid response envelope", export),
            );
        },
        Some(members) => members,
    };
    let value = document.get("result");
    let error = document.get("error");
    if value.is_some() == error.is_some() {
        return Err(
            protocol_error("guest response must contain exactly one result or error", export),
        );
    }
    if !has_only_keys(members, false) {
        return Err(protocol_error("guest response is not a valid response envelope", export));
    }
    let refused: Option<PluginError> = match error {
        None => None,
        Some(error) => if error.is_null() {
            None
        } else {
            match read_error(error) {
                Some(error) => Some(error),
                None => {
                    return Err(
                        protocol_error("guest response is not a valid response envelope", export),
                    );
                },
            }
        },
    };
    let id = match document.get("requestId") {
        Some(id) => match id.as_str() {
            Some(id) => id,
            None => {
                return Err(
                    protocol_error("guest response is not a valid response envelope", export),
                );
            },
        },
        None => {
            return Err(
                protocol_error("guest response is not a valid response envelope", export),
            );
        },
    };
    if !same_text(id, request_id) {
        return Err(protocol_error("guest response requestId does not match request", export));
    }
    if let Some(value) = value {
        return Ok(value.clone());
    }
    match refused {
        None => Err(protocol_error("guest error must not be null", export)),
        Some(error) => if !same_text(error.phase.as_str(), export.phase()) {
            Err(protocol_error("guest error phase does not match invoked export", export))
        } else {
            Err(PluginError::new("GUEST_REJECTED", "guest rejected request", export.phase()))
        },
    }
}

/// What the engine gave back for a call.
pub open spec fn output_model(output: Result<Vec<u8>, PluginError>) -> Result<
    Seq<u8>,
    PluginFailure,
> {
    match output {
        Ok(bytes) => Ok(bytes@),
        Err(error) => Err(error@),
    }
}

/// The failure of a call that took too long.
pub open spec fn timeout_failure(limits: ResourceLimits, export: GuestExport) -> PluginFailure {
    PluginFailure {
        details: Some(
            Json::Object(
                seq![
                    (
                        "timeoutMs"@,
                        Json::Number(Number::Unsigned((limits.timeout_nanos / 1_000_000) as u64)),
                    ),
                ],
            ),
        ),
        ..plugin_failure(
            "TIMEOUT"@,
            "guest call exceeded its configured timeout"@,
            export.spec_phase(),
        )
    }
}

/// What a finished call means for the caller: cancellation comes before the
/// time limit, the time limit before the engine's own error, and the size
/// limit before the contents. `document` is what the bytes read as.
pub open spec fn call_meaning(
    limits: ResourceLimits,
    export: GuestExport,
    request_id: Seq<char>,
    cancelled: bool,
    elapsed_nanos: u64,
    output: Result<Seq<u8>, PluginFailure>,
    document: Result<Json, Seq<char>>,
) -> Result<Json, PluginFailure> {
    if cancelled {
        Err(cancelled_failure())
    } else if elapsed_nanos > limits.timeout_nanos {
        Err(timeout_failure(limits, export))
    } else {
        match output {
            Err(failure) => Err(failure),
            Ok(bytes) => if bytes.len() > limits.max_output_bytes {
                Err(output_limit_failure(limits.max_output_bytes as nat, bytes.len()))
            } else {
                match document {
                    Err(_) => Err(
                        protocol_failure(
                            "guest response is not a valid response envelope"@,
                            export,
                        ),
                    ),
                    Ok(value) => reply_meaning(export, request_id, value),
                }
            },
        }
    }
}

/// Checks that an encoded request fits the input limit.
pub fn check_input(limits: &ResourceLimits, length: usize) -> (result: Result<(), PluginError>)
    ensures
        plugin_fault(result) == (if length > limits.max_input_bytes {
            Some(input_limit_failure(limits.max_input_bytes as nat, length as nat))
        } else {
            None
        }),
{
    if length > limits.max_input_bytes {
        Err(input_limit_error(limits.max_input_bytes, length))
    } else {
        Ok(())
    }
}

/// Decides what a finished call means for the caller.
pub fn finish_call(
    limits: &ResourceLimits,
    export: GuestExport,
    request_id: &str,
    cancelled: bool,
    elapsed_nanos: u64,
    output: Result<Vec<u8>, PluginError>,
) -> (result: Result<JsonValue, PluginError>)
    ensures
        guest_outcome(result) == call_meaning(
            *limits,
            export,
            request_id@,
            cancelled,
            elapsed_nanos,
            output_model(output),
            match output_model(output) {
                Ok(bytes) => json_of_bytes(bytes),
                Err(_) => Err(Seq::empty()),
            },
        ),
{
    if cancelled {
        return Err(cancelled_error());
    }
    if elapsed_nanos > limits.timeout_nanos {
        let details = JsonValue::Object(
            vec![
                Member {
                    key: "timeoutMs".to_owned(),
                    value: JsonValue::Number(Number::Unsigned(limits.timeout_nanos / 1_000_000)),
                },
            ],
        );
        proof {
            lemma_array_view(details);
            assert(details@->Object_0 =~= timeout_failure(
                *limits,
                export,
            ).details->Some_0->Object_0);
        }
        return Err(
            PluginError::new(
                "TIMEOUT",
                "guest call exceeded its configured timeout",
                export.phase(),
            ).with_details(details),
        );
    }
    let bytes = match output {
        Ok(bytes) => bytes,
        Err(error) => return Err(error),
    };
    if bytes.len() > limits.max_output_bytes {
        return Err(output_limit_error(limits.max_output_bytes, bytes.len()));
    }
    match parse_json_bytes(bytes.as_slice()) {
        Err(_) => Err(protocol_error("guest response is not a valid response envelope", export)),
        Ok(document) => read_reply(export, request_id, &document),
    }
}

/// A guest cannot make the host report anything but a refusal: whatever its
/// error object says, the caller learns the phase of the call and no word of
/// the guest.
pub proof fn guest_errors_are_not_passed_on(
    export: GuestExport,
    request_id: Seq<char>,
    document: Json,
)
    ensures
        reply_meaning(export, request_id, document) matches Err(failure) ==> failure.phase
            == export.spec_phase() && failure.details is None && (failure.code
            == "PROTOCOL_INVALID"@ || failure.code == "GUEST_REJECTED"@),
{
}

/// Only the reply to this very request can succeed, and the caller gets the
/// result as the guest gave it.
pub proof fn results_answer_their_request(
    export: GuestExport,
    request_id: Seq<char>,
    document: Json,
)
    ensures
        reply_meaning(export, request_id, document) matches Ok(value) ==> property(
            document,
            "requestId"@,
        ) == Some(Json::String(request_id)) && property(document, "result"@) == Some(value)
            && property(document, "error"@) is None,
{
}

}
