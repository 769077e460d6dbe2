//! What messages mention, and with which reason a call fails.

use vstd::prelude::*;
use vstd::string::*;

use crate::dispatch::outcome_after;
use crate::envelope::host_reply_json;
use crate::error::{
    core_message, loader_message, plugin_message, CoreFailure, LoaderFailure, PluginFailure,
};
use crate::events::DispatchOutcome;
use crate::guest::{call_meaning, input_limit_failure, ResourceLimits};
use crate::json::{lookup, property, Json, Number};
use crate::manifest::GuestExport;
use crate::native::{native_message, NativeFailure};
use crate::registry::unavailable;
use crate::schema::{config_message, ConfigFailure};
use crate::service::DependencyModel;
use crate::text::decimal_text;

verus! {

/// The text holds the part.
pub open spec fn mentions(text: Seq<char>, part: Seq<char>) -> bool {
    exists|before: Seq<char>, after: Seq<char>| text == #[trigger] (before + part + after)
}

proof fn surrounded(text: Seq<char>, before: Seq<char>, part: Seq<char>, after: Seq<char>)
    requires
        text =~= before + part + after,
    ensures
        mentions(text, part),
{
}

/// What the core reports names what it is about: the operation and the state,
/// the service and the generation, the event, the phase, how many errors.
pub proof fn core_messages_name_what_they_are_about(failure: CoreFailure)
    ensures
        match failure {
            CoreFailure::InvalidState { operation, state } => mentions(
                core_message(failure),
                operation,
            ) && mentions(core_message(failure), state.spec_name()),
            CoreFailure::SetupFailed(message) => core_message(failure) == message,
            CoreFailure::Cleanup(errors) => mentions(
                core_message(failure),
                decimal_text(errors.len()),
            ),
            CoreFailure::ServiceTypeMismatch { key } => mentions(core_message(failure), key),
            CoreFailure::StaleServiceHandle { key, generation } => mentions(
                core_message(failure),
                key,
            ) && mentions(core_message(failure), decimal_text(generation.0 as nat)),
            CoreFailure::AsyncEventListener { operation, event } => mentions(
                core_message(failure),
                operation,
            ) && mentions(core_message(failure), event),
            CoreFailure::EventTypeMismatch { event, expected } => mentions(
                core_message(failure),
                event,
            ) && mentions(core_message(failure), expected),
            CoreFailure::Plugin { phase, message } => mentions(core_message(failure), phase)
                && mentions(core_message(failure), message),
            CoreFailure::Cancelled => core_message(failure) == "operation cancelled"@,
            CoreFailure::WaterfallContinuationUsed => core_message(failure)
                == "waterfall continuation was already used"@,
        },
{
    let text = core_message(failure);
    let none = Seq::<char>::empty();
    match failure {
        CoreFailure::InvalidState { operation, state } => {
            surrounded(text, "cannot "@, operation, " while "@ + state.spec_name());
            surrounded(text, "cannot "@ + operation + " while "@, state.spec_name(), none);
        },
        CoreFailure::Cleanup(errors) => {
            surrounded(text, none, decimal_text(errors.len()), " cleanup error(s)"@);
        },
        CoreFailure::ServiceTypeMismatch { key } => {
            surrounded(text, "service type mismatch for "@, key, none);
        },
        CoreFailure::StaleServiceHandle { key, generation } => {
            let number = decimal_text(generation.0 as nat);
            surrounded(text, "stale service handle "@, key, " at generation:"@ + number);
            surrounded(text, "stale service handle "@ + key + " at generation:"@, number, none);
        },
        CoreFailure::AsyncEventListener { operation, event } => {
            surrounded(text, "cannot "@, operation, " an asynchronous listener of "@ + event);
            surrounded(
                text,
                "cannot "@ + operation + " an asynchronous listener of "@,
                event,
                none,
            );
        },
        CoreFailure::EventTypeMismatch { event, expected } => {
            surrounded(text, "event "@, event, " expects "@ + expected);
            surrounded(text, "event "@ + event + " expects "@, expected, none);
        },
        CoreFailure::Plugin { phase, message } => {
            surrounded(text, none, phase, ": "@ + message);
            surrounded(text, phase + ": "@, message, none);
        },
        _ => {},
    }
}

/// What the loader reports names what it is about: the entry and the stage, the
/// message of what went wrong, and how many errors there were.
pub proof fn loader_messages_name_what_they_are_about(failure: LoaderFailure)
    ensures
        match failure {
            LoaderFailure::Expression(message) => loader_message(failure) == message,
            LoaderFailure::Validation(message) => loader_message(failure) == message,
            LoaderFailure::Parse(message) => loader_message(failure) == message,
            LoaderFailure::Persistence(message) => loader_message(failure) == message,
            LoaderFailure::Patch(message) => loader_message(failure) == message,
            LoaderFailure::MissingEntry(id) => mentions(loader_message(failure), id),
            LoaderFailure::Runtime { stage, entry, name, message } => mentions(
                loader_message(failure),
                stage,
            ) && mentions(loader_message(failure), entry) && mentions(
                loader_message(failure),
                message,
            ),
            LoaderFailure::Aggregate(errors) => mentions(
                loader_message(failure),
                decimal_text(errors.len()),
            ),
            LoaderFailure::Transaction { failure: cause, rollback } => mentions(
                loader_message(failure),
                loader_message(*cause),
            ) && mentions(loader_message(failure), decimal_text(rollback.len())),
        },
{
    let text = loader_message(failure);
    let none = Seq::<char>::empty();
    match failure {
        LoaderFailure::MissingEntry(id) => {
            surrounded(text, "entry "@, id, " does not exist"@);
        },
        LoaderFailure::Runtime { stage, entry, name, message } => {
            surrounded(text, none, stage, " failed for entry "@ + entry + ": "@ + message);
            surrounded(text, stage + " failed for entry "@, entry, ": "@ + message);
            surrounded(text, stage + " failed for entry "@ + entry + ": "@, message, none);
        },
        LoaderFailure::Aggregate(errors) => {
            surrounded(text, none, decimal_text(errors.len()), " loader error(s)"@);
        },
        LoaderFailure::Transaction { failure: cause, rollback } => {
            let first = loader_message(*cause);
            let number = decimal_text(rollback.len());
            surrounded(text, none, first, " with "@ + number + " rollback error(s)"@);
            surrounded(text, first + " with "@, number, " rollback error(s)"@);
        },
        _ => {},
    }
}

/// What a plugin reports names its code, its phase and what it says.
pub proof fn plugin_messages_name_what_they_are_about(failure: PluginFailure)
    ensures
        mentions(plugin_message(failure), failure.code),
        mentions(plugin_message(failure), failure.phase),
        mentions(plugin_message(failure), failure.message),
{
    let text = plugin_message(failure);
    let none = Seq::<char>::empty();
    surrounded(text, none, failure.code, " ("@ + failure.phase + "): "@ + failure.message);
    surrounded(text, failure.code + " ("@, failure.phase, "): "@ + failure.message);
    surrounded(text, failure.code + " ("@ + failure.phase + "): "@, failure.message, none);
}

/// What is reported of a configuration names the place in it, and what is wrong
/// there: the kinds or the property.
pub proof fn config_messages_name_what_they_are_about(failure: ConfigFailure)
    ensures
        match failure {
            ConfigFailure::InvalidSchema { path, message } => mentions(
                config_message(failure),
                path,
            ) && mentions(config_message(failure), message),
            ConfigFailure::Type { path, expected, actual } => mentions(
                config_message(failure),
                path,
            ) && mentions(config_message(failure), expected.spec_text()) && mentions(
                config_message(failure),
                actual.spec_text(),
            ),
            ConfigFailure::Required { path, property } => mentions(config_message(failure), path)
                && mentions(config_message(failure), property),
            ConfigFailure::AdditionalProperty { path, property } => mentions(
                config_message(failure),
                path,
            ) && mentions(config_message(failure), property),
        },
{
    let text = config_message(failure);
    let none = Seq::<char>::empty();
    match failure {
        ConfigFailure::InvalidSchema { path, message } => {
            surrounded(text, "invalid native config schema at "@, path, ": "@ + message);
            surrounded(text, "invalid native config schema at "@ + path + ": "@, message, none);
        },
        ConfigFailure::Type { path, expected, actual } => {
            let a = expected.spec_text();
            let b = actual.spec_text();
            surrounded(text, "native config at "@, path, " must be "@ + a + ", found "@ + b);
            surrounded(text, "native config at "@ + path + " must be "@, a, ", found "@ + b);
            surrounded(
                text,
                "native config at "@ + path + " must be "@ + a + ", found "@,
                b,
                none,
            );
        },
        ConfigFailure::Required { path, property } => {
            surrounded(
                text,
                "native config at "@,
                path,
                " is missing required property "@ + property,
            );
            surrounded(
                text,
                "native config at "@ + path + " is missing required property "@,
                property,
                none,
            );
        },
        ConfigFailure::AdditionalProperty { path, property } => {
            surrounded(text, "native config at "@, path, " has unexpected property "@ + property);
            surrounded(
                text,
                "native config at "@ + path + " has unexpected property "@,
                property,
                none,
            );
        },
    }
}

/// What a native plugin reports names what it is about: the field, the phase,
/// the package, and the message of what went wrong.
pub proof fn native_messages_name_what_they_are_about(failure: NativeFailure)
    ensures
        match failure {
            NativeFailure::Descriptor { field, message } => mentions(native_message(failure), field)
                && mentions(native_message(failure), message),
            NativeFailure::Config(error) => native_message(failure) == config_message(error),
            NativeFailure::Core(error) => native_message(failure) == core_message(error),
            NativeFailure::Plugin { phase, message } => mentions(
                native_message(failure),
                phase.spec_name(),
            ) && mentions(native_message(failure), message),
            NativeFailure::Runtime { package, message } => mentions(
                native_message(failure),
                package,
            ) && mentions(native_message(failure), message),
            NativeFailure::Cleanup(errors) => mentions(
                native_message(failure),
                decimal_text(errors.len()),
            ),
        },
{
    let text = native_message(failure);
    let none = Seq::<char>::empty();
    match failure {
        NativeFailure::Descriptor { field, message } => {
            surrounded(text, "invalid native plugin descriptor "@, field, ": "@ + message);
            surrounded(text, "invalid native plugin descriptor "@ + field + ": "@, message, none);
        },
        NativeFailure::Plugin { phase, message } => {
            surrounded(text, "native plugin "@, phase.spec_name(), " failed: "@ + message);
            surrounded(text, "native plugin "@ + phase.spec_name() + " failed: "@, message, none);
        },
        NativeFailure::Runtime { package, message } => {
            surrounded(text, "native plugin package "@, package, " failed: "@ + message);
            surrounded(text, "native plugin package "@ + package + " failed: "@, message, none);
        },
        NativeFailure::Cleanup(errors) => {
            surrounded(text, none, decimal_text(errors.len()), " native plugin cleanup error(s)"@);
        },
        _ => {},
    }
}

proof fn size_names(actual: Json, limit: Json)
    ensures
        property(Json::Object(seq![("actual"@, actual), ("limit"@, limit)]), "actual"@) == Some(
            actual,
        ),
        property(Json::Object(seq![("actual"@, actual), ("limit"@, limit)]), "limit"@) == Some(
            limit,
        ),
{
    reveal_strlit("actual");
    reveal_strlit("limit");
    assert("actual"@.len() == 6 && "limit"@.len() == 5);
    reveal_with_fuel(lookup, 3);
    let members = seq![("actual"@, actual), ("limit"@, limit)];
    assert(members.drop_first()[0] == members[1]);
}

/// A call that fails tells why: that it was cancelled before anything else,
/// then that it took longer than allowed, then what the guest's run gave, then
/// that the answer is too long, with its length and the limit.
pub proof fn calls_fail_with_their_reason(
    limits: ResourceLimits,
    export: GuestExport,
    request_id: Seq<char>,
    cancelled: bool,
    elapsed_nanos: u64,
    output: Result<Seq<u8>, PluginFailure>,
    document: Result<Json, Seq<char>>,
)
    ensures
        ({
            let meaning = call_meaning(
                limits,
                export,
                request_id,
                cancelled,
                elapsed_nanos,
                output,
                document,
            );
            let late = elapsed_nanos > limits.timeout_nanos;
            &&& cancelled ==> (meaning matches Err(failure) && failure.code == "CANCELLED"@)
            &&& !cancelled && late ==> (meaning matches Err(failure) && failure.code == "TIMEOUT"@
                && failure.phase == export.spec_phase() && property(
                failure.details->0,
                "timeoutMs"@,
            ) == Some(
                Json::Number(Number::Unsigned((limits.timeout_nanos / 1_000_000) as u64)),
            ))
            &&& !cancelled && !late ==> (output matches Err(failure) ==> meaning == Err::<
                Json,
                PluginFailure,
            >(failure))
            &&& !cancelled && !late ==> (output matches Ok(bytes) ==> (bytes.len()
                > limits.max_output_bytes ==> (meaning matches Err(failure) && failure.code
                == "OUTPUT_LIMIT_EXCEEDED"@ && property(failure.details->0, "actual"@) == Some(
                Json::Number(Number::Unsigned(bytes.len() as u64)),
            ) && property(failure.details->0, "limit"@) == Some(
                Json::Number(Number::Unsigned(limits.max_output_bytes as u64)),
            ))))
        }),
{
    match output {
        Ok(bytes) => size_names(
            Json::Number(Number::Unsigned(bytes.len() as u64)),
            Json::Number(Number::Unsigned(limits.max_output_bytes as u64)),
        ),
        Err(_) => {},
    }
    reveal_with_fuel(lookup, 2);
}

/// An input that is too long is told with its length and the limit.
pub proof fn long_inputs_are_told_with_their_length(limit: nat, actual: nat)
    ensures
        input_limit_failure(limit, actual).code == "INPUT_LIMIT_EXCEEDED"@,
        property(input_limit_failure(limit, actual).details->0, "actual"@) == Some(
            Json::Number(Number::Unsigned(actual as u64)),
        ),
        property(input_limit_failure(limit, actual).details->0, "limit"@) == Some(
            Json::Number(Number::Unsigned(limit as u64)),
        ),
{
    size_names(
        Json::Number(Number::Unsigned(actual as u64)),
        Json::Number(Number::Unsigned(limit as u64)),
    );
}

/// A host answers with a result or with an error and never with both.
pub proof fn hosts_answer_with_one_of_two(reply: Result<Json, PluginFailure>)
    ensures
        reply matches Ok(value) ==> property(host_reply_json(reply), "result"@) == Some(value)
            && property(host_reply_json(reply), "error"@) is None,
        reply matches Err(failure) ==> property(host_reply_json(reply), "result"@) is None
            && property(host_reply_json(reply), "error"@) == Some(
            crate::envelope::error_json(failure),
        ),
{
    reveal_strlit("result");
    reveal_strlit("error");
    assert("result"@.len() == 6 && "error"@.len() == 5);
    reveal_with_fuel(lookup, 2);
}

/// A dispatch that stops at an answer was bailed, one that went through was
/// completed, and one that met a failure failed with it.
pub proof fn dispatches_end_in_one_of_three_ways(result: Result<Option<Json>, CoreFailure>)
    ensures
        outcome_after(result) == DispatchOutcome::Completed <==> result == Ok::<
            Option<Json>,
            CoreFailure,
        >(None),
        outcome_after(result) == DispatchOutcome::Bailed <==> (result matches Ok(Some(_))),
        outcome_after(result) == (DispatchOutcome::Failed { errors: 1 }) <==> result is Err,
{
}

/// Without a registry nothing is available, and what requires anything is not
/// ready.
pub proof fn nothing_is_available_without_a_registry(dependencies: Seq<DependencyModel>)
    ensures
        unavailable(dependencies).ready <==> !exists|i: int|
            0 <= i < dependencies.len() && (#[trigger] dependencies[i]).required,
        unavailable(dependencies).services.len() == dependencies.len(),
        forall|i: int|
            0 <= i < dependencies.len() ==> !(
            #[trigger] unavailable(dependencies).services[i]).available && unavailable(
                dependencies,
            ).services[i].generation is None,
{
}

}
