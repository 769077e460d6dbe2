//! What a call of a guest can come to.

use vstd::prelude::*;

use crate::capability::{invocation_fault, HostBindings, PolicyModel};
use crate::error::PluginFailure;
use crate::guest::{
    call_meaning, error_of, limits_fault, only_keys, reply_meaning, ResourceLimits,
};
use crate::json::{lookup, Json};
use crate::manifest::{Capability, GuestExport};

verus! {

/// Limits are accepted exactly if every one of them leaves room for something,
/// and one call at a time is asked for.
pub proof fn limits_leave_room(limits: ResourceLimits)
    ensures
        limits_fault(limits) is None <==> limits.memory_pages > 0 && limits.timeout_nanos > 0
            && limits.fuel > 0 && limits.max_concurrency == 1 && limits.max_input_bytes > 0
            && limits.max_output_bytes > 0,
        limits_fault(limits) matches Some(failure) ==> failure.code == "LIMIT_INVALID"@
            && failure.phase == "limit"@,
{
}

/// The members are those named, and no others.
pub open spec fn has_exactly(
    members: Seq<(Seq<char>, Json)>,
    first: Seq<char>,
    second: Seq<char>,
) -> bool {
    &&& lookup(members, first) is Some
    &&& lookup(members, second) is Some
    &&& forall|i: int|
        0 <= i < members.len() ==> (#[trigger] members[i]).0 == first || members[i].0 == second
}

/// A reply succeeds with a value exactly if it is an object of two members, the
/// identifier of the request and that value as its result.
pub proof fn replies_succeed_with_their_result(
    export: GuestExport,
    request_id: Seq<char>,
    document: Json,
    value: Json,
)
    ensures
        reply_meaning(export, request_id, document) == Ok::<Json, PluginFailure>(value) <==> (
        document matches Json::Object(members) && has_exactly(members, "requestId"@, "result"@)
            && lookup(members, "requestId"@) == Some(Json::String(request_id)) && lookup(
            members,
            "result"@,
        ) == Some(value)),
{
    reply_names();
    match document {
        Json::Object(members) => {
            crate::json_laws::lookups_find_the_first_member(members, "error"@);
            if lookup(members, "error"@) is None && lookup(members, "result"@) is Some
                && only_keys(members, false) {
                assert forall|i: int| 0 <= i < members.len() implies (#[trigger] members[i]).0
                    == "requestId"@ || members[i].0 == "result"@ by {
                    assert(members[i].0 != "error"@);
                }
            }
            if has_exactly(members, "requestId"@, "result"@) {
                assert(only_keys(members, false));
                assert(lookup(members, "error"@) is None) by {
                    if lookup(members, "error"@) is Some {
                        crate::json::lookup_finds_a_member(members, "error"@);
                    }
                }
            }
        },
        _ => {},
    }
}

proof fn reply_names()
    ensures
        "requestId"@ != "result"@,
        "requestId"@ != "error"@,
        "result"@ != "error"@,
        "PROTOCOL_INVALID"@ != "GUEST_REJECTED"@,
{
    reveal_strlit("requestId");
    reveal_strlit("result");
    reveal_strlit("error");
    reveal_strlit("PROTOCOL_INVALID");
    reveal_strlit("GUEST_REJECTED");
    assert("result"@[0] == 'r' && "error"@[0] == 'e' && "requestId"@[0] == 'r');
    assert("result"@.len() == 6 && "requestId"@.len() == 9);
    assert("PROTOCOL_INVALID"@[0] == 'P' && "GUEST_REJECTED"@[0] == 'G');
}

/// A guest is taken to have refused exactly if it answers its request with
/// nothing but an error object of the phase that it was called in. Anything
/// else that is no success breaks the protocol.
pub proof fn refusals_are_errors_of_the_phase(
    export: GuestExport,
    request_id: Seq<char>,
    document: Json,
)
    ensures
        ({
            let refused = document matches Json::Object(members) && has_exactly(
                members,
                "requestId"@,
                "error"@,
            ) && lookup(members, "requestId"@) == Some(Json::String(request_id)) && (error_of(
                lookup(members, "error"@)->0,
            ) matches Some(failure) && failure.phase == export.spec_phase());
            match reply_meaning(export, request_id, document) {
                Ok(_) => !refused,
                Err(failure) => failure.code == (if refused {
                    "GUEST_REJECTED"@
                } else {
                    "PROTOCOL_INVALID"@
                }),
            }
        }),
{
    reply_names();
    match document {
        Json::Object(members) => {
            crate::json_laws::lookups_find_the_first_member(members, "result"@);
            if lookup(members, "result"@) is None && lookup(members, "error"@) is Some
                && only_keys(members, false) {
                assert forall|i: int| 0 <= i < members.len() implies (#[trigger] members[i]).0
                    == "requestId"@ || members[i].0 == "error"@ by {
                    assert(members[i].0 != "result"@);
                }
            }
            if has_exactly(members, "requestId"@, "error"@) {
                assert(only_keys(members, false));
                assert(lookup(members, "result"@) is None) by {
                    if lookup(members, "result"@) is Some {
                        crate::json::lookup_finds_a_member(members, "result"@);
                    }
                }
            }
        },
        _ => {},
    }
}

/// An error object has a code, a message and a phase, each a text, perhaps
/// details, and nothing else; each is taken from the member of its name.
pub proof fn error_objects_have_three_texts(value: Json)
    ensures
        error_of(value) is Some <==> (value matches Json::Object(members) && (lookup(
            members,
            "code"@,
        ) matches Some(code) && code is String) && (lookup(members, "message"@) matches Some(
            message,
        ) && message is String) && (lookup(members, "phase"@) matches Some(phase) && phase
            is String) && forall|i: int|
            0 <= i < members.len() ==> (#[trigger] members[i]).0 == "code"@ || members[i].0
                == "message"@ || members[i].0 == "phase"@ || members[i].0 == "details"@),
        error_of(value) matches Some(failure) ==> (value matches Json::Object(members) && lookup(
            members,
            "code"@,
        ) == Some(Json::String(failure.code)) && lookup(members, "message"@) == Some(
            Json::String(failure.message),
        ) && lookup(members, "phase"@) == Some(Json::String(failure.phase)) && (lookup(
            members,
            "details"@,
        ) matches Some(details) ==> (details != Json::Null ==> failure.details == Some(details))) && (
        lookup(members, "details"@) is None || lookup(members, "details"@) == Some(Json::Null)
            ==> failure.details is None)),
{
    match value {
        Json::Object(members) => {
            if only_keys(members, true) {
                assert forall|i: int| 0 <= i < members.len() implies (#[trigger] members[i]).0
                    == "code"@ || members[i].0 == "message"@ || members[i].0 == "phase"@
                    || members[i].0 == "details"@ by {
                    assert(crate::guest::reply_key(members[i].0, true));
                }
            }
            if forall|i: int|
                0 <= i < members.len() ==> (#[trigger] members[i]).0 == "code"@ || members[i].0
                    == "message"@ || members[i].0 == "phase"@ || members[i].0 == "details"@ {
                assert(only_keys(members, true));
            }
        },
        _ => {},
    }
}

/// A call succeeds exactly if it was not cancelled, took no longer and gave no
/// more than it may, and its reply succeeds. Otherwise the caller learns the
/// first of these that went wrong, in this order.
pub proof fn calls_succeed_within_their_limits(
    limits: ResourceLimits,
    export: GuestExport,
    request_id: Seq<char>,
    cancelled: bool,
    elapsed: u64,
    output: Result<Seq<u8>, PluginFailure>,
    document: Result<Json, Seq<char>>,
)
    ensures
        ({
            let meaning = call_meaning(
                limits,
                export,
                request_id,
                cancelled,
                elapsed,
                output,
                document,
            );
            let in_time = elapsed <= limits.timeout_nanos;
            let fits = output matches Ok(bytes) && bytes.len() <= limits.max_output_bytes;
            &&& meaning is Ok ==> !cancelled && in_time && fits && document is Ok
            &&& !cancelled && in_time && fits && document is Ok ==> meaning == reply_meaning(
                export,
                request_id,
                document->Ok_0,
            )
            &&& cancelled ==> (meaning matches Err(failure) && failure.code == "CANCELLED"@)
            &&& !cancelled && !in_time ==> (meaning matches Err(failure) && failure.code
                == "TIMEOUT"@ && failure.phase == export.spec_phase())
            &&& !cancelled && in_time ==> (output matches Err(failure) ==> meaning == Err::<
                Json,
                PluginFailure,
            >(failure))
            &&& !cancelled && in_time && output is Ok && !fits ==> (meaning matches Err(failure)
                && failure.code == "OUTPUT_LIMIT_EXCEEDED"@)
            &&& !cancelled && in_time && fits && document is Err ==> (meaning matches Err(failure)
                && failure.code == "PROTOCOL_INVALID"@)
        }),
{
}

/// A capability can be used exactly by a living instance whose plugin declares
/// it, if the host grants it and has it.
pub proof fn capabilities_need_all_consents(
    policy: PolicyModel,
    bindings: HostBindings,
    capability: Capability,
)
    ensures
        invocation_fault(policy, bindings, capability) is None <==> bindings.alive
            && bindings.permissions@.contains(capability) && policy.granted.contains(capability)
            && policy.handlers.contains(capability),
        bindings.alive && !(bindings.permissions@.contains(capability) && policy.granted.contains(
            capability,
        )) ==> (invocation_fault(policy, bindings, capability) matches Some(failure) && failure.code
            == "PERMISSION_DENIED"@),
        !bindings.alive ==> (invocation_fault(policy, bindings, capability) matches Some(failure)
            && failure.code == "INSTANCE_STOPPED"@),
{
}

}
