//! Guest engines: what the host asks of them, the checks before a guest runs,
//! and an engine for tests that keeps what it was asked.

use vstd::prelude::*;
use vstd::string::*;

use crate::capability::CapabilityRequest;
use crate::decode::{missing, missing_field, read_text, text_field, unknown_field};
use crate::document::{json_of_bytes, parse_json_bytes};
use crate::error::{plugin_failure, PluginError, PluginFailure};
use crate::forms::{as_record, names_of, record};
use crate::guest::{
    cancelled_error, cancelled_failure, limits_fault, RequestEnvelope, RequestModel,
    ResourceLimits,
};
use crate::json::{find_member, json_members, lookup, Json, JsonValue};
use crate::manifest::{manifest_fault, module_fault, validate_wasm_exports, GuestExport};
use crate::package::{outermost, PackageModel, WasmPackage};
use crate::repeats::{byte_codes, count_in_bytes, written_members};
use crate::text::{join2, join3, same_text, text_list};

verus! {

/// Interrupt path separate from the guest instance lock.
pub trait GuestCancellation {
    fn cancel(&self) -> Result<(), PluginError>;
}

/// Synchronous guest API. Engines enforce the output bound before copying
/// guest memory into host-owned storage.
pub trait GuestInstance {
    fn call(&mut self, export: GuestExport, input: &[u8], max_output_bytes: usize) -> Result<
        Vec<u8>,
        PluginError,
    >;
}

/// A handler that the host registers for one capability.
pub trait CapabilityHandler {
    fn call(&self, request: CapabilityRequest) -> Result<JsonValue, PluginError>;
}

/// What a host policy keeps open while an instance runs.
pub trait WasmLifecycleGuard {
    fn drain(&mut self, timeout_nanos: u64) -> Result<(), PluginError>;

    fn revoke(&mut self);
}

/// The engine that runs WebAssembly.
#[derive(Debug, Default)]
pub struct ExtismGuestEngine {}

/// Why a guest cannot be built: the first rule, in order, that is broken.
pub open spec fn engine_fault(package: PackageModel, limits: ResourceLimits) -> Option<
    PluginFailure,
> {
    if limits_fault(limits) is Some {
        limits_fault(limits)
    } else if manifest_fault(package.manifest) is Some {
        manifest_fault(package.manifest)
    } else if package.wasm is None {
        Some(
            plugin_failure(
                "MODULE_UNAVAILABLE"@,
                "the Extism engine requires WebAssembly bytes"@,
                "instantiate"@,
            ),
        )
    } else {
        module_fault(package.wasm->0)
    }
}

impl ExtismGuestEngine {
    /// The module to build a guest from, once the limits, the manifest and the
    /// module pass every rule.
    pub fn checked_module<'a>(&self, package: &'a WasmPackage, limits: &ResourceLimits) -> (result:
        Result<&'a Vec<u8>, PluginError>)
        ensures
            match result {
                Ok(wasm) => engine_fault(package@, *limits) is None && package@.wasm == Some(wasm@),
                Err(error) => engine_fault(package@, *limits) == Some(error@),
            },
    {
        match limits.validate() {
            Ok(()) => {},
            Err(error) => return Err(error),
        }
        match package.manifest.validate() {
            Ok(()) => {},
            Err(error) => return Err(error),
        }
        let wasm = match &package.wasm {
            Some(wasm) => wasm,
            None => return Err(
                PluginError::new(
                    "MODULE_UNAVAILABLE",
                    "the Extism engine requires WebAssembly bytes",
                    "instantiate",
                ),
            ),
        };
        match validate_wasm_exports(wasm.as_slice()) {
            Ok(()) => Ok(wasm),
            Err(error) => Err(error),
        }
    }
}

/// A call that the in-memory engine was asked for.
#[derive(Debug, PartialEq)]
pub struct GuestCall {
    pub export: GuestExport,
    pub envelope: RequestEnvelope,
}

/// The model of a call.
#[verifier::ext_equal]
pub struct CallModel {
    pub export: GuestExport,
    pub envelope: RequestModel,
}

impl View for GuestCall {
    type V = CallModel;

    open spec fn view(&self) -> CallModel {
        CallModel { export: self.export, envelope: self.envelope@ }
    }
}

/// The models of a list of calls.
pub open spec fn call_list(calls: Seq<GuestCall>) -> Seq<CallModel> {
    Seq::new(calls.len(), |i: int| calls[i]@)
}

/// The key is a field of a request.
pub open spec fn is_request_key(key: Seq<char>) -> bool {
    key == "requestId"@ || key == "context"@ || key == "payload"@
}

/// The first key in `members[from..]` that is no field of a request.
pub open spec fn stray_request_key(members: Seq<(Seq<char>, Json)>, from: int) -> Option<Seq<char>>
    decreases members.len() - from,
{
    if from < 0 || from >= members.len() {
        None
    } else if !is_request_key(members[from].0) {
        Some(members[from].0)
    } else {
        stray_request_key(members, from + 1)
    }
}

/// The fields of a request, in order.
pub open spec fn request_fields() -> Seq<Seq<char>> {
    seq!["requestId"@, "context"@, "payload"@]
}

/// The request that a value describes.
pub open spec fn request_of(value: Json) -> Result<RequestModel, Seq<char>> {
    match record(value, request_fields(), 3) {
        Json::Object(members) => if stray_request_key(members, 0) is Some {
            Err(unknown_field(stray_request_key(members, 0)->0))
        } else {
            match text_field(members, "requestId"@) {
                Err(message) => Err(message),
                Ok(request_id) => match (lookup(members, "context"@), lookup(
                    members,
                    "payload"@,
                )) {
                    (None, _) => Err(missing_field("context"@)),
                    (_, None) => Err(missing_field("payload"@)),
                    (Some(context), Some(payload)) => Ok(
                        RequestModel { request_id, context, payload },
                    ),
                },
            }
        },
        _ => Err("a request must be an object"@),
    }
}

fn read_request(value: &JsonValue) -> (result: Result<RequestEnvelope, String>)
    ensures
        request_of(value@) == (match result {
            Ok(request) => Ok::<RequestModel, Seq<char>>(request@),
            Err(message) => Err::<RequestModel, Seq<char>>(message@),
        }),
{
    let fields = names_of(&["requestId", "context", "payload"]);
    assert(text_list(fields@) =~= request_fields());
    let plain = as_record(value, &fields, 3);
    let members = match plain.as_object() {
        Some(members) => members,
        None => return Err("a request must be an object".to_owned()),
    };
    let ghost model = json_members(members@);
    let mut i: usize = 0;
    while i < members.len()
        invariant
            i <= members@.len(),
            model == json_members(members@),
            plain@ == Json::Object(model),
            plain@ == record(value@, request_fields(), 3),
            stray_request_key(model, 0) == stray_request_key(model, i as int),
        decreases members@.len() - i,
    {
        let key = members[i].key.as_str();
        assert(model[i as int].0 == key@);
        if !(same_text(key, "requestId") || same_text(key, "context") || same_text(
            key,
            "payload",
        )) {
            return Err(join3("unknown field `", key, "`"));
        }
        i += 1;
    }
    let request_id = match read_text(members, "requestId") {
        Ok(text) => text,
        Err(message) => return Err(message),
    };
    let context = match find_member(members, "context") {
        Some(at) => members[at].value.clone(),
        None => return Err(missing("context")),
    };
    let payload = match find_member(members, "payload") {
        Some(at) => members[at].value.clone(),
        None => return Err(missing("payload")),
    };
    Ok(RequestEnvelope::new(request_id, context, payload))
}

/// The request that bytes hold, or why they hold none. The bytes are written
/// with so many members; a field may be given once.
pub open spec fn received_request(
    document: Result<Json, Seq<char>>,
    written: nat,
    phase: Seq<char>,
) -> Result<RequestModel, PluginFailure> {
    let request = match document {
        Err(message) => Err(message),
        Ok(value) => if value matches Json::Object(members) && members.len() != written {
            Err("a field is given twice"@)
        } else {
            request_of(value)
        },
    };
    match request {
        Ok(request) => Ok(request),
        Err(message) => Err(
            plugin_failure(
                "PROTOCOL_INVALID"@,
                "invalid guest request envelope: "@ + message,
                phase,
            ),
        ),
    }
}

/// A compact deterministic guest engine for host-runtime tests. It keeps the
/// calls that it was asked for; the answers come from outside.
#[derive(Debug)]
pub struct InMemoryGuestEngine {
    pub calls: Vec<GuestCall>,
    /// The next call, or the one under way, is cancelled.
    pub cancelled: bool,
}

impl InMemoryGuestEngine {
    pub fn new() -> (result: Self)
        ensures
            call_list(result.calls@) == Seq::<CallModel>::empty(),
            !result.cancelled,
    {
        let result = InMemoryGuestEngine { calls: Vec::new(), cancelled: false };
        assert(call_list(result.calls@) =~= Seq::empty());
        result
    }

    /// Cancels the next call, or the one under way.
    pub fn cancel(&mut self)
        ensures
            final(self).cancelled,
            final(self).calls == old(self).calls,
    {
        self.cancelled = true;
    }

    /// Uses up a cancellation, and says whether there was one.
    pub fn take_cancellation(&mut self) -> (result: bool)
        ensures
            result == old(self).cancelled,
            !final(self).cancelled,
            final(self).calls == old(self).calls,
    {
        let cancelled = self.cancelled;
        self.cancelled = false;
        cancelled
    }

    /// Begins a call: takes the request in and keeps it, unless the call was
    /// cancelled before.
    pub fn receive(&mut self, export: GuestExport, input: &[u8]) -> (result: Result<
        RequestEnvelope,
        PluginError,
    >)
        ensures
            !final(self).cancelled,
            match result {
                Ok(request) => {
                    &&& !old(self).cancelled
                    &&& received_request(
                        json_of_bytes(input@),
                        written_members(byte_codes(input@), outermost()),
                        export.spec_phase(),
                    ) == Ok::<
                        RequestModel,
                        PluginFailure,
                    >(request@)
                    &&& call_list(final(self).calls@) == call_list(old(self).calls@).push(
                        CallModel { export, envelope: request@ },
                    )
                },
                Err(error) => {
                    &&& final(self).calls == old(self).calls
                    &&& if old(self).cancelled {
                        error@ == cancelled_failure()
                    } else {
                        received_request(
                        json_of_bytes(input@),
                        written_members(byte_codes(input@), outermost()),
                        export.spec_phase(),
                    ) == Err::<
                            RequestModel,
                            PluginFailure,
                        >(error@)
                    }
                },
            },
    {
        if self.take_cancellation() {
            return Err(cancelled_error());
        }
        let request = match parse_json_bytes(input) {
            Ok(value) => {
                let wanted = vec![true];
                assert(wanted@ =~= outermost());
                let written = count_in_bytes(input, &wanted);
                let repeated = match value.as_object() {
                    Some(members) => {
                        assert(json_members(members@).len() == members@.len());
                        members.len() != written
                    },
                    None => false,
                };
                if repeated {
                    Err("a field is given twice".to_owned())
                } else {
                    read_request(&value)
                }
            },
            Err(message) => Err(message),
        };
        let request = match request {
            Ok(request) => request,
            Err(message) => {
                let text = join2("invalid guest request envelope: ", message.as_str());
                return Err(PluginError::new("PROTOCOL_INVALID", text.as_str(), export.phase()));
            },
        };
        let copy = RequestEnvelope::new(
            request.request_id.clone(),
            request.context.clone(),
            request.payload.clone(),
        );
        let ghost before = call_list(self.calls@);
        let call = GuestCall { export, envelope: copy };
        self.calls.push(call);
        assert(call_list(self.calls@) =~= before.push(call@));
        Ok(request)
    }

    /// The calls that this engine was asked for.
    pub fn calls(&self) -> (result: &Vec<GuestCall>)
        ensures
            *result == self.calls,
    {
        &self.calls
    }
}

}
