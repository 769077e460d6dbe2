//! A running WebAssembly plugin: identities, admission of calls, cancellation
//! and stopping.

use vstd::prelude::*;
use vstd::string::*;

use crate::capability::HostBindings;
use crate::error::{plugin_failure, plugin_fault, PluginError, PluginFailure};
use crate::guest::{
    limits_fault, stopped_error, stopped_failure, RequestEnvelope, RequestModel, ResourceLimits,
};
use crate::json::{Json, JsonValue};
use crate::manifest::{
    configuration_fault, manifest_fault, module_fault, validate_wasm_exports, GuestExport,
    PluginManifest,
};
use crate::package::{PackageModel, WasmPackage};
use crate::text::{
    blank, decimal, decimal_text, decimal_text_is_injective, holds_text, is_blank, join3,
    same_text, text_list,
};

verus! {

/// The identities of instances in one process.
#[derive(Debug)]
pub struct InstanceIds {
    pub taken: Vec<String>,
    pub next: u64,
}

/// The identity with number `sequence` in the process `process`.
pub open spec fn generated_id(process: u64, sequence: u64) -> Seq<char> {
    "wasm:"@ + decimal_text(process as nat) + ":"@ + decimal_text(sequence as nat)
}

/// An identity that a new instance of a plugin may have.
pub open spec fn free_id(taken: Seq<Seq<char>>, plugin_id: Seq<char>, id: Seq<char>) -> bool {
    id != plugin_id && !taken.contains(id)
}

impl InstanceIds {
    pub fn new() -> (result: Self)
        ensures
            text_list(result.taken@) == Seq::<Seq<char>>::empty(),
            result.next == 0,
    {
        let result = InstanceIds { taken: Vec::new(), next: 0 };
        assert(text_list(result.taken@) =~= Seq::empty());
        result
    }

    /// Generates an identity that no other instance has: the first free one
    /// that was not generated before. None is left only after every number.
    pub fn allocate(&mut self, process: u64, plugin_id: &str) -> (result: Option<String>)
        ensures
            match result {
                Some(id) => exists|n: u64|
                    #![trigger generated_id(process, n)]
                    {
                        &&& old(self).next <= n < u64::MAX
                        &&& id@ == generated_id(process, n)
                        &&& free_id(text_list(old(self).taken@), plugin_id@, id@)
                        &&& forall|m: u64|
                            old(self).next <= m < n ==> !free_id(
                                text_list(old(self).taken@),
                                plugin_id@,
                                #[trigger] generated_id(process, m),
                            )
                        &&& final(self).next == n + 1
                        &&& text_list(final(self).taken@) == text_list(old(self).taken@).push(id@)
                    },
                None => text_list(final(self).taken@) == text_list(old(self).taken@) && forall|m: u64|
                    old(self).next <= m < u64::MAX ==> !free_id(
                        text_list(old(self).taken@),
                        plugin_id@,
                        #[trigger] generated_id(process, m),
                    ),
            },
    {
        let ghost taken = text_list(self.taken@);
        while self.next < u64::MAX
            invariant
                self.taken@ == old(self).taken@,
                taken == text_list(old(self).taken@),
                old(self).next <= self.next,
                forall|m: u64|
                    old(self).next <= m < self.next ==> !free_id(
                        taken,
                        plugin_id@,
                        #[trigger] generated_id(process, m),
                    ),
            decreases u64::MAX - self.next,
        {
            let ghost sequence = self.next;
            let mut id = join3("wasm:", decimal(process).as_str(), ":");
            id.append(decimal(self.next).as_str());
            assert(id@ == generated_id(process, sequence));
            self.next = self.next + 1;
            if !same_text(id.as_str(), plugin_id) && !holds_text(&self.taken, &id) {
                self.taken.push(id.clone());
                assert(text_list(self.taken@) =~= taken.push(id@));
                return Some(id);
            }
        }
        None
    }

    /// Reserves a given identity.
    pub fn reserve(&mut self, instance_id: String, plugin_id: &str) -> (result: Result<
        String,
        PluginError,
    >)
        ensures
            match result {
                Ok(id) => id@ == instance_id@ && !blank(id@) && free_id(
                    text_list(old(self).taken@),
                    plugin_id@,
                    id@,
                ) && text_list(final(self).taken@) == text_list(old(self).taken@).push(id@),
                Err(error) => *final(self) == *old(self) && error@ == (if blank(instance_id@)
                    || instance_id@ == plugin_id@ {
                    plugin_failure(
                        "INSTANCE_ID_INVALID"@,
                        "instance id must be non-empty and differ from plugin id"@,
                        "instantiate"@,
                    )
                } else {
                    plugin_failure(
                        "INSTANCE_ID_DUPLICATE"@,
                        "instance id already exists"@,
                        "instantiate"@,
                    )
                }) && (blank(instance_id@) || !free_id(
                    text_list(old(self).taken@),
                    plugin_id@,
                    instance_id@,
                )),
            },
            final(self).next == old(self).next,
    {
        if is_blank(instance_id.as_str()) || same_text(instance_id.as_str(), plugin_id) {
            return Err(
                PluginError::new(
                    "INSTANCE_ID_INVALID",
                    "instance id must be non-empty and differ from plugin id",
                    "instantiate",
                ),
            );
        }
        if holds_text(&self.taken, &instance_id) {
            return Err(
                PluginError::new(
                    "INSTANCE_ID_DUPLICATE",
                    "instance id already exists",
                    "instantiate",
                ),
            );
        }
        let ghost before = text_list(self.taken@);
        self.taken.push(instance_id.clone());
        assert(text_list(self.taken@) =~= before.push(instance_id@));
        Ok(instance_id)
    }

    /// Gives an identity back.
    pub fn release(&mut self, instance_id: &str)
        ensures
            forall|id: Seq<char>| #[trigger]
                text_list(final(self).taken@).contains(id) <==> id != instance_id@ && text_list(
                    old(self).taken@,
                ).contains(id),
            final(self).next == old(self).next,
    {
        let ghost all = text_list(self.taken@);
        let mut kept: Vec<String> = Vec::new();
        let mut i: usize = 0;
        while i < self.taken.len()
            invariant
                i <= self.taken@.len(),
                *self == *old(self),
                all == text_list(self.taken@),
                forall|id: Seq<char>| #[trigger]
                    text_list(kept@).contains(id) <==> id != instance_id@ && all.subrange(
                        0,
                        i as int,
                    ).contains(id),
            decreases self.taken@.len() - i,
        {
            let ghost before = text_list(kept@);
            let ghost shorter = all.subrange(0, i as int);
            let ghost current = all[i as int];
            assert(current == self.taken@[i as int]@);
            assert(all.subrange(0, i + 1) =~= shorter.push(current));
            if !same_text(self.taken[i].as_str(), instance_id) {
                kept.push(self.taken[i].clone());
                assert(text_list(kept@) =~= before.push(current));
            }
            proof {
                assert forall|id: Seq<char>| #[trigger]
                    text_list(kept@).contains(id) <==> id != instance_id@ && all.subrange(
                        0,
                        i + 1,
                    ).contains(id) by {
                    vstd::seq_lib::lemma_seq_contains_after_push(shorter, current, id);
                    vstd::seq_lib::lemma_seq_contains_after_push(before, current, id);
                }
            }
            i += 1;
        }
        assert(all.subrange(0, all.len() as int) =~= all);
        self.taken = kept;
    }
}

/// Where the guest of an instance is.
#[derive(Clone, Copy, Debug, PartialEq, Eq, Structural)]
pub enum GuestSlot {
    /// Ready for a call.
    Idle,
    /// Lent to the one call in flight.
    Busy,
    /// Taken for good by a stop.
    Gone,
}

/// A running, serialized plugin instance.
#[derive(Debug)]
pub struct WasmPluginInstance {
    pub manifest: PluginManifest,
    pub host: HostBindings,
    pub config: JsonValue,
    pub limits: ResourceLimits,
    /// New calls are admitted.
    pub accepting: bool,
    pub slot: GuestSlot,
    /// The call in flight and whether it was cancelled.
    pub active: Option<bool>,
    pub sequence: u64,
}

/// What became of the wish to run a call now.
#[derive(Debug)]
pub enum Claim {
    /// The guest is lent to this call.
    Run,
    /// Another call has the guest; ask again when it settles.
    Wait,
    /// The instance stopped meanwhile.
    Refused(PluginError),
}

/// Why an instance is refused before its engine is asked.
pub open spec fn instantiation_fault(package: PackageModel, limits: ResourceLimits, config: Json) -> Option<
    PluginFailure,
> {
    if manifest_fault(package.manifest) is Some {
        manifest_fault(package.manifest)
    } else if package.wasm is Some && module_fault(package.wasm->Some_0) is Some {
        module_fault(package.wasm->Some_0)
    } else if limits_fault(limits) is Some {
        limits_fault(limits)
    } else {
        configuration_fault(package.manifest, config)
    }
}

/// Checks all that can be checked before an instance has an identity: its
/// manifest, its module, its limits and its configuration.
pub fn check_instantiation(package: &WasmPackage, limits: &ResourceLimits, config: &JsonValue) -> (result:
    Result<(), PluginError>)
    ensures
        plugin_fault(result) == instantiation_fault(package@, *limits, config@),
{
    match package.manifest.validate() {
        Ok(()) => {},
        Err(error) => {
            return Err(error);
        },
    }
    if let Some(wasm) = &package.wasm {
        match validate_wasm_exports(wasm.as_slice()) {
            Ok(()) => {},
            Err(error) => {
                return Err(error);
            },
        }
    }
    match limits.validate() {
        Ok(()) => {},
        Err(error) => {
            return Err(error);
        },
    }
    package.manifest.validate_config(config)
}

impl WasmPluginInstance {
    /// A call is in flight exactly while the guest is lent, a guest that is
    /// gone takes no calls, and neither does a host that is dead.
    pub open spec fn wf(&self) -> bool {
        &&& self.active is Some <==> self.slot == GuestSlot::Busy
        &&& self.slot == GuestSlot::Gone ==> !self.accepting
        &&& !self.host.alive ==> !self.accepting
    }

    /// Everything but the control state is as it was.
    pub open spec fn same_parts(&self, other: Self) -> bool {
        &&& self.manifest == other.manifest
        &&& self.config == other.config
        &&& self.limits == other.limits
        &&& self.host.permissions == other.host.permissions
        &&& self.host.plugin_id == other.host.plugin_id
        &&& self.host.instance_id == other.host.instance_id
        &&& self.host.max_input_bytes == other.host.max_input_bytes
        &&& self.host.max_output_bytes == other.host.max_output_bytes
        &&& self.sequence == other.sequence
    }

    /// Checks everything that does not need the engine and builds the control
    /// state of an instance whose guest is ready.
    pub fn instantiate(
        package: &WasmPackage,
        limits: ResourceLimits,
        config: JsonValue,
        instance_id: String,
    ) -> (result: Result<WasmPluginInstance, PluginError>)
        ensures
            match result {
                Ok(instance) => {
                    &&& instantiation_fault(package@, limits, config@) is None
                    &&& instance.wf()
                    &&& instance.manifest@ == package@.manifest
                    &&& instance.config@ == config@
                    &&& instance.limits == limits
                    &&& instance.host.permissions@ == package@.manifest.permissions
                    &&& instance.host.plugin_id@ == package@.manifest.id
                    &&& instance.host.instance_id@ == instance_id@
                    &&& instance.host.max_input_bytes == limits.max_input_bytes
                    &&& instance.host.max_output_bytes == limits.max_output_bytes
                    &&& instance.host.alive
                    &&& instance.accepting
                    &&& instance.slot == GuestSlot::Idle
                    &&& instance.active is None
                    &&& instance.sequence == 0
                },
                Err(error) => instantiation_fault(package@, limits, config@) == Some(error@),
            },
    {
        match check_instantiation(package, &limits, &config) {
            Ok(()) => {},
            Err(error) => {
                return Err(error);
            },
        }
        let manifest = package.manifest.clone();
        let permissions = package.manifest.clone().permissions;
        let host = HostBindings {
            permissions,
            plugin_id: package.manifest.id.clone(),
            instance_id,
            alive: true,
            max_input_bytes: limits.max_input_bytes,
            max_output_bytes: limits.max_output_bytes,
        };
        Ok(
            WasmPluginInstance {
                manifest,
                host,
                config,
                limits,
                accepting: true,
                slot: GuestSlot::Idle,
                active: None,
                sequence: 0,
            },
        )
    }

    pub fn manifest(&self) -> (result: &PluginManifest)
        ensures
            result@ == self.manifest@,
    {
        &self.manifest
    }

    /// Creates an instance with an identity that the host chose, and gives the
    /// identity back when the instance is refused.
    pub fn instantiate_with_instance_id(
        ids: &mut InstanceIds,
        package: &WasmPackage,
        limits: ResourceLimits,
        config: JsonValue,
        instance_id: String,
    ) -> (result: Result<WasmPluginInstance, PluginError>)
        ensures
            final(ids).next == old(ids).next,
            ({
                let taken = text_list(old(ids).taken@);
                let plugin_id = package@.manifest.id;
                let accepted = !blank(instance_id@) && free_id(taken, plugin_id, instance_id@);
                match result {
                    Ok(instance) => {
                        &&& accepted
                        &&& instantiation_fault(package@, limits, config@) is None
                        &&& instance.wf()
                        &&& instance.host.instance_id@ == instance_id@
                        &&& instance.manifest@ == package@.manifest
                        &&& instance.config@ == config@
                        &&& instance.limits == limits
                        &&& instance.host.permissions@ == package@.manifest.permissions
                        &&& instance.host.plugin_id@ == plugin_id
                        &&& instance.host.max_input_bytes == limits.max_input_bytes
                        &&& instance.host.max_output_bytes == limits.max_output_bytes
                        &&& instance.host.alive
                        &&& instance.accepting
                        &&& instance.slot == GuestSlot::Idle
                        &&& instance.active is None
                        &&& instance.sequence == 0
                        &&& text_list(final(ids).taken@) == taken.push(instance_id@)
                    },
                    Err(error) => {
                        &&& forall|id: Seq<char>| #[trigger]
                            text_list(final(ids).taken@).contains(id) <==> taken.contains(id)
                        &&& if accepted {
                            instantiation_fault(package@, limits, config@) == Some(error@)
                        } else if blank(instance_id@) || instance_id@ == plugin_id {
                            error@ == plugin_failure(
                                "INSTANCE_ID_INVALID"@,
                                "instance id must be non-empty and differ from plugin id"@,
                                "instantiate"@,
                            )
                        } else {
                            error@ == plugin_failure(
                                "INSTANCE_ID_DUPLICATE"@,
                                "instance id already exists"@,
                                "instantiate"@,
                            )
                        }
                    },
                }
            }),
    {
        let ghost taken = text_list(ids.taken@);
        let id = match ids.reserve(instance_id, package.manifest.id.as_str()) {
            Ok(id) => id,
            Err(error) => return Err(error),
        };
        match WasmPluginInstance::instantiate(package, limits, config, id.clone()) {
            Ok(instance) => Ok(instance),
            Err(error) => {
                ids.release(id.as_str());
                proof {
                    assert forall|other: Seq<char>| #[trigger]
                        text_list(ids.taken@).contains(other) <==> taken.contains(other) by {
                        vstd::seq_lib::lemma_seq_contains_after_push(taken, id@, other);
                    }
                }
                Err(error)
            },
        }
    }

    /// The identity of this instance.
    pub fn instance_id(&self) -> (result: &str)
        ensures
            result@ == self.host.instance_id@,
    {
        self.host.instance_id.as_str()
    }

    /// A copy of the current configuration.
    pub fn config(&self) -> (result: JsonValue)
        ensures
            result@ == self.config@,
    {
        self.config.clone()
    }

    /// The request that the next admitted call gets.
    pub open spec fn next_request(&self, context: Json, payload: Json) -> RequestModel {
        RequestModel {
            request_id: self.host.instance_id@ + ":"@ + decimal_text(self.sequence as nat),
            context,
            payload,
        }
    }

    fn request(&mut self, context: JsonValue, payload: JsonValue) -> (result: RequestEnvelope)
        ensures
            result@ == old(self).next_request(context@, payload@),
            *final(self) == (WasmPluginInstance {
                sequence: old(self).sequence.wrapping_add(1),
                ..*old(self)
            }),
    {
        let sequence = self.sequence;
        self.sequence = self.sequence.wrapping_add(1);
        let id = join3(self.host.instance_id.as_str(), ":", decimal(sequence).as_str());
        RequestEnvelope::new(id, context, payload)
    }

    /// Admits a call of `export`, or refuses it because the instance stopped.
    pub fn enter(&mut self, export: GuestExport, context: JsonValue, payload: JsonValue) -> (result:
        Result<RequestEnvelope, PluginError>)
        ensures
            match result {
                Ok(request) => old(self).accepting && request@ == old(self).next_request(
                    context@,
                    payload@,
                ) && *final(self) == (WasmPluginInstance {
                    sequence: old(self).sequence.wrapping_add(1),
                    ..*old(self)
                }),
                Err(error) => !old(self).accepting && error@ == stopped_failure(
                    export.spec_phase(),
                ) && *final(self) == *old(self),
            },
    {
        if !self.accepting {
            return Err(stopped_error(export.phase()));
        }
        Ok(self.request(context, payload))
    }

    /// Admits the initialization of the guest with the current configuration.
    pub fn init(&mut self, context: JsonValue) -> (result: Result<RequestEnvelope, PluginError>)
        ensures
            steps_to(*old(self), InstanceStep::Admit, *final(self)),
            match result {
                Ok(request) => old(self).accepting && request@ == old(self).next_request(
                    context@,
                    old(self).config@,
                ) && *final(self) == (WasmPluginInstance {
                    sequence: old(self).sequence.wrapping_add(1),
                    ..*old(self)
                }),
                Err(error) => !old(self).accepting && error@ == stopped_failure("init"@)
                    && *final(self) == *old(self),
            },
    {
        let config = self.config.clone();
        self.enter(GuestExport::Init, context, config)
    }

    /// Admits a call.
    pub fn call(&mut self, context: JsonValue, payload: JsonValue) -> (result: Result<
        RequestEnvelope,
        PluginError,
    >)
        ensures
            steps_to(*old(self), InstanceStep::Admit, *final(self)),
            match result {
                Ok(request) => old(self).accepting && request@ == old(self).next_request(
                    context@,
                    payload@,
                ) && *final(self) == (WasmPluginInstance {
                    sequence: old(self).sequence.wrapping_add(1),
                    ..*old(self)
                }),
                Err(error) => !old(self).accepting && error@ == stopped_failure("call"@)
                    && *final(self) == *old(self),
            },
    {
        self.enter(GuestExport::Call, context, payload)
    }

    /// Admits an event.
    pub fn event(&mut self, context: JsonValue, payload: JsonValue) -> (result: Result<
        RequestEnvelope,
        PluginError,
    >)
        ensures
            steps_to(*old(self), InstanceStep::Admit, *final(self)),
            match result {
                Ok(request) => old(self).accepting && request@ == old(self).next_request(
                    context@,
                    payload@,
                ) && *final(self) == (WasmPluginInstance {
                    sequence: old(self).sequence.wrapping_add(1),
                    ..*old(self)
                }),
                Err(error) => !old(self).accepting && error@ == stopped_failure("event"@)
                    && *final(self) == *old(self),
            },
    {
        self.enter(GuestExport::Event, context, payload)
    }

    /// Admits an update with a configuration that the manifest accepts. The
    /// configuration changes only when the guest agreed.
    pub fn update(&mut self, context: JsonValue, config: &JsonValue) -> (result: Result<
        RequestEnvelope,
        PluginError,
    >)
        ensures
            steps_to(*old(self), InstanceStep::Admit, *final(self)),
            match result {
                Ok(request) => configuration_fault(old(self).manifest@, config@) is None && old(
                    self).accepting && request@ == old(self).next_request(context@, config@)
                    && *final(self) == (WasmPluginInstance {
                    sequence: old(self).sequence.wrapping_add(1),
                    ..*old(self)
                }),
                Err(error) => *final(self) == *old(self) && error@ == (
                match configuration_fault(old(self).manifest@, config@) {
                    Some(failure) => failure,
                    None => stopped_failure("update"@),
                }) && (configuration_fault(old(self).manifest@, config@) is Some || !old(
                    self).accepting),
            },
    {
        match self.manifest.validate_config(config) {
            Ok(()) => {},
            Err(error) => {
                return Err(error);
            },
        }
        self.enter(GuestExport::Update, context, config.clone())
    }

    /// Takes over the configuration of an update that the guest agreed to.
    pub fn commit_update(&mut self, config: JsonValue)
        ensures
            steps_to(*old(self), InstanceStep::Configure, *final(self)),
            *final(self) == (WasmPluginInstance { config, ..*old(self) }),
    {
        self.config = config;
    }

    /// Asks for the guest on behalf of an admitted call.
    pub fn claim(&mut self, export: GuestExport) -> (result: Claim)
        requires
            old(self).wf(),
        ensures
            steps_to(*old(self), InstanceStep::Claim, *final(self)),
            final(self).wf(),
            match result {
                Claim::Run => old(self).accepting && old(self).slot == GuestSlot::Idle
                    && *final(self) == (WasmPluginInstance {
                    slot: GuestSlot::Busy,
                    active: Some(false),
                    ..*old(self)
                }),
                Claim::Wait => old(self).accepting && old(self).slot == GuestSlot::Busy
                    && *final(self) == *old(self),
                Claim::Refused(error) => !old(self).accepting && error@ == stopped_failure(
                    export.spec_phase(),
                ) && *final(self) == *old(self),
            },
    {
        if !self.accepting {
            return Claim::Refused(stopped_error(export.phase()));
        }
        if self.slot == GuestSlot::Idle {
            self.slot = GuestSlot::Busy;
            self.active = Some(false);
            Claim::Run
        } else {
            Claim::Wait
        }
    }

    /// Requests cancellation of the call in flight. Exactly one request wins.
    pub fn cancel_current(&mut self) -> (result: bool)
        ensures
            steps_to(*old(self), InstanceStep::Cancel, *final(self)),
            result == (old(self).active == Some(false)),
            *final(self) == (if result {
                WasmPluginInstance { active: Some(true), ..*old(self) }
            } else {
                *old(self)
            }),
    {
        let running = match self.active {
            Some(cancelled) => !cancelled,
            None => false,
        };
        if running {
            self.active = Some(true);
        }
        running
    }

    /// Ends the call in flight, and says whether it was cancelled.
    pub fn settle(&mut self) -> (result: bool)
        requires
            old(self).wf(),
            old(self).slot == GuestSlot::Busy,
        ensures
            steps_to(*old(self), InstanceStep::Settle, *final(self)),
            final(self).wf(),
            result == (old(self).active == Some(true)),
            *final(self) == (WasmPluginInstance {
                slot: GuestSlot::Idle,
                active: None,
                ..*old(self)
            }),
    {
        let cancelled = match self.active {
            Some(cancelled) => cancelled,
            None => false,
        };
        self.active = None;
        self.slot = GuestSlot::Idle;
        cancelled
    }

    /// Starts stopping: no further call is admitted, and the call in flight is
    /// cancelled. The first caller gets the request for the guest's own stop.
    pub fn stop(&mut self) -> (result: Option<RequestEnvelope>)
        requires
            old(self).wf(),
        ensures
            steps_to(*old(self), InstanceStep::Stop, *final(self)),
            final(self).wf(),
            match result {
                Some(request) => old(self).accepting && request@ == old(self).next_request(
                    Json::Null,
                    Json::Null,
                ) && *final(self) == (WasmPluginInstance {
                    accepting: false,
                    active: match old(self).active {
                        Some(_) => Some(true),
                        None => None,
                    },
                    sequence: old(self).sequence.wrapping_add(1),
                    ..*old(self)
                }),
                None => !old(self).accepting && *final(self) == *old(self),
            },
    {
        if !self.accepting {
            return None;
        }
        self.accepting = false;
        self.cancel_current();
        let context = JsonValue::Null;
        let payload = JsonValue::Null;
        assert(context@ == Json::Null && payload@ == Json::Null);
        let request = self.request(context, payload);
        assert(self.active == (match old(self).active {
            Some(_) => Some(true),
            None => None,
        }));
        Some(request)
    }

    /// Takes the guest for its own stop, once no call has it.
    pub fn claim_stop(&mut self) -> (result: bool)
        requires
            old(self).wf(),
            !old(self).accepting,
        ensures
            steps_to(*old(self), InstanceStep::ClaimStop, *final(self)),
            final(self).wf(),
            result == (old(self).slot == GuestSlot::Idle),
            *final(self) == (if result {
                WasmPluginInstance { slot: GuestSlot::Gone, ..*old(self) }
            } else {
                *old(self)
            }),
    {
        if self.slot == GuestSlot::Idle {
            self.slot = GuestSlot::Gone;
            true
        } else {
            false
        }
    }

    /// Invalidates the host bindings after the guest's own stop, whether or
    /// not it succeeded.
    pub fn finish_stop(&mut self)
        requires
            old(self).wf(),
            !old(self).accepting,
        ensures
            steps_to(*old(self), InstanceStep::FinishStop, *final(self)),
            final(self).wf(),
            final(self).same_parts(*old(self)),
            !final(self).host.alive,
            !final(self).accepting,
            final(self).slot == old(self).slot,
            final(self).active == old(self).active,
    {
        self.host.alive = false;
    }

    pub fn is_stopped(&self) -> (result: bool)
        ensures
            result == !self.accepting,
    {
        !self.accepting
    }

    /// Rejects future work at once, without the guest's own stop. Says whether
    /// this was the first time.
    pub fn revoke(&mut self) -> (result: bool)
        requires
            old(self).wf(),
        ensures
            steps_to(*old(self), InstanceStep::Revoke, *final(self)),
            final(self).wf(),
            result == old(self).accepting,
            result ==> !final(self).accepting && !final(self).host.alive && final(self).same_parts(
                *old(self),
            ) && final(self).slot == old(self).slot && final(self).active == (match old(
                self).active {
                Some(_) => Some(true),
                None => None,
            }),
            !result ==> *final(self) == *old(self),
    {
        if self.accepting {
            self.accepting = false;
            self.cancel_current();
            self.host.alive = false;
            true
        } else {
            false
        }
    }
}

/// What can happen to an instance.
#[derive(Clone, Copy, Debug, PartialEq, Eq, Structural)]
pub enum InstanceStep {
    /// An initialization, a call, an event or an update asks to be admitted.
    Admit,
    /// A configuration is taken over.
    Configure,
    /// An admitted call asks for the guest.
    Claim,
    /// The call in flight is to be cancelled.
    Cancel,
    /// The call in flight ends.
    Settle,
    Stop,
    /// The guest is asked for on behalf of its own stop.
    ClaimStop,
    FinishStop,
    Revoke,
}

/// A call that is in flight is cancelled.
pub open spec fn interrupted(active: Option<bool>) -> Option<bool> {
    match active {
        Some(_) => Some(true),
        None => None,
    }
}

/// What a step makes of an instance. A step that is refused, or that is only
/// asked to wait, changes nothing.
pub open spec fn steps_to(
    before: WasmPluginInstance,
    step: InstanceStep,
    after: WasmPluginInstance,
) -> bool {
    match step {
        InstanceStep::Admit => after == before || before.accepting && after == (
        WasmPluginInstance { sequence: before.sequence.wrapping_add(1), ..before }),
        InstanceStep::Configure => after == (WasmPluginInstance {
            config: after.config,
            ..before
        }),
        InstanceStep::Claim => after == (if before.accepting && before.slot == GuestSlot::Idle {
            WasmPluginInstance { slot: GuestSlot::Busy, active: Some(false), ..before }
        } else {
            before
        }),
        InstanceStep::Cancel => after == (WasmPluginInstance {
            active: interrupted(before.active),
            ..before
        }),
        InstanceStep::Settle => before.slot == GuestSlot::Busy && after == (WasmPluginInstance {
            slot: GuestSlot::Idle,
            active: None,
            ..before
        }),
        InstanceStep::Stop => after == (if before.accepting {
            WasmPluginInstance {
                accepting: false,
                active: interrupted(before.active),
                sequence: before.sequence.wrapping_add(1),
                ..before
            }
        } else {
            before
        }),
        InstanceStep::ClaimStop => !before.accepting && after == (if before.slot
            == GuestSlot::Idle {
            WasmPluginInstance { slot: GuestSlot::Gone, ..before }
        } else {
            before
        }),
        InstanceStep::FinishStop => {
            &&& !before.accepting
            &&& after.same_parts(before)
            &&& !after.host.alive
            &&& !after.accepting
            &&& after.slot == before.slot
            &&& after.active == before.active
        },
        InstanceStep::Revoke => if before.accepting {
            &&& after.same_parts(before)
            &&& !after.host.alive
            &&& !after.accepting
            &&& after.slot == before.slot
            &&& after.active == interrupted(before.active)
        } else {
            after == before
        },
    }
}

/// The states of an instance, one after each step.
pub open spec fn history(states: Seq<WasmPluginInstance>, steps: Seq<InstanceStep>) -> bool {
    &&& states.len() == steps.len() + 1
    &&& forall|k: int|
        0 <= k < steps.len() ==> steps_to(#[trigger] states[k], steps[k], states[k + 1])
}

/// The step takes the guest for its own stop.
pub open spec fn takes_guest_to_stop(before: WasmPluginInstance, step: InstanceStep) -> bool {
    step == InstanceStep::ClaimStop && before.slot == GuestSlot::Idle
}

/// The step is the stop that gets the request for the guest.
pub open spec fn gets_stop_request(before: WasmPluginInstance, step: InstanceStep) -> bool {
    step == InstanceStep::Stop && before.accepting
}

/// Once an instance takes no calls it never does again, a guest that is gone
/// does not come back, and neither does a host that is dead.
pub proof fn stopped_instances_stay_stopped(
    states: Seq<WasmPluginInstance>,
    steps: Seq<InstanceStep>,
    i: int,
    j: int,
)
    requires
        history(states, steps),
        0 <= i <= j < states.len(),
    ensures
        !states[i].accepting ==> !states[j].accepting,
        states[i].slot == GuestSlot::Gone ==> states[j].slot == GuestSlot::Gone,
        !states[i].host.alive ==> !states[j].host.alive,
    decreases j - i,
{
    if i < j {
        stopped_instances_stay_stopped(states, steps, i, j - 1);
        assert(steps_to(states[j - 1], steps[j - 1], states[j - 1 + 1]));
    }
}

/// After a stop the call that was in flight is cancelled and the instance is
/// stopped for good: nothing is admitted, no call gets the guest, and no second
/// request to stop is given. The guest is taken for its own stop once at most,
/// only while no call has it, and never lent again. When the stop is finished
/// the host is dead.
pub proof fn stops_are_final(
    states: Seq<WasmPluginInstance>,
    steps: Seq<InstanceStep>,
    i: int,
    j: int,
)
    requires
        history(states, steps),
        0 <= i < j < steps.len(),
    ensures
        steps[i] == InstanceStep::Stop || steps[i] == InstanceStep::Revoke ==> {
            &&& !states[j].accepting
            &&& gets_stop_request(states[i], steps[i]) ==> states[i + 1].active == interrupted(
                states[i].active,
            )
            &&& !gets_stop_request(states[j], steps[j])
            &&& steps[j] == InstanceStep::Admit || steps[j] == InstanceStep::Claim ==> states[j + 1]
                == states[j]
        },
        takes_guest_to_stop(states[i], steps[i]) ==> {
            &&& states[j].slot == GuestSlot::Gone
            &&& !takes_guest_to_stop(states[j], steps[j])
            &&& steps[j] != InstanceStep::Settle
        },
        steps[i] == InstanceStep::FinishStop ==> !states[j].host.alive && !states[j].accepting,
{
    assert(steps_to(states[i], steps[i], states[i + 1]));
    assert(steps_to(states[j], steps[j], states[j + 1]));
    stopped_instances_stay_stopped(states, steps, i + 1, j);
}

/// Two calls of one instance that are admitted at different times have
/// different request identities, as long as the counter has not come round.
pub proof fn request_identities_differ(
    earlier: WasmPluginInstance,
    later: WasmPluginInstance,
    context: Json,
    payload: Json,
)
    requires
        earlier.host.instance_id@ == later.host.instance_id@,
        earlier.sequence < later.sequence,
    ensures
        earlier.next_request(context, payload).request_id != later.next_request(
            context,
            payload,
        ).request_id,
{
    let a = earlier.next_request(context, payload).request_id;
    let b = later.next_request(context, payload).request_id;
    let prefix = earlier.host.instance_id@ + ":"@;
    if a == b {
        let x = decimal_text(earlier.sequence as nat);
        let y = decimal_text(later.sequence as nat);
        assert(a.subrange(prefix.len() as int, a.len() as int) =~= x);
        assert(b.subrange(prefix.len() as int, b.len() as int) =~= y);
        decimal_text_is_injective(earlier.sequence as nat, later.sequence as nat);
    }
}

/// Identities that are generated for one process never repeat.
pub proof fn generated_identities_differ(process: u64, a: u64, b: u64)
    requires
        a != b,
    ensures
        generated_id(process, a) != generated_id(process, b),
{
    let prefix = "wasm:"@ + decimal_text(process as nat) + ":"@;
    let x = generated_id(process, a);
    let y = generated_id(process, b);
    if x == y {
        assert(x.subrange(prefix.len() as int, x.len() as int) =~= decimal_text(a as nat));
        assert(y.subrange(prefix.len() as int, y.len() as int) =~= decimal_text(b as nat));
        decimal_text_is_injective(a as nat, b as nat);
    }
}

}
