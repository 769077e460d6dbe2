//! Host capabilities and who may use them.

use vstd::prelude::*;
use vstd::string::*;

use crate::error::{plugin_failure, plugin_fault, PluginError, PluginFailure};
use crate::guest::{output_limit_error, output_limit_failure, stopped_error, stopped_failure};
use crate::json::{Json, JsonValue};
use crate::manifest::Capability;
use crate::text::join2;

verus! {

/// Whether `values` holds `capability`.
pub fn holds_capability(values: &Vec<Capability>, capability: Capability) -> (result: bool)
    ensures
        result == values@.contains(capability),
{
    let mut i: usize = 0;
    while i < values.len()
        invariant
            i <= values@.len(),
            forall|k: int| 0 <= k < i ==> #[trigger] values@[k] != capability,
        decreases values@.len() - i,
    {
        if values[i] == capability {
            return true;
        }
        i += 1;
    }
    false
}

/// Host policy: which capabilities have an implementation, and which are
/// granted. Registration alone does not grant access.
#[derive(Debug)]
pub struct CapabilityRegistry {
    pub handlers: Vec<Capability>,
    pub granted: Vec<Capability>,
}

/// The model of a host policy.
#[verifier::ext_equal]
pub struct PolicyModel {
    pub handlers: Set<Capability>,
    pub granted: Set<Capability>,
}

impl View for CapabilityRegistry {
    type V = PolicyModel;

    open spec fn view(&self) -> PolicyModel {
        PolicyModel { handlers: self.handlers@.to_set(), granted: self.granted@.to_set() }
    }
}

/// Why a capability may not be used: the guest must declare it, the host must
/// grant it, and an implementation must be there, in this order.
pub open spec fn access_fault(
    policy: PolicyModel,
    permissions: Seq<Capability>,
    capability: Capability,
) -> Option<PluginFailure> {
    if !permissions.contains(capability) {
        Some(
            plugin_failure(
                "PERMISSION_DENIED"@,
                capability.spec_str() + " is not declared by this plugin"@,
                "call"@,
            ),
        )
    } else if !policy.granted.contains(capability) {
        Some(
            plugin_failure(
                "PERMISSION_DENIED"@,
                capability.spec_str() + " is not granted by host policy"@,
                "call"@,
            ),
        )
    } else if !policy.handlers.contains(capability) {
        Some(
            plugin_failure(
                "CAPABILITY_UNAVAILABLE"@,
                capability.spec_str() + " has no host handler"@,
                "call"@,
            ),
        )
    } else {
        None
    }
}

impl CapabilityRegistry {
    /// A policy without implementations or grants.
    pub fn new() -> (result: Self)
        ensures
            result@ == (PolicyModel { handlers: Set::empty(), granted: Set::empty() }),
    {
        let result = CapabilityRegistry { handlers: Vec::new(), granted: Vec::new() };
        assert(result@.handlers =~= Set::empty());
        assert(result@.granted =~= Set::empty());
        result
    }

    /// Records that the host implements a capability; each at most once.
    pub fn register(&mut self, capability: Capability) -> (result: Result<(), PluginError>)
        ensures
            match result {
                Ok(()) => !old(self)@.handlers.contains(capability) && final(self)@ == (
                PolicyModel { handlers: old(self)@.handlers.insert(capability), ..old(self)@ }),
                Err(error) => old(self)@.handlers.contains(capability) && final(self)@ == old(self)@
                    && error@ == plugin_failure(
                    "CAPABILITY_ALREADY_REGISTERED"@,
                    capability.spec_str() + " already has a host handler"@,
                    "host"@,
                ),
            },
    {
        if holds_capability(&self.handlers, capability) {
            return Err(
                PluginError::new(
                    "CAPABILITY_ALREADY_REGISTERED",
                    join2(capability.as_str(), " already has a host handler").as_str(),
                    "host",
                ),
            );
        }
        let ghost before = self.handlers@;
        self.handlers.push(capability);
        proof {
            before.lemma_push_to_set_commute(capability);
        }
        Ok(())
    }

    /// Allows a capability.
    pub fn grant(&mut self, capability: Capability)
        ensures
            final(self)@ == (PolicyModel {
                granted: old(self)@.granted.insert(capability),
                ..old(self)@
            }),
    {
        let ghost before = self.granted@;
        if !holds_capability(&self.granted, capability) {
            self.granted.push(capability);
            proof {
                before.lemma_push_to_set_commute(capability);
            }
        } else {
            assert(self@.granted =~= old(self)@.granted.insert(capability));
        }
    }

    /// Withdraws a capability.
    pub fn revoke(&mut self, capability: Capability)
        ensures
            final(self)@ == (PolicyModel {
                granted: old(self)@.granted.remove(capability),
                ..old(self)@
            }),
    {
        let mut kept: Vec<Capability> = Vec::new();
        let mut i: usize = 0;
        while i < self.granted.len()
            invariant
                i <= self.granted@.len(),
                *self == *old(self),
                forall|c: Capability|
                    kept@.contains(c) <==> c != capability && self.granted@.subrange(
                        0,
                        i as int,
                    ).contains(c),
            decreases self.granted@.len() - i,
        {
            let ghost before = kept@;
            let ghost shorter = self.granted@.subrange(0, i as int);
            let current = self.granted[i];
            assert(self.granted@.subrange(0, i + 1) =~= shorter.push(current));
            if current != capability {
                kept.push(current);
            }
            proof {
                assert forall|c: Capability|
                    kept@.contains(c) <==> c != capability && shorter.push(current).contains(c) by {
                    vstd::seq_lib::lemma_seq_contains_after_push(shorter, current, c);
                    vstd::seq_lib::lemma_seq_contains_after_push(before, current, c);
                }
            }
            i += 1;
        }
        let ghost all = self.granted@;
        assert(all.subrange(0, all.len() as int) =~= all);
        self.granted = kept;
        assert(self@.granted =~= old(self)@.granted.remove(capability));
    }

    /// Whether a capability is allowed.
    pub fn is_granted(&self, capability: Capability) -> (result: bool)
        ensures
            result == self@.granted.contains(capability),
    {
        holds_capability(&self.granted, capability)
    }

    /// Decides whether a guest with these permissions may use a capability.
    pub fn authorize(&self, permissions: &Vec<Capability>, capability: Capability) -> (result:
        Result<(), PluginError>)
        ensures
            plugin_fault(result) == access_fault(self@, permissions@, capability),
    {
        if !holds_capability(permissions, capability) {
            return Err(
                PluginError::new(
                    "PERMISSION_DENIED",
                    join2(capability.as_str(), " is not declared by this plugin").as_str(),
                    "call",
                ),
            );
        }
        if !self.is_granted(capability) {
            return Err(
                PluginError::new(
                    "PERMISSION_DENIED",
                    join2(capability.as_str(), " is not granted by host policy").as_str(),
                    "call",
                ),
            );
        }
        if !holds_capability(&self.handlers, capability) {
            return Err(
                PluginError::new(
                    "CAPABILITY_UNAVAILABLE",
                    join2(capability.as_str(), " has no host handler").as_str(),
                    "call",
                ),
            );
        }
        Ok(())
    }
}

/// What a capability implementation is asked.
#[derive(Debug)]
pub struct CapabilityRequest {
    pub capability: Capability,
    pub plugin_id: String,
    pub instance_id: String,
    pub payload: JsonValue,
}

/// The model of a capability request.
#[verifier::ext_equal]
pub struct CapabilityRequestModel {
    pub capability: Capability,
    pub plugin_id: Seq<char>,
    pub instance_id: Seq<char>,
    pub payload: Json,
}

impl View for CapabilityRequest {
    type V = CapabilityRequestModel;

    open spec fn view(&self) -> CapabilityRequestModel {
        CapabilityRequestModel {
            capability: self.capability,
            plugin_id: self.plugin_id@,
            instance_id: self.instance_id@,
            payload: self.payload@,
        }
    }
}

/// The authorization context of one guest instance.
#[derive(Debug)]
pub struct HostBindings {
    pub permissions: Vec<Capability>,
    pub plugin_id: String,
    pub instance_id: String,
    pub alive: bool,
    pub max_input_bytes: usize,
    pub max_output_bytes: usize,
}

/// Why an invocation does not reach its implementation: the instance has
/// stopped, or the capability may not be used.
pub open spec fn invocation_fault(
    policy: PolicyModel,
    bindings: HostBindings,
    capability: Capability,
) -> Option<PluginFailure> {
    if !bindings.alive {
        Some(stopped_failure("host"@))
    } else {
        access_fault(policy, bindings.permissions@, capability)
    }
}

impl HostBindings {
    /// Decides whether an invocation may reach its implementation, and what
    /// the implementation is asked.
    pub fn invoke(
        &self,
        registry: &CapabilityRegistry,
        capability: Capability,
        payload: JsonValue,
    ) -> (result: Result<CapabilityRequest, PluginError>)
        ensures
            match result {
                Ok(request) => invocation_fault(registry@, *self, capability) is None && request@
                    == (CapabilityRequestModel {
                    capability,
                    plugin_id: self.plugin_id@,
                    instance_id: self.instance_id@,
                    payload: payload@,
                }),
                Err(error) => invocation_fault(registry@, *self, capability) == Some(error@),
            },
    {
        if !self.alive {
            return Err(stopped_error("host"));
        }
        match registry.authorize(&self.permissions, capability) {
            Ok(()) => Ok(
                CapabilityRequest {
                    capability,
                    plugin_id: self.plugin_id.clone(),
                    instance_id: self.instance_id.clone(),
                    payload,
                },
            ),
            Err(error) => Err(error),
        }
    }

    /// Checks that what an implementation returned, once encoded, fits the
    /// output limit.
    pub fn check_output(&self, length: usize) -> (result: Result<(), PluginError>)
        ensures
            plugin_fault(result) == (if length > self.max_output_bytes {
                Some(output_limit_failure(self.max_output_bytes as nat, length as nat))
            } else {
                None
            }),
    {
        if length > self.max_output_bytes {
            Err(output_limit_error(self.max_output_bytes, length))
        } else {
            Ok(())
        }
    }

    pub fn is_alive(&self) -> (result: bool)
        ensures
            result == self.alive,
    {
        self.alive
    }

    /// The identity of the instance that these bindings serve.
    pub fn instance_id(&self) -> (result: &str)
        ensures
            result@ == self.instance_id@,
    {
        self.instance_id.as_str()
    }
}

/// A capability is reachable exactly when it is declared, granted and
/// implemented.
pub proof fn access_needs_declaration_grant_and_handler(
    policy: PolicyModel,
    permissions: Seq<Capability>,
    capability: Capability,
)
    ensures
        access_fault(policy, permissions, capability) is None <==> permissions.contains(capability)
            && policy.granted.contains(capability) && policy.handlers.contains(capability),
{
}

/// Withdrawing a grant closes the capability, whatever else is set.
pub proof fn revoked_capabilities_are_closed(
    policy: PolicyModel,
    permissions: Seq<Capability>,
    capability: Capability,
)
    ensures
        access_fault(
            PolicyModel { granted: policy.granted.remove(capability), ..policy },
            permissions,
            capability,
        ) is Some,
{
}

}
