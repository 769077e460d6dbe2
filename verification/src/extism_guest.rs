//! Guests that the Extism runtime executes.

use vstd::prelude::*;
use vstd::string::*;

use crate::engine::{engine_fault, ExtismGuestEngine};
use crate::error::PluginError;
use crate::guest::{
    engine_error, fuel_failure, output_limit_error, output_limit_failure, trap_failure,
    ResourceLimits,
};
use crate::manifest::GuestExport;
use crate::package::WasmPackage;

verus! {

/// A plugin of the Extism runtime. Its memory and what its functions do are
/// not modelled.
#[verifier::external_type_specification]
#[verifier::external_body]
pub struct ExPlugin(extism::Plugin);

/// A host function that an Extism plugin may call.
#[verifier::external_type_specification]
#[verifier::external_body]
pub struct ExFunction(extism::Function);

/// An error of the Extism runtime.
#[verifier::external_type_specification]
#[verifier::external_body]
pub struct ExError(extism::Error);

/// What a guest is built from, and what it may use.
#[derive(Debug, PartialEq, Eq)]
pub struct GuestPlan {
    pub module: Vec<u8>,
    pub memory_pages: u32,
    pub timeout_nanos: u64,
    pub fuel: u64,
    /// Whether the guest may use the system interface.
    pub wasi: bool,
    /// The network hosts that the guest may reach.
    pub hosts: Vec<String>,
}

/// What a guest is asked: the function and its input.
#[derive(Debug, PartialEq, Eq)]
pub struct GuestEntry<'a> {
    pub name: &'static str,
    pub input: &'a [u8],
}

/// Builds a plugin with `extism::PluginBuilder::build`, from what the plan
/// says and with these host functions. Whether that succeeds is left open: it
/// rests on the compiler of the runtime and on the machine.
#[verifier::external_body]
fn build(plan: GuestPlan, functions: Vec<extism::Function>) -> (result: Result<
    extism::Plugin,
    extism::Error,
>) {
    let manifest = extism::Manifest::new([extism::Wasm::data(plan.module)])
        .with_memory_max(plan.memory_pages)
        .with_timeout(core::time::Duration::from_nanos(plan.timeout_nanos))
        .with_allowed_hosts(plan.hosts.into_iter());
    extism::PluginBuilder::new(manifest)
        .with_functions(functions)
        .with_wasi(plan.wasi)
        .with_fuel_limit(plan.fuel)
        .build()
}

/// Runs a function of a plugin with `extism::Plugin::call` and gives the bytes
/// that it put out, still in the plugin's memory. What they are is left open:
/// it rests on the guest, on its host functions and on the time they take.
#[verifier::external_body]
fn run<'a>(plugin: &'a mut extism::Plugin, entry: GuestEntry) -> (result: Result<
    &'a [u8],
    extism::Error,
>) {
    plugin.call::<&[u8], &'a [u8]>(entry.name, entry.input)
}

/// The fuel that the last call used, from `extism::Plugin::fuel_consumed`;
/// nothing when the plugin was built without a bound. How much it is rests on
/// the guest.
#[verifier::external_body]
fn fuel_consumed(plugin: &extism::Plugin) -> (result: Option<u64>) {
    plugin.fuel_consumed()
}

/// A guest that the Extism runtime executes.
pub struct ExtismGuestInstance {
    pub plugin: extism::Plugin,
    pub fuel_limit: u64,
}

/// What the bytes that a guest put out mean: they are taken over when they fit
/// the limit.
pub fn accept_output(output: &[u8], max_output_bytes: usize) -> (result: Result<
    Vec<u8>,
    PluginError,
>)
    ensures
        match result {
            Ok(bytes) => output@.len() <= max_output_bytes && bytes@ == output@,
            Err(error) => output@.len() > max_output_bytes && error@ == output_limit_failure(
                max_output_bytes as nat,
                output@.len(),
            ),
        },
{
    if output.len() > max_output_bytes {
        return Err(output_limit_error(max_output_bytes, output.len()));
    }
    let mut bytes: Vec<u8> = Vec::new();
    bytes.extend_from_slice(output);
    assert(bytes@ =~= output@);
    Ok(bytes)
}

/// What a guest is asked when an export is called.
pub fn entry_of<'a>(export: GuestExport, input: &'a [u8]) -> (result: GuestEntry<'a>)
    ensures
        result.name@ == export.spec_str(),
        result.input@ == input@,
{
    GuestEntry { name: export.as_str(), input }
}

impl ExtismGuestEngine {
    /// What a guest is built from, once the limits, the manifest and the module
    /// pass every rule: the module of the package under exactly these limits,
    /// without the system interface and without network hosts.
    pub fn plan(&self, package: &WasmPackage, limits: &ResourceLimits) -> (result: Result<
        GuestPlan,
        PluginError,
    >)
        ensures
            match result {
                Ok(plan) => {
                    &&& engine_fault(package@, *limits) is None
                    &&& package@.wasm == Some(plan.module@)
                    &&& plan.memory_pages == limits.memory_pages
                    &&& plan.timeout_nanos == limits.timeout_nanos
                    &&& plan.fuel == limits.fuel
                    &&& !plan.wasi
                    &&& plan.hosts@.len() == 0
                },
                Err(error) => engine_fault(package@, *limits) == Some(error@),
            },
    {
        let wasm = match self.checked_module(package, limits) {
            Ok(wasm) => wasm,
            Err(error) => return Err(error),
        };
        let mut module: Vec<u8> = Vec::new();
        module.extend_from_slice(wasm.as_slice());
        assert(module@ =~= wasm@);
        Ok(
            GuestPlan {
                module,
                memory_pages: limits.memory_pages,
                timeout_nanos: limits.timeout_nanos,
                fuel: limits.fuel,
                wasi: false,
                hosts: Vec::new(),
            },
        )
    }

    /// Builds a guest from its plan. A runtime that cannot build it counts as a
    /// trap.
    pub fn instantiate(
        &self,
        package: &WasmPackage,
        functions: Vec<extism::Function>,
        limits: &ResourceLimits,
    ) -> (result: Result<ExtismGuestInstance, PluginError>)
        ensures
            match engine_fault(package@, *limits) {
                Some(failure) => result is Err && result->Err_0@ == failure,
                None => match result {
                    Ok(guest) => guest.fuel_limit == limits.fuel,
                    Err(error) => error@ == trap_failure("instantiate"@),
                },
            },
    {
        let plan = match self.plan(package, limits) {
            Ok(plan) => plan,
            Err(error) => return Err(error),
        };
        let fuel_limit = plan.fuel;
        match build(plan, functions) {
            Ok(plugin) => Ok(ExtismGuestInstance { plugin, fuel_limit }),
            Err(_) => Err(PluginError::new("GUEST_TRAP", "guest execution failed", "instantiate")),
        }
    }
}

impl ExtismGuestInstance {
    /// Calls an entry point. The caller gets the bytes that the guest put out,
    /// or learns that they do not fit, that the fuel ran out, or that the guest
    /// trapped, and nothing else.
    pub fn call(&mut self, export: GuestExport, input: &[u8], max_output_bytes: usize) -> (result:
        Result<Vec<u8>, PluginError>)
        ensures
            final(self).fuel_limit == old(self).fuel_limit,
            match result {
                Ok(bytes) => bytes@.len() <= max_output_bytes,
                Err(error) => error@ == fuel_failure(export.spec_phase()) || error@ == trap_failure(export.spec_phase()) || exists|length: nat|
                    length > max_output_bytes && error@ == #[trigger] output_limit_failure(
                        max_output_bytes as nat,
                        length,
                    ),
            },
    {
        match run(&mut self.plugin, entry_of(export, input)) {
            Ok(output) => {
                return accept_output(output, max_output_bytes);
            },
            Err(_) => {},
        }
        let consumed = fuel_consumed(&self.plugin);
        Err(engine_error(export, consumed, self.fuel_limit))
    }
}

}
