//! The loader-facing side of WebAssembly plugins: registered packages, the
//! context of an entry, and host calls.

use vstd::prelude::*;
use vstd::string::*;

use crate::capability::HostBindings;
use crate::document::{json_of_bytes, parse_json_bytes};
use crate::error::{
    plugin_failure, plugin_fault, plugin_message, LoaderError, LoaderFailure, PluginError,
    PluginFailure,
};
use crate::guest::{
    guest_outcome, input_limit_error, input_limit_failure, optional_failure, output_limit_error,
    output_limit_failure, stopped_error, stopped_failure,
};
use crate::json::{lemma_array_view, Json, JsonValue, Member};
use crate::manifest::manifest_fault;
use crate::package::{PackageModel, WasmPackage};
use crate::text::{blank, is_blank, join2, same_text, text_list};
use crate::tree::{Entry, EntryModel};

verus! {

/// A package under the specifier that entries name.
#[derive(Debug)]
pub struct RegisteredPackage {
    pub specifier: String,
    pub package: WasmPackage,
}

/// Loader adapter for registered packages.
#[derive(Debug)]
pub struct WasmPluginRuntime {
    pub packages: Vec<RegisteredPackage>,
}

/// The specifiers and packages of a runtime.
pub open spec fn package_list(packages: Seq<RegisteredPackage>) -> Seq<(Seq<char>, PackageModel)> {
    Seq::new(packages.len(), |i: int| (packages[i].specifier@, packages[i].package@))
}

/// A package is registered under that specifier.
pub open spec fn is_registered(
    packages: Seq<(Seq<char>, PackageModel)>,
    specifier: Seq<char>,
) -> bool {
    exists|i: int| 0 <= i < packages.len() && (#[trigger] packages[i]).0 == specifier
}

/// Why a package is not registered: the first rule, in order, that it breaks.
pub open spec fn registration_fault(
    packages: Seq<(Seq<char>, PackageModel)>,
    specifier: Seq<char>,
    package: PackageModel,
) -> Option<PluginFailure> {
    if manifest_fault(package.manifest) is Some {
        manifest_fault(package.manifest)
    } else if blank(specifier) {
        Some(
            plugin_failure(
                "PACKAGE_INVALID"@,
                "package specifier must not be blank"@,
                "instantiate"@,
            ),
        )
    } else if is_registered(packages, specifier) {
        Some(
            plugin_failure(
                "PACKAGE_ALREADY_REGISTERED"@,
                specifier + " is already registered"@,
                "instantiate"@,
            ),
        )
    } else {
        None
    }
}

impl WasmPluginRuntime {
    /// A runtime without packages.
    pub fn new() -> (result: Self)
        ensures
            package_list(result.packages@) == Seq::<(Seq<char>, PackageModel)>::empty(),
    {
        let result = WasmPluginRuntime { packages: Vec::new() };
        assert(package_list(result.packages@) =~= Seq::empty());
        result
    }

    /// The place of the package registered under a specifier.
    pub fn find(&self, specifier: &str) -> (result: Option<usize>)
        ensures
            match result {
                Some(at) => at < self.packages@.len() && self.packages@[at as int].specifier@
                    == specifier@,
                None => !is_registered(package_list(self.packages@), specifier@),
            },
    {
        let ghost model = package_list(self.packages@);
        let mut i: usize = 0;
        while i < self.packages.len()
            invariant
                i <= self.packages@.len(),
                model == package_list(self.packages@),
                forall|k: int| 0 <= k < i ==> (#[trigger] model[k]).0 != specifier@,
            decreases self.packages@.len() - i,
        {
            assert(model[i as int].0 == self.packages@[i as int].specifier@);
            if same_text(self.packages[i].specifier.as_str(), specifier) {
                return Some(i);
            }
            i += 1;
        }
        None
    }

    /// Registers a package under a specifier; each specifier at most once.
    pub fn register(&mut self, specifier: String, package: WasmPackage) -> (result: Result<
        (),
        PluginError,
    >)
        ensures
            plugin_fault(result) == registration_fault(
                package_list(old(self).packages@),
                specifier@,
                package@,
            ),
            package_list(final(self).packages@) == (if result is Ok {
                package_list(old(self).packages@).push((specifier@, package@))
            } else {
                package_list(old(self).packages@)
            }),
    {
        match package.manifest.validate() {
            Ok(()) => {},
            Err(error) => {
                return Err(error);
            },
        }
        if is_blank(specifier.as_str()) {
            return Err(
                PluginError::new(
                    "PACKAGE_INVALID",
                    "package specifier must not be blank",
                    "instantiate",
                ),
            );
        }
        if let Some(at) = self.find(specifier.as_str()) {
            assert(package_list(self.packages@)[at as int].0 == specifier@);
            return Err(
                PluginError::new(
                    "PACKAGE_ALREADY_REGISTERED",
                    join2(specifier.as_str(), " is already registered").as_str(),
                    "instantiate",
                ),
            );
        }
        let ghost before = package_list(self.packages@);
        let registered = RegisteredPackage { specifier, package };
        self.packages.push(registered);
        assert(package_list(self.packages@) =~= before.push((specifier@, package@)));
        Ok(())
    }
}

/// The models of a list of texts as JSON strings.
pub open spec fn json_texts(texts: Seq<Seq<char>>) -> Seq<Json> {
    Seq::new(texts.len(), |i: int| Json::String(texts[i]))
}

/// What a guest is told of the entry that it runs for.
pub open spec fn entry_context(entry: EntryModel) -> Json {
    Json::Object(
        seq![
            ("entryId"@, Json::String(entry.options.id)),
            (
                "entryName"@,
                match entry.options.name {
                    Some(name) => Json::String(name),
                    None => Json::Null,
                },
            ),
            ("inject"@, Json::Array(json_texts(entry.options.inject))),
        ],
    )
}

/// Builds what a guest is told of the entry that it runs for.
pub fn context_of(entry: &Entry) -> (result: JsonValue)
    ensures
        result@ == entry_context(entry@),
{
    let mut inject: Vec<JsonValue> = Vec::new();
    let ghost texts = text_list(entry.options.inject@);
    let mut i: usize = 0;
    while i < entry.options.inject.len()
        invariant
            i <= entry.options.inject@.len(),
            texts == text_list(entry.options.inject@),
            inject@.len() == i,
            forall|k: int| 0 <= k < i ==> (#[trigger] inject@[k])@ == Json::String(texts[k]),
        decreases entry.options.inject@.len() - i,
    {
        let text = JsonValue::String(entry.options.inject[i].clone());
        assert(text@ == Json::String(texts[i as int]));
        inject.push(text);
        i += 1;
    }
    let list = JsonValue::Array(inject);
    proof {
        lemma_array_view(list);
        assert(list@->Array_0 =~= json_texts(texts));
    }
    let name = match &entry.options.name {
        Some(name) => JsonValue::String(name.clone()),
        None => JsonValue::Null,
    };
    let id = JsonValue::String(entry.options.id.0.clone());
    assert(id@ == Json::String(entry@.options.id));
    let result = JsonValue::Object(
        vec![
            Member { key: "entryId".to_owned(), value: id },
            Member { key: "entryName".to_owned(), value: name },
            Member { key: "inject".to_owned(), value: list },
        ],
    );
    proof {
        lemma_array_view(result);
        assert(result@->Object_0 =~= entry_context(entry@)->Object_0);
    }
    result
}

/// The details that give the reason of a refused host call.
pub open spec fn reason_details(reason: Seq<char>) -> Json {
    Json::Object(seq![("reason"@, Json::String(reason))])
}

/// What a guest's bytes mean for a host call: the input limit comes before the
/// contents. `document` is what the bytes read as.
pub open spec fn host_payload(
    bindings: HostBindings,
    length: nat,
    document: Result<Json, Seq<char>>,
) -> Result<Json, PluginFailure> {
    if length > bindings.max_input_bytes {
        Err(input_limit_failure(bindings.max_input_bytes as nat, length))
    } else {
        match document {
            Ok(value) => Ok(value),
            Err(reason) => Err(
                PluginFailure {
                    details: Some(reason_details(reason)),
                    ..plugin_failure("invalid_request"@, "invalid request envelope"@, "host"@)
                },
            ),
        }
    }
}

/// Refuses a host call whose input is over the limit, before it is read.
pub fn check_host_input(bindings: &HostBindings, length: usize) -> (result: Result<(), PluginError>)
    ensures
        plugin_fault(result) == (if length > bindings.max_input_bytes {
            Some(input_limit_failure(bindings.max_input_bytes as nat, length as nat))
        } else {
            None
        }),
{
    if length > bindings.max_input_bytes {
        Err(input_limit_error(bindings.max_input_bytes, length))
    } else {
        Ok(())
    }
}

/// Reads the payload of a host call from the bytes that the guest passed.
pub fn read_host_payload(bindings: &HostBindings, bytes: &[u8]) -> (result: Result<
    JsonValue,
    PluginError,
>)
    ensures
        guest_outcome(result) == host_payload(*bindings, bytes@.len(), json_of_bytes(bytes@)),
{
    match check_host_input(bindings, bytes.len()) {
        Ok(()) => {},
        Err(error) => return Err(error),
    }
    match parse_json_bytes(bytes) {
        Ok(value) => Ok(value),
        Err(reason) => Err(invalid_request("invalid request envelope", reason)),
    }
}

/// The error of a host call whose bytes could not be used.
pub fn invalid_request(message: &str, reason: String) -> (result: PluginError)
    ensures
        result@ == (PluginFailure {
            details: Some(reason_details(reason@)),
            ..plugin_failure("invalid_request"@, message@, "host"@)
        }),
{
    let details = JsonValue::Object(
        vec![Member { key: "reason".to_owned(), value: JsonValue::String(reason) }],
    );
    proof {
        lemma_array_view(details);
        assert(details@->Object_0 =~= reason_details(reason@)->Object_0);
    }
    PluginError::new("invalid_request", message, "host").with_details(details)
}

/// The error that replaces the reply to a host call, when the encoded reply
/// does not fit the output limit.
pub fn oversized_reply(length: usize, max_output_bytes: usize) -> (result: Option<PluginError>)
    ensures
        optional_failure(result) == (if length <= max_output_bytes {
            None
        } else {
            Some(output_limit_failure(max_output_bytes as nat, length as nat))
        }),
{
    if length <= max_output_bytes {
        None
    } else {
        Some(output_limit_error(max_output_bytes, length))
    }
}

/// A plugin error as the loader reports it.
pub fn loader_error(error: &PluginError) -> (result: LoaderError)
    ensures
        result@ == LoaderFailure::Validation(plugin_message(error@)),
{
    LoaderError::Validation(error.text())
}

/// What activating a handle asks for.
#[derive(Debug)]
pub enum Activation {
    /// Initialize the guest.
    Initialize,
    /// Nothing; it was initialized before.
    Done,
    /// The instance has stopped.
    Refused(PluginError),
}

/// The live handle of one entry.
#[derive(Debug)]
pub struct WasmRuntimeHandle {
    pub activated: bool,
}

impl WasmRuntimeHandle {
    pub fn new() -> (result: Self)
        ensures
            !result.activated,
    {
        WasmRuntimeHandle { activated: false }
    }

    /// Decides what activation asks for.
    pub fn activate(&self, stopped: bool) -> (result: Activation)
        ensures
            match result {
                Activation::Refused(error) => stopped && error@ == stopped_failure("init"@),
                Activation::Initialize => !stopped && !self.activated,
                Activation::Done => !stopped && self.activated,
            },
    {
        if stopped {
            Activation::Refused(stopped_error("init"))
        } else if !self.activated {
            Activation::Initialize
        } else {
            Activation::Done
        }
    }

    /// Records that the guest was initialized.
    pub fn initialized(&mut self)
        ensures
            final(self).activated,
    {
        self.activated = true;
    }

    /// The outcome of disposing a handle: the instance's own stop fails first,
    /// then the drain of its guard.
    pub fn disposed(stopped: Result<(), PluginError>, drained: Result<(), PluginError>) -> (result:
        Result<(), PluginError>)
        ensures
            plugin_fault(result) == (match plugin_fault(stopped) {
                Some(failure) => Some(failure),
                None => plugin_fault(drained),
            }),
    {
        match stopped {
            Err(error) => Err(error),
            Ok(()) => drained,
        }
    }
}

}
