//! WebAssembly packages: a manifest and, for a real engine, a module.

use vstd::prelude::*;
use vstd::string::*;

use crate::decode::{
    missing, missing_field, read_text, read_text_list, read_texts, text_field, texts_field,
    texts_from, wrong, wrong_field,
};
use crate::document::{json_of_bytes, json_of_text, parse_json, parse_json_bytes};
use crate::error::{plugin_failure, plugin_fault, PluginError, PluginFailure};
use crate::forms::{all_named, as_names, as_record, names_of, record};
use crate::json::{find_member, json_members, lookup, Json, JsonValue, Member};
use crate::manifest::{
    manifest_error, manifest_failure, manifest_fault, module_fault, validate_wasm_exports,
    Capability, GuestExport, ManifestModel, PluginManifest,
};
use crate::repeats::{
    byte_codes, count_in_bytes, count_in_text, text_codes, written_members,
};
use crate::text::{join3, same_text, text_list};

verus! {

/// The key is a field of a manifest.
pub open spec fn is_manifest_key(key: Seq<char>) -> bool {
    key == "id"@ || key == "version"@ || key == "entry"@ || key == "abi"@ || key == "inject"@
        || key == "permissions"@ || key == "configSchema"@ || key == "exports"@
}

/// The first key in `members[from..]` that is no field of a manifest.
pub open spec fn unknown_manifest_key(members: Seq<(Seq<char>, Json)>, from: int) -> Option<
    Seq<char>,
>
    decreases members.len() - from,
{
    if from < 0 || from >= members.len() {
        None
    } else if !is_manifest_key(members[from].0) {
        Some(members[from].0)
    } else {
        unknown_manifest_key(members, from + 1)
    }
}

fn find_unknown_key(members: &Vec<Member>) -> (result: Option<usize>)
    ensures
        match result {
            Some(at) => at < members@.len() && unknown_manifest_key(json_members(members@), 0)
                == Some(members@[at as int].key@),
            None => unknown_manifest_key(json_members(members@), 0) is None,
        },
{
    let ghost model = json_members(members@);
    let mut i: usize = 0;
    while i < members.len()
        invariant
            i <= members@.len(),
            model == json_members(members@),
            unknown_manifest_key(model, 0) == unknown_manifest_key(model, i as int),
        decreases members@.len() - i,
    {
        let key = members[i].key.as_str();
        assert(model[i as int].0 == key@);
        if !(same_text(key, "id") || same_text(key, "version") || same_text(key, "entry")
            || same_text(key, "abi") || same_text(key, "inject") || same_text(key, "permissions")
            || same_text(key, "configSchema") || same_text(key, "exports")) {
            return Some(i);
        }
        i += 1;
    }
    None
}

/// The capability of that name.
pub open spec fn capability_named(name: Seq<char>) -> Option<Capability> {
    if name == "cordis.log"@ {
        Some(Capability::Log)
    } else if name == "cordis.config.get"@ {
        Some(Capability::ConfigGet)
    } else if name == "cordis.service.call"@ {
        Some(Capability::ServiceCall)
    } else if name == "cordis.event.emit"@ {
        Some(Capability::EventEmit)
    } else if name == "cordis.event.subscribe"@ {
        Some(Capability::EventSubscribe)
    } else if name == "cordis.registration.dispose"@ {
        Some(Capability::RegistrationDispose)
    } else if name == "cordis.kv.get"@ {
        Some(Capability::KvGet)
    } else if name == "cordis.kv.set"@ {
        Some(Capability::KvSet)
    } else {
        None
    }
}

/// Finds the capability of that name.
pub fn parse_capability(name: &str) -> (result: Option<Capability>)
    ensures
        result == capability_named(name@),
{
    if same_text(name, "cordis.log") {
        Some(Capability::Log)
    } else if same_text(name, "cordis.config.get") {
        Some(Capability::ConfigGet)
    } else if same_text(name, "cordis.service.call") {
        Some(Capability::ServiceCall)
    } else if same_text(name, "cordis.event.emit") {
        Some(Capability::EventEmit)
    } else if same_text(name, "cordis.event.subscribe") {
        Some(Capability::EventSubscribe)
    } else if same_text(name, "cordis.registration.dispose") {
        Some(Capability::RegistrationDispose)
    } else if same_text(name, "cordis.kv.get") {
        Some(Capability::KvGet)
    } else if same_text(name, "cordis.kv.set") {
        Some(Capability::KvSet)
    } else {
        None
    }
}

/// The export of that name.
pub open spec fn export_named(name: Seq<char>) -> Option<GuestExport> {
    if name == "cordis_init"@ {
        Some(GuestExport::Init)
    } else if name == "cordis_call"@ {
        Some(GuestExport::Call)
    } else if name == "cordis_event"@ {
        Some(GuestExport::Event)
    } else if name == "cordis_update"@ {
        Some(GuestExport::Update)
    } else if name == "cordis_stop"@ {
        Some(GuestExport::Stop)
    } else {
        None
    }
}

/// Finds the export of that name.
pub fn parse_export(name: &str) -> (result: Option<GuestExport>)
    ensures
        result == export_named(name@),
{
    if same_text(name, "cordis_init") {
        Some(GuestExport::Init)
    } else if same_text(name, "cordis_call") {
        Some(GuestExport::Call)
    } else if same_text(name, "cordis_event") {
        Some(GuestExport::Event)
    } else if same_text(name, "cordis_update") {
        Some(GuestExport::Update)
    } else if same_text(name, "cordis_stop") {
        Some(GuestExport::Stop)
    } else {
        None
    }
}

/// The capabilities that `names[from..]` name, or the first unknown name.
pub open spec fn capabilities_from(names: Seq<Seq<char>>, from: int) -> Result<
    Seq<Capability>,
    Seq<char>,
>
    decreases names.len() - from,
{
    if from < 0 || from >= names.len() {
        Ok(Seq::empty())
    } else {
        match capability_named(names[from]) {
            None => Err("unknown capability `"@ + names[from] + "`"@),
            Some(capability) => match capabilities_from(names, from + 1) {
                Err(message) => Err(message),
                Ok(rest) => Ok(seq![capability] + rest),
            },
        }
    }
}

/// The exports that `names[from..]` name, or the first unknown name.
pub open spec fn exports_from(names: Seq<Seq<char>>, from: int) -> Result<
    Seq<GuestExport>,
    Seq<char>,
>
    decreases names.len() - from,
{
    if from < 0 || from >= names.len() {
        Ok(Seq::empty())
    } else {
        match export_named(names[from]) {
            None => Err("unknown export `"@ + names[from] + "`"@),
            Some(export) => match exports_from(names, from + 1) {
                Err(message) => Err(message),
                Ok(rest) => Ok(seq![export] + rest),
            },
        }
    }
}

fn read_capabilities(names: &Vec<String>) -> (result: Result<Vec<Capability>, String>)
    ensures
        capabilities_from(text_list(names@), 0) == (match result {
            Ok(list) => Ok::<Seq<Capability>, Seq<char>>(list@),
            Err(message) => Err::<Seq<Capability>, Seq<char>>(message@),
        }),
{
    let ghost model = text_list(names@);
    let ghost whole = capabilities_from(model, 0);
    let mut list: Vec<Capability> = Vec::new();
    let mut i: usize = 0;
    proof {
        if whole is Ok {
            assert(Seq::<Capability>::empty() + whole->Ok_0 =~= whole->Ok_0);
        }
    }
    while i < names.len()
        invariant
            i <= names@.len(),
            model == text_list(names@),
            whole == capabilities_from(model, 0),
            whole == (match capabilities_from(model, i as int) {
                Ok(rest) => Ok::<Seq<Capability>, Seq<char>>(list@ + rest),
                Err(message) => Err::<Seq<Capability>, Seq<char>>(message),
            }),
        decreases names@.len() - i,
    {
        assert(model[i as int] == names@[i as int]@);
        match parse_capability(names[i].as_str()) {
            None => {
                return Err(join3("unknown capability `", names[i].as_str(), "`"));
            },
            Some(capability) => {
                let ghost before = list@;
                list.push(capability);
                proof {
                    if capabilities_from(model, i + 1) is Ok {
                        let rest = capabilities_from(model, i + 1)->Ok_0;
                        assert(before + (seq![capability] + rest) =~= list@ + rest);
                    }
                }
            },
        }
        i += 1;
    }
    assert(list@ + Seq::<Capability>::empty() =~= list@);
    Ok(list)
}

fn read_exports(names: &Vec<String>) -> (result: Result<Vec<GuestExport>, String>)
    ensures
        exports_from(text_list(names@), 0) == (match result {
            Ok(list) => Ok::<Seq<GuestExport>, Seq<char>>(list@),
            Err(message) => Err::<Seq<GuestExport>, Seq<char>>(message@),
        }),
{
    let ghost model = text_list(names@);
    let ghost whole = exports_from(model, 0);
    let mut list: Vec<GuestExport> = Vec::new();
    let mut i: usize = 0;
    proof {
        if whole is Ok {
            assert(Seq::<GuestExport>::empty() + whole->Ok_0 =~= whole->Ok_0);
        }
    }
    while i < names.len()
        invariant
            i <= names@.len(),
            model == text_list(names@),
            whole == exports_from(model, 0),
            whole == (match exports_from(model, i as int) {
                Ok(rest) => Ok::<Seq<GuestExport>, Seq<char>>(list@ + rest),
                Err(message) => Err::<Seq<GuestExport>, Seq<char>>(message),
            }),
        decreases names@.len() - i,
    {
        assert(model[i as int] == names@[i as int]@);
        match parse_export(names[i].as_str()) {
            None => {
                return Err(join3("unknown export `", names[i].as_str(), "`"));
            },
            Some(export) => {
                let ghost before = list@;
                list.push(export);
                proof {
                    if exports_from(model, i + 1) is Ok {
                        let rest = exports_from(model, i + 1)->Ok_0;
                        assert(before + (seq![export] + rest) =~= list@ + rest);
                    }
                }
            },
        }
        i += 1;
    }
    assert(list@ + Seq::<GuestExport>::empty() =~= list@);
    Ok(list)
}

/// A list of texts that must be there.
pub open spec fn required_texts(members: Seq<(Seq<char>, Json)>, key: Seq<char>) -> Result<
    Seq<Seq<char>>,
    Seq<char>,
> {
    if lookup(members, key) is None {
        Err(missing_field(key))
    } else {
        texts_field(members, key)
    }
}

fn read_required_texts(members: &Vec<Member>, key: &str) -> (result: Result<Vec<String>, String>)
    ensures
        required_texts(json_members(members@), key@) == (match result {
            Ok(texts) => Ok::<Seq<Seq<char>>, Seq<char>>(text_list(texts@)),
            Err(message) => Err::<Seq<Seq<char>>, Seq<char>>(message@),
        }),
{
    if find_member(members, key).is_none() {
        return Err(missing(key));
    }
    read_texts(members, key)
}

/// A list of names that must be there.
pub open spec fn required_names(members: Seq<(Seq<char>, Json)>, key: Seq<char>) -> Result<
    Seq<Seq<char>>,
    Seq<char>,
> {
    match lookup(members, key) {
        None => Err(missing_field(key)),
        Some(Json::Array(values)) => match texts_from(all_named(values), 0) {
            Some(texts) => Ok(texts),
            None => Err(wrong_field(key, "a list of strings"@)),
        },
        Some(_) => Err(wrong_field(key, "a list of strings"@)),
    }
}

fn read_required_names(members: &Vec<Member>, key: &str) -> (result: Result<Vec<String>, String>)
    ensures
        required_names(json_members(members@), key@) == (match result {
            Ok(texts) => Ok::<Seq<Seq<char>>, Seq<char>>(text_list(texts@)),
            Err(message) => Err::<Seq<Seq<char>>, Seq<char>>(message@),
        }),
{
    match find_member(members, key) {
        None => Err(missing(key)),
        Some(at) => match members[at].value.as_array() {
            None => Err(wrong(key, "a list of strings")),
            Some(values) => match read_text_list(&as_names(values)) {
                Some(texts) => Ok(texts),
                None => Err(wrong(key, "a list of strings")),
            },
        },
    }
}

/// The fields of a manifest, in order.
pub open spec fn manifest_fields() -> Seq<Seq<char>> {
    seq![
        "id"@,
        "version"@,
        "entry"@,
        "abi"@,
        "inject"@,
        "permissions"@,
        "configSchema"@,
        "exports"@,
    ]
}

/// The manifest that the members of a document give. Every field must be
/// there, and nothing else.
pub open spec fn manifest_of(members: Seq<(Seq<char>, Json)>) -> Result<ManifestModel, Seq<char>> {
    match unknown_manifest_key(members, 0) {
        Some(key) => Err("unknown field `"@ + key + "`"@),
        None => match text_field(members, "id"@) {
            Err(message) => Err(message),
            Ok(id) => match text_field(members, "version"@) {
                Err(message) => Err(message),
                Ok(version) => match text_field(members, "entry"@) {
                    Err(message) => Err(message),
                    Ok(entry) => match text_field(members, "abi"@) {
                        Err(message) => Err(message),
                        Ok(abi) => match required_texts(members, "inject"@) {
                            Err(message) => Err(message),
                            Ok(inject) => manifest_lists(members, id, version, entry, abi, inject),
                        },
                    },
                },
            },
        },
    }
}

/// The manifest, once its plain fields are read.
pub open spec fn manifest_lists(
    members: Seq<(Seq<char>, Json)>,
    id: Seq<char>,
    version: Seq<char>,
    entry: Seq<char>,
    abi: Seq<char>,
    inject: Seq<Seq<char>>,
) -> Result<ManifestModel, Seq<char>> {
    match required_names(members, "permissions"@) {
        Err(message) => Err(message),
        Ok(permission_names) => match capabilities_from(permission_names, 0) {
            Err(message) => Err(message),
            Ok(permissions) => match lookup(members, "configSchema"@) {
                None => Err(missing_field("configSchema"@)),
                Some(config_schema) => match required_names(members, "exports"@) {
                    Err(message) => Err(message),
                    Ok(export_names) => match exports_from(export_names, 0) {
                        Err(message) => Err(message),
                        Ok(exports) => Ok(
                            ManifestModel {
                                id,
                                version,
                                entry,
                                abi,
                                inject,
                                permissions,
                                config_schema,
                                exports,
                            },
                        ),
                    },
                },
            },
        },
    }
}

fn read_manifest(members: &Vec<Member>) -> (result: Result<PluginManifest, String>)
    ensures
        manifest_of(json_members(members@)) == (match result {
            Ok(manifest) => Ok::<ManifestModel, Seq<char>>(manifest@),
            Err(message) => Err::<ManifestModel, Seq<char>>(message@),
        }),
{
    if let Some(at) = find_unknown_key(members) {
        return Err(join3("unknown field `", members[at].key.as_str(), "`"));
    }
    let id = match read_text(members, "id") {
        Ok(id) => id,
        Err(message) => return Err(message),
    };
    let version = match read_text(members, "version") {
        Ok(version) => version,
        Err(message) => return Err(message),
    };
    let entry = match read_text(members, "entry") {
        Ok(entry) => entry,
        Err(message) => return Err(message),
    };
    let abi = match read_text(members, "abi") {
        Ok(abi) => abi,
        Err(message) => return Err(message),
    };
    let inject = match read_required_texts(members, "inject") {
        Ok(inject) => inject,
        Err(message) => return Err(message),
    };
    let permission_names = match read_required_names(members, "permissions") {
        Ok(names) => names,
        Err(message) => return Err(message),
    };
    let permissions = match read_capabilities(&permission_names) {
        Ok(permissions) => permissions,
        Err(message) => return Err(message),
    };
    let config_schema = match find_member(members, "configSchema") {
        Some(at) => members[at].value.clone(),
        None => return Err(missing("configSchema")),
    };
    let export_names = match read_required_names(members, "exports") {
        Ok(names) => names,
        Err(message) => return Err(message),
    };
    let exports = match read_exports(&export_names) {
        Ok(exports) => exports,
        Err(message) => return Err(message),
    };
    Ok(
        PluginManifest {
            id,
            version,
            entry,
            abi,
            inject,
            permissions,
            config_schema,
            exports,
        },
    )
}

/// The manifest of a document, given what the document reads as: a manifest
/// that passes every rule.
pub open spec fn manifest_of_document(document: Result<Json, Seq<char>>, source: Seq<char>) -> Result<
    ManifestModel,
    PluginFailure,
> {
    let outcome = match document {
        Err(message) => Err(message),
        Ok(value) => match record(value, manifest_fields(), 8) {
            Json::Object(members) => manifest_of(members),
            _ => Err("a manifest must be an object"@),
        },
    };
    match outcome {
        Err(message) => Err(
            plugin_failure(
                "MANIFEST_INVALID"@,
                "cannot parse "@ + source + ": "@ + message,
                "manifest"@,
            ),
        ),
        Ok(manifest) => match manifest_fault(manifest) {
            Some(failure) => Err(failure),
            None => Ok(manifest),
        },
    }
}

/// A manifest, or the failure that took its place.
pub open spec fn manifest_outcome(result: Result<PluginManifest, PluginError>) -> Result<
    ManifestModel,
    PluginFailure,
> {
    match result {
        Ok(manifest) => Ok(manifest@),
        Err(error) => Err(error@),
    }
}

/// The manifest of a document, given also how many members the document is
/// written with: a field may be given once.
pub open spec fn manifest_of_source(
    document: Result<Json, Seq<char>>,
    written: nat,
    source: Seq<char>,
) -> Result<ManifestModel, PluginFailure> {
    if document matches Ok(Json::Object(members)) && members.len() != written {
        Err(
            plugin_failure(
                "MANIFEST_INVALID"@,
                "cannot parse "@ + source + ": a field is given twice"@,
                "manifest"@,
            ),
        )
    } else {
        manifest_of_document(document, source)
    }
}

/// The outermost object of a document.
pub open spec fn outermost() -> Seq<bool> {
    seq![true]
}

fn accept_source(value: &JsonValue, written: usize, source: &str) -> (result: Result<
    PluginManifest,
    PluginError,
>)
    ensures
        manifest_outcome(result) == manifest_of_source(
            Ok::<Json, Seq<char>>(value@),
            written as nat,
            source@,
        ),
{
    if let Some(members) = value.as_object() {
        assert(json_members(members@).len() == members@.len());
        if members.len() != written {
            let error = parse_failure(source, "a field is given twice");
            assert(": "@ + "a field is given twice"@ =~= ": a field is given twice"@) by {
                reveal_strlit(": ");
                reveal_strlit("a field is given twice");
                reveal_strlit(": a field is given twice");
            }
            assert("cannot parse "@ + source@ + ": "@ + "a field is given twice"@
                =~= "cannot parse "@ + source@ + (": "@ + "a field is given twice"@));
            return Err(error);
        }
    }
    accept_manifest(value, source)
}

fn parse_failure(source: &str, message: &str) -> (result: PluginError)
    ensures
        result@ == plugin_failure(
            "MANIFEST_INVALID"@,
            "cannot parse "@ + source@ + ": "@ + message@,
            "manifest"@,
        ),
{
    let mut text = join3("cannot parse ", source, ": ");
    text.append(message);
    PluginError::new("MANIFEST_INVALID", text.as_str(), "manifest")
}

/// Reads a manifest from the value of a document that came from `source`.
pub fn accept_manifest(value: &JsonValue, source: &str) -> (result: Result<
    PluginManifest,
    PluginError,
>)
    ensures
        manifest_outcome(result) == manifest_of_document(
            Ok::<Json, Seq<char>>(value@),
            source@,
        ),
{
    let fields = names_of(
        &["id", "version", "entry", "abi", "inject", "permissions", "configSchema", "exports"],
    );
    assert(text_list(fields@) =~= manifest_fields());
    let plain = as_record(value, &fields, 8);
    let members = match plain.as_object() {
        None => return Err(parse_failure(source, "a manifest must be an object")),
        Some(members) => members,
    };
    let manifest = match read_manifest(members) {
        Ok(manifest) => manifest,
        Err(message) => return Err(parse_failure(source, message.as_str())),
    };
    match manifest.validate() {
        Ok(()) => Ok(manifest),
        Err(error) => Err(error),
    }
}

impl PluginManifest {
    /// Reads a manifest from a JSON text.
    pub fn from_json(document: &str) -> (result: Result<PluginManifest, PluginError>)
        ensures
            manifest_outcome(result) == manifest_of_source(
                json_of_text(document@),
                written_members(text_codes(document@), outermost()),
                "manifest"@,
            ),
    {
        match parse_json(document) {
            Ok(value) => {
                let wanted = vec![true];
                assert(wanted@ =~= outermost());
                accept_source(&value, count_in_text(document, &wanted), "manifest")
            },
            Err(message) => Err(parse_failure("manifest", message.as_str())),
        }
    }
}

/// The largest manifest file that is accepted, in bytes.
pub const MAX_MANIFEST_BYTES: u64 = 262_144;

/// The failure of a package file that cannot be read.
pub open spec fn read_failure(message: Seq<char>) -> PluginFailure {
    plugin_failure("PACKAGE_READ_FAILED"@, message, "instantiate"@)
}

/// Checks the size of a package file before it is read. A file that may not
/// be followed counts as unreadable.
pub fn check_package_file(path: &str, regular: bool, length: u64, limit: u64) -> (result: Result<
    (),
    PluginError,
>)
    ensures
        plugin_fault(result) == (if !regular {
            Some(read_failure("cannot read "@ + path@ + ": not a regular file"@))
        } else if length > limit {
            Some(read_failure("cannot read "@ + path@ + ": file exceeds its size limit"@))
        } else {
            None
        }),
{
    if !regular {
        let text = join3("cannot read ", path, ": not a regular file");
        return Err(PluginError::new("PACKAGE_READ_FAILED", text.as_str(), "instantiate"));
    }
    if length > limit {
        let text = join3("cannot read ", path, ": file exceeds its size limit");
        return Err(PluginError::new("PACKAGE_READ_FAILED", text.as_str(), "instantiate"));
    }
    Ok(())
}

/// Checks that the entry of a package, once every link is resolved, lies in the
/// directory of the package. Both paths come as their components.
pub fn check_entry_location(directory: &Vec<String>, entry: &Vec<String>) -> (result: Result<
    (),
    PluginError,
>)
    ensures
        plugin_fault(result) == (if text_list(directory@).is_prefix_of(text_list(entry@)) {
            None
        } else {
            Some(manifest_failure("entry resolves outside its package directory"@))
        }),
{
    let ghost outer = text_list(directory@);
    let ghost inner = text_list(entry@);
    if directory.len() > entry.len() {
        return Err(manifest_error("entry resolves outside its package directory"));
    }
    let mut i: usize = 0;
    while i < directory.len()
        invariant
            outer == text_list(directory@),
            inner == text_list(entry@),
            i <= outer.len() <= inner.len(),
            forall|k: int| 0 <= k < i ==> #[trigger] outer[k] == inner[k],
        decreases outer.len() - i,
    {
        assert(outer[i as int] == directory@[i as int]@);
        assert(inner[i as int] == entry@[i as int]@);
        if !same_text(directory[i].as_str(), entry[i].as_str()) {
            assert(inner.subrange(0, outer.len() as int)[i as int] == inner[i as int]);
            return Err(manifest_error("entry resolves outside its package directory"));
        }
        i += 1;
    }
    assert(outer =~= inner.subrange(0, outer.len() as int));
    Ok(())
}

/// A module and its validated package manifest.
#[derive(Debug)]
pub struct WasmPackage {
    pub manifest: PluginManifest,
    /// Absent only for engines that run no WebAssembly.
    pub wasm: Option<Vec<u8>>,
}

/// The model of a package.
#[verifier::ext_equal]
pub struct PackageModel {
    pub manifest: ManifestModel,
    pub wasm: Option<Seq<u8>>,
}

impl View for WasmPackage {
    type V = PackageModel;

    open spec fn view(&self) -> PackageModel {
        PackageModel {
            manifest: self.manifest@,
            wasm: match self.wasm {
                Some(bytes) => Some(bytes@),
                None => None,
            },
        }
    }
}

/// A package, or the failure that took its place.
pub open spec fn package_outcome(result: Result<WasmPackage, PluginError>) -> Result<
    PackageModel,
    PluginFailure,
> {
    match result {
        Ok(package) => Ok(package@),
        Err(error) => Err(error@),
    }
}

/// A package of a manifest and a module that pass every rule.
pub open spec fn package_of(manifest: ManifestModel, wasm: Seq<u8>) -> Result<
    PackageModel,
    PluginFailure,
> {
    match manifest_fault(manifest) {
        Some(failure) => Err(failure),
        None => match module_fault(wasm) {
            Some(failure) => Err(failure),
            None => Ok(PackageModel { manifest, wasm: Some(wasm) }),
        },
    }
}

impl WasmPackage {
    /// A package with a module.
    pub fn from_bytes(manifest: PluginManifest, wasm: Vec<u8>) -> (result: Result<
        WasmPackage,
        PluginError,
    >)
        ensures
            package_outcome(result) == package_of(manifest@, wasm@),
    {
        match manifest.validate() {
            Ok(()) => {},
            Err(error) => {
                return Err(error);
            },
        }
        match validate_wasm_exports(wasm.as_slice()) {
            Ok(()) => {},
            Err(error) => {
                return Err(error);
            },
        }
        Ok(WasmPackage { manifest, wasm: Some(wasm) })
    }

    /// A package of a manifest alone, for engines that run no WebAssembly.
    pub fn in_memory(manifest: PluginManifest) -> (result: Result<WasmPackage, PluginError>)
        ensures
            package_outcome(result) == (match manifest_fault(manifest@) {
                Some(failure) => Err::<PackageModel, PluginFailure>(failure),
                None => Ok::<PackageModel, PluginFailure>(
                    PackageModel { manifest: manifest@, wasm: None },
                ),
            }),
    {
        match manifest.validate() {
            Ok(()) => Ok(WasmPackage { manifest, wasm: None }),
            Err(error) => Err(error),
        }
    }

    /// The manifest in the bytes of a manifest file, which may not be larger
    /// than a manifest may be. The module that it names is read next.
    pub fn from_manifest_file(path: &str, data: &[u8]) -> (result: Result<
        PluginManifest,
        PluginError,
    >)
        ensures
            manifest_outcome(result) == (if data@.len() > MAX_MANIFEST_BYTES {
                Err(read_failure("cannot read "@ + path@ + ": file exceeds its size limit"@))
            } else {
                manifest_of_source(
                    json_of_bytes(data@),
                    written_members(byte_codes(data@), outermost()),
                    path@,
                )
            }),
    {
        match check_package_file(path, true, data.len() as u64, MAX_MANIFEST_BYTES) {
            Ok(()) => {},
            Err(error) => return Err(error),
        }
        match parse_json_bytes(data) {
            Ok(value) => {
                let wanted = vec![true];
                assert(wanted@ =~= outermost());
                accept_source(&value, count_in_bytes(data, &wanted), path)
            },
            Err(message) => Err(parse_failure(path, message.as_str())),
        }
    }
}

}
