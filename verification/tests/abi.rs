use tessivum::document::parse_json;
use tessivum::engine::ExtismGuestEngine;
use tessivum::error::PluginError;
use tessivum::extism_guest::{accept_output, entry_of, GuestPlan};
use tessivum::guest::{engine_error, finish_call, ResourceLimits, ResponseEnvelope};
use tessivum::instance::{Claim, WasmPluginInstance};
use tessivum::json::JsonValue;
use tessivum::manifest::{
    is_confined_entry, is_semver, validate_wasm_exports, Capability, GuestExport, PluginManifest,
};
use tessivum::module::{wasm_function_exports, WasmReader};
use tessivum::package::{
    check_entry_location, check_package_file, parse_capability, parse_export, WasmPackage, MAX_MANIFEST_BYTES,
};

const MAX_WASM_BYTES: u64 = 8 * 1024 * 1024;

fn json(text: &str) -> JsonValue {
    parse_json(text).expect("test value is JSON")
}

fn manifest_text(permissions: &str) -> String {
    format!(
        r#"{{
        "id": "example.wasm",
        "version": "1.2.3",
        "entry": "plugin.wasm",
        "abi": "cordis.plugin/v1",
        "inject": ["logger"],
        "permissions": {permissions},
        "configSchema": {{
            "type": "object",
            "properties": {{ "enabled": {{ "type": "boolean" }} }},
            "required": ["enabled"],
            "additionalProperties": false
        }},
        "exports": [
            "cordis_init",
            "cordis_call",
            "cordis_event",
            "cordis_update",
            "cordis_stop"
        ]
    }}"#
    )
}

fn manifest(permissions: &str) -> PluginManifest {
    PluginManifest::from_json(&manifest_text(permissions))
        .expect("test manifest is syntactically valid")
}

fn instance() -> WasmPluginInstance {
    WasmPluginInstance::instantiate(
        &WasmPackage::in_memory(manifest("[]")).expect("valid package"),
        ResourceLimits::default(),
        json(r#"{ "enabled": true }"#),
        "wasm:1:0".to_owned(),
    )
    .expect("in-memory guest instantiates")
}

/// Runs one admitted call, with `reply` in place of the guest.
fn call(
    instance: &mut WasmPluginInstance,
    context: JsonValue,
    payload: JsonValue,
    reply: &dyn Fn(&str) -> String,
) -> Result<JsonValue, PluginError> {
    let request = instance.call(context, payload)?;
    assert!(matches!(instance.claim(GuestExport::Call), Claim::Run));
    let output = reply(&request.request_id).into_bytes();
    let cancelled = instance.settle();
    finish_call(
        &instance.limits,
        GuestExport::Call,
        &request.request_id,
        cancelled,
        0,
        Ok(output),
    )
}

#[test]
fn manifest_requires_the_v1_abi_complete_exports_and_valid_config_schema() {
    let package = WasmPackage::in_memory(manifest(r#"["cordis.log"]"#));
    assert!(
        package.is_ok(),
        "complete v1 manifest loads before execution"
    );

    for field in ["abi", "id", "version", "entry", "exports", "configSchema"] {
        let mut parsed = manifest("[]");
        match field {
            "abi" => parsed.abi = "cordis.plugin/v2".to_owned(),
            "id" => parsed.id = "".to_owned(),
            "version" => parsed.version = "not-a-version".to_owned(),
            "entry" => parsed.entry = "".to_owned(),
            "exports" => parsed.exports = vec![GuestExport::Init, GuestExport::Call],
            _ => {
                parsed.config_schema = json(
                    r#"{ "type": "object", "required": ["missing"], "properties": {} }"#,
                )
            }
        }
        let error = match WasmPackage::in_memory(parsed) {
            Ok(_) => panic!("{field} manifest unexpectedly loaded"),
            Err(error) => error,
        };
        assert!(
            !error.code.is_empty() && !error.phase.is_empty(),
            "{field} error must retain stable code and phase"
        );
    }
}

#[test]
fn request_response_and_guest_error_envelopes_preserve_the_abi_contract() {
    let mut running = instance();
    let request = running
        .call(
            json(r#"{ "method": "echo", "trace": "ctx" }"#),
            json(r#"{ "answer": 42 }"#),
        )
        .expect("call is admitted");
    assert!(!request.request_id.is_empty());
    assert_eq!(
        request.context,
        json(r#"{ "method": "echo", "trace": "ctx" }"#)
    );
    assert_eq!(request.payload, json(r#"{ "answer": 42 }"#));

    let result = call(
        &mut instance(),
        json(r#"{ "method": "echo", "trace": "ctx" }"#),
        json(r#"{ "answer": 42 }"#),
        &|id| format!(r#"{{ "requestId": "{id}", "result": {{ "echo": true }} }}"#),
    )
    .expect("guest call succeeds");
    assert_eq!(result, json(r#"{ "echo": true }"#));

    let error = call(&mut instance(), json("{}"), JsonValue::Null, &|id| {
        format!(
            r#"{{ "requestId": "{id}", "error": {{
                "code": "METHOD_REJECTED",
                "message": "method is disabled",
                "phase": "call",
                "details": {{ "method": "echo" }}
            }} }}"#
        )
    })
    .expect_err("guest error becomes a host error");
    assert_eq!(error.code, "GUEST_REJECTED");
    assert_eq!(error.message, "guest rejected request");
    assert_eq!(error.phase, "call");
    assert_eq!(error.details, None);
}

#[test]
fn guest_response_envelopes_reject_ambiguous_and_spoofed_failures() {
    for mixed in [false, true] {
        let error = call(&mut instance(), json("{}"), JsonValue::Null, &|id| {
            if mixed {
                format!(
                    r#"{{ "requestId": "{id}", "result": {{ "result": true }}, "error": {{
                        "code": "TIMEOUT", "message": "guest timeout", "phase": "call"
                    }} }}"#
                )
            } else {
                format!(r#"{{ "requestId": "{id}" }}"#)
            }
        })
        .expect_err("mixed and empty envelopes are rejected");
        assert_eq!(error.code, "PROTOCOL_INVALID");
        assert_eq!(error.phase, "call");
        assert_eq!(error.details, None);
    }

    let error = call(&mut instance(), json("{}"), JsonValue::Null, &|id| {
        format!(
            r#"{{ "requestId": "{id}", "error": {{
                "code": "TIMEOUT",
                "message": "guest secret timeout",
                "phase": "event",
                "details": {{ "secret": "guest details" }}
            }} }}"#
        )
    })
    .expect_err("a guest cannot spoof the invoked phase");
    assert_eq!(error.code, "PROTOCOL_INVALID");
    assert_eq!(
        error.message,
        "guest error phase does not match invoked export"
    );
    assert_eq!(error.phase, "call");
    assert_eq!(error.details, None);
}

#[test]
fn replies_to_other_requests_and_broken_replies_are_refused() {
    let error = call(&mut instance(), json("{}"), JsonValue::Null, &|_| {
        r#"{ "requestId": "another", "result": 1 }"#.to_owned()
    })
    .expect_err("the reply answers another request");
    assert_eq!(error.code, "PROTOCOL_INVALID");

    let error = call(&mut instance(), json("{}"), JsonValue::Null, &|_| "{".to_owned())
        .expect_err("the reply is no document");
    assert_eq!(error.code, "PROTOCOL_INVALID");
    assert_eq!(
        error.message,
        "guest response is not a valid response envelope"
    );
}

#[test]
fn envelopes_keep_the_identity_of_their_request() {
    let request = instance()
        .call(json("{}"), JsonValue::Null)
        .expect("call is admitted");
    let success = ResponseEnvelope::success(&request, json("1"));
    assert_eq!(success.request_id, "wasm:1:0:0");
    assert_eq!(success.result, Some(json("1")));
    assert_eq!(success.error, None);
    let refused = PluginError::new("METHOD_REJECTED", "method is disabled", "call");
    let failure = ResponseEnvelope::failure(&request, refused.clone());
    assert_eq!(failure.request_id, "wasm:1:0:0");
    assert_eq!(failure.result, None);
    assert_eq!(failure.error, Some(refused));
}

#[test]
fn an_engine_without_a_wasm_module_never_reports_success() {
    let error = match ExtismGuestEngine::default().instantiate(
        &WasmPackage::in_memory(manifest("[]")).expect("manifest is valid"),
        vec![],
        &ResourceLimits::default(),
    ) {
        Ok(_) => panic!("the real Extism engine accepted a package without executable wasm"),
        Err(error) => error,
    };
    assert!(!error.code.is_empty());
    assert!(!error.phase.is_empty());
    assert_eq!(error.code, "MODULE_UNAVAILABLE");
}

fn wasm_u32(mut value: u32, output: &mut Vec<u8>) {
    loop {
        let mut byte: u8 = (value & 0x7f) as u8;
        value >>= 7;
        if value != 0 {
            byte |= 0x80;
        }
        output.push(byte);
        if value == 0 {
            return;
        }
    }
}

fn wasm_section(id: u8, payload: Vec<u8>, module: &mut Vec<u8>) {
    module.push(id);
    wasm_u32(payload.len() as u32, module);
    module.extend(payload);
}

fn lifecycle_wasm(wrong_export: Option<GuestExport>) -> Vec<u8> {
    let mut module = b"\0asm\x01\0\0\0".to_vec();
    wasm_section(1, vec![2, 0x60, 0, 1, 0x7f, 0x60, 0, 0], &mut module);

    let mut functions: Vec<u8> = vec![5];
    let mut code: Vec<u8> = vec![5];
    for export in GuestExport::all() {
        let wrong = wrong_export == Some(export);
        functions.push(u8::from(wrong));
        let body: Vec<u8> = if wrong {
            vec![0, 0x0b]
        } else {
            vec![0, 0x41, 0, 0x0b]
        };
        wasm_u32(body.len() as u32, &mut code);
        code.extend(body);
    }
    wasm_section(3, functions, &mut module);

    let mut exports: Vec<u8> = vec![5];
    for (index, export) in GuestExport::all().into_iter().enumerate() {
        let name = export.as_str().as_bytes();
        wasm_u32(name.len() as u32, &mut exports);
        exports.extend(name);
        exports.push(0);
        wasm_u32(index as u32, &mut exports);
    }
    wasm_section(7, exports, &mut module);
    wasm_section(10, code, &mut module);
    module
}

#[test]
fn wrong_lifecycle_signature_is_rejected_before_engine_instantiation() {
    for export in GuestExport::all() {
        let package = WasmPackage {
            manifest: manifest("[]"),
            wasm: Some(lifecycle_wasm(Some(export))),
        };
        let error = match WasmPluginInstance::instantiate(
            &package,
            ResourceLimits::default(),
            json(r#"{ "enabled": true }"#),
            "wasm:1:0".to_owned(),
        ) {
            Ok(_) => panic!("wrong ABI signature reached the engine"),
            Err(error) => error,
        };
        assert_eq!(error.code, "ABI_EXPORT_INVALID", "{}", error.message);
        let error = match ExtismGuestEngine::default().instantiate(
            &package,
            vec![],
            &ResourceLimits::default(),
        ) {
            Ok(_) => panic!("wrong ABI signature reached the engine"),
            Err(error) => error,
        };
        assert_eq!(error.code, "ABI_EXPORT_INVALID", "{}", error.message);
    }
}

#[test]
fn complete_modules_reach_the_engine() {
    let wasm = lifecycle_wasm(None);
    let package = WasmPackage::from_bytes(manifest("[]"), wasm.clone())
        .expect("the module has every lifecycle export");
    let bytes = ExtismGuestEngine::default()
        .checked_module(&package, &ResourceLimits::default())
        .expect("the engine gets the module");
    assert_eq!(*bytes, wasm);
    let limits = ResourceLimits {
        memory_pages: 7,
        timeout_nanos: 7_000_000,
        fuel: 77,
        ..ResourceLimits::default()
    };
    let plan = ExtismGuestEngine::default()
        .plan(&package, &limits)
        .expect("the engine plans the guest");
    assert_eq!(
        plan,
        GuestPlan {
            module: wasm.clone(),
            memory_pages: 7,
            timeout_nanos: 7_000_000,
            fuel: 77,
            wasi: false,
            hosts: vec![],
        }
    );
    let entry = entry_of(GuestExport::Event, b"input");
    assert_eq!(entry.name, "cordis_event");
    assert_eq!(entry.input, b"input");
    let exports = wasm_function_exports(&wasm).expect("the module is well formed");
    let mut names: Vec<String> = exports.into_iter().map(|export| export.name).collect();
    names.sort();
    assert_eq!(
        names,
        [
            "cordis_call",
            "cordis_event",
            "cordis_init",
            "cordis_stop",
            "cordis_update"
        ]
    );
    for (limits, message) in [
        (
            ResourceLimits {
                max_concurrency: 2,
                ..ResourceLimits::default()
            },
            "concurrency",
        ),
        (
            ResourceLimits {
                memory_pages: 0,
                ..ResourceLimits::default()
            },
            "zero",
        ),
    ] {
        let error = ExtismGuestEngine::default()
            .checked_module(&package, &limits)
            .expect_err(message);
        assert_eq!(error.code, "LIMIT_INVALID");
        assert_eq!(error.phase, "limit");
    }
}

#[test]
fn modules_over_eight_mebibytes_reject_before_engine_instantiation() {
    let error = match WasmPluginInstance::instantiate(
        &WasmPackage {
            manifest: manifest("[]"),
            wasm: Some(vec![0; 8 * 1024 * 1024 + 1]),
        },
        ResourceLimits::default(),
        json(r#"{ "enabled": true }"#),
        "wasm:1:0".to_owned(),
    ) {
        Ok(_) => panic!("oversized module reached the engine"),
        Err(error) => error,
    };
    assert_eq!(error.code, "MODULE_INVALID");
}

fn wasm_i32(mut value: i32, output: &mut Vec<u8>) {
    loop {
        let mut byte: u8 = (value as u8) & 0x7f;
        value >>= 7;
        let done = (value == 0 && byte & 0x40 == 0) || (value == -1 && byte & 0x40 != 0);
        if !done {
            byte |= 0x80;
        }
        output.push(byte);
        if done {
            return;
        }
    }
}

fn wasm_name(name: &str, output: &mut Vec<u8>) {
    wasm_u32(name.len() as u32, output);
    output.extend(name.as_bytes());
}

fn tainted_trap_wasm(message: &str) -> Vec<u8> {
    let mut module = b"\0asm\x01\0\0\0".to_vec();
    wasm_section(
        1,
        vec![
            4, 0x60, 0, 1, 0x7f, 0x60, 1, 0x7e, 1, 0x7e, 0x60, 2, 0x7e, 0x7f, 0, 0x60, 1, 0x7e, 0,
        ],
        &mut module,
    );
    let mut imports: Vec<u8> = vec![3];
    for (name, type_index) in [("alloc", 1), ("store_u8", 2), ("error_set", 3)] {
        wasm_name("extism:host/env", &mut imports);
        wasm_name(name, &mut imports);
        imports.push(0);
        imports.push(type_index);
    }
    wasm_section(2, imports, &mut module);
    wasm_section(3, vec![5, 0, 0, 0, 0, 0], &mut module);

    let mut exports: Vec<u8> = vec![5];
    for (index, export) in GuestExport::all().into_iter().enumerate() {
        let name = export.as_str().as_bytes();
        wasm_u32(name.len() as u32, &mut exports);
        exports.extend(name);
        exports.push(0);
        wasm_u32((index + 3) as u32, &mut exports);
    }
    wasm_section(7, exports, &mut module);

    let mut code: Vec<u8> = vec![5];
    for export in GuestExport::all() {
        let mut body: Vec<u8> = if export == GuestExport::Call {
            vec![1, 1, 0x7e, 0x42]
        } else {
            vec![0, 0x41, 0, 0x0b]
        };
        if export == GuestExport::Call {
            wasm_i32(message.len() as i32, &mut body);
            body.extend([0x10, 0, 0x21, 0]);
            for (index, byte) in message.bytes().enumerate() {
                body.extend([0x20, 0, 0x42]);
                wasm_i32(index as i32, &mut body);
                body.push(0x7c);
                body.push(0x41);
                wasm_i32(i32::from(byte), &mut body);
                body.extend([0x10, 1]);
            }
            body.extend([0x20, 0, 0x10, 2, 0, 0x0b]);
        }
        wasm_u32(body.len() as u32, &mut code);
        code.extend(body);
    }
    wasm_section(10, code, &mut module);
    module
}

#[test]
fn guest_trap_text_cannot_spoof_resource_limit_errors() {
    for message in ["timeout", "fuel"] {
        let package = WasmPackage::from_bytes(manifest("[]"), tainted_trap_wasm(message))
            .expect("tainted trap module has the required ABI exports");
        let mut instance = WasmPluginInstance::instantiate(
            &package,
            ResourceLimits::default(),
            json(r#"{ "enabled": true }"#),
            "wasm:1:0".to_owned(),
        )
        .expect("the package passes every rule");
        let request = instance
            .call(json("{}"), JsonValue::Null)
            .expect("the call is admitted");
        assert!(matches!(instance.claim(GuestExport::Call), Claim::Run));
        let output = match ExtismGuestEngine::default().instantiate(
            &package,
            vec![],
            &instance.limits,
        ) {
            Ok(mut guest) => guest.call(
                GuestExport::Call,
                b"{}",
                instance.limits.max_output_bytes,
            ),
            // The runtime reserves more address space than some machines give.
            Err(error) => {
                assert_eq!(error.phase, "instantiate");
                Err(engine_error(GuestExport::Call, Some(9), instance.limits.fuel))
            }
        };
        let cancelled = instance.settle();
        let error = finish_call(
            &instance.limits,
            GuestExport::Call,
            &request.request_id,
            cancelled,
            0,
            output,
        )
        .expect_err("the guest trap must fail");
        assert_eq!(error.code, "GUEST_TRAP");
        assert_eq!(error.message, "guest execution failed");
        assert_eq!(error.phase, "call");
        assert_eq!(error.details, None);
    }

    let limits = ResourceLimits::default();
    for consumed in [None, Some(0), Some(limits.fuel - 1)] {
        let trap = engine_error(GuestExport::Call, consumed, limits.fuel);
        assert_eq!(trap.code, "GUEST_TRAP");
    }
    let spent = engine_error(GuestExport::Call, Some(limits.fuel), limits.fuel);
    assert_eq!(spent.code, "FUEL_LIMIT_EXCEEDED");
}

/// A module whose `cordis_call` puts `text` out, and whose `cordis_event` never
/// ends.
fn speaking_wasm(text: &str) -> Vec<u8> {
    let mut module = b"\0asm\x01\0\0\0".to_vec();
    wasm_section(
        1,
        vec![
            4, 0x60, 0, 1, 0x7f, 0x60, 1, 0x7e, 1, 0x7e, 0x60, 2, 0x7e, 0x7f, 0, 0x60, 2, 0x7e,
            0x7e, 0,
        ],
        &mut module,
    );
    let mut imports: Vec<u8> = vec![3];
    for (name, type_index) in [("alloc", 1), ("store_u8", 2), ("output_set", 3)] {
        wasm_name("extism:host/env", &mut imports);
        wasm_name(name, &mut imports);
        imports.push(0);
        imports.push(type_index);
    }
    wasm_section(2, imports, &mut module);
    wasm_section(3, vec![5, 0, 0, 0, 0, 0], &mut module);
    let mut exports: Vec<u8> = vec![5];
    for (index, export) in GuestExport::all().into_iter().enumerate() {
        wasm_name(export.as_str(), &mut exports);
        exports.push(0);
        wasm_u32((index + 3) as u32, &mut exports);
    }
    wasm_section(7, exports, &mut module);
    let mut code: Vec<u8> = vec![5];
    for export in GuestExport::all() {
        let mut body: Vec<u8> = match export {
            GuestExport::Call => vec![1, 1, 0x7e, 0x42],
            GuestExport::Event => vec![0, 0x03, 0x40, 0x0c, 0, 0x0b, 0, 0x0b],
            _ => vec![0, 0x41, 0, 0x0b],
        };
        if export == GuestExport::Call {
            wasm_i32(text.len() as i32, &mut body);
            body.extend([0x10, 0, 0x21, 0]);
            for (index, byte) in text.bytes().enumerate() {
                body.extend([0x20, 0, 0x42]);
                wasm_i32(index as i32, &mut body);
                body.extend([0x7c, 0x41]);
                wasm_i32(i32::from(byte), &mut body);
                body.extend([0x10, 1]);
            }
            body.extend([0x20, 0, 0x42]);
            wasm_i32(text.len() as i32, &mut body);
            body.extend([0x10, 2, 0x41, 0, 0x0b]);
        }
        wasm_u32(body.len() as u32, &mut code);
        code.extend(body);
    }
    wasm_section(10, code, &mut module);
    module
}

#[test]
fn guests_put_out_bytes_within_their_limits() {
    let package = WasmPackage::from_bytes(manifest("[]"), speaking_wasm("hello"))
        .expect("the module has the required ABI exports");
    let limits = ResourceLimits {
        fuel: 100_000,
        ..ResourceLimits::default()
    };
    assert_eq!(accept_output(b"abc", 3), Ok(b"abc".to_vec()));
    assert!(accept_output(b"abc", 2).is_err());
    let mut guest = match ExtismGuestEngine::default().instantiate(&package, vec![], &limits) {
        Ok(guest) => guest,
        // The runtime reserves more address space than some machines give.
        Err(error) => {
            assert_eq!(error.code, "GUEST_TRAP");
            assert_eq!(error.phase, "instantiate");
            return;
        }
    };
    assert_eq!(guest.fuel_limit, 100_000);
    assert_eq!(
        guest.call(GuestExport::Call, b"{}", 5),
        Ok(b"hello".to_vec())
    );
    let error = guest
        .call(GuestExport::Call, b"{}", 4)
        .expect_err("the output is one byte too long");
    assert_eq!(error.code, "OUTPUT_LIMIT_EXCEEDED");
    let error = guest
        .call(GuestExport::Event, b"{}", 5)
        .expect_err("the guest never ends");
    assert_eq!(error.code, "FUEL_LIMIT_EXCEEDED");
    assert_eq!(error.phase, "event");
}

#[test]
fn manifest_entry_rejects_absolute_and_traversal_paths() {
    for entry in ["/tmp/outside.wasm", "../outside.wasm"] {
        let text = manifest_text("[]").replace("plugin.wasm", entry);
        let error = WasmPackage::from_manifest_file("plugin.json", text.as_bytes())
            .expect_err("manifest entry must remain within its package");
        assert_eq!(error.code, "MANIFEST_INVALID");
        assert!(!is_confined_entry(entry));
    }
    for entry in ["plugin.wasm", "build/plugin.wasm"] {
        assert!(is_confined_entry(entry));
        let text = manifest_text("[]").replace("plugin.wasm", entry);
        let parsed = WasmPackage::from_manifest_file("plugin.json", text.as_bytes())
            .expect("the entry is in its package");
        assert_eq!(parsed.entry, entry);
    }
}

#[test]
fn manifest_entry_rejects_symlink_escapes() {
    let parts = |names: &[&str]| -> Vec<String> {
        names.iter().map(|name| name.to_string()).collect()
    };
    let package = parts(&["/", "tmp", "entry-symlink"]);
    for outside in [
        parts(&["/", "tmp", "outside-symlink.wasm"]),
        parts(&["/", "tmp", "entry-symlink-2", "plugin.wasm"]),
        parts(&["/", "tmp"]),
    ] {
        let error = check_entry_location(&package, &outside)
            .expect_err("symlink target must remain within its package");
        assert_eq!(error.code, "MANIFEST_INVALID");
        assert_eq!(error.message, "entry resolves outside its package directory");
    }
    let inside = parts(&["/", "tmp", "entry-symlink", "plugin.wasm"]);
    assert!(check_entry_location(&package, &inside).is_ok());
}

#[test]
fn manifest_loader_rejects_oversized_manifest_and_wasm_before_allocation() {
    let manifest_error = check_package_file("plugin.json", true, 256 * 1024 + 1, MAX_MANIFEST_BYTES)
        .expect_err("oversized manifest must fail before parsing");
    assert_eq!(manifest_error.code, "PACKAGE_READ_FAILED");
    assert!(check_package_file("plugin.json", true, 256 * 1024, MAX_MANIFEST_BYTES).is_ok());

    let wasm_error = check_package_file("plugin.wasm", true, 8 * 1024 * 1024 + 1, MAX_WASM_BYTES)
        .expect_err("oversized module must fail before reading");
    assert_eq!(wasm_error.code, "PACKAGE_READ_FAILED");
    assert_eq!(wasm_error.phase, "instantiate");
    assert_eq!(
        wasm_error.message,
        "cannot read plugin.wasm: file exceeds its size limit"
    );
}

#[test]
fn manifest_loader_does_not_follow_the_final_manifest_symlink() {
    let error = check_package_file("plugin.json", false, 10, MAX_MANIFEST_BYTES)
        .expect_err("manifest final symlink must not be followed");
    assert_eq!(error.code, "PACKAGE_READ_FAILED");
}

#[test]
fn manifest_documents_name_what_is_wrong() {
    let broken = PluginManifest::from_json("{").expect_err("no document");
    assert_eq!(broken.code, "MANIFEST_INVALID");
    assert_eq!(broken.phase, "manifest");
    assert!(broken.message.starts_with("cannot parse manifest: "));

    let list = PluginManifest::from_json("[]").expect_err("no object");
    assert_eq!(
        list.message,
        "cannot parse manifest: a manifest must be an object"
    );

    let stray = manifest_text("[]").replace("\"inject\"", "\"injects\"");
    let error = PluginManifest::from_json(&stray).expect_err("unknown field");
    assert_eq!(
        error.message,
        "cannot parse manifest: unknown field `injects`"
    );
    let unknown = manifest_text(r#"["cordis.shell"]"#);
    assert!(PluginManifest::from_json(&unknown).is_err());
    let file = WasmPackage::from_manifest_file("plugin.json", b"\xff").expect_err("no text");
    assert!(file.message.starts_with("cannot parse plugin.json: "));
}

#[test]
fn capabilities_and_exports_have_their_documented_names() {
    for capability in Capability::all() {
        assert_eq!(parse_capability(capability.as_str()), Some(capability));
    }
    for export in GuestExport::all() {
        assert_eq!(parse_export(export.as_str()), Some(export));
    }
    assert_eq!(parse_capability("cordis.shell"), None);
    assert_eq!(parse_export("cordis_start"), None);
    assert_eq!(Capability::RegistrationDispose.as_str(), "cordis.registration.dispose");
    assert_eq!(GuestExport::Update.as_str(), "cordis_update");
    assert_eq!(GuestExport::Update.phase(), "update");
}

#[test]
fn versions_have_three_numbers() {
    for version in ["1.2.3", "0.0.0", "10.20.30"] {
        assert!(is_semver(version), "{version}");
    }
    for version in ["", "1", "1.2", "1.2.3.4", "a.b.c", "1..3"] {
        assert!(!is_semver(version), "{version}");
    }
}

#[test]
fn readers_report_where_a_module_ends_too_early() {
    let mut reader = WasmReader {
        bytes: &[1, 0x80, 0x01, 2, b'h', b'i', 1, 0xff],
        offset: 0,
        end: 8,
    };
    assert_eq!(reader.byte().expect("a byte"), 1);
    assert_eq!(reader.u32().expect("a number"), 128);
    assert_eq!(reader.name().expect("a name"), "hi");
    let error = reader.name().expect_err("no text");
    assert_eq!(error.code, "MODULE_INVALID");
    assert!(error.message.contains("utf-8"), "{}", error.message);
    assert!(reader.byte().is_err());
    let mut long = WasmReader {
        bytes: &[0xff, 0xff, 0xff, 0xff, 0x10],
        offset: 0,
        end: 5,
    };
    assert!(long.u32().is_err(), "the number does not fit");
}

#[test]
fn stopped_instances_admit_nothing_and_stop_once() {
    let mut instance = instance();
    let null = || JsonValue::Null;
    instance.call(null(), null()).expect("the instance takes calls");
    assert!(matches!(instance.claim(GuestExport::Call), Claim::Run));
    assert!(instance.stop().is_some());
    assert!(instance.is_stopped());
    assert!(!instance.claim_stop(), "the call in flight has the guest");
    assert!(instance.settle(), "the call in flight was cancelled");
    for _ in 0..2 {
        assert!(instance.stop().is_none(), "no second request to stop");
        assert_eq!(
            instance.call(null(), null()).expect_err("stopped").code,
            "INSTANCE_STOPPED"
        );
        assert_eq!(
            instance.event(null(), null()).expect_err("stopped").code,
            "INSTANCE_STOPPED"
        );
        assert!(matches!(instance.claim(GuestExport::Call), Claim::Refused(_)));
    }
    assert!(instance.claim_stop());
    assert!(!instance.claim_stop(), "the guest stops once");
    instance.finish_stop();
    assert!(!instance.host.alive);
    assert!(instance.stop().is_none());
}

#[test]
fn modules_without_their_header_are_refused() {
    let error = validate_wasm_exports(b"\0asm").expect_err("a short header");
    assert_eq!(error.code, "MODULE_INVALID");
    let error = validate_wasm_exports(b"\0asm\x01\0\0\0").expect_err("no exports");
    assert_eq!(error.code, "ABI_EXPORT_MISSING");
}
