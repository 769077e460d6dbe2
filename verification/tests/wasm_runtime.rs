use tessivum::capability::HostBindings;
use tessivum::document::parse_json;
use tessivum::error::{LoaderError, PluginError};
use tessivum::guest::{trap_error, ResourceLimits};
use tessivum::instance::check_instantiation;
use tessivum::json::JsonValue;
use tessivum::package::WasmPackage;
use tessivum::manifest::{Capability, PluginManifest};
use tessivum::tree::{Entry, EntryId, EntryOptions, RuntimeKind};
use tessivum::wasm_runtime::{
    check_host_input, context_of, loader_error, oversized_reply, read_host_payload, Activation, WasmPluginRuntime,
    WasmRuntimeHandle,
};

fn json(text: &str) -> JsonValue {
    parse_json(text).expect("test value is JSON")
}

fn package(id: &str) -> WasmPackage {
    let manifest = PluginManifest::from_json(
        r#"{
        "id": "runtime.wasm",
        "version": "1.0.0",
        "entry": "plugin.wasm",
        "abi": "cordis.plugin/v1",
        "inject": [],
        "permissions": [],
        "configSchema": { "type": "object" },
        "exports": [
            "cordis_init",
            "cordis_call",
            "cordis_event",
            "cordis_update",
            "cordis_stop"
        ]
    }"#,
    )
    .expect("test manifest parses");
    let mut package = WasmPackage::in_memory(manifest).expect("test package validates");
    package.manifest.id = id.to_owned();
    package
}

#[test]
fn instances_are_checked_before_they_have_an_identity() {
    let limits = ResourceLimits::default();
    let good = package("echo.wasm");
    assert!(check_instantiation(&good, &limits, &json("{}")).is_ok());
    let error = check_instantiation(&good, &limits, &json("[]")).expect_err("no object");
    assert_eq!(error.code, "CONFIG_INVALID");
    let error = check_instantiation(&package(""), &limits, &json("[]")).expect_err("no id");
    assert_eq!(error.code, "MANIFEST_INVALID");
}

#[test]
fn packages_are_registered_once() {
    let mut runtime = WasmPluginRuntime::new();
    runtime
        .register("wasm/echo".to_owned(), package("echo.wasm"))
        .expect("the package registers");
    assert_eq!(runtime.find("wasm/echo"), Some(0));
    assert_eq!(runtime.find("wasm/other"), None);
    let error = runtime
        .register("wasm/echo".to_owned(), package("echo.wasm"))
        .expect_err("the specifier is taken");
    assert_eq!(error.code, "PACKAGE_ALREADY_REGISTERED");
    assert_eq!(error.message, "wasm/echo is already registered");
    let error = runtime
        .register("  ".to_owned(), package("echo.wasm"))
        .expect_err("the specifier is blank");
    assert_eq!(error.code, "PACKAGE_INVALID");
    let error = runtime
        .register("wasm/other".to_owned(), package(""))
        .expect_err("the manifest is invalid");
    assert_eq!(error.code, "MANIFEST_INVALID");
    assert_eq!(runtime.packages.len(), 1);
}

#[test]
fn guests_are_told_of_their_entry() {
    let entry = |name: Option<&str>| Entry {
        package: "wasm/echo".to_owned(),
        options: EntryOptions {
            id: EntryId::new("echo".to_owned()).expect("the identifier is valid"),
            name: name.map(str::to_owned),
            runtime: RuntimeKind::Wasm,
            config: json("{}"),
            inject: vec!["logger".to_owned(), "clock".to_owned()],
            isolate: vec![],
            intercept: json("{}"),
            disabled: false,
            group: None,
        },
    };
    assert_eq!(
        context_of(&entry(Some("Echo"))),
        json(r#"{ "entryId": "echo", "entryName": "Echo", "inject": ["logger", "clock"] }"#)
    );
    assert_eq!(
        context_of(&entry(None)).get("entryName"),
        Some(&JsonValue::Null)
    );
}

#[test]
fn host_calls_check_their_input_before_its_contents() {
    let bindings = HostBindings {
        permissions: vec![Capability::Log],
        plugin_id: "echo.wasm".to_owned(),
        instance_id: "wasm:1:0".to_owned(),
        alive: true,
        max_input_bytes: 8,
        max_output_bytes: 8,
    };
    assert_eq!(
        read_host_payload(&bindings, b"[1, 2]").expect("the payload is read"),
        json("[1, 2]")
    );
    let error = read_host_payload(&bindings, b"[1, 2, 3, 4").expect_err("too long");
    assert_eq!(error.code, "INPUT_LIMIT_EXCEEDED");
    assert_eq!(check_host_input(&bindings, 8), Ok(()));
    let early = check_host_input(&bindings, 11).expect_err("too long");
    assert_eq!(early, error);
    assert_eq!(trap_error("cancel").phase, "cancel");
    let error = read_host_payload(&bindings, b"[1, 2").expect_err("no JSON");
    assert_eq!(error.code, "invalid_request");
    assert_eq!(error.message, "invalid request envelope");
    assert_eq!(error.phase, "host");
    assert!(error.details.is_some());
    assert_eq!(oversized_reply(8, 8), None);
    assert_eq!(
        oversized_reply(9, 8).map(|error| error.code),
        Some("OUTPUT_LIMIT_EXCEEDED".to_owned())
    );
}

#[test]
fn handles_initialize_once() {
    let mut handle = WasmRuntimeHandle::new();
    assert!(matches!(handle.activate(false), Activation::Initialize));
    handle.initialized();
    assert!(matches!(handle.activate(false), Activation::Done));
    match handle.activate(true) {
        Activation::Refused(error) => {
            assert_eq!(error.code, "INSTANCE_STOPPED");
            assert_eq!(error.phase, "init");
        }
        other => panic!("{other:?}"),
    }
    let error = |code: &str| PluginError::new(code, "message", "stop");
    assert_eq!(WasmRuntimeHandle::disposed(Ok(()), Ok(())), Ok(()));
    assert_eq!(
        WasmRuntimeHandle::disposed(Err(error("FIRST")), Err(error("SECOND"))),
        Err(error("FIRST"))
    );
    assert_eq!(
        WasmRuntimeHandle::disposed(Ok(()), Err(error("SECOND"))),
        Err(error("SECOND"))
    );
}

#[test]
fn plugin_errors_reach_the_loader_with_their_text() {
    let error = PluginError::new("GUEST_TRAP", "guest execution failed", "call");
    assert_eq!(
        loader_error(&error),
        LoaderError::Validation("GUEST_TRAP (call): guest execution failed".to_owned())
    );
}
