use tessivum::capability::{CapabilityRegistry, CapabilityRequest};
use tessivum::document::parse_json;
use tessivum::error::PluginError;
use tessivum::guest::{finish_call, ResourceLimits};
use tessivum::instance::{Claim, InstanceIds, WasmPluginInstance};
use tessivum::json::JsonValue;
use tessivum::manifest::{Capability, GuestExport, PluginManifest};
use tessivum::package::{parse_capability, WasmPackage};

fn json(text: &str) -> JsonValue {
    parse_json(text).expect("test value is JSON")
}

fn capability(name: &str) -> Capability {
    parse_capability(name).expect("documented capability parses")
}

fn manifest(permissions: &str) -> PluginManifest {
    PluginManifest::from_json(&format!(
        r#"{{
        "id": "permissions.wasm",
        "version": "1.0.0",
        "entry": "plugin.wasm",
        "abi": "cordis.plugin/v1",
        "inject": [],
        "permissions": {permissions},
        "configSchema": {{ "type": "object" }},
        "exports": [
            "cordis_init",
            "cordis_call",
            "cordis_event",
            "cordis_update",
            "cordis_stop"
        ]
    }}"#
    ))
    .expect("test manifest parses")
}

fn instance(manifest: PluginManifest, ids: &mut InstanceIds) -> WasmPluginInstance {
    let id = ids
        .allocate(7, &manifest.id)
        .expect("an identity is left");
    WasmPluginInstance::instantiate(
        &WasmPackage::in_memory(manifest).expect("test package validates"),
        ResourceLimits::default(),
        json("{}"),
        id,
    )
    .expect("test guest instantiates")
}

/// Runs one call whose guest invokes `capability` and returns what it got.
fn call(
    instance: &mut WasmPluginInstance,
    registry: &CapabilityRegistry,
    capability: Capability,
    input: JsonValue,
    reply: &str,
    delivered: &mut Vec<CapabilityRequest>,
) -> Result<JsonValue, PluginError> {
    let request = instance.call(json("{}"), JsonValue::Null)?;
    assert!(matches!(instance.claim(GuestExport::Call), Claim::Run));
    let output = match instance.host.invoke(registry, capability, input) {
        Ok(request_of_guest) => {
            delivered.push(request_of_guest);
            instance.host.check_output(reply.len()).map(|()| {
                format!(
                    r#"{{ "requestId": "{}", "result": {reply} }}"#,
                    request.request_id
                )
                .into_bytes()
            })
        }
        Err(error) => Err(error),
    };
    let cancelled = instance.settle();
    finish_call(
        &instance.limits,
        GuestExport::Call,
        &request.request_id,
        cancelled,
        0,
        output,
    )
}

#[test]
fn every_v1_capability_is_available_only_when_declared_and_granted() {
    let cases = [
        ("cordis.log", r#"{ "level": "info", "message": "hello" }"#),
        ("cordis.config.get", r#"{ "key": "theme" }"#),
        (
            "cordis.service.call",
            r#"{ "service": "echo", "method": "call" }"#,
        ),
        (
            "cordis.event.emit",
            r#"{ "event": "notice", "payload": 1 }"#,
        ),
        ("cordis.event.subscribe", r#"{ "event": "notice" }"#),
        (
            "cordis.registration.dispose",
            r#"{ "registration": "r-1" }"#,
        ),
        ("cordis.kv.get", r#"{ "key": "counter" }"#),
        ("cordis.kv.set", r#"{ "key": "counter", "value": 2 }"#),
    ];

    for (name, payload) in cases {
        let capability = capability(name);
        let mut registry = CapabilityRegistry::new();
        registry.grant(capability);
        registry
            .register(capability)
            .expect("capability handler registers");
        let mut ids = InstanceIds::new();
        let mut guest = instance(manifest(&format!(r#"["{name}"]"#)), &mut ids);
        let mut delivered = Vec::new();
        let reply = format!(r#"{{ "capability": "{name}", "handled": true }}"#);
        let result = call(
            &mut guest,
            &registry,
            capability,
            json(payload),
            &reply,
            &mut delivered,
        )
        .expect("declared and granted capability reaches its handler");
        assert_eq!(result, json(&reply));
        assert_eq!(delivered.len(), 1);
        assert_eq!(delivered[0].capability, capability);
        assert_eq!(delivered[0].plugin_id, "permissions.wasm");
        assert!(!delivered[0].instance_id.is_empty());
        assert_ne!(delivered[0].instance_id, delivered[0].plugin_id);
        assert_eq!(delivered[0].payload, json(payload));
    }
}

#[test]
fn capability_denial_distinguishes_missing_permission_from_missing_handler() {
    let log = capability("cordis.log");
    let mut ids = InstanceIds::new();
    let mut delivered = Vec::new();

    let mut registry = CapabilityRegistry::new();
    registry
        .register(log)
        .expect("handler registers without granting policy");
    let mut guest = instance(manifest(r#"["cordis.log"]"#), &mut ids);
    let error = call(
        &mut guest,
        &registry,
        log,
        json(r#"{ "message": "no grant" }"#),
        "null",
        &mut delivered,
    )
    .expect_err("declared capability still requires host policy grant");
    assert_eq!(error.code, "PERMISSION_DENIED");
    assert_eq!(error.phase, "call");

    let mut registry = CapabilityRegistry::new();
    registry.grant(log);
    registry
        .register(log)
        .expect("handler registers for undeclared case");
    let mut guest = instance(manifest("[]"), &mut ids);
    let error = call(
        &mut guest,
        &registry,
        log,
        json(r#"{ "message": "undeclared" }"#),
        "null",
        &mut delivered,
    )
    .expect_err("undeclared capability fails closed even when policy grants it");
    assert_eq!(error.code, "PERMISSION_DENIED");
    assert_eq!(error.phase, "call");

    let mut registry = CapabilityRegistry::new();
    registry.grant(log);
    let mut guest = instance(manifest(r#"["cordis.log"]"#), &mut ids);
    let error = call(
        &mut guest,
        &registry,
        log,
        json(r#"{ "message": "no handler" }"#),
        "null",
        &mut delivered,
    )
    .expect_err("granted capability without a handler remains unavailable");
    assert_eq!(error.code, "CAPABILITY_UNAVAILABLE");
    assert_eq!(error.phase, "call");
    assert!(delivered.is_empty());
}

#[test]
fn candidate_instances_with_one_plugin_id_have_distinct_instance_ids() {
    let log = capability("cordis.log");
    let mut registry = CapabilityRegistry::new();
    registry.grant(log);
    registry.register(log).expect("capability handler registers");

    let mut ids = InstanceIds::new();
    let mut first = instance(manifest(r#"["cordis.log"]"#), &mut ids);
    let mut second = instance(manifest(r#"["cordis.log"]"#), &mut ids);
    let first_id = first.instance_id().to_owned();
    let second_id = second.instance_id().to_owned();
    assert_ne!(first_id, second_id);
    assert_ne!(first_id, "permissions.wasm");
    assert_ne!(second_id, "permissions.wasm");

    let mut delivered = Vec::new();
    call(
        &mut first,
        &registry,
        log,
        JsonValue::Null,
        "null",
        &mut delivered,
    )
    .expect("first call succeeds");
    call(
        &mut second,
        &registry,
        log,
        JsonValue::Null,
        "null",
        &mut delivered,
    )
    .expect("second call succeeds");
    let delivered: Vec<(String, String)> = delivered
        .into_iter()
        .map(|request| (request.plugin_id, request.instance_id))
        .collect();
    assert_eq!(
        delivered,
        [
            ("permissions.wasm".to_owned(), first_id),
            ("permissions.wasm".to_owned(), second_id),
        ]
    );
}

#[test]
fn explicit_instance_constructor_propagates_the_preinstalled_identity() {
    let log = capability("cordis.log");
    let mut registry = CapabilityRegistry::new();
    registry.grant(log);
    registry.register(log).expect("capability handler registers");
    let mut ids = InstanceIds::new();
    let package = WasmPackage::in_memory(manifest(r#"["cordis.log"]"#)).expect("package validates");
    let mut guest = WasmPluginInstance::instantiate_with_instance_id(
        &mut ids,
        &package,
        ResourceLimits::default(),
        json("{}"),
        "preinstalled-candidate-42".to_owned(),
    )
    .expect("guest instantiates with the preinstalled identity");
    assert_eq!(guest.instance_id(), "preinstalled-candidate-42");
    let mut delivered = Vec::new();
    call(
        &mut guest,
        &registry,
        log,
        JsonValue::Null,
        "null",
        &mut delivered,
    )
    .expect("guest call succeeds");
    assert_eq!(delivered[0].instance_id, "preinstalled-candidate-42");
}

#[test]
fn identities_are_reserved_once_and_given_back() {
    let package = WasmPackage::in_memory(manifest("[]")).expect("package validates");
    let mut ids = InstanceIds::new();
    let mut open = |id: &str, config: &str| {
        WasmPluginInstance::instantiate_with_instance_id(
            &mut ids,
            &package,
            ResourceLimits::default(),
            json(config),
            id.to_owned(),
        )
    };
    for id in ["", " ", "permissions.wasm"] {
        let error = open(id, "{}").expect_err("the identity is no identity");
        assert_eq!(error.code, "INSTANCE_ID_INVALID");
        assert_eq!(error.phase, "instantiate");
    }
    let error = open("one", "[]").expect_err("the configuration is refused");
    assert_eq!(error.code, "CONFIG_INVALID");
    open("one", "{}").expect("a refused instance gives its identity back");
    let error = open("one", "{}").expect_err("the identity is taken");
    assert_eq!(error.code, "INSTANCE_ID_DUPLICATE");
    assert_eq!(error.message, "instance id already exists");
    ids.release("one");
    assert!(ids.reserve("one".to_owned(), "permissions.wasm").is_ok());
    assert_eq!(ids.allocate(7, "permissions.wasm").as_deref(), Some("wasm:7:0"));
    assert_eq!(ids.allocate(7, "permissions.wasm").as_deref(), Some("wasm:7:1"));
}

#[test]
fn policies_register_once_and_withdraw_grants() {
    let mut registry = CapabilityRegistry::new();
    registry.register(Capability::KvGet).expect("registers");
    let error = registry
        .register(Capability::KvGet)
        .expect_err("one handler for each capability");
    assert_eq!(error.code, "CAPABILITY_ALREADY_REGISTERED");
    assert_eq!(error.message, "cordis.kv.get already has a host handler");
    assert_eq!(error.phase, "host");
    assert!(!registry.is_granted(Capability::KvGet));
    registry.grant(Capability::KvGet);
    registry.grant(Capability::KvGet);
    assert!(registry.is_granted(Capability::KvGet));
    registry.revoke(Capability::KvGet);
    assert!(!registry.is_granted(Capability::KvGet));
    let error = registry
        .authorize(&vec![Capability::KvGet], Capability::KvGet)
        .expect_err("the grant was withdrawn");
    assert_eq!(
        error.message,
        "cordis.kv.get is not granted by host policy"
    );
}

#[test]
fn host_replies_fit_the_output_limit() {
    let mut ids = InstanceIds::new();
    let mut guest = instance(manifest(r#"["cordis.log"]"#), &mut ids);
    guest.host.max_output_bytes = 4;
    assert!(guest.host.check_output(4).is_ok());
    let error = guest.host.check_output(5).expect_err("one byte too many");
    assert_eq!(error.code, "OUTPUT_LIMIT_EXCEEDED");
}
