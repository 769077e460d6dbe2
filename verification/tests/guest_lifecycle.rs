use tessivum::capability::CapabilityRegistry;
use tessivum::document::parse_json;
use tessivum::engine::{ExtismGuestEngine, InMemoryGuestEngine};
use tessivum::error::PluginError;
use tessivum::extism_guest::accept_output;
use tessivum::guest::{check_input, finish_call, RequestEnvelope, ResourceLimits};
use tessivum::instance::{Claim, WasmPluginInstance};
use tessivum::json::JsonValue;
use tessivum::manifest::{Capability, GuestExport, PluginManifest};
use tessivum::package::WasmPackage;

fn json(text: &str) -> JsonValue {
    parse_json(text).expect("test value is JSON")
}

fn package() -> WasmPackage {
    let manifest = PluginManifest::from_json(
        r#"{
        "id": "lifecycle.wasm",
        "version": "1.0.0",
        "entry": "plugin.wasm",
        "abi": "cordis.plugin/v1",
        "inject": [],
        "permissions": ["cordis.log"],
        "configSchema": { "type": "object" },
        "exports": [
            "cordis_init",
            "cordis_call",
            "cordis_event",
            "cordis_update",
            "cordis_stop"
        ]
    }"#,
    )
    .expect("test manifest parses");
    WasmPackage::in_memory(manifest).expect("test package validates")
}

/// A module whose lifecycle exports do nothing.
fn lifecycle_wasm() -> Vec<u8> {
    let mut module = b"\0asm\x01\0\0\0".to_vec();
    module.extend([1, 5, 1, 0x60, 0, 1, 0x7f]);
    module.extend([3, 6, 5, 0, 0, 0, 0, 0]);
    let mut exports: Vec<u8> = vec![5];
    for (index, export) in GuestExport::all().into_iter().enumerate() {
        let name = export.as_str().as_bytes();
        exports.push(name.len() as u8);
        exports.extend(name);
        exports.extend([0, index as u8]);
    }
    module.extend([7, exports.len() as u8]);
    module.extend(exports);
    module.extend([10, 26, 5]);
    for _ in 0..5 {
        module.extend([4, 0, 0x41, 0, 0x0b]);
    }
    module
}

fn instance(limits: ResourceLimits) -> WasmPluginInstance {
    WasmPluginInstance::instantiate(
        &package(),
        limits,
        json(r#"{ "enabled": true }"#),
        "wasm:1:0".to_owned(),
    )
    .expect("test instance instantiates")
}

fn response(request: &RequestEnvelope, result: &str) -> Vec<u8> {
    format!(
        r#"{{ "requestId": "{}", "result": {result} }}"#,
        request.request_id
    )
    .into_bytes()
}

/// Lends the guest to an admitted call, lets it answer and ends the call.
fn run(
    instance: &mut WasmPluginInstance,
    export: GuestExport,
    request: &RequestEnvelope,
    elapsed_nanos: u64,
    output: Result<Vec<u8>, PluginError>,
) -> Result<JsonValue, PluginError> {
    assert!(matches!(instance.claim(export), Claim::Run));
    let cancelled = instance.settle();
    finish_call(
        &instance.limits,
        export,
        &request.request_id,
        cancelled,
        elapsed_nanos,
        output,
    )
}

/// Stops an instance whose guest is free.
fn stop(instance: &mut WasmPluginInstance) -> Option<RequestEnvelope> {
    let request = instance.stop()?;
    assert!(instance.claim_stop());
    instance.finish_stop();
    Some(request)
}

#[test]
fn calls_are_serialized_before_the_guest_engine_is_entered() {
    let mut instance = instance(ResourceLimits::default());
    let first = instance
        .call(json("{}"), json("\"first\""))
        .expect("first call is admitted");
    let second = instance
        .call(json("{}"), json("\"second\""))
        .expect("second call is admitted");
    assert_ne!(first.request_id, second.request_id);

    assert!(matches!(instance.claim(GuestExport::Call), Claim::Run));
    assert!(
        matches!(instance.claim(GuestExport::Call), Claim::Wait),
        "the second call must wait behind the first before entering the guest"
    );
    assert!(!instance.settle());
    let done = response(&first, r#"{ "done": true }"#);
    finish_call(
        &instance.limits,
        GuestExport::Call,
        &first.request_id,
        false,
        0,
        Ok(done),
    )
    .expect("first call succeeds");
    let done = response(&second, r#"{ "done": true }"#);
    run(&mut instance, GuestExport::Call, &second, 0, Ok(done)).expect("second call succeeds");
}

#[test]
fn cancellation_is_first_wins_and_settles_the_blocked_call() {
    let mut instance = instance(ResourceLimits::default());
    let request = instance
        .call(json("{}"), json("\"blocked\""))
        .expect("call is admitted");
    assert!(!instance.cancel_current(), "nothing is in flight yet");
    assert!(matches!(instance.claim(GuestExport::Call), Claim::Run));

    assert!(instance.cancel_current(), "the first cancellation wins");
    assert!(
        !instance.cancel_current(),
        "later cancellation cannot replace the winner"
    );
    let cancelled = instance.settle();
    assert!(cancelled);
    let done = response(&request, r#"{ "done": true }"#);
    let error = finish_call(
        &instance.limits,
        GuestExport::Call,
        &request.request_id,
        cancelled,
        0,
        Ok(done),
    )
    .expect_err("cancelled guest call fails");
    assert_eq!(error.code, "CANCELLED");
    assert_eq!(error.phase, "call");
}

#[test]
fn stop_rejects_new_calls_cancels_in_flight_work_and_calls_the_guest_stop_export() {
    let mut instance = instance(ResourceLimits::default());
    let active = instance
        .call(json("{}"), JsonValue::Null)
        .expect("active call is admitted");
    let waiting = instance
        .call(json("{}"), JsonValue::Null)
        .expect("a second call is admitted before the stop");
    assert_ne!(active.request_id, waiting.request_id);
    assert!(matches!(instance.claim(GuestExport::Call), Claim::Run));

    let request = instance.stop().expect("the first stop asks the guest");
    assert!(!instance.cancel_current(), "stop cancels active work");
    assert!(!instance.claim_stop(), "the guest is still in its call");
    assert!(
        instance.call(json("{}"), JsonValue::Null).is_err(),
        "calls begun after stop starts are rejected"
    );
    match instance.claim(GuestExport::Call) {
        Claim::Refused(error) => assert_eq!(error.code, "INSTANCE_STOPPED"),
        _ => panic!("a call that waited for the guest is rejected"),
    }

    let cancelled = instance.settle();
    finish_call(
        &instance.limits,
        GuestExport::Call,
        &active.request_id,
        cancelled,
        0,
        Ok(response(&active, r#"{ "done": true }"#)),
    )
    .expect_err("stop cancels active call");
    assert!(instance.claim_stop());
    finish_call(
        &instance.limits,
        GuestExport::Stop,
        &request.request_id,
        false,
        0,
        Ok(response(&request, r#"{ "stopped": true }"#)),
    )
    .expect("stop succeeds after cancellation settles");
    instance.finish_stop();
    assert!(instance.stop().is_none(), "the guest stops once");
    assert!(instance.is_stopped());
}

#[test]
fn resource_limits_are_forwarded_and_reject_oversized_input_and_output() {
    let limits = ResourceLimits {
        memory_pages: 7,
        timeout_nanos: 7_000_000,
        fuel: 77,
        max_concurrency: 1,
        max_input_bytes: 1,
        max_output_bytes: 1,
    };
    let mut limited = instance(limits);
    let guest = WasmPackage {
        manifest: package().manifest,
        wasm: Some(lifecycle_wasm()),
    };
    let forwarded = ExtismGuestEngine::default()
        .plan(&guest, &limited.limits)
        .expect("engine receives limits");
    assert_eq!(forwarded.memory_pages, 7);
    assert_eq!(forwarded.timeout_nanos, 7_000_000);
    assert_eq!(forwarded.fuel, 77);
    assert_eq!(limited.limits.max_concurrency, 1);

    limited
        .call(json("{}"), json("\"larger than one byte\""))
        .expect("the call is admitted");
    let error = check_input(&limited.limits, "\"larger than one byte\"".len())
        .expect_err("input limit rejects before guest execution");
    assert_eq!(error.code, "INPUT_LIMIT_EXCEEDED");
    assert_eq!(error.phase, "call");
    assert_eq!(
        error.details,
        Some(json(r#"{ "actual": 22, "limit": 1 }"#))
    );
    assert!(check_input(&limited.limits, 1).is_ok());

    let mut instance = instance(ResourceLimits {
        max_output_bytes: 1,
        ..ResourceLimits::default()
    });
    let request = instance
        .call(json("{}"), JsonValue::Null)
        .expect("the call is admitted");
    let reply = response(&request, "\"larger than one byte\"");
    let error = run(&mut instance, GuestExport::Call, &request, 0, Ok(reply))
        .expect_err("output limit rejects oversized guest response");
    assert!(!error.code.is_empty());
    assert_eq!(error.phase, "call");
}

#[test]
fn lifecycle_output_limit_reaches_the_engine_before_output_allocation() {
    let mut instance = instance(ResourceLimits {
        max_output_bytes: 1,
        ..ResourceLimits::default()
    });
    let request = instance
        .call(json("{}"), JsonValue::Null)
        .expect("the call is admitted");
    let output = accept_output(b"{}", instance.limits.max_output_bytes);
    let error = run(&mut instance, GuestExport::Call, &request, 0, output)
        .expect_err("engine rejects oversized output before copying it");
    assert_eq!(error.code, "OUTPUT_LIMIT_EXCEEDED");
    assert_eq!(
        error.details,
        Some(json(r#"{ "actual": 2, "limit": 1 }"#))
    );
    assert_eq!(accept_output(b"{", 1), Ok(b"{".to_vec()));
}

#[test]
fn a_guest_that_exceeds_its_timeout_fails_without_turning_into_success() {
    let mut instance = instance(ResourceLimits {
        timeout_nanos: 1_000_000,
        ..ResourceLimits::default()
    });
    let request = instance
        .call(json("{}"), JsonValue::Null)
        .expect("the call is admitted");
    let late = response(&request, r#"{ "late": true }"#);
    let error = run(
        &mut instance,
        GuestExport::Call,
        &request,
        10_000_000,
        Ok(late),
    )
    .expect_err("timed out guest result is rejected");
    assert_eq!(error.code, "TIMEOUT");
    assert_eq!(error.phase, "call");
    assert_eq!(error.details, Some(json(r#"{ "timeoutMs": 1 }"#)));
}

#[test]
fn trapped_guests_do_not_poison_an_independent_instance() {
    let mut trapped = instance(ResourceLimits::default());
    let request = trapped
        .call(json("{}"), JsonValue::Null)
        .expect("the call is admitted");
    let error = run(
        &mut trapped,
        GuestExport::Call,
        &request,
        0,
        Err(PluginError::new("GUEST_TRAP", "unreachable", "call")),
    )
    .expect_err("trap surfaces as a stable failure");
    assert_eq!(error.code, "GUEST_TRAP");

    let mut healthy = instance(ResourceLimits::default());
    let request = healthy
        .call(json("{}"), JsonValue::Null)
        .expect("the call is admitted");
    let reply = response(&request, r#"{ "healthy": true }"#);
    assert_eq!(
        run(&mut healthy, GuestExport::Call, &request, 0, Ok(reply))
            .expect("independent guest remains usable"),
        json(r#"{ "healthy": true }"#)
    );
}

#[test]
fn update_event_and_stop_follow_the_guest_lifecycle_and_invalidate_host_handles() {
    let mut exports = Vec::new();
    let mut guest = instance(ResourceLimits::default());

    let request = guest
        .init(json(r#"{ "boot": true }"#))
        .expect("init is admitted");
    assert_eq!(request.payload, json(r#"{ "enabled": true }"#));
    exports.push(GuestExport::Init);
    let ok = response(&request, r#"{ "ok": true }"#);
    assert_eq!(
        run(&mut guest, GuestExport::Init, &request, 0, Ok(ok)).expect("init succeeds"),
        json(r#"{ "ok": true }"#)
    );
    let request = guest
        .event(json(r#"{ "event": "notice" }"#), json(r#"{ "value": 1 }"#))
        .expect("event is admitted");
    exports.push(GuestExport::Event);
    let ok = response(&request, r#"{ "ok": true }"#);
    assert_eq!(
        run(&mut guest, GuestExport::Event, &request, 0, Ok(ok)).expect("event reaches guest"),
        json(r#"{ "ok": true }"#)
    );
    let config = json(r#"{ "enabled": false }"#);
    let request = guest
        .update(json(r#"{ "source": "reload" }"#), &config)
        .expect("update is admitted");
    assert_eq!(request.payload, config);
    exports.push(GuestExport::Update);
    let ok = response(&request, r#"{ "ok": true }"#);
    assert_eq!(
        run(&mut guest, GuestExport::Update, &request, 0, Ok(ok))
            .expect("config update reaches guest"),
        json(r#"{ "ok": true }"#)
    );
    assert_eq!(guest.config(), json(r#"{ "enabled": true }"#));
    guest.commit_update(config);
    assert_eq!(guest.config(), json(r#"{ "enabled": false }"#));

    let request = stop(&mut guest).expect("stop succeeds");
    assert_eq!(request.context, JsonValue::Null);
    exports.push(GuestExport::Stop);
    let error = guest
        .call(json("{}"), JsonValue::Null)
        .expect_err("stopped instances reject new calls");
    assert!(!error.code.is_empty());
    assert_eq!(
        exports,
        vec![
            GuestExport::Init,
            GuestExport::Event,
            GuestExport::Update,
            GuestExport::Stop,
        ]
    );

    let mut registry = CapabilityRegistry::new();
    registry.grant(Capability::Log);
    registry
        .register(Capability::Log)
        .expect("log capability registers");
    let mut guest = WasmPluginInstance::instantiate(
        &package(),
        ResourceLimits::default(),
        json("{}"),
        "wasm:1:1".to_owned(),
    )
    .expect("handle guest instantiates");
    assert!(guest
        .host
        .invoke(&registry, Capability::Log, json("{}"))
        .is_ok());
    stop(&mut guest).expect("stopping handle guest succeeds");
    assert!(!guest.host.is_alive());
    assert!(
        guest
            .host
            .invoke(
                &registry,
                Capability::Log,
                json(r#"{ "message": "after stop" }"#)
            )
            .is_err(),
        "host bindings become unusable after their instance stops"
    );
}

#[test]
fn refused_updates_keep_the_configuration() {
    let mut guest = instance(ResourceLimits::default());
    let error = guest
        .update(json("{}"), &json("[]"))
        .expect_err("the manifest wants an object");
    assert_eq!(error.code, "CONFIG_INVALID");
    assert_eq!(guest.config(), json(r#"{ "enabled": true }"#));
    assert_eq!(guest.sequence, 0);
}

#[test]
fn revoked_instances_reject_work_at_once() {
    let mut guest = instance(ResourceLimits::default());
    guest
        .call(json("{}"), JsonValue::Null)
        .expect("the call is admitted");
    assert!(matches!(guest.claim(GuestExport::Call), Claim::Run));
    assert!(guest.revoke());
    assert!(!guest.revoke());
    assert!(!guest.host.is_alive());
    assert!(guest.settle(), "the call in flight was cancelled");
    assert!(guest.stop().is_none());
    assert!(guest.init(json("{}")).is_err());
    assert!(guest.event(json("{}"), JsonValue::Null).is_err());
}

#[test]
fn in_memory_engines_keep_the_calls_they_were_asked_for() {
    let mut engine = InMemoryGuestEngine::new();
    let input = br#"{ "requestId": "r", "context": {}, "payload": [1] }"#;
    let request = engine
        .receive(GuestExport::Event, input)
        .expect("the request is well formed");
    assert_eq!(request.request_id, "r");
    assert_eq!(engine.calls().len(), 1);
    assert_eq!(engine.calls()[0].export, GuestExport::Event);
    assert_eq!(engine.calls()[0].envelope, request);

    engine.cancel();
    let error = engine
        .receive(GuestExport::Event, input)
        .expect_err("the call was cancelled before it began");
    assert_eq!(error.code, "CANCELLED");
    assert!(engine.receive(GuestExport::Event, input).is_ok());
    assert_eq!(engine.calls().len(), 2);

    for (bytes, reason) in [
        ("[]", "a request must be an object"),
        (r#"{ "requestId": "r", "context": {} }"#, "missing field `payload`"),
        (
            r#"{ "requestId": "r", "context": 1, "payload": 2, "extra": 3 }"#,
            "unknown field `extra`",
        ),
    ] {
        let error = engine
            .receive(GuestExport::Event, bytes.as_bytes())
            .expect_err(reason);
        assert_eq!(error.code, "PROTOCOL_INVALID");
        assert_eq!(
            error.message,
            format!("invalid guest request envelope: {reason}")
        );
        assert_eq!(error.phase, "event");
    }
}
