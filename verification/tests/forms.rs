use tessivum::decode::parse_entry_tree;
use tessivum::engine::InMemoryGuestEngine;
use tessivum::error::{LoaderError, PluginError};
use tessivum::fixture::{parse_fixture, FixtureError, TraceEventKind};
use tessivum::manifest::{Capability, GuestExport, PluginManifest};
use tessivum::package::{WasmPackage, MAX_MANIFEST_BYTES};
use tessivum::tree::RuntimeKind;

const EXPORTS: &str =
    r#"["cordis_init", "cordis_call", "cordis_event", "cordis_update", "cordis_stop"]"#;

fn object(extra: &str) -> String {
    format!(
        r#"{{"id": "example.wasm", "version": "1.2.3", "entry": "plugin.wasm",
            "abi": "cordis.plugin/v1", "inject": [], "permissions": ["cordis.log"],
            "configSchema": {{"type": "object"}}, "exports": {EXPORTS}{extra}}}"#
    )
}

fn list() -> String {
    format!(
        r#"["example.wasm", "1.2.3", "plugin.wasm", "cordis.plugin/v1", [],
            [{{"cordis.log": null}}], {{"type": "object"}}, {EXPORTS}]"#
    )
}

#[test]
fn manifests_may_be_lists_of_their_fields() {
    let manifest = PluginManifest::from_json(&list()).expect("the list gives every field");
    assert_eq!(manifest.id, "example.wasm");
    assert_eq!(manifest.permissions, [Capability::Log]);
    assert_eq!(manifest, PluginManifest::from_json(&object("")).expect("the object is valid"));
    let short = list().replace(&format!(", {EXPORTS}"), "");
    assert!(PluginManifest::from_json(&short).is_err());
}

#[test]
fn manifests_give_each_field_once() {
    for twice in [r#", "id": "example.wasm""#, r#", "\u0069d": "example.wasm""#] {
        let document = object(twice);
        let error = PluginManifest::from_json(&document).expect_err("a field is given twice");
        assert_eq!(error.code, "MANIFEST_INVALID");
        let read = WasmPackage::from_manifest_file("plugin.json", document.as_bytes())
            .expect_err("a field is given twice");
        assert_eq!(read.code, "MANIFEST_INVALID");
    }
    let inner = object("").replace(r#""type": "object""#, r#""type": "object", "type": "object""#);
    assert!(PluginManifest::from_json(&inner).is_ok());
    assert!(WasmPackage::from_manifest_file("plugin.json", inner.as_bytes()).is_ok());
}

fn receive(text: &str) -> Result<String, PluginError> {
    InMemoryGuestEngine::new()
        .receive(GuestExport::Call, text.as_bytes())
        .map(|request| request.request_id)
}

#[test]
fn requests_may_be_lists_and_give_each_field_once() {
    assert_eq!(
        receive(r#"{"requestId": "one", "context": {}, "payload": {"a": 1, "a": 2}}"#),
        Ok("one".to_owned())
    );
    assert_eq!(receive(r#"["two", {}, null]"#), Ok("two".to_owned()));
    assert!(receive(r#"["two", {}]"#).is_err());
    let error = receive(r#"{"requestId": "one", "context": {}, "payload": 1, "payload": 2}"#)
        .expect_err("a field is given twice");
    assert_eq!(error.phase, "call");
}

fn fixture(trace: &str, extra: &str) -> String {
    format!(
        r#"{{"schemaVersion": "tessivum.conformance/v1", "name": "a", "domain": "lifecycle",
            "scenario": "start", "input": {{"a": 1, "a": 2}}, "expectedTrace": [{trace}]{extra}}}"#
    )
}

#[test]
fn fixtures_may_be_lists_and_give_each_field_once() {
    let kind = TraceEventKind::all()[0];
    let name = kind.name();
    let listed = parse_fixture(&format!(
        r#"["tessivum.conformance/v1", "a", {{"lifecycle": null}}, "start", {{}},
            [["{name}", "fiber", "a", "b", "c", "d", null], {{"event": {{"{name}": null}}}}]]"#
    ))
    .expect("the fixture is valid");
    assert_eq!(listed.expected_trace.len(), 2);
    assert_eq!(listed.expected_trace[0].kind, kind);
    assert_eq!(listed.expected_trace[0].subject.as_deref(), Some("fiber"));
    assert_eq!(listed.expected_trace[1].kind, kind);
    let event = format!(r#"{{"event": "{name}", "value": {{"a": 1, "a": 2}}}}"#);
    assert!(parse_fixture(&fixture(&event, "")).is_ok());
    let repeated = format!(r#"{{"event": "{name}", "label": "a", "label": "a"}}"#);
    for document in [fixture(&repeated, ""), fixture(&event, r#", "name": "a""#)] {
        match parse_fixture(&document) {
            Err(FixtureError::MalformedDocument(_)) => {}
            other => panic!("{other:?}"),
        }
    }
}

#[test]
fn groups_may_be_lists_and_runtimes_objects() {
    let tree = parse_entry_tree(
        r#"{"entries": [], "groups": [
            ["tools", [{"package": "a", "id": "a", "runtime": {"wasm": null}}], [["inner"]], true]
        ]}"#,
    )
    .expect("the tree is valid");
    assert_eq!(tree.groups[0].id, "tools");
    assert!(tree.groups[0].disabled);
    assert_eq!(tree.groups[0].entries[0].options.runtime, RuntimeKind::Wasm);
    assert_eq!(tree.groups[0].groups[0].id, "inner");
}

#[test]
fn unknown_fields_runtimes_and_expressions_are_refused() {
    for document in [
        r#"{"entries": [], "stray": 1}"#,
        r#"{"entries": [{"package": "a", "id": "a", "stray": 1}]}"#,
        r#"{"groups": [{"id": "g", "groups": [{"id": "h", "stray": 1}]}]}"#,
        r#"{"groups": [{"id": "g", "entries": [{"package": "a", "id": "a", "runtime": "jvm"}]}]}"#,
        r#"[{"package": "a", "id": "a", "runtime": "jvm"}]"#,
    ] {
        match parse_entry_tree(document) {
            Err(LoaderError::Parse(_)) => {}
            other => panic!("{document}: {other:?}"),
        }
    }
    match parse_entry_tree("entries:\n  - package: a\n    id: a\n    config: !!js 1\n") {
        Err(LoaderError::Expression(_)) => {}
        other => panic!("{other:?}"),
    }
}

#[test]
fn manifest_files_have_a_size_limit() {
    let mut document = object("");
    let room = MAX_MANIFEST_BYTES as usize - document.len();
    document.push_str(&" ".repeat(room));
    assert!(WasmPackage::from_manifest_file("plugin.json", document.as_bytes()).is_ok());
    document.push(' ');
    let error = WasmPackage::from_manifest_file("plugin.json", document.as_bytes())
        .expect_err("the file is too large");
    assert_eq!(error.code, "PACKAGE_READ_FAILED");
    assert_eq!(error.message, "cannot read plugin.json: file exceeds its size limit");
}
