use tessivum::catalog_emit::events;
use tessivum::catalog_events::events_case;
use tessivum::catalog_lifecycle::{lifecycle, lifecycle_case};
use tessivum::catalog_loader::{execute, loader, loader_case, tree_to_write};
use tessivum::catalog_providers::services;
use tessivum::catalog_services::services_case;
use tessivum::conformance::{case_ids, event_labels, input_text, normalize_value, Trace};
use tessivum::document::parse_json;
use tessivum::fixture::{parse_fixture, Fixture, TraceEventKind};
use tessivum::json::JsonValue;
use tessivum::report::{fail, judge, trace_value, unsupported};
use tessivum::tree::EntryTree;

fn fixture(domain: &str, scenario: &str, input: &str, trace: &str) -> Fixture {
    parse_fixture(&format!(
        r#"{{
            "schemaVersion": "tessivum.conformance/v1",
            "name": "catalog",
            "domain": "{domain}",
            "scenario": "{scenario}",
            "input": {input},
            "expectedTrace": {trace}
        }}"#
    ))
    .expect("test fixture is valid")
}

const LIFECYCLE_CASES: [&str; 12] = [
    "sync-start",
    "async-start",
    "sync-cleanup",
    "async-cleanup",
    "iterable-cleanup",
    "reverse-disposal",
    "nested-effect",
    "repeated-disposal",
    "reentrant-disposal",
    "failed-start-rollback",
    "parent-child-quiescence",
    "unload-registration-rejection",
];

const SERVICE_CASES: [&str; 9] = [
    "late-provider",
    "provider-replacement",
    "duplicate-provider",
    "stale-generation",
    "provider-removal-recovery",
    "optional-dependency",
    "isolate-realms",
    "shared-realm",
    "intercept-merge",
];

const EVENT_CASES: [&str; 11] = [
    "emit-ordering",
    "parallel-aggregate",
    "serial-bail",
    "sync-bail",
    "waterfall-next",
    "waterfall-short-circuit",
    "waterfall-wrap",
    "prepend",
    "scoped-filter",
    "listener-self-removal",
    "owner-disposal-during-dispatch",
];

const LOADER_CASES: [&str; 10] = [
    "unordered-dependencies",
    "duplicate-id",
    "add-update-remove-move",
    "config-only-update",
    "plugin-replacement",
    "candidate-failure",
    "rollback-failure",
    "nested-group",
    "patch-insertion-later-targeting",
    "atomic-write",
];

fn cases(ids: &[&str]) -> String {
    let list: Vec<String> = ids.iter().map(|id| format!(r#"{{"id": "{id}"}}"#)).collect();
    format!("[{}]", list.join(", "))
}

fn status(report: &JsonValue) -> &str {
    report.get("status").and_then(|status| status.as_str()).expect("a report has a status")
}

const LIFECYCLE_TRACE: &str = r#"[
    {"event": "fiber-created", "subject": "effect-dispose"},
    {"event": "fiber-state-changed", "subject": "effect-dispose", "from": "PENDING", "to": "LOADING"},
    {"event": "effect-created", "subject": "effect-dispose.effect", "label": "socket"},
    {"event": "fiber-state-changed", "subject": "effect-dispose", "from": "LOADING", "to": "ACTIVE"},
    {"event": "fiber-state-changed", "subject": "effect-dispose", "from": "ACTIVE", "to": "UNLOADING"},
    {"event": "effect-disposed", "subject": "effect-dispose.effect", "label": "socket"},
    {"event": "fiber-state-changed", "subject": "effect-dispose", "from": "UNLOADING", "to": "DISPOSED"}
]"#;

#[test]
fn full_catalog_executes_without_not_implemented() {
    let lifecycle_fixture = fixture(
        "lifecycle",
        "effect-dispose",
        &format!(r#"{{"effects": ["socket"], "cases": {}}}"#, cases(&LIFECYCLE_CASES)),
        LIFECYCLE_TRACE,
    );
    let services_fixture = fixture(
        "service",
        "isolate-realm",
        &format!(r#"{{"cases": {}}}"#, cases(&SERVICE_CASES)),
        r#"[
            {"event": "fiber-created", "subject": "isolate-realm.root"},
            {"event": "fiber-state-changed", "subject": "isolate-realm.root", "from": "PENDING", "to": "LOADING"},
            {"event": "service-provided", "subject": "storage", "label": "root"},
            {"event": "fiber-state-changed", "subject": "isolate-realm.root", "from": "LOADING", "to": "ACTIVE"},
            {"event": "fiber-created", "subject": "isolate-realm.isolated"},
            {"event": "fiber-state-changed", "subject": "isolate-realm.isolated", "from": "PENDING", "to": "LOADING"},
            {"event": "service-provided", "subject": "storage", "label": "isolated"},
            {"event": "fiber-state-changed", "subject": "isolate-realm.isolated", "from": "LOADING", "to": "ACTIVE"},
            {"event": "fiber-state-changed", "subject": "isolate-realm.isolated", "from": "ACTIVE", "to": "UNLOADING"},
            {"event": "service-removed", "subject": "storage", "label": "isolated"},
            {"event": "fiber-state-changed", "subject": "isolate-realm.isolated", "from": "UNLOADING", "to": "DISPOSED"},
            {"event": "fiber-state-changed", "subject": "isolate-realm.root", "from": "ACTIVE", "to": "UNLOADING"},
            {"event": "service-removed", "subject": "storage", "label": "root"},
            {"event": "fiber-state-changed", "subject": "isolate-realm.root", "from": "UNLOADING", "to": "DISPOSED"}
        ]"#,
    );
    let events_fixture = fixture(
        "event",
        "emit",
        &format!(
            r#"{{"event": "ping", "listeners": [{{"label": "a"}}, {{"label": "b"}}], "cases": {}}}"#,
            cases(&EVENT_CASES)
        ),
        r#"[
            {"event": "listener-added", "subject": "ping", "label": "a"},
            {"event": "listener-added", "subject": "ping", "label": "b"},
            {"event": "event-dispatched", "subject": "ping", "label": "a", "phase": "emit"},
            {"event": "event-dispatched", "subject": "ping", "label": "b", "phase": "emit"},
            {"event": "listener-removed", "subject": "ping", "label": "b"},
            {"event": "listener-removed", "subject": "ping", "label": "a"}
        ]"#,
    );
    let loader_fixture = fixture(
        "loader",
        "loader-catalog",
        &format!(r#"{{"cases": {}}}"#, cases(&LOADER_CASES)),
        r#"[{"event": "config-rolled-back", "error": "another"}]"#,
    );
    for (fixture, expected) in [
        (lifecycle_fixture, "PASS"),
        (services_fixture, "PASS"),
        (events_fixture, "PASS"),
        (loader_fixture, "MISMATCH"),
    ] {
        let trace = execute(&fixture, &tree_to_write())
            .expect("the scenario is supported")
            .expect("every case passes");
        let (passed, report) = judge(&fixture, &trace);
        assert_eq!(passed, expected == "PASS", "{report:?}");
        assert_eq!(status(&report), expected, "{report:?}");
        if expected == "MISMATCH" {
            let error = report.get("error").expect("a mismatch has an error");
            assert_eq!(error.get("code").and_then(|code| code.as_str()), Some("TRACE_MISMATCH"));
            assert!(
                report
                    .get("trace")
                    .and_then(|trace| trace.as_array())
                    .is_some_and(|trace| !trace.is_empty()),
                "loader execution must expose its transaction trace: {report:?}"
            );
        }
    }
}

#[test]
fn every_scenario_passes_and_others_are_unsupported() {
    for id in LIFECYCLE_CASES {
        assert_eq!(lifecycle_case(id), Ok(()));
    }
    for id in SERVICE_CASES {
        assert_eq!(services_case(id), Ok(()));
    }
    for id in EVENT_CASES {
        assert_eq!(events_case(id), Ok(()));
    }
    for id in LOADER_CASES {
        let mut trace = Trace::new();
        assert_eq!(loader_case(id, &tree_to_write(), &mut trace), Ok(()));
    }
    assert_eq!(
        lifecycle_case("other"),
        Err("unsupported lifecycle catalog case \"other\"".to_owned())
    );
    assert_eq!(
        services_case("say \"hi\""),
        Err("unsupported service catalog case \"say \\\"hi\\\"\"".to_owned())
    );
    assert_eq!(events_case(""), Err("unsupported event catalog case \"\"".to_owned()));
    let mut trace = Trace::new();
    assert_eq!(
        loader_case("other", &tree_to_write(), &mut trace),
        Err("unsupported loader catalog case \"other\"".to_owned())
    );
    assert_eq!(
        loader_case("atomic-write", &Ok(EntryTree { entries: Vec::new(), groups: Vec::new() }), &mut trace),
        Err("atomic write did not persist the committed tree".to_owned())
    );
    let lost = Err("No space left on device".to_owned());
    assert_eq!(
        loader_case("atomic-write", &lost, &mut trace),
        Err("No space left on device".to_owned())
    );
    assert_eq!(loader_case("nested-group", &lost, &mut Trace::new()), Ok(()));
    assert!(trace.events.is_empty());
}

#[test]
fn loader_scenarios_leave_their_transactions_in_the_trace() {
    let kinds = |id: &str| -> Vec<TraceEventKind> {
        let mut trace = Trace::new();
        loader_case(id, &tree_to_write(), &mut trace).expect("the scenario passes");
        trace.events.iter().map(|event| event.kind).collect()
    };
    assert!(kinds("duplicate-id").is_empty());
    assert_eq!(kinds("nested-group"), [TraceEventKind::ConfigCommitted]);
    assert_eq!(
        kinds("rollback-failure"),
        [TraceEventKind::ConfigCommitted, TraceEventKind::ConfigRolledBack]
    );
    let mut trace = Trace::new();
    loader_case("rollback-failure", &tree_to_write(), &mut trace).expect("the scenario passes");
    assert_eq!(
        trace.events[1].error.as_deref(),
        Some("1 loader error(s) with 1 rollback error(s)")
    );
}

#[test]
fn inputs_fall_back_to_defaults() {
    let empty = fixture("event", "emit", r#"{"cases": [{"id": "prepend"}]}"#, LIFECYCLE_TRACE);
    assert_eq!(input_text(&empty, "event", "emit"), "emit");
    assert_eq!(event_labels(&empty), ["first", "second"]);
    assert_eq!(case_ids(&empty), Ok(vec!["prepend".to_owned()]));
    let blank = fixture("event", "emit", r#"{"event": "", "listeners": [{}]}"#, LIFECYCLE_TRACE);
    assert_eq!(input_text(&blank, "event", "emit"), "emit");
    assert_eq!(event_labels(&blank), ["first", "second"]);
    assert_eq!(
        case_ids(&blank),
        Err("conformance catalog requires a cases array".to_owned())
    );
    let none = fixture("event", "emit", r#"{"cases": []}"#, LIFECYCLE_TRACE);
    assert_eq!(
        case_ids(&none),
        Err("conformance catalog requires at least one case".to_owned())
    );
    let nameless = fixture("event", "emit", r#"{"cases": [{"id": ""}]}"#, LIFECYCLE_TRACE);
    assert_eq!(
        case_ids(&nameless),
        Err("conformance catalog case requires a non-empty id".to_owned())
    );
    let other = fixture(
        "event",
        "emit",
        r#"{"mode": "bail", "cases": [{"id": "prepend"}]}"#,
        LIFECYCLE_TRACE,
    );
    assert_eq!(events(&other), Err("emit scenario requires emit mode".to_owned()));
}

#[test]
fn unknown_cases_fail_the_run_with_their_name() {
    let input = r#"{"cases": [{"id": "nothing"}]}"#;
    assert_eq!(
        lifecycle(&fixture("lifecycle", "effect-dispose", input, LIFECYCLE_TRACE)),
        Err("lifecycle catalog case nothing: unsupported lifecycle catalog case \"nothing\""
            .to_owned())
    );
    assert_eq!(
        services(&fixture("service", "isolate-realm", input, LIFECYCLE_TRACE)),
        Err("service catalog case nothing: unsupported service catalog case \"nothing\""
            .to_owned())
    );
    assert_eq!(
        loader(&fixture("loader", "loader-catalog", input, "[]"), &tree_to_write()),
        Err("loader catalog case nothing: unsupported loader catalog case \"nothing\""
            .to_owned())
    );
    let odd = fixture("loader", "other", input, "[]");
    assert!(execute(&odd, &tree_to_write()).is_none());
    let report = unsupported(&odd);
    assert_eq!(status(&report), "UNSUPPORTED_SCENARIO");
    assert_eq!(
        report.get("error").and_then(|error| error.get("message")).and_then(|text| text.as_str()),
        Some("loader/other is not supported by the Rust conformance runner")
    );
}

#[test]
fn mismatches_point_at_the_first_difference() {
    let input = format!(r#"{{"effects": ["plug"], "cases": {}}}"#, cases(&["sync-start"]));
    let fixture = fixture("lifecycle", "effect-dispose", &input, LIFECYCLE_TRACE);
    let trace = lifecycle(&fixture).expect("the run succeeds");
    let (passed, report) = judge(&fixture, &trace);
    assert!(!passed);
    let error = report.get("error").expect("a mismatch has an error");
    assert_eq!(
        error.get("message").and_then(|text| text.as_str()),
        Some("trace mismatch at event 2")
    );
    assert_eq!(error.get("actual"), Some(&trace_value(&trace[2])));
    assert_eq!(
        error.get("expected"),
        Some(
            &parse_json(
                r#"{"event": "effect-created", "label": "socket", "subject": "effect-dispose.effect"}"#
            )
            .expect("JSON")
        )
    );
    let report = fail("USAGE", "<input>", "expected exactly one fixture path");
    assert_eq!(
        report,
        parse_json(
            r#"{"fixture": "<input>", "status": "USAGE", "error": {"code": "USAGE",
            "fixture": "<input>", "message": "expected exactly one fixture path"}}"#
        )
        .expect("JSON")
    );
}

#[test]
fn empty_loader_expectations_accept_any_trace() {
    let input = format!(r#"{{"cases": {}}}"#, cases(&["nested-group"]));
    let fixture = fixture("loader", "loader-catalog", &input, "[]");
    let trace = loader(&fixture, &tree_to_write()).expect("the run succeeds");
    assert_eq!(trace.len(), 1);
    let (passed, report) = judge(&fixture, &trace);
    assert!(passed);
    assert_eq!(status(&report), "PASS");
}

#[test]
fn normalized_values_have_ordered_keys() {
    let unordered = JsonValue::Object(vec![
        tessivum::json::Member { key: "b".to_owned(), value: JsonValue::Null },
        tessivum::json::Member { key: "a".to_owned(), value: JsonValue::Bool(true) },
    ]);
    let normal = normalize_value(&unordered);
    assert_eq!(normal, parse_json(r#"{"a": true, "b": null}"#).expect("JSON"));
    assert_eq!(normalize_value(&normal), normal, "normalizing twice changes nothing");
    assert_ne!(unordered, normal);
}
