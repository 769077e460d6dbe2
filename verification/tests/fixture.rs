use tessivum::fixture::{
    is_catalog_identifier, parse_fixture, Domain, FixtureError, TraceEventKind,
};

const FIXTURE: &str = r#"{
    "schemaVersion": "tessivum.conformance/v1",
    "name": "lifecycle.start-1",
    "domain": "lifecycle",
    "scenario": "start",
    "input": { "cases": [] },
    "expectedTrace": [ { "event": "KIND", "subject": "fiber", "value": [1] } ]
}"#;

fn source() -> String {
    FIXTURE.replace("KIND", TraceEventKind::all()[0].name())
}

fn refused(from: &str, to: &str) -> String {
    let text = source();
    assert!(text.contains(from), "{from}");
    match parse_fixture(&text.replace(from, to)) {
        Err(FixtureError::Invalid(message)) => message,
        other => panic!("{other:?}"),
    }
}

#[test]
fn fixtures_keep_what_they_say() {
    let fixture = parse_fixture(&source()).expect("the fixture is valid");
    assert_eq!(fixture.name, "lifecycle.start-1");
    assert_eq!(fixture.domain, Domain::Lifecycle);
    assert_eq!(fixture.expected_trace.len(), 1);
    assert_eq!(fixture.expected_trace[0].kind, TraceEventKind::all()[0]);
    assert_eq!(fixture.expected_trace[0].subject.as_deref(), Some("fiber"));
    assert_eq!(fixture.expected_trace[0].label, None);
    assert_eq!(fixture.validate(), Ok(()));
}

#[test]
fn fixtures_are_refused_with_their_first_fault() {
    assert_eq!(
        refused("conformance/v1", "conformance/v2"),
        "schemaVersion must be \"tessivum.conformance/v1\""
    );
    assert_eq!(
        refused("lifecycle.start-1", "Lifecycle"),
        "name must be a lowercase dot- or dash-separated identifier"
    );
    assert_eq!(
        refused("\"scenario\": \"start\"", "\"scenario\": \"start-\""),
        "scenario must be a lowercase dot- or dash-separated identifier"
    );
    assert_eq!(
        refused("{ \"cases\": [] }", "[]"),
        "input must be an object"
    );
    assert_eq!(
        refused("\"subject\": \"fiber\"", "\"subject\": \" \""),
        "expectedTrace[0].subject must not be blank"
    );
    let event = format!(
        "{{ \"event\": \"{}\", \"subject\": \"fiber\", \"value\": [1] }}",
        TraceEventKind::all()[0].name()
    );
    assert_eq!(refused(&event, ""), "expectedTrace must not be empty");
}

#[test]
fn broken_documents_are_told_apart_from_broken_rules() {
    for (from, to) in [
        ("\"lifecycle\",", "\"weather\","),
        ("\"input\"", "\"inputs\""),
        ("\"subject\"", "\"subjects\""),
        (TraceEventKind::all()[0].name(), "no-such-kind"),
        ("\"name\": \"lifecycle.start-1\",", ""),
        ("{", ""),
    ] {
        let text = source().replacen(from, to, 1);
        let error = parse_fixture(&text).expect_err(from);
        assert!(
            matches!(&error, FixtureError::MalformedDocument(_)),
            "{from}: {error:?}"
        );
        assert!(error.message().starts_with("malformed JSON fixture: "));
    }
}

#[test]
fn identifiers_have_single_separators() {
    for good in ["a", "a1", "a.b-c", "a-1"] {
        assert!(is_catalog_identifier(good), "{good}");
    }
    for bad in ["", "1a", "-a", "a-", "a..b", "a.-b", "A", "a_b", "a b", "\u{e9}"] {
        assert!(!is_catalog_identifier(bad), "{bad}");
    }
}

#[test]
fn names_of_kinds_and_domains_read_back() {
    let kinds = TraceEventKind::all();
    for kind in &kinds {
        assert_eq!(TraceEventKind::parse(kind.name()), Some(*kind));
    }
    assert_eq!(TraceEventKind::parse("no-such-kind"), None);
    assert_eq!(Domain::parse("loader"), Some(Domain::Loader));
    assert_eq!(Domain::parse("weather"), None);
}
