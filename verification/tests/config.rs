use tessivum::config::{
    contains_script, evaluate_config, Captured, ConfigExpression, ConfigScope, Variable,
};
use tessivum::document::parse_json;
use tessivum::error::LoaderError;
use tessivum::json::{JsonValue, Member, Number};

fn json(text: &str) -> JsonValue {
    parse_json(text).expect("test document is JSON")
}

fn text(value: &str) -> JsonValue {
    JsonValue::String(value.to_owned())
}

fn member(key: &str, value: JsonValue) -> Member {
    Member { key: key.to_owned(), value }
}

fn scope() -> ConfigScope {
    ConfigScope {
        environment: vec![Variable { name: "MODE".to_owned(), value: "production".to_owned() }],
        platform: "test-os".to_owned(),
        architecture: "test-arch".to_owned(),
        profiles: vec![member("headless", JsonValue::Bool(true))],
        services: vec![member(
            "http",
            json(r#"{"endpoint": "https://example.test", "enabled": true}"#),
        )],
    }
}

#[test]
fn safe_config_expressions_resolve_only_declared_inputs() {
    let scope = scope();

    assert_eq!(
        ConfigExpression::parse("${env.MODE}")
            .expect("whitelisted environment projection parses")
            .evaluate(&scope)
            .expect("whitelisted environment projection evaluates"),
        text("production")
    );
    assert_eq!(
        ConfigExpression::parse("platform")
            .expect("platform expression parses")
            .evaluate(&scope)
            .expect("platform expression evaluates"),
        text("test-os")
    );
    assert_eq!(
        ConfigExpression::parse("architecture")
            .expect("architecture expression parses")
            .evaluate(&scope)
            .expect("architecture expression evaluates"),
        text("test-arch")
    );
    assert_eq!(
        ConfigExpression::parse("profile.headless")
            .expect("declared profile expression parses")
            .evaluate(&scope)
            .expect("declared profile expression evaluates"),
        JsonValue::Bool(true)
    );
    assert_eq!(
        ConfigExpression::parse("service.http.endpoint")
            .expect("declared service projection parses")
            .evaluate(&scope)
            .expect("declared service projection evaluates"),
        text("https://example.test")
    );

    assert!(
        ConfigExpression::parse("env.SECRET")
            .expect("well-formed but unapproved environment expression parses")
            .evaluate(&scope)
            .is_err(),
        "the evaluator must not read host environment variables outside its explicit projection"
    );
    assert!(
        ConfigExpression::parse("service.http.missing")
            .expect("well-formed missing service projection parses")
            .evaluate(&scope)
            .is_err(),
        "service configuration is a read-only declared projection rather than arbitrary lookup"
    );
}

#[test]
fn embedded_expressions_are_recursive_and_arbitrary_javascript_is_rejected() {
    let resolved = evaluate_config(
        &json(
            r#"{
            "endpoint": {"$expr": "service.http.endpoint"},
            "metadata": [
                {"$expr": "${env.MODE}"},
                {"$expr": "profile.headless"},
                null
            ]
        }"#,
        ),
        &scope(),
    )
    .expect("recursive safe expressions evaluate");

    assert_eq!(
        resolved,
        json(
            r#"{
            "endpoint": "https://example.test",
            "metadata": ["production", true, null]
        }"#
        ),
        "only expression leaves change; ordinary JSON values preserve their shape"
    );
    assert!(
        evaluate_config(&json(r#"{"$js": "process.exit(1)"}"#), &scope()).is_err(),
        "general JavaScript is never evaluated in the native configuration evaluator"
    );
    assert!(
        evaluate_config(&json(r#"{"$expr": "platform", "other": true}"#), &scope()).is_err(),
        "an expression node has no hidden sibling configuration"
    );
}

#[test]
fn auditable_boolean_string_and_null_operators_have_fixed_types() {
    let scope = scope();
    let expression = ConfigExpression::Concat {
        values: vec![
            ConfigExpression::Literal { value: text("mode=") },
            ConfigExpression::Env { name: "MODE".to_owned() },
        ],
    };
    assert_eq!(
        expression
            .evaluate(&scope)
            .expect("string concat evaluates declared string operands"),
        text("mode=production")
    );
    assert_eq!(
        ConfigExpression::And {
            values: vec![
                ConfigExpression::Profile { name: "headless".to_owned() },
                ConfigExpression::Not {
                    value: Box::new(ConfigExpression::Literal { value: JsonValue::Bool(false) }),
                },
            ],
        }
        .evaluate(&scope)
        .expect("boolean operators evaluate boolean operands"),
        JsonValue::Bool(true)
    );
    assert_eq!(
        ConfigExpression::Coalesce {
            values: vec![
                ConfigExpression::Literal { value: JsonValue::Null },
                ConfigExpression::Literal { value: text("fallback") },
            ],
        }
        .evaluate(&scope)
        .expect("coalesce returns the first non-null scalar"),
        text("fallback")
    );
    assert!(
        ConfigExpression::Literal { value: json(r#"{"not": "a scalar"}"#) }
            .evaluate(&scope)
            .is_err(),
        "the literal language deliberately excludes object and array construction"
    );
    assert!(
        ConfigExpression::Not {
            value: Box::new(ConfigExpression::Literal { value: text("not boolean") }),
        }
        .evaluate(&scope)
        .is_err(),
        "boolean operators cannot coerce arbitrary JSON values"
    );
}

#[test]
fn equality_and_disjunction_decide_by_value() {
    let scope = scope();
    let same = ConfigExpression::Equals {
        left: Box::new(ConfigExpression::Env { name: "MODE".to_owned() }),
        right: Box::new(ConfigExpression::Literal { value: text("production") }),
    };
    assert_eq!(same.evaluate(&scope), Ok(JsonValue::Bool(true)));
    let other = ConfigExpression::Equals {
        left: Box::new(ConfigExpression::Platform),
        right: Box::new(ConfigExpression::Architecture),
    };
    assert_eq!(other.evaluate(&scope), Ok(JsonValue::Bool(false)));
    let any = ConfigExpression::Or { values: vec![other, same] };
    assert_eq!(any.evaluate(&scope), Ok(JsonValue::Bool(true)));
    let none = ConfigExpression::Or { values: vec![] };
    assert_eq!(none.evaluate(&scope), Ok(JsonValue::Bool(false)));
    let all = ConfigExpression::And { values: vec![] };
    assert_eq!(all.evaluate(&scope), Ok(JsonValue::Bool(true)));
}

#[test]
fn malformed_expressions_are_refused() {
    for source in ["", "process.exit(1)", "env.", "env.A.B", "profile", "service", "${env.MODE"] {
        assert!(
            matches!(ConfigExpression::parse(source), Err(LoaderError::Expression(_))),
            "{source:?} is not in the language"
        );
    }
    let parsed = ConfigExpression::parse("service.http.tls.port").expect("a projection parses");
    assert_eq!(
        parsed,
        ConfigExpression::Service {
            name: "http".to_owned(),
            path: vec!["tls".to_owned(), "port".to_owned()],
        }
    );
}

#[test]
fn captured_variables_are_those_that_the_host_has() {
    let captured = vec![
        Captured { name: "B".to_owned(), value: Some("2".to_owned()) },
        Captured { name: "MISSING".to_owned(), value: None },
        Captured { name: "A".to_owned(), value: Some("1".to_owned()) },
    ];
    let scope = ConfigScope::from_allowed_environment(
        captured,
        "linux".to_owned(),
        "x86_64".to_owned(),
    );
    let value = |name: &str| {
        ConfigExpression::Env { name: name.to_owned() }.evaluate(&scope)
    };
    assert_eq!(value("A"), Ok(text("1")));
    assert_eq!(value("B"), Ok(text("2")));
    assert!(value("MISSING").is_err());
    assert_eq!(scope.environment.len(), 2);
    assert_eq!(scope.platform, "linux");
    assert_eq!(scope.architecture, "x86_64");
    assert!(scope.profiles.is_empty() && scope.services.is_empty());
}

#[test]
fn plain_configuration_evaluates_to_itself() {
    let plain = json(r#"{"a": [1, -2, 2.5, {"b": null}], "c": "text"}"#);
    assert_eq!(evaluate_config(&plain, &scope()), Ok(plain.clone()));
    if let JsonValue::Object(members) = &plain {
        assert!(!contains_script(members));
    } else {
        panic!("the document is an object");
    }
    assert_eq!(plain.get("c").and_then(|value| value.as_str()), Some("text"));
    assert_eq!(
        json("[1, -2, 2.5]"),
        JsonValue::Array(vec![
            JsonValue::Number(Number::Unsigned(1)),
            JsonValue::Number(Number::Negative(-2)),
            JsonValue::Number(Number::Float(2.5f64.to_bits())),
        ])
    );
}
