use tessivum::document::{parse_json, parse_json_bytes, parse_yaml};
use tessivum::ids::{IdSource, RealmLabel, ScopeId, ServiceKey};
use tessivum::json::{set_member, values_equal, JsonValue, Member, Number};
use tessivum::text::{
    comes_before, contains_part, decimal, has_prefix, is_blank, is_whitespace, split,
};

fn member(key: &str, value: JsonValue) -> Member {
    Member {
        key: key.to_owned(),
        value,
    }
}

fn unsigned(value: u64) -> JsonValue {
    JsonValue::Number(Number::Unsigned(value))
}

#[test]
fn json_texts_become_values() {
    let value = parse_json(r#"{ "b": [null, true, -3, 18446744073709551615, 1.5], "a": "\u00e9" }"#)
        .expect("the text is JSON");
    assert_eq!(
        value,
        JsonValue::Object(vec![
            member("a", JsonValue::String("\u{e9}".to_owned())),
            member(
                "b",
                JsonValue::Array(vec![
                    JsonValue::Null,
                    JsonValue::Bool(true),
                    JsonValue::Number(Number::Negative(-3)),
                    unsigned(u64::MAX),
                    JsonValue::Number(Number::Float(1.5f64.to_bits())),
                ])
            ),
        ])
    );
    assert_eq!(
        parse_json_bytes(b"[1]").expect("the bytes are JSON"),
        JsonValue::Array(vec![unsigned(1)])
    );
}

#[test]
fn broken_texts_say_where_they_break() {
    let error = parse_json("{").expect_err("the object does not end");
    assert_eq!(error, "EOF while parsing an object at line 1 column 1");
    let error = parse_json_bytes(b"[1,]").expect_err("a value is missing");
    assert!(error.contains("line 1 column 4"), "{error}");
    assert!(parse_json_bytes(b"\"\xff\"").is_err());
    assert!(parse_json("").is_err());
    assert!(parse_yaml("a: [").is_err());
}

#[test]
fn yaml_texts_become_the_same_values() {
    assert_eq!(
        parse_yaml("b:\n  - null\n  - true\n  - -3\n  - 1.5\na: text\n").expect("the text is YAML"),
        parse_json(r#"{ "a": "text", "b": [null, true, -3, 1.5] }"#).expect("the text is JSON")
    );
    assert_eq!(
        parse_yaml("~").expect("the text is YAML"),
        JsonValue::Null
    );
}

#[test]
fn members_stay_in_key_order() {
    let mut members: Vec<Member> = vec![];
    for (key, value) in [("b", 1), ("a", 2), ("c", 3), ("b", 4)] {
        set_member(&mut members, key.to_owned(), unsigned(value));
    }
    let object = JsonValue::Object(members);
    assert_eq!(
        object,
        parse_json(r#"{ "a": 2, "b": 4, "c": 3 }"#).expect("JSON")
    );
    assert_eq!(object.get("b"), Some(&unsigned(4)));
    assert_eq!(object.get("d"), None);
    assert!(object.is_object());
    assert!(values_equal(&object, &object.clone()));
    assert!(!values_equal(&object, &JsonValue::Null));
}

#[test]
fn spaces_are_those_of_the_standard_library() {
    for c in '\0'..=char::MAX {
        assert_eq!(is_whitespace(c), c.is_whitespace(), "{:x}", c as u32);
    }
    assert!(is_blank(""));
    assert!(is_blank(" \t\u{3000}"));
    assert!(!is_blank(" x "));
}

#[test]
fn texts_are_taken_apart() {
    assert_eq!(decimal(0), "0");
    assert_eq!(decimal(u64::MAX), u64::MAX.to_string());
    for text in ["", "a", "a.b", ".a.", "..", "\u{e9}.b"] {
        let expected: Vec<&str> = text.split('.').collect();
        assert_eq!(split(text, '.'), expected, "{text}");
    }
    for (a, b) in [("", "a"), ("a", "b"), ("a", "ab"), ("z", "\u{e9}"), ("B", "a")] {
        assert!(comes_before(a, b) && a < b, "{a} {b}");
        assert!(!comes_before(b, a), "{b} {a}");
    }
    assert!(!comes_before("a", "a"));
    assert!(has_prefix("service:a", "service:"));
    assert!(!has_prefix("serv", "service:"));
    assert!(contains_part("abcabd", "abd"));
    assert!(contains_part("a", ""));
    assert!(!contains_part("ab", "abc"));
}

#[test]
fn identities_count_up_and_show_themselves() {
    let mut ids = IdSource::new();
    let first = ids.next_scope_id();
    let second = ids.next_scope_id();
    assert_ne!(first, second);
    assert_eq!(second.get(), first.get() + 1);
    assert!(ScopeId(7).text().contains('7'));
    assert_ne!(ids.next_generation(), ids.next_generation());
    assert_ne!(ids.next_resource_id(), ids.next_resource_id());
    let key = ServiceKey::new("http".to_owned(), "v1".to_owned());
    assert_eq!(key.diagnostic_key(), "http@v1");
    assert!(key.same(&ServiceKey::new("http".to_owned(), "v1".to_owned())));
    assert!(!key.same(&ServiceKey::new("http".to_owned(), "v2".to_owned())));
    assert_eq!(RealmLabel::new("shared".to_owned()).as_str(), "shared");
}
