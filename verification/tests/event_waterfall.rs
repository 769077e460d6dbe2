use tessivum::combine::{waterfall_at, WaterfallNext, WaterfallStep};
use tessivum::dispatch::Reply;
use tessivum::document::parse_json;
use tessivum::dynamic::DYNAMIC_EVENT;
use tessivum::error::CoreError;
use tessivum::events::{EventBus, EventHub, EventOptions, Listener, PayloadType};
use tessivum::json::{set_member, JsonValue, Member};
use tessivum::lifecycle::{Scope, ScopeTree};

fn json(text: &str) -> JsonValue {
    parse_json(text).expect("test document is JSON")
}

fn text(value: &str) -> JsonValue {
    JsonValue::String(value.to_owned())
}

fn object(key: &str, value: JsonValue) -> JsonValue {
    JsonValue::Object(vec![Member { key: key.to_owned(), value }])
}

fn payload() -> PayloadType {
    PayloadType { kind: 1, name: "String".to_owned() }
}

fn chain(count: usize) -> (ScopeTree, EventHub, EventBus, Vec<Listener>) {
    let mut tree = ScopeTree::new();
    let scope = Scope::root(&mut tree);
    let mut hub = EventHub::new();
    let bus = EventBus::new();
    for _ in 0..count {
        bus.on_waterfall(
            &mut hub,
            &mut tree,
            scope,
            "waterfall".to_owned(),
            EventOptions::default(),
            payload(),
        )
        .expect("waterfall listener registration succeeds");
    }
    let listeners = bus.snapshot(&hub, &tree, "waterfall");
    (tree, hub, bus, listeners)
}

fn call(hub: &mut EventHub, listeners: &Vec<Listener>, start: usize) -> (usize, WaterfallNext) {
    match waterfall_at(hub, listeners, start, "waterfall", 1) {
        WaterfallStep::Call(at, next) => (at, next),
        WaterfallStep::Finished(answer) => panic!("waterfall ended with {answer:?}"),
    }
}

#[test]
fn waterfall_modifies_wraps_and_returns_the_downstream_value() {
    let (_tree, mut hub, _bus, listeners) = chain(3);
    let value = "start".to_owned();
    let (first, mut outer) = call(&mut hub, &listeners, 0);
    assert_eq!(first, 0);
    let value = format!("{value}:outer");
    let (second, mut inner) =
        call(&mut hub, &listeners, outer.next().expect("the outer listener goes on"));
    assert_eq!(second, 1);
    let value = format!("{value}:inner");
    let (third, _) =
        call(&mut hub, &listeners, inner.next().expect("the middle listener goes on"));
    assert_eq!(third, 2);
    let downstream = JsonValue::Array(vec![text("middle"), text(&value)]);
    assert_eq!(
        object("wrapped", downstream),
        json(r#"{"wrapped": ["middle", "start:outer:inner"]}"#),
        "each listener can transform input, wrap its downstream result, and propagate that value"
    );
}

#[test]
fn waterfall_veto_short_circuits_and_continuations_are_one_shot() {
    let (tree, mut hub, bus, listeners) = chain(2);
    let replies = vec![Reply { token: listeners[0].token, result: Ok(object("veto", text("blocked"))) }];
    let done = bus.waterfall(&mut hub, &tree, "waterfall", 1, &replies, 0);
    assert_eq!(
        done.result,
        Ok(json(r#"{"veto": "blocked"}"#)),
        "a listener that does not call next supplies the waterfall result"
    );
    assert_eq!(
        done.called,
        [listeners[0].token],
        "a veto prevents all downstream listeners from running"
    );

    let (_, mut next) = call(&mut hub, &listeners, 0);
    let (last, _) = call(&mut hub, &listeners, next.next().expect("the first use goes on"));
    assert_eq!(last, 1);
    assert_eq!(
        next.next().expect_err("a continuation cannot be used twice"),
        CoreError::WaterfallContinuationUsed
    );

    let replies = vec![Reply { token: listeners[1].token, result: Ok(text("once")) }];
    let done = bus.waterfall(&mut hub, &tree, "waterfall", 1, &replies, 0);
    assert_eq!(
        done.result,
        Ok(text("once")),
        "the first continuation result remains available after a rejected second call"
    );
    assert_eq!(done.called, [listeners[0].token, listeners[1].token]);
}

#[test]
fn dynamic_waterfall_preserves_json_while_transforming_and_wrapping() {
    let mut tree = ScopeTree::new();
    let scope = Scope::root(&mut tree);
    let mut hub = EventHub::new();
    let bus = EventBus::new();
    for _ in 0..2 {
        bus.on_dynamic_waterfall(
            &mut hub,
            &mut tree,
            scope,
            "dynamic/waterfall".to_owned(),
            EventOptions::default(),
        )
        .expect("dynamic registration succeeds");
    }
    let listeners = bus.snapshot(&hub, &tree, "dynamic/waterfall");
    let step = waterfall_at(&mut hub, &listeners, 0, "dynamic/waterfall", DYNAMIC_EVENT);
    let mut next = match step {
        WaterfallStep::Call(0, next) => next,
        other => panic!("the wrapper comes first: {other:?}"),
    };
    let mut members = match json(r#"{"id": 3}"#) {
        JsonValue::Object(members) => members,
        _ => panic!("the payload is an object"),
    };
    set_member(&mut members, "stage".to_owned(), text("outer"));
    let start = next.next().expect("the wrapper goes on");
    let step = waterfall_at(&mut hub, &listeners, start, "dynamic/waterfall", DYNAMIC_EVENT);
    assert!(matches!(step, WaterfallStep::Call(1, _)));
    let downstream = JsonValue::Object(members);
    assert_eq!(
        object("wrapped", downstream.clone()),
        json(r#"{"wrapped": {"id": 3, "stage": "outer"}}"#),
        "dynamic waterfall listeners receive JSON, can transform it, and can wrap the result"
    );
    let replies = vec![Reply { token: listeners[1].token, result: Ok(downstream.clone()) }];
    let done = bus.waterfall_dynamic(&mut hub, &tree, "dynamic/waterfall", &replies, 0);
    assert_eq!(done.result, Ok(downstream));
}
