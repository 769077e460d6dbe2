use tessivum::combine::gather;
use tessivum::dispatch::{take_turn, weigh, Reply, Turn, Weighed};
use tessivum::error::CoreError;
use tessivum::events::{
    DispatchMode, DispatchOutcome, EventBus, EventHub, EventOptions, ListenerHandle, PayloadType,
};
use tessivum::json::{JsonValue, Number};
use tessivum::lifecycle::{Scope, ScopeTree};

fn payload() -> PayloadType {
    PayloadType { kind: 1, name: "Payload".to_owned() }
}

fn text(value: &str) -> JsonValue {
    JsonValue::String(value.to_owned())
}

fn failed(message: &str) -> CoreError {
    CoreError::SetupFailed(message.to_owned())
}

#[test]
fn parallel_waits_for_every_listener_and_aggregates_failures() {
    let mut tree = ScopeTree::new();
    let scope = Scope::root(&mut tree);
    let mut hub = EventHub::new();
    let bus = EventBus::new();
    let event = "parallel/all-settle";
    let mut handles = Vec::new();
    for _ in 0..3 {
        handles.push(
            bus.on_async(
                &mut hub,
                &mut tree,
                scope,
                event.to_owned(),
                EventOptions::default(),
                payload(),
            )
            .expect("async listener registration succeeds"),
        );
    }
    let replies = vec![
        Reply { token: handles[0].token, result: Err(failed("first failure")) },
        Reply { token: handles[1].token, result: Ok(text("completed")) },
        Reply { token: handles[2].token, result: Err(failed("second failure")) },
    ];
    let done = bus.parallel(&mut hub, &tree, event, 1, &replies, 0);
    let error = done
        .result
        .expect_err("parallel reports its aggregate after every listener settles");
    assert_eq!(
        error
            .cleanup_errors()
            .expect("parallel failure is represented as an aggregate")
            .len(),
        2,
        "both listener failures are retained"
    );
    assert_eq!(
        done.called,
        [handles[0].token, handles[1].token, handles[2].token],
        "a failure does not prevent any parallel listener from settling"
    );
    assert_eq!(hub.diagnostics()[0].outcome, DispatchOutcome::Failed { errors: 2 });

    let (outcome, values) = gather(vec![Ok(text("a")), Ok(JsonValue::Null)]);
    assert_eq!(outcome, DispatchOutcome::Completed);
    assert_eq!(values, Ok(vec![text("a"), JsonValue::Null]), "values keep their order");
}

#[test]
fn serial_and_bail_continue_through_null_and_false_then_stop_on_a_value() {
    let mut tree = ScopeTree::new();
    let scope = Scope::root(&mut tree);
    let mut hub = EventHub::new();
    let bus = EventBus::new();

    let mut replies = Vec::new();
    let mut tokens = Vec::new();
    for value in [JsonValue::Null, JsonValue::Bool(false), text("stop"), text("late")] {
        let handle = bus
            .on_async(
                &mut hub,
                &mut tree,
                scope,
                "serial/value".to_owned(),
                EventOptions::default(),
                payload(),
            )
            .expect("serial listener registration succeeds");
        tokens.push(handle.token);
        replies.push(Reply { token: handle.token, result: Ok(value) });
    }
    let done = bus.serial(&mut hub, &tree, "serial/value", 1, &replies, 0);
    assert_eq!(
        done.result,
        Ok(Some(text("stop"))),
        "serial returns its first effective listener value"
    );
    assert_eq!(
        done.called,
        tokens[..3],
        "serial treats only null and false as pass-through values"
    );

    let zero = JsonValue::Number(Number::Unsigned(0));
    let mut replies = Vec::new();
    let mut tokens = Vec::new();
    for value in [JsonValue::Null, JsonValue::Bool(false), zero.clone(), text("late")] {
        let handle = bus
            .on(
                &mut hub,
                &mut tree,
                scope,
                "bail/value".to_owned(),
                EventOptions::default(),
                payload(),
            )
            .expect("bail listener registration succeeds");
        tokens.push(handle.token);
        replies.push(Reply { token: handle.token, result: Ok(value) });
    }
    let done = bus.bail(&mut hub, &tree, "bail/value", 1, &replies, 0);
    assert_eq!(
        done.result,
        Ok(Some(zero)),
        "zero is an effective value rather than a pass-through false"
    );
    assert_eq!(
        done.called,
        tokens[..3],
        "bail stops before later listeners once it receives an effective value"
    );
}

#[test]
fn once_and_explicit_removal_are_idempotent_and_dispatch_uses_a_snapshot() {
    let mut tree = ScopeTree::new();
    let scope = Scope::root(&mut tree);
    let mut hub = EventHub::new();
    let bus = EventBus::new();
    let once = bus
        .once(
            &mut hub,
            &mut tree,
            scope,
            "once".to_owned(),
            EventOptions::default(),
            payload(),
        )
        .expect("once listener registration succeeds");
    let first = bus.emit(&mut hub, &tree, "once", 1, &vec![], 0);
    let second = bus.emit(&mut hub, &tree, "once", 1, &vec![], 0);
    assert!(first.result.is_ok(), "first once dispatch succeeds");
    assert!(second.result.is_ok(), "second once dispatch succeeds");
    assert_eq!(
        first.called.len() + second.called.len(),
        1,
        "a once listener is only dispatchable once"
    );
    assert!(
        !once.remove(&mut hub),
        "removing a listener consumed by once is idempotently false"
    );

    let register = |hub: &mut EventHub, tree: &mut ScopeTree| -> ListenerHandle {
        bus.on(
            hub,
            tree,
            scope,
            "snapshot/removal".to_owned(),
            EventOptions::default(),
            payload(),
        )
        .expect("listener registration succeeds")
    };
    let remover = register(&mut hub, &mut tree);
    let target = register(&mut hub, &mut tree);

    let mut calls = Vec::new();
    let listeners = bus.snapshot(&hub, &tree, "snapshot/removal");
    let mut from = 0;
    loop {
        match take_turn(&mut hub, &listeners, from, DispatchMode::Emit, "snapshot/removal", 1) {
            Turn::Call(at) => {
                if listeners[at].token == remover.token {
                    if target.remove(&mut hub) {
                        calls.push("removed");
                    }
                    calls.push("remover");
                } else {
                    calls.push("target");
                }
                assert!(matches!(
                    weigh(DispatchMode::Emit, Ok(JsonValue::Null)),
                    Weighed::Continue
                ));
                from = at + 1;
            }
            Turn::Refused(_, error) => panic!("listener was refused: {error:?}"),
            Turn::Done => break,
        }
    }
    assert_eq!(
        calls,
        ["removed", "remover", "target"],
        "a listener removed during dispatch remains in that dispatch snapshot"
    );
    let next = bus.emit(&mut hub, &tree, "snapshot/removal", 1, &vec![], 0);
    assert_eq!(
        next.called,
        [remover.token],
        "the removed listener is excluded from later dispatches"
    );
}

#[test]
fn owner_disposal_during_dispatch_keeps_the_current_snapshot_only() {
    let mut tree = ScopeTree::new();
    let owner = Scope::root(&mut tree);
    let mut hub = EventHub::new();
    let bus = EventBus::new();
    let mut handles = Vec::new();
    for _ in 0..2 {
        handles.push(
            bus.on_async(
                &mut hub,
                &mut tree,
                owner,
                "owner/disposal".to_owned(),
                EventOptions::default(),
                payload(),
            )
            .expect("listener registration succeeds"),
        );
    }
    let listeners = bus.snapshot(&hub, &tree, "owner/disposal");
    let mut calls = Vec::new();
    let turn = take_turn(&mut hub, &listeners, 0, DispatchMode::Serial, "owner/disposal", 1);
    assert!(matches!(turn, Turn::Call(0)));
    let mut order = Vec::new();
    owner
        .dispose_below(&mut tree, &vec![], &vec![], &mut order)
        .expect("owner disposal succeeds");
    assert_eq!(order, [handles[1].id(), handles[0].id()]);
    for handle in &handles {
        assert!(handle.remove(&mut hub), "disposal removes each listener once");
    }
    calls.push("dispose");
    let turn = take_turn(&mut hub, &listeners, 1, DispatchMode::Serial, "owner/disposal", 1);
    assert!(matches!(turn, Turn::Call(1)));
    calls.push("downstream");
    assert_eq!(
        calls,
        ["dispose", "downstream"],
        "disposing an owner does not mutate the already captured dispatch snapshot"
    );
    let later = bus.serial(&mut hub, &tree, "owner/disposal", 1, &vec![], 0);
    assert_eq!(later.result, Ok(None), "post-disposal dispatch succeeds");
    assert!(
        later.called.is_empty(),
        "owner disposal removes all of its listeners from later dispatches"
    );
}

#[test]
fn slow_dispatch_diagnostics_report_duration_mode_and_outcome_without_payload() {
    let mut tree = ScopeTree::new();
    let scope = Scope::root(&mut tree);
    let mut hub = EventHub::new();
    let bus = EventBus::new();
    let slow = bus
        .on(
            &mut hub,
            &mut tree,
            scope,
            "diagnostic/slow".to_owned(),
            EventOptions::default(),
            payload(),
        )
        .expect("slow listener registration succeeds");
    let replies = vec![Reply { token: slow.token, result: Ok(text("must not escape")) }];
    bus.bail(&mut hub, &tree, "diagnostic/slow", 1, &replies, 5_000_000)
        .result
        .expect("slow listener dispatch succeeds");
    let diagnostic = hub
        .take_diagnostics()
        .pop()
        .expect("dispatch records a diagnostic");
    assert_eq!(diagnostic.event, "diagnostic/slow");
    assert_eq!(diagnostic.mode, DispatchMode::Bail);
    assert_eq!(diagnostic.listener_count, 1);
    assert!(
        diagnostic.duration_nanos >= 5_000_000,
        "diagnostic duration includes the slow listener runtime"
    );
    assert_eq!(
        diagnostic.outcome,
        DispatchOutcome::Bailed,
        "diagnostics retain the dispatch outcome instead of an arbitrary listener payload"
    );
}
