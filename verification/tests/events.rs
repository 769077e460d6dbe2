use tessivum::context::ContextHandle;
use tessivum::dispatch::Reply;
use tessivum::document::parse_json;
use tessivum::error::CoreError;
use tessivum::events::{
    DispatchMode, DispatchOutcome, EventBus, EventHub, EventKey, EventOptions, ListenerHandle,
    ListenerKind, PayloadType,
};
use tessivum::ids::RealmLabel;
use tessivum::json::JsonValue;
use tessivum::lifecycle::{FiberState, Scope, ScopeTree};
use tessivum::registry::Registries;

fn payload(kind: u64) -> PayloadType {
    PayloadType { kind, name: "Payload".to_owned() }
}

struct NativeOnly;

/// Keeps the label of each listener.
struct Labels {
    known: Vec<(u64, &'static str)>,
}

impl Labels {
    fn new() -> Self {
        Labels { known: Vec::new() }
    }

    fn add(&mut self, handle: &ListenerHandle, label: &'static str) {
        self.known.push((handle.token, label));
    }

    fn of(&self, called: &[u64]) -> Vec<&'static str> {
        called
            .iter()
            .map(|token| {
                self.known
                    .iter()
                    .find(|(known, _)| known == token)
                    .expect("a called listener was registered")
                    .1
            })
            .collect()
    }
}

fn ordinary() -> EventOptions {
    EventOptions::default()
}

fn everywhere() -> EventOptions {
    EventOptions { global: true, ..EventOptions::default() }
}

#[test]
fn typed_dispatch_is_native_while_dynamic_dispatch_preserves_json() {
    let mut tree = ScopeTree::new();
    let scope = Scope::root(&mut tree);
    let mut hub = EventHub::new();
    let bus = EventBus::new();
    let native_key = EventKey::<NativeOnly>::new("native/changed".to_owned());
    let mut labels = Labels::new();

    let native = bus
        .on(&mut hub, &mut tree, scope, native_key.name.clone(), ordinary(), payload(7))
        .expect("typed listener registration succeeds");
    labels.add(&native, "native value");
    let done = bus.emit(&mut hub, &tree, native_key.name(), 7, &vec![], 0);
    assert!(done.result.is_ok(), "native event dispatch succeeds without serialization");
    assert_eq!(
        labels.of(&done.called),
        ["native value"],
        "typed events accept native payloads that have no JSON representation"
    );

    let dynamic = bus
        .on_dynamic(&mut hub, &mut tree, scope, "dynamic/changed".to_owned(), ordinary())
        .expect("dynamic listener registration succeeds");
    labels.add(&dynamic, "dynamic value");
    let payload = parse_json(r#"{"id": 7, "tags": ["stable", "json"]}"#).expect("payload is JSON");
    let replies = vec![Reply { token: dynamic.token, result: Ok(payload.clone()) }];
    let done = bus.bail_dynamic(&mut hub, &tree, "dynamic/changed", &replies, 0);
    assert_eq!(labels.of(&done.called), ["dynamic value"]);
    assert_eq!(
        done.result,
        Ok(Some(payload)),
        "dynamic events deliver their JSON payload without reshaping it"
    );
    let done = bus.emit_dynamic(&mut hub, &tree, "dynamic/changed", &replies, 0);
    assert_eq!(done.result, Ok(()), "dynamic event dispatch succeeds");
}

#[test]
fn prepend_is_stable_and_listener_handles_have_distinct_resource_ids() {
    let mut tree = ScopeTree::new();
    let scope = Scope::root(&mut tree);
    let mut hub = EventHub::new();
    let bus = EventBus::new();
    let mut labels = Labels::new();

    let first = bus
        .on(&mut hub, &mut tree, scope, "ordered".to_owned(), ordinary(), payload(1))
        .expect("first listener registration succeeds");
    labels.add(&first, "first");
    let second = bus
        .on(&mut hub, &mut tree, scope, "ordered".to_owned(), ordinary(), payload(1))
        .expect("second listener registration succeeds");
    labels.add(&second, "second");
    let prepended = bus
        .on(
            &mut hub,
            &mut tree,
            scope,
            "ordered".to_owned(),
            EventOptions { prepend: true, ..EventOptions::default() },
            payload(1),
        )
        .expect("prepended listener registration succeeds");
    labels.add(&prepended, "prepended");

    assert_ne!(first.id(), second.id(), "each listener receives a distinct ResourceId");
    let done = bus.emit(&mut hub, &tree, "ordered", 1, &vec![], 0);
    assert!(done.result.is_ok(), "ordered event dispatch succeeds");
    assert_eq!(
        labels.of(&done.called),
        ["prepended", "first", "second"],
        "prepend runs before ordinary listeners while ordinary registration remains stable"
    );
}

#[test]
fn realm_views_filter_local_listeners_but_global_listeners_cross_realms() {
    let mut tree = ScopeTree::new();
    let mut hub = EventHub::new();
    let bus = EventBus::new();
    let alpha = bus.in_realm(RealmLabel::new("alpha".to_owned()));
    let beta = bus.in_realm(RealmLabel::new("beta".to_owned()));
    let alpha_scope = Scope::root(&mut tree);
    let beta_scope = Scope::root(&mut tree);
    let event = "realm/filtered";
    let mut labels = Labels::new();

    let handle = alpha
        .on(&mut hub, &mut tree, alpha_scope, event.to_owned(), ordinary(), payload(1))
        .expect("alpha local listener registration succeeds");
    labels.add(&handle, "alpha-local");
    let handle = beta
        .on(&mut hub, &mut tree, beta_scope, event.to_owned(), ordinary(), payload(1))
        .expect("beta local listener registration succeeds");
    labels.add(&handle, "beta-local");
    let handle = alpha
        .on(&mut hub, &mut tree, alpha_scope, event.to_owned(), everywhere(), payload(1))
        .expect("global listener registration succeeds");
    labels.add(&handle, "global");

    let done = alpha.emit(&mut hub, &tree, event, 1, &vec![], 0);
    assert_eq!(
        labels.of(&done.called),
        ["alpha-local", "global"],
        "an alpha dispatch excludes beta-local listeners"
    );
    let done = beta.emit(&mut hub, &tree, event, 1, &vec![], 0);
    assert_eq!(
        labels.of(&done.called),
        ["beta-local", "global"],
        "global listeners remain eligible across realm views"
    );
}

#[test]
fn emit_propagates_listener_errors_synchronously_and_stops_dispatch() {
    let mut tree = ScopeTree::new();
    let scope = Scope::root(&mut tree);
    let mut hub = EventHub::new();
    let bus = EventBus::new();
    let event = "emit/failure";
    let mut labels = Labels::new();

    let first = bus
        .on(&mut hub, &mut tree, scope, event.to_owned(), ordinary(), payload(1))
        .expect("first listener registration succeeds");
    labels.add(&first, "first");
    let failing = bus
        .on(&mut hub, &mut tree, scope, event.to_owned(), ordinary(), payload(1))
        .expect("failing listener registration succeeds");
    labels.add(&failing, "failing");
    let trailing = bus
        .on(&mut hub, &mut tree, scope, event.to_owned(), ordinary(), payload(1))
        .expect("trailing listener registration succeeds");
    labels.add(&trailing, "after-error");

    let replies = vec![Reply {
        token: failing.token,
        result: Err(CoreError::SetupFailed("listener exploded".to_owned())),
    }];
    let done = bus.emit(&mut hub, &tree, event, 1, &replies, 3);
    assert_eq!(
        done.result,
        Err(CoreError::SetupFailed("listener exploded".to_owned())),
        "emit returns the synchronous listener error"
    );
    assert_eq!(
        labels.of(&done.called),
        ["first", "failing"],
        "emit does not continue after a listener throws"
    );
    let diagnostics = hub.diagnostics();
    assert_eq!(diagnostics[0].outcome, DispatchOutcome::Failed { errors: 1 });
    assert_eq!(diagnostics[0].listener_count, 3);
    assert_eq!(diagnostics[0].duration_nanos, 3);
}

#[test]
fn context_exposes_its_event_bus_without_requiring_product_services() {
    let mut tree = ScopeTree::new();
    let mut registries = Registries::new();
    let mut hub = EventHub::new();
    let context = ContextHandle::root(&mut tree, &mut registries);
    let bus = context.events();
    let mut labels = Labels::new();

    let handle = bus
        .on(
            &mut hub,
            &mut tree,
            context.scope(),
            "context/events".to_owned(),
            ordinary(),
            payload(9),
        )
        .expect("context bus listener registration succeeds");
    labels.add(&handle, "nine");
    let done = context.events().emit(&mut hub, &tree, "context/events", 9, &vec![], 0);
    assert!(done.result.is_ok(), "context bus dispatch succeeds");
    assert_eq!(
        labels.of(&done.called),
        ["nine"],
        "independent context bus views share the context-owned event bus"
    );
}

#[test]
fn scope_context_views_filter_local_listeners_unless_they_are_global() {
    let mut tree = ScopeTree::new();
    let mut hub = EventHub::new();
    let bus = EventBus::new();
    let alpha_scope = Scope::root(&mut tree);
    let beta_scope = Scope::root(&mut tree);
    let alpha = bus.in_context(&tree, alpha_scope);
    let beta = bus.in_context(&tree, beta_scope);
    let event = "context/filtered";
    let mut labels = Labels::new();

    let handle = alpha
        .on(&mut hub, &mut tree, alpha_scope, event.to_owned(), ordinary(), payload(1))
        .expect("alpha context listener registration succeeds");
    labels.add(&handle, "alpha");
    let handle = beta
        .on(&mut hub, &mut tree, beta_scope, event.to_owned(), ordinary(), payload(1))
        .expect("beta context listener registration succeeds");
    labels.add(&handle, "beta");
    let handle = alpha
        .on(&mut hub, &mut tree, alpha_scope, event.to_owned(), everywhere(), payload(1))
        .expect("global context listener registration succeeds");
    labels.add(&handle, "global");

    let done = beta.emit(&mut hub, &tree, event, 1, &vec![], 0);
    assert!(done.result.is_ok(), "beta context dispatch succeeds");
    assert_eq!(
        labels.of(&done.called),
        ["beta", "global"],
        "context-local listeners stay scoped while global listeners cross contexts"
    );
}

#[test]
fn listeners_that_cannot_take_part_are_refused() {
    let mut tree = ScopeTree::new();
    let scope = Scope::root(&mut tree);
    let mut hub = EventHub::new();
    let bus = EventBus::new();
    bus.on_async(&mut hub, &mut tree, scope, "late".to_owned(), ordinary(), payload(1))
        .expect("asynchronous listener registers");
    bus.on_waterfall(&mut hub, &mut tree, scope, "chain".to_owned(), ordinary(), payload(1))
        .expect("waterfall listener registers");
    bus.on(&mut hub, &mut tree, scope, "typed".to_owned(), ordinary(), payload(1))
        .expect("typed listener registers");

    let refused = |operation: &str, event: &str| CoreError::AsyncEventListener {
        operation: operation.to_owned(),
        event: event.to_owned(),
    };
    let none = vec![];
    assert_eq!(
        bus.emit(&mut hub, &tree, "late", 1, &none, 0).result,
        Err(refused("emit", "late"))
    );
    assert_eq!(
        bus.bail(&mut hub, &tree, "late", 1, &none, 0).result,
        Err(refused("bail", "late"))
    );
    assert_eq!(
        bus.serial(&mut hub, &tree, "chain", 1, &none, 0).result,
        Err(refused("parallel or serial", "waterfall listener"))
    );
    assert_eq!(
        bus.waterfall(&mut hub, &tree, "late", 1, &none, 0).result,
        Err(refused("waterfall", "late"))
    );
    assert_eq!(
        bus.emit(&mut hub, &tree, "typed", 2, &none, 0).result,
        Err(CoreError::EventTypeMismatch {
            event: "typed".to_owned(),
            expected: "Payload".to_owned(),
        })
    );
    assert_eq!(
        bus.waterfall(&mut hub, &tree, "nobody", 1, &none, 0).result,
        Ok(JsonValue::Null),
        "a waterfall without listeners gives null"
    );
    let modes: Vec<DispatchMode> =
        hub.take_diagnostics().iter().map(|diagnostic| diagnostic.mode).collect();
    assert_eq!(
        modes,
        [
            DispatchMode::Emit,
            DispatchMode::Bail,
            DispatchMode::Serial,
            DispatchMode::Waterfall,
            DispatchMode::Emit,
            DispatchMode::Waterfall,
        ]
    );
    assert!(hub.diagnostics().is_empty(), "diagnostics are taken once");
}

#[test]
fn closed_scopes_register_no_listeners() {
    let mut tree = ScopeTree::new();
    let scope = Scope::root(&mut tree);
    let mut hub = EventHub::new();
    let bus = EventBus::new();
    let handle = bus
        .register(
            &mut hub,
            &mut tree,
            scope,
            "event".to_owned(),
            ordinary(),
            false,
            ListenerKind::Sync,
            payload(1),
        )
        .expect("an active scope takes listeners");
    assert_eq!(scope.effects(&tree)[0].label, "listener:event");
    assert_eq!(scope.effects(&tree)[0].id, handle.id());
    scope.claim_disposal(&mut tree, &vec![]);
    let error = bus
        .on(&mut hub, &mut tree, scope, "event".to_owned(), ordinary(), payload(1))
        .expect_err("a scope on its way out takes none");
    assert_eq!(
        error,
        CoreError::InvalidState {
            operation: "register listener".to_owned(),
            state: FiberState::Unloading,
        }
    );
    assert!(
        bus.emit(&mut hub, &tree, "event", 1, &vec![], 0).called.is_empty(),
        "its listeners are not heard"
    );
}

#[test]
fn dynamic_listeners_take_part_in_every_dispatch() {
    let mut tree = ScopeTree::new();
    let scope = Scope::root(&mut tree);
    let mut hub = EventHub::new();
    let bus = EventBus::new();
    let event = || "dynamic/all".to_owned();
    let once = bus
        .once_dynamic(&mut hub, &mut tree, scope, event(), ordinary())
        .expect("listener registration succeeds");
    let slow = bus
        .on_dynamic_async(&mut hub, &mut tree, scope, event(), ordinary())
        .expect("listener registration succeeds");
    let slow_once = bus
        .once_dynamic_async(&mut hub, &mut tree, scope, event(), ordinary())
        .expect("listener registration succeeds");
    let answer = |token: u64, text: &str| Reply {
        token,
        result: Ok(JsonValue::String(text.to_owned())),
    };
    let replies = vec![answer(slow.token, "slow"), answer(slow_once.token, "once")];

    let done = bus.serial_dynamic(&mut hub, &tree, "dynamic/all", &replies, 0);
    assert_eq!(done.called, [once.token, slow.token]);
    assert_eq!(done.result, Ok(Some(JsonValue::String("slow".to_owned()))));
    let done = bus.parallel_dynamic(&mut hub, &tree, "dynamic/all", &replies, 0);
    assert_eq!(done.called, [slow.token, slow_once.token], "a one-time listener is gone");
    assert_eq!(
        done.result,
        Ok(vec![
            JsonValue::String("slow".to_owned()),
            JsonValue::String("once".to_owned())
        ])
    );
    let done = bus.parallel_dynamic(&mut hub, &tree, "dynamic/all", &replies, 0);
    assert_eq!(done.called, [slow.token]);
}
