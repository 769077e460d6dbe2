use tessivum::context::{ContextHandle, ServiceHandle};
use tessivum::document::parse_json;
use tessivum::error::CoreError;
use tessivum::ids::{Generation, RealmLabel, ResourceId, ServiceKey};
use tessivum::json::JsonValue;
use tessivum::lifecycle::{Scope, ScopeTree};
use tessivum::registry::{unavailable_snapshot, Delivery, Registries};
use tessivum::service::{Dependency, DependencySnapshot};

const NAMED: u64 = 1;

fn key(name: &str) -> ServiceKey {
    ServiceKey::new(name.to_owned(), "test/v1".to_owned())
}

/// The values that services stand for.
const NAMES: [&str; 9] = [
    "wall", "light", "dark", "first", "second", "replacement", "owned", "alpha", "shared bus",
];

fn value_of(name: &str) -> u64 {
    NAMES.iter().position(|known| *known == name).expect("the name is known") as u64
}

struct World {
    tree: ScopeTree,
    registries: Registries,
    log: Vec<(ResourceId, DependencySnapshot)>,
}

impl World {
    fn new() -> Self {
        World { tree: ScopeTree::new(), registries: Registries::new(), log: Vec::new() }
    }

    fn root(&mut self) -> ContextHandle {
        ContextHandle::root(&mut self.tree, &mut self.registries)
    }

    fn provide(&mut self, context: &ContextHandle, key: &ServiceKey, name: &str) -> ServiceHandle {
        let provision = context.provide(
            &mut self.tree,
            &mut self.registries,
            key.clone(),
            NAMED,
            value_of(name),
        );
        for Delivery { listener, snapshot } in provision.deliveries {
            self.log.push((listener, snapshot));
        }
        provision.result.expect("provider registration succeeds").0
    }

    fn subscribe(
        &mut self,
        context: &ContextHandle,
        dependency: Dependency,
    ) -> tessivum::context::DependencySubscription {
        let subscribed = context
            .subscribe(&mut self.tree, &mut self.registries, &vec![dependency])
            .expect("dependency registration succeeds");
        self.log.push((subscribed.subscription.id, subscribed.snapshot));
        subscribed.subscription
    }

    fn told(&self, id: ResourceId) -> Vec<&DependencySnapshot> {
        self.log.iter().filter(|(to, _)| *to == id).map(|(_, snapshot)| snapshot).collect()
    }

    fn ready(&self, id: ResourceId) -> Vec<bool> {
        self.told(id).iter().map(|snapshot| snapshot.ready).collect()
    }

    fn name(&self, handle: &ServiceHandle) -> Result<&'static str, CoreError> {
        handle.with(&self.registries).map(|value| NAMES[value as usize])
    }

    fn lookup(&self, context: &ContextHandle, key: &ServiceKey) -> Option<ServiceHandle> {
        context.get(&self.registries, key, NAMED).expect("service lookup succeeds")
    }
}

#[test]
fn late_required_provider_gates_while_optional_dependency_does_not() {
    let mut world = World::new();
    let context = world.root();
    let clock = key("clock");
    let required = world.subscribe(&context, Dependency::Required(clock.clone()));
    let optional = world.subscribe(&context, Dependency::Optional(clock.clone()));

    assert!(
        !required.ready(&world.registries),
        "a missing required service keeps its consumer pending"
    );
    assert!(
        optional.ready(&world.registries),
        "a missing optional service never gates its consumer"
    );
    assert_eq!(world.ready(required.id), [false]);
    assert_eq!(world.ready(optional.id), [true]);

    world.provide(&context, &clock, "wall");

    assert!(
        required.ready(&world.registries),
        "the late provider activates the required consumer"
    );
    assert!(optional.ready(&world.registries));
    let handle = world.lookup(&context, &clock).expect("late provider becomes visible");
    assert_eq!(world.name(&handle), Ok("wall"));
    assert_eq!(world.ready(required.id), [false, true]);
    assert_eq!(world.ready(optional.id), [true, true]);
}

#[test]
fn replacement_advances_generation_and_rejects_every_old_handle() {
    let mut world = World::new();
    let context = world.root();
    let theme = key("theme");
    let first_provider = world.provide(&context, &theme, "light");
    let old_handle = world.lookup(&context, &theme).expect("initial provider is visible");
    let first_generation = context
        .snapshot(&world.registries, &theme)
        .generation
        .expect("visible provider has a generation");

    let replacement = world.provide(&context, &theme, "dark");
    let replacement_snapshot = context.snapshot(&world.registries, &theme);
    let replacement_generation =
        replacement_snapshot.generation.expect("replacement has a generation");

    assert!(replacement_snapshot.available);
    assert_ne!(first_generation, replacement_generation);
    assert!(matches!(world.name(&old_handle), Err(CoreError::StaleServiceHandle { .. })));
    assert!(matches!(world.name(&first_provider), Err(CoreError::StaleServiceHandle { .. })));
    assert!(!old_handle.is_current(&world.registries));
    assert_eq!(world.name(&replacement), Ok("dark"));
    let current = world.lookup(&context, &theme).expect("replacement is visible");
    assert_eq!(world.name(&current), Ok("dark"));
    assert_eq!(current.generation(), replacement_generation);
    assert_eq!(current.key().name, "theme");
}

#[test]
fn notifications_and_diagnostic_snapshots_follow_provider_commits() {
    let mut world = World::new();
    let context = world.root();
    let cache = key("cache");
    let subscription = world.subscribe(&context, Dependency::Required(cache.clone()));

    world.provide(&context, &cache, "first");
    let first_generation = context
        .snapshot(&world.registries, &cache)
        .generation
        .expect("first provider has a generation");
    world.provide(&context, &cache, "second");
    let latest = context.snapshot(&world.registries, &cache);
    let latest_generation = latest.generation.expect("replacement has a generation");

    assert!(subscription.ready(&world.registries));
    assert!(latest.available);
    assert_eq!(latest.key, cache.diagnostic_key());
    assert_eq!(context.snapshots(&world.registries).len(), 1);
    assert_ne!(first_generation, latest_generation);
    let notifications: Vec<(bool, bool, Option<Generation>)> = world
        .told(subscription.id)
        .iter()
        .map(|snapshot| {
            let service = &snapshot.services[0];
            (snapshot.ready, service.available, service.generation)
        })
        .collect();
    assert_eq!(
        notifications,
        [
            (false, false, None),
            (true, true, Some(first_generation)),
            (true, true, Some(latest_generation)),
        ]
    );
}

#[test]
fn required_consumer_reloads_when_a_provider_is_replaced() {
    let mut world = World::new();
    let context = world.root();
    let session = key("session");
    let subscription = world.subscribe(&context, Dependency::Required(session.clone()));

    world.provide(&context, &session, "first");
    let first_generation = context.snapshot(&world.registries, &session).generation;
    world.provide(&context, &session, "replacement");
    let replacement_generation = context.snapshot(&world.registries, &session).generation;

    assert!(subscription.ready(&world.registries));
    assert!(first_generation.is_some());
    assert_ne!(first_generation, replacement_generation);
    let observed: Vec<Option<Generation>> = world
        .told(subscription.id)
        .iter()
        .map(|snapshot| snapshot.services[0].generation)
        .collect();
    assert_eq!(
        observed,
        [None, first_generation, replacement_generation],
        "the managed consumer sees its initial pending state then both activations"
    );
    let handle = world.lookup(&context, &session).expect("replacement is visible");
    assert_eq!(world.name(&handle), Ok("replacement"));
}

#[test]
fn provider_owner_disposal_removes_service_and_invalidates_handles() {
    let mut world = World::new();
    let owner = Scope::root(&mut world.tree);
    let context = ContextHandle::from_scope(owner, &mut world.registries);
    let cache = key("cache");
    let provider_handle = world.provide(&context, &cache, "owned");
    let consumer_handle = world.lookup(&context, &cache).expect("owned service is visible");

    let mut order = Vec::new();
    owner
        .dispose_below(&mut world.tree, &vec![], &vec![], &mut order)
        .expect("provider owner disposal succeeds");
    assert_eq!(order.len(), 1, "the provider is an effect of its scope");
    let (removed, _) = world.registries.remove_if_current(
        provider_handle.registry,
        &provider_handle.service,
        provider_handle.generation,
    );
    assert!(removed);

    assert!(!context.snapshot(&world.registries, &cache).available);
    assert!(context.snapshots(&world.registries).is_empty());
    assert!(
        world.lookup(&context, &cache).is_none(),
        "disposing the owning scope removes its provider"
    );
    assert!(matches!(world.name(&provider_handle), Err(CoreError::StaleServiceHandle { .. })));
    assert!(matches!(world.name(&consumer_handle), Err(CoreError::StaleServiceHandle { .. })));
    let (again, _) = world.registries.remove_if_current(
        provider_handle.registry,
        &provider_handle.service,
        provider_handle.generation,
    );
    assert!(!again, "a provider is removed once");
}

#[test]
fn unsubscribed_consumers_stop_receiving_provider_commits() {
    let mut world = World::new();
    let context = world.root();
    let metrics = key("metrics");
    let subscription = world.subscribe(&context, Dependency::Optional(metrics.clone()));

    assert!(
        subscription.unsubscribe(&mut world.registries),
        "first unsubscription removes the listener"
    );
    assert!(
        !subscription.unsubscribe(&mut world.registries),
        "unsubscription is idempotent after the listener has been removed"
    );
    world.provide(&context, &metrics, "first");

    assert_eq!(
        world.told(subscription.id).len(),
        1,
        "only synchronous registration notification is observed after unsubscription"
    );
}

#[test]
fn separate_isolated_realms_hide_equal_service_keys() {
    let mut world = World::new();
    let root = world.root();
    let storage = key("storage");
    let alpha = root.isolate(&mut world.tree.ids, storage.clone(), None);
    let beta = root.isolate(&mut world.tree.ids, storage.clone(), None);

    world.provide(&alpha, &storage, "alpha");

    let handle = world.lookup(&alpha, &storage).expect("same-realm provider is visible");
    assert_eq!(world.name(&handle), Ok("alpha"));
    assert!(
        world.lookup(&beta, &storage).is_none(),
        "matching keys in separate isolated realms are invisible"
    );
    assert!(world.lookup(&root, &storage).is_none());
}

#[test]
fn matching_shared_labels_coactivate_required_consumers() {
    let mut world = World::new();
    let root = world.root();
    let bus = key("bus");
    let label = || Some(RealmLabel::new("shared".to_owned()));
    let alpha = root.isolate(&mut world.tree.ids, bus.clone(), label());
    let beta = root.isolate(&mut world.tree.ids, bus.clone(), label());
    let alpha_subscription = world.subscribe(&alpha, Dependency::Required(bus.clone()));
    let beta_subscription = world.subscribe(&beta, Dependency::Required(bus.clone()));

    assert!(!alpha_subscription.ready(&world.registries));
    assert!(!beta_subscription.ready(&world.registries));

    world.provide(&alpha, &bus, "shared bus");

    assert!(alpha_subscription.ready(&world.registries));
    assert!(beta_subscription.ready(&world.registries));
    let handle = world.lookup(&beta, &bus).expect("shared provider is visible");
    assert_eq!(world.name(&handle), Ok("shared bus"));
    assert_eq!(alpha.snapshot(&world.registries, &bus).realm, "shared");
    assert_eq!(beta.snapshot(&world.registries, &bus).realm, "shared");
}

#[test]
fn intercepts_merge_in_context_derivation_order() {
    let mut world = World::new();
    let root = world.root();
    let config = key("config");
    let json = |text: &str| -> JsonValue { parse_json(text).expect("test document is JSON") };
    let parent_intercept = json(r#"{"retry": {"attempts": 1}, "source": "parent"}"#);
    let child_intercept = json(r#"{"retry": {"backoff": "fast"}, "source": "child"}"#);
    let parent = root.intercept(config.clone(), parent_intercept.clone());
    let child = parent.intercept(config.clone(), child_intercept.clone());

    assert_eq!(
        child.snapshot(&world.registries, &config).intercepts,
        vec![parent_intercept, child_intercept.clone()],
        "derived contexts retain their parent intercept before their own"
    );
    assert!(
        root.snapshot(&world.registries, &config).intercepts.is_empty(),
        "intercepts are local to the derived context chain"
    );
    assert_eq!(child.intercept_config(&config), child_intercept, "descendants win");
    let odd = child.intercept(config.clone(), JsonValue::Null);
    assert_eq!(odd.intercept_config(&config), child_intercept, "only objects are merged");
}

#[test]
fn staged_providers_show_only_after_they_are_committed() {
    let mut world = World::new();
    let root = world.root();
    let cache = key("cache");
    let subscription = world.subscribe(&root, Dependency::Required(cache.clone()));
    let staged = root.staged(&mut world.registries);
    let first = world.provide(&staged, &cache, "first");
    assert!(world.lookup(&staged, &cache).is_some());
    assert!(world.lookup(&root, &cache).is_none(), "staged providers stay apart");
    assert_eq!(world.ready(subscription.id), [false]);

    let deliveries = staged.commit_staged(&mut world.registries);
    for Delivery { listener, snapshot } in deliveries {
        world.log.push((listener, snapshot));
    }
    let handle = world.lookup(&root, &cache).expect("committed providers are shown");
    assert_eq!(world.name(&handle), Ok("first"));
    assert!(first.is_current(&world.registries));
    assert_eq!(world.ready(subscription.id), [false, true]);
}

#[test]
fn services_of_another_type_are_refused() {
    let mut world = World::new();
    let root = world.root();
    let cache = key("cache");
    world.provide(&root, &cache, "first");
    assert!(matches!(
        root.get(&world.registries, &cache, NAMED + 1),
        Err(CoreError::ServiceTypeMismatch { .. })
    ));
    assert!(root
        .get(&world.registries, &key("other"), NAMED)
        .expect("an absent service has no type")
        .is_none());
}

#[test]
fn closed_contexts_take_no_providers_or_subscriptions() {
    let mut world = World::new();
    let root = world.root();
    let child = root.child(&mut world.tree).expect("an active context has children");
    child.scope().claim_disposal(&mut world.tree, &vec![]);
    let cache = key("cache");
    let provision =
        child.provide(&mut world.tree, &mut world.registries, cache.clone(), NAMED, 1);
    assert!(matches!(provision.result, Err(CoreError::InvalidState { .. })));
    assert!(world.lookup(&root, &cache).is_none(), "the provider is taken back");
    assert!(child
        .subscribe(
            &mut world.tree,
            &mut world.registries,
            &vec![Dependency::Required(cache)],
        )
        .is_err());
    assert!(child.child(&mut world.tree).is_err());
}

#[test]
fn services_without_their_registry_are_unavailable() {
    let mut world = World::new();
    let context = world.root();
    let clock = key("clock");
    let required = world.subscribe(&context, Dependency::Required(clock.clone()));
    let optional = world.subscribe(&context, Dependency::Optional(clock.clone()));
    world.provide(&context, &clock, "wall");
    assert!(required.snapshot(&world.registries).ready);
    let gone = unavailable_snapshot(&required.dependencies);
    assert!(!gone.ready);
    assert_eq!(gone.services.len(), 1);
    assert!(!gone.services[0].available);
    assert!(unavailable_snapshot(&optional.dependencies).ready);
}
