use tessivum::config::ConfigScope;
use tessivum::context::{ContextHandle, ServiceHandle};
use tessivum::document::parse_json;
use tessivum::error::{CoreError, LoaderError};
use tessivum::events::{EventHub, EventOptions, ListenerHandle, PayloadType};
use tessivum::ids::{ResourceId, ServiceKey};
use tessivum::json::JsonValue;
use tessivum::lifecycle::{CleanupStep, FiberState, Scope, ScopeTree, StartOutcome};
use tessivum::loader::{ActivationState, Import, Loader, Progress, Replacement, Stage};
use tessivum::managed::{managed_disposal, ManagedAction, ManagedControl, ManagedWorker};
use tessivum::native::{
    NativePluginDescriptor, NativePluginError, NativePluginPhase, NativePluginRuntime,
};
use tessivum::native_instance::{
    finish_failed, setup_of_start, setup_of_update, stop_current, Admission, DependencyGate,
    NativePluginInstance,
};
use tessivum::native_update::{update_outcome, UpdateEnd};
use tessivum::registry::{Delivery, Registries, Registry};
use tessivum::schema::{
    set_property, NativeConfigError, NativeConfigKind, NativeConfigSchema, SchemaProperty,
};
use tessivum::service::{Dependency, DependencySnapshot};
use tessivum::tree::{Entry, EntryId, EntryOptions, EntryTree, RuntimeKind};

const SERVICE: u64 = 1;
const NOTICE: u64 = 1;

fn json(text: &str) -> JsonValue {
    parse_json(text).expect("test value is JSON")
}

fn key(name: &str) -> ServiceKey {
    ServiceKey::new(name.to_owned(), "native/v1".to_owned())
}

fn provider_service() -> ServiceKey {
    key("minimal.provider")
}

fn managed_service() -> ServiceKey {
    key("managed.service")
}

fn object_schema(name: &str, schema: NativeConfigSchema) -> NativeConfigSchema {
    let mut properties: Vec<SchemaProperty> = Vec::new();
    set_property(&mut properties, name.to_owned(), schema);
    NativeConfigSchema::Object {
        properties,
        required: vec![name.to_owned()],
        allow_additional: false,
    }
}

fn provider() -> NativePluginDescriptor {
    NativePluginDescriptor {
        name: "minimal-provider".to_owned(),
        version: "1.0.0".to_owned(),
        dependencies: vec![],
        config_schema: object_schema("label", NativeConfigSchema::String),
    }
}

fn consumer(dependency: Dependency) -> NativePluginDescriptor {
    NativePluginDescriptor {
        name: "minimal-consumer".to_owned(),
        version: "1.0.0".to_owned(),
        dependencies: vec![dependency],
        config_schema: NativeConfigSchema::Any,
    }
}

fn probe() -> NativePluginDescriptor {
    NativePluginDescriptor {
        name: "probe".to_owned(),
        version: "1.0.0".to_owned(),
        dependencies: vec![],
        config_schema: object_schema("enabled", NativeConfigSchema::Boolean),
    }
}

fn free(name: &str) -> NativePluginDescriptor {
    NativePluginDescriptor {
        name: name.to_owned(),
        version: "1.0.0".to_owned(),
        dependencies: vec![],
        config_schema: NativeConfigSchema::Any,
    }
}

/// The parts of a host that plugins share.
struct Host {
    tree: ScopeTree,
    registries: Registries,
    /// The services that scopes own, by their effects.
    owned: Vec<(ResourceId, ServiceHandle)>,
    /// The event bus of each context tree.
    hubs: Vec<(Registry, EventHub)>,
    /// The listeners that scopes own, with what they listen for.
    heard: Vec<(Registry, ListenerHandle)>,
    log: Vec<String>,
    told: Vec<(ResourceId, DependencySnapshot)>,
}

impl Host {
    fn new() -> (Self, ContextHandle) {
        let mut tree = ScopeTree::new();
        let mut registries = Registries::new();
        let root = ContextHandle::root(&mut tree, &mut registries);
        let host = Host {
            tree,
            registries,
            owned: vec![],
            hubs: vec![],
            heard: vec![],
            log: vec![],
            told: vec![],
        };
        (host, root)
    }

    fn hear(&mut self, deliveries: Vec<Delivery>) {
        for delivery in deliveries {
            self.told.push((delivery.listener, delivery.snapshot));
        }
    }

    fn provide(&mut self, context: &ContextHandle, key: ServiceKey, value: u64) -> ServiceHandle {
        let provision =
            context.provide(&mut self.tree, &mut self.registries, key.clone(), SERVICE, value);
        let (handle, effect) = provision.result.expect("provider service registers");
        let copy = context
            .get(&self.registries, &key, SERVICE)
            .expect("lookup succeeds")
            .expect("the service is there");
        self.owned.push((effect, copy));
        self.hear(provision.deliveries);
        handle
    }

    fn value(&self, context: &ContextHandle, key: &ServiceKey) -> Option<u64> {
        context
            .get(&self.registries, key, SERVICE)
            .expect("service lookup succeeds")
            .map(|handle| handle.with(&self.registries).expect("service is callable"))
    }

    fn hub(&mut self, context: &ContextHandle) -> &mut EventHub {
        let at = self.hub_of(context.registry);
        &mut self.hubs[at].1
    }

    fn hub_of(&mut self, registry: Registry) -> usize {
        match self.hubs.iter().position(|(of, _)| *of == registry) {
            Some(at) => at,
            None => {
                self.hubs.push((registry, EventHub::new()));
                self.hubs.len() - 1
            }
        }
    }

    fn listen(&mut self, context: &ContextHandle, event: &str) {
        let at = self.hub_of(context.registry);
        let handle = context
            .events()
            .on(
                &mut self.hubs[at].1,
                &mut self.tree,
                context.scope(),
                event.to_owned(),
                EventOptions { prepend: false, global: true },
                PayloadType { kind: NOTICE, name: "Notice".to_owned() },
            )
            .expect("typed listener belongs to its scope");
        self.heard.push((context.registry, handle));
    }

    /// Dispatches an event, and tells how many listeners it reached.
    fn emit(&mut self, context: &ContextHandle, event: &str) -> usize {
        let at = self.hub_of(context.registry);
        let done = context.events().emit(
            &mut self.hubs[at].1,
            &self.tree,
            event,
            NOTICE,
            &vec![],
            0,
        );
        done.result.expect("typed event dispatches without JSON");
        done.called.len()
    }

    /// Runs the disposers of effects.
    fn clean(&mut self, effects: &[ResourceId]) {
        for effect in effects {
            let found = self.heard.iter().position(|(_, handle)| handle.id() == *effect);
            if let Some(at) = found {
                let (registry, handle) = self.heard.remove(at);
                let hub = self.hub_of(registry);
                assert!(handle.remove(&mut self.hubs[hub].1));
                assert!(!handle.remove(&mut self.hubs[hub].1));
            }
            let found = self.owned.iter().position(|(owner, _)| owner == effect);
            if let Some(at) = found {
                let (_, handle) = self.owned.remove(at);
                let (_, deliveries) = self.registries.remove_if_current(
                    handle.registry,
                    &handle.service,
                    handle.generation,
                );
                self.hear(deliveries);
            }
        }
    }

    fn dispose_scope(&mut self, scope: Scope) -> Vec<ResourceId> {
        let mut order = vec![];
        scope
            .dispose_below(&mut self.tree, &vec![], &vec![], &mut order)
            .expect("disposal succeeds");
        self.clean(&order);
        order
    }

    /// Stops a plugin, with `stop` in place of its hook, and disposes its fiber.
    fn dispose(
        &mut self,
        plugin: &mut NativePluginInstance,
        stop: Result<(), NativePluginError>,
    ) -> Result<(), NativePluginError> {
        let stop = if plugin.stop_plugin() {
            self.log.push(format!("stop:{}", plugin.descriptor().name));
            stop
        } else {
            Ok(())
        };
        let scope = plugin.fiber.dispose();
        self.dispose_scope(scope);
        if let Some(DependencyGate::Subscribed(subscription)) = &plugin.barrier {
            subscription.unsubscribe(&mut self.registries);
        }
        plugin.fiber.finish_disposal(&self.tree);
        stop_current(stop, Ok(()))
    }

    /// Starts a plugin whose barrier is open, with `hook` in place of its start
    /// hook.
    fn enter(
        &mut self,
        plugin: &mut NativePluginInstance,
        hook: &dyn Fn(&mut Host, &ContextHandle) -> Result<(), CoreError>,
    ) -> Result<(), NativePluginError> {
        let scope = match plugin.enter(&self.tree, &self.registries, false) {
            Ok(Admission::Run(scope)) => scope,
            other => panic!("the hooks run: {other:?}"),
        };
        let context = plugin.context().with_scope(scope);
        self.log.push(format!("start:{}", plugin.descriptor().name));
        let setup = hook(self, &context);
        match plugin.fiber.finish_start(&mut self.tree, setup) {
            StartOutcome::Settled(result) => result.map_err(NativePluginError::Core),
            StartOutcome::RollBack(mut cleanup, failure) => {
                let mut effects = vec![];
                loop {
                    match cleanup.next() {
                        CleanupStep::Effect(effect) => {
                            effects.push(effect.id);
                            cleanup.record(Ok(()));
                        }
                        CleanupStep::Child(_) => unreachable!("the scope has no children"),
                        CleanupStep::Finished => break,
                    }
                }
                self.clean(&effects);
                let failure = tessivum::lifecycle::rolled_back(failure, cleanup.finish());
                Err(NativePluginError::Core(failure))
            }
        }
    }
}

#[test]
fn native_instance_waits_for_a_required_provider_before_starting() {
    let (mut host, root) = Host::new();
    let mut waiting = NativePluginInstance::instantiate(
        &mut host.tree,
        consumer(Dependency::Required(provider_service())),
        root.clone(),
        JsonValue::Null,
    )
    .expect("required consumer instantiates");
    waiting
        .start(&mut host.tree, &mut host.registries)
        .expect("the start begins");
    assert_eq!(
        waiting.wait_for_dependencies(&host.registries, false),
        Ok(false),
        "a required consumer remains pending before its provider starts"
    );
    assert!(matches!(
        waiting.enter(&host.tree, &host.registries, false),
        Ok(Admission::Wait)
    ));
    assert!(!waiting.start_attempted);
    assert!(host.log.is_empty());

    let mut direct = NativePluginInstance::instantiate(
        &mut host.tree,
        provider(),
        root.clone(),
        json(r#"{"label": "direct"}"#),
    )
    .expect("provider instantiates");
    direct
        .start(&mut host.tree, &mut host.registries)
        .expect("the start begins");
    host.enter(&mut direct, &|host, context| {
        host.provide(context, provider_service(), 7);
        Ok(())
    })
    .expect("provider starts");
    assert_eq!(
        waiting.wait_for_dependencies(&host.registries, false),
        Ok(true),
        "provider availability wakes the pending consumer"
    );
    host.enter(&mut waiting, &|host, context| {
        assert_eq!(host.value(context, &provider_service()), Some(7));
        Ok(())
    })
    .expect("consumer starts");
    assert_eq!(
        host.log,
        ["start:minimal-provider", "start:minimal-consumer"]
    );
    assert_eq!(waiting.fiber().state(&host.tree), FiberState::Active);
    host.dispose(&mut waiting, Ok(())).expect("consumer disposes");
    host.dispose(&mut direct, Ok(())).expect("provider disposes");
    assert_eq!(host.value(&root, &provider_service()), None);
    host.dispose_scope(root.scope());
}

#[test]
fn native_pending_consumer_cancellation_settles() {
    let (mut host, root) = Host::new();
    let mut waiting = NativePluginInstance::instantiate(
        &mut host.tree,
        consumer(Dependency::Required(provider_service())),
        root.clone(),
        JsonValue::Null,
    )
    .expect("pending consumer instantiates");
    waiting
        .start(&mut host.tree, &mut host.registries)
        .expect("the start begins");
    assert_eq!(
        waiting.wait_for_dependencies(&host.registries, false),
        Ok(false)
    );
    host.dispose_scope(root.scope());
    let cancelled = waiting
        .fiber()
        .scope()
        .cancellation()
        .is_cancelled(&host.tree);
    assert!(cancelled, "disposing the owner cancels its pending consumer");
    assert_eq!(
        waiting.wait_for_dependencies(&host.registries, cancelled),
        Err(CoreError::Cancelled)
    );
    assert!(matches!(
        waiting.enter(&host.tree, &host.registries, cancelled),
        Err(CoreError::Cancelled)
    ));
    assert!(
        waiting.snapshot(&host.tree).fiber.resources.is_empty(),
        "cancelling a pending consumer disposes its scope-owned subscription"
    );
    assert!(
        !waiting.stop_plugin(),
        "cancellation never enters the pending plugin's start hook"
    );
    assert!(host.log.is_empty());
}

#[test]
fn native_loader_starts_an_optional_consumer_without_a_provider() {
    let (mut host, root) = Host::new();
    let mut runtime = NativePluginRuntime::new();
    runtime
        .register("native/optional-consumer".to_owned(), 1)
        .expect("optional consumer factory registers");
    let factory = runtime
        .find("native/optional-consumer")
        .expect("the factory is registered");
    let dependency = Dependency::Optional(provider_service());
    let mut optional = NativePluginInstance::instantiate_with_factory(
        &mut host.tree,
        consumer(dependency.clone()),
        factory,
        root.clone(),
        JsonValue::Null,
    )
    .expect("optional consumer instantiates");
    let watched = root
        .subscribe(&mut host.tree, &mut host.registries, &vec![dependency.clone()])
        .expect("the host watches the services");
    assert!(watched.snapshot.ready);
    let mut control = ManagedControl::new(&vec![dependency.clone()]);
    let mut worker = ManagedWorker::new(vec![dependency]);
    control.set_snapshot(watched.snapshot);
    control.request_activation();
    let action = worker.next(&mut control, optional.fiber().state(&host.tree));
    assert!(matches!(&action, ManagedAction::Start(_)));
    optional
        .start(&mut host.tree, &mut host.registries)
        .expect("the start begins");
    host.enter(&mut optional, &|_, _| Ok(()))
        .expect("a missing optional provider does not delay activation");
    worker.settle(&mut control, action, Ok(()), optional.fiber().scope());
    assert!(matches!(
        control.activation(),
        Some(Ok(ActivationState::Active))
    ));
    host.dispose(&mut optional, Ok(()))
        .expect("optional consumer unloads");
    assert_eq!(host.log, ["start:minimal-consumer", "stop:minimal-consumer"]);
}

/// A native plugin that follows the services it needs.
struct Managed {
    package: String,
    instance: NativePluginInstance,
    watching: ContextHandle,
    watcher: ResourceId,
    control: ManagedControl,
    worker: ManagedWorker,
}

/// Native plugins behind a loader.
struct Natives {
    host: Host,
    loader: Loader,
    runtime: NativePluginRuntime,
    plugins: Vec<Managed>,
    starts: Vec<String>,
    events: Vec<String>,
}

const LABELS: [&str; 3] = ["", "v1", "v2"];

impl Natives {
    fn new(packages: &[&str]) -> Self {
        let (host, root) = Host::new();
        let mut runtime = NativePluginRuntime::new();
        for (index, package) in packages.iter().enumerate() {
            runtime
                .register((*package).to_owned(), index as u64)
                .expect("factory registers");
        }
        let loader = Loader::try_new(
            vec![RuntimeKind::Native],
            root,
            ConfigScope::new("os".to_owned(), "arch".to_owned()),
        )
        .expect("native runtime registers with the loader");
        Natives {
            host,
            loader,
            runtime,
            plugins: vec![],
            starts: vec![],
            events: vec![],
        }
    }

    fn import(&mut self, entry: &Entry, context: &ContextHandle) -> Import {
        let entry = self.loader.prepare(entry).expect("the entry has no expressions");
        let number = self.runtime.find(&entry.package).expect("the package is registered");
        let descriptor = if entry.package == "native/consumer" {
            consumer(Dependency::Required(provider_service()))
        } else {
            provider()
        };
        let needs: Vec<Dependency> = match entry.package.as_str() {
            "native/consumer" => vec![Dependency::Required(provider_service())],
            _ => vec![],
        };
        let instance = NativePluginInstance::instantiate_with_factory(
            &mut self.host.tree,
            descriptor,
            number,
            context.clone(),
            entry.options.config,
        )
        .expect("the plugin instantiates");
        let scope = context.scope().child(&mut self.host.tree).expect("the context is active");
        let watching = context.with_scope(scope);
        let subscribed = watching
            .subscribe(&mut self.host.tree, &mut self.host.registries, &needs)
            .expect("the host watches the services");
        let mut control = ManagedControl::new(&needs);
        control.set_snapshot(subscribed.snapshot);
        self.plugins.push(Managed {
            package: entry.package,
            instance,
            watching,
            watcher: subscribed.subscription.id,
            control,
            worker: ManagedWorker::new(needs),
        });
        Import::Live(self.plugins.len() as u64 - 1)
    }

    /// Lets every plugin do what it has to, until none has anything left.
    fn settle(&mut self) {
        loop {
            for (to, snapshot) in std::mem::take(&mut self.host.told) {
                for plugin in &mut self.plugins {
                    if plugin.watcher == to {
                        plugin.control.set_snapshot(snapshot);
                        break;
                    }
                }
            }
            let mut quiet = true;
            for at in 0..self.plugins.len() {
                quiet &= self.step(at);
            }
            if quiet && self.host.told.is_empty() {
                return;
            }
        }
    }

    /// One action of a plugin; whether there was none.
    fn step(&mut self, at: usize) -> bool {
        let host = &mut self.host;
        let plugin = &mut self.plugins[at];
        if plugin.control.stopping {
            return true;
        }
        let fiber = plugin.instance.fiber().state(&host.tree);
        let action = plugin.worker.next(&mut plugin.control, fiber);
        match &action {
            ManagedAction::Wait => return true,
            ManagedAction::Again => return false,
            ManagedAction::Start(_) => {
                plugin
                    .instance
                    .start(&mut host.tree, &mut host.registries)
                    .expect("the start begins");
                let value = LABELS
                    .iter()
                    .position(|label| plugin.package.ends_with(&format!("-{label}")))
                    .unwrap_or(0) as u64;
                let consumes = plugin.package == "native/consumer";
                host.enter(&mut plugin.instance, &|host, context| {
                    if consumes {
                        host.value(context, &provider_service())
                            .expect("required provider is present before consumer start");
                        host.listen(context, "minimal.notice");
                    } else {
                        host.provide(context, provider_service(), value);
                    }
                    Ok(())
                })
                .expect("the plugin starts");
                self.starts.push(if consumes {
                    let value = host
                        .value(&plugin.instance.context(), &provider_service())
                        .expect("provider stays current while consumer starts");
                    format!("consumer:{}", LABELS[value as usize])
                } else {
                    format!("provider:{}", LABELS[value as usize])
                });
            }
            ManagedAction::Withdraw => {
                assert!(plugin.instance.suspend(&host.tree));
                host.dispose(&mut plugin.instance, Ok(())).expect("the plugin unloads");
                plugin.instance.renew(&mut host.tree).expect("a fiber of its own");
            }
            other => panic!("nothing is updated here: {other:?}"),
        }
        let scope = plugin.instance.fiber().scope();
        plugin.worker.settle(&mut plugin.control, action, Ok(()), scope);
        false
    }

    fn activate(&mut self, handles: &[u64]) -> Vec<Result<(), LoaderError>> {
        for handle in handles {
            self.plugins[*handle as usize].control.request_activation();
        }
        self.settle();
        handles
            .iter()
            .map(|handle| match self.plugins[*handle as usize].control.activation() {
                Some(Ok(_)) => Ok(()),
                other => panic!("the activation is settled: {other:?}"),
            })
            .collect()
    }

    fn dispose(&mut self, handles: &[u64]) -> Vec<Result<(), LoaderError>> {
        handles
            .iter()
            .map(|handle| {
                let plugin = &mut self.plugins[*handle as usize];
                plugin.control.stop();
                let fiber = plugin.instance.fiber().state(&self.host.tree);
                let action = plugin.worker.next(&mut plugin.control, fiber);
                assert!(matches!(action, ManagedAction::Stop));
                let stopped = self.host.dispose(&mut plugin.instance, Ok(()));
                self.host.dispose_scope(plugin.watching.scope());
                let outcome = managed_disposal(stopped, Ok(()));
                self.settle();
                outcome
            })
            .collect()
    }

    fn drive(&mut self, replacement: Replacement) -> Result<(), LoaderError> {
        let context = replacement.context.clone();
        let entries = replacement.tree.active_entries();
        let imports = entries.iter().map(|entry| self.import(entry, &context)).collect();
        let mut current = self.loader.imported(replacement, imports);
        loop {
            let handles = self.loader.handles(&current);
            let results = match current.stage {
                Stage::Activate | Stage::Restore => self.activate(&handles),
                _ => self.dispose(&handles),
            };
            match self.loader.settle(current, results) {
                Progress::Next(next) => current = next,
                Progress::Done(outcome) => return outcome,
            }
        }
    }

    fn root(&mut self) -> ContextHandle {
        ContextHandle::root(&mut self.host.tree, &mut self.host.registries)
    }

    fn load(&mut self, tree: EntryTree) -> Result<(), LoaderError> {
        let context = self.root();
        let replacement = self.loader.load(tree, context)?;
        self.drive(replacement)
    }

    fn replace(&mut self, tree: EntryTree) -> Result<(), LoaderError> {
        let context = self.root();
        let replacement = self.loader.replace(tree, context)?;
        self.drive(replacement)
    }

    fn unload(&mut self) -> Result<(), LoaderError> {
        let handles: Vec<u64> = self.loader.live.iter().rev().map(|live| live.handle).collect();
        let results = self.dispose(&handles);
        self.loader.unload(&results)
    }

    /// Sends a notice through the context of the loader.
    fn notify(&mut self, notice: &str) {
        let context = self.loader.context();
        for _ in 0..self.host.emit(&context, "minimal.notice") {
            self.events.push(notice.to_owned());
        }
    }

    fn stops(&self) -> usize {
        self.host.log.iter().filter(|line| line.starts_with("stop:")).count()
    }
}

fn native_entry(id: &str, package: &str, config: JsonValue) -> Entry {
    Entry {
        package: package.to_owned(),
        options: EntryOptions {
            id: EntryId::new(id.to_owned()).expect("test entry id is valid"),
            name: Some(id.to_owned()),
            runtime: RuntimeKind::Native,
            config,
            inject: vec![],
            isolate: vec![],
            intercept: json("{}"),
            disabled: false,
            group: None,
        },
    }
}

/// The consumer intentionally comes first: dependencies, not the order of
/// entries, determine activation.
fn native_tree(provider: &str) -> EntryTree {
    let label = json(&format!(r#"{{"label": "{provider}"}}"#));
    EntryTree {
        entries: vec![
            native_entry("consumer", "native/consumer", JsonValue::Null),
            native_entry("provider", provider, label),
        ],
        groups: vec![],
    }
}

fn consumer_tree() -> EntryTree {
    EntryTree {
        entries: vec![native_entry("consumer", "native/consumer", JsonValue::Null)],
        groups: vec![],
    }
}

#[test]
fn native_loader_runs_provider_consumer_removal_replacement_and_root_disposal() {
    let mut natives =
        Natives::new(&["native/provider-v1", "native/provider-v2", "native/consumer"]);
    natives
        .load(native_tree("native/provider-v1"))
        .expect("provider and dependency-gated consumer activate");
    assert_eq!(
        natives.starts.last().map(String::as_str),
        Some("consumer:v1"),
        "the consumer starts only after its first required provider is active"
    );
    natives.notify("v1");

    natives
        .replace(consumer_tree())
        .expect("removing a required provider leaves its consumer managed and pending");
    assert_eq!(
        natives.starts,
        ["provider:v1", "consumer:v1"],
        "removal unloads the active consumer instead of restarting it without a provider"
    );
    assert_eq!(
        natives.stops(),
        2,
        "provider removal unloads the former provider and consumer"
    );

    natives
        .replace(native_tree("native/provider-v2"))
        .expect("provider replacement reloads the managed consumer");
    assert_eq!(
        natives.starts.last().map(String::as_str),
        Some("consumer:v2"),
        "the replacement provider wakes and reloads the pending consumer"
    );
    natives.notify("v2");

    let root = natives.loader.context();
    natives.unload().expect("native instances quiesce before root disposal");
    let mut order = vec![];
    for _ in 0..2 {
        root.scope()
            .dispose_below(&mut natives.host.tree, &vec![], &vec![], &mut order)
            .expect("root disposal is successful and idempotent");
    }
    assert!(order.is_empty(), "nothing is left to dispose");

    assert_eq!(
        natives.starts,
        ["provider:v1", "consumer:v1", "provider:v2", "consumer:v2"],
        "the required service gates each consumer activation independently of entry order"
    );
    assert_eq!(natives.events, ["v1", "v2"]);
    assert_eq!(natives.stops(), 4, "each live plugin stops exactly once");
    assert!(natives.host.hub(&root).listeners.is_empty());
    assert!(
        root.scope().effects(&natives.host.tree).is_empty(),
        "root owns no residual effects"
    );
    assert_eq!(
        natives.runtime.snapshot().packages,
        ["native/consumer", "native/provider-v1", "native/provider-v2"],
        "runtime diagnostics retain only registered factories, not live resources"
    );
}

#[test]
fn managed_native_rejected_update_retains_old_service_and_resource() {
    let (mut host, root) = Host::new();
    let needs = vec![Dependency::Required(key("managed.dependency"))];
    let watched = root
        .subscribe(&mut host.tree, &mut host.registries, &needs)
        .expect("the host watches the services");
    let watcher = watched.subscription.id;
    let mut control = ManagedControl::new(&needs);
    let mut worker = ManagedWorker::new(vec![Dependency::Required(key("managed.dependency"))]);
    let descriptor = || NativePluginDescriptor {
        name: "failing-update".to_owned(),
        version: "1.0.0".to_owned(),
        dependencies: vec![Dependency::Required(key("managed.dependency"))],
        config_schema: NativeConfigSchema::Any,
    };
    let mut managed = NativePluginInstance::instantiate_with_factory(
        &mut host.tree,
        descriptor(),
        3,
        root.clone(),
        JsonValue::Null,
    )
    .expect("managed plugin instantiates");
    control.set_snapshot(watched.snapshot);
    control.request_activation();
    assert!(matches!(
        worker.next(&mut control, managed.fiber().state(&host.tree)),
        ManagedAction::Again
    ));

    host.provide(&root, key("managed.dependency"), 1);
    let (to, news) = host.told.remove(0);
    assert_eq!(to, watcher);
    control.set_snapshot(news);
    let action = worker.next(&mut control, managed.fiber().state(&host.tree));
    managed
        .start(&mut host.tree, &mut host.registries)
        .expect("the start begins");
    host.enter(&mut managed, &|host, context| {
        host.provide(context, managed_service(), 10);
        context
            .scope()
            .add_effect(&mut host.tree, "managed-resource".to_owned())?;
        Ok(())
    })
    .expect("initial managed plugin starts");
    worker.settle(&mut control, action, Ok(()), managed.fiber().scope());
    host.told.clear();

    host.provide(&root, key("managed.dependency"), 2);
    let at = host
        .told
        .iter()
        .position(|(to, _)| *to == watcher)
        .expect("the generation changed");
    control.set_snapshot(host.told.remove(at).1);
    let action = worker.next(&mut control, managed.fiber().state(&host.tree));
    assert!(matches!(&action, ManagedAction::Update(_)));
    let mut candidate = managed
        .stage_update(
            &mut host.tree,
            &mut host.registries,
            descriptor(),
            JsonValue::Null,
        )
        .expect("the candidate is staged");
    candidate
        .start_after_update(&mut host.tree, &mut host.registries)
        .expect("the start begins");
    let failure = setup_of_update(Err(NativePluginError::Runtime {
        package: "failing-update".to_owned(),
        message: "candidate update fails".to_owned(),
    }));
    let started = host.enter(&mut candidate, &|host, context| {
        host.provide(context, managed_service(), 20);
        assert_eq!(host.value(context, &managed_service()), Some(20));
        failure.clone()
    });
    let before = managed.fiber().scope();
    let (end, deliveries) = managed.conclude_update(&mut host.registries, candidate, started);
    assert!(deliveries.is_empty());
    let (mut candidate, failure) = match end {
        UpdateEnd::Discard(candidate, failure) => (candidate, failure),
        UpdateEnd::Retire(_) => panic!("the candidate failed"),
    };
    let cleanup = host.dispose(&mut candidate, Ok(()));
    let outcome = update_outcome(Err(failure), cleanup);
    assert!(matches!(
        &outcome,
        Err(NativePluginError::Core(CoreError::Plugin { .. }))
    ));
    worker.settle(&mut control, action, outcome, managed.fiber().scope());
    assert!(matches!(
        control.activation(),
        Some(Err(LoaderError::Validation(_)))
    ));

    assert_eq!(managed.fiber().scope(), before);
    assert_eq!(
        host.value(&root, &managed_service()),
        Some(10),
        "failed candidate leaves the old managed service live"
    );
    assert_eq!(
        managed.snapshot(&host.tree).fiber.resources.len(),
        3,
        "failed candidate does not dispose the old resource"
    );
    host.dispose(&mut managed, Ok(()))
        .expect("old managed instance unloads after the rejected update");
    assert_eq!(host.value(&root, &managed_service()), None);
    assert!(managed.snapshot(&host.tree).fiber.resources.is_empty());
}

#[test]
fn native_update_waits_for_missing_required_dependency_and_cancels() {
    let (mut host, root) = Host::new();
    let mut source = NativePluginInstance::instantiate(
        &mut host.tree,
        provider(),
        root.clone(),
        json(r#"{"label": "gate"}"#),
    )
    .expect("provider instantiates");
    source
        .start(&mut host.tree, &mut host.registries)
        .expect("the start begins");
    host.enter(&mut source, &|host, context| {
        host.provide(context, provider_service(), 1);
        Ok(())
    })
    .expect("provider starts");
    let descriptor = || consumer(Dependency::Required(provider_service()));
    let mut user = NativePluginInstance::instantiate_with_factory(
        &mut host.tree,
        descriptor(),
        1,
        root.clone(),
        JsonValue::Null,
    )
    .expect("consumer instantiates");
    user.start(&mut host.tree, &mut host.registries)
        .expect("the start begins");
    host.enter(&mut user, &|_, _| Ok(())).expect("consumer starts");
    host.dispose(&mut source, Ok(())).expect("provider stops");

    let mut candidate = user
        .stage_update(
            &mut host.tree,
            &mut host.registries,
            descriptor(),
            JsonValue::Null,
        )
        .expect("the candidate is staged");
    candidate
        .start_after_update(&mut host.tree, &mut host.registries)
        .expect("the start begins");
    assert!(matches!(
        candidate.barrier,
        Some(DependencyGate::Subscribed(_))
    ));
    assert_eq!(
        candidate.wait_for_dependencies(&host.registries, false),
        Ok(false)
    );
    host.dispose_scope(root.scope());
    let cancelled = user.fiber().scope().cancellation().is_cancelled(&host.tree);
    let started = candidate
        .wait_for_dependencies(&host.registries, cancelled)
        .map(|_| ())
        .map_err(NativePluginError::Core);
    let (end, _) = user.conclude_update(&mut host.registries, candidate, started);
    match end {
        UpdateEnd::Discard(candidate, failure) => {
            assert!(!candidate.start_attempted);
            assert!(matches!(
                failure,
                NativePluginError::Core(CoreError::Cancelled)
            ));
        }
        UpdateEnd::Retire(_) => panic!("the candidate was cancelled"),
    }
    assert_eq!(
        host.log,
        [
            "start:minimal-provider",
            "start:minimal-consumer",
            "stop:minimal-provider"
        ],
        "pending candidate never enters update or start"
    );
}

#[test]
fn native_update_keeps_candidate_live_when_old_stop_fails() {
    let (mut host, root) = Host::new();
    let mut instance = NativePluginInstance::instantiate_with_factory(
        &mut host.tree,
        free("stop-failing-update"),
        1,
        root.clone(),
        JsonValue::Null,
    )
    .expect("stop-failing plugin instantiates");
    instance
        .start(&mut host.tree, &mut host.registries)
        .expect("the start begins");
    host.enter(&mut instance, &|host, context| {
        host.provide(context, managed_service(), 1);
        context
            .scope()
            .add_effect(&mut host.tree, "stop-failure-resource".to_owned())?;
        Ok(())
    })
    .expect("old plugin starts");
    let old_service = root
        .get(&host.registries, &managed_service(), SERVICE)
        .expect("old service lookup succeeds")
        .expect("old service is present");

    let mut candidate = instance
        .stage_update(
            &mut host.tree,
            &mut host.registries,
            free("stop-failing-update"),
            JsonValue::Null,
        )
        .expect("the candidate is staged");
    candidate
        .start_after_update(&mut host.tree, &mut host.registries)
        .expect("the start begins");
    let started = host.enter(&mut candidate, &|host, context| {
        host.provide(context, managed_service(), 2);
        context
            .scope()
            .add_effect(&mut host.tree, "stop-failure-resource".to_owned())?;
        Ok(())
    });
    assert!(
        old_service.is_current(&host.registries),
        "the running plugin stays until its candidate is ready"
    );
    assert_eq!(started, Ok(()));
    let (end, _) = instance.conclude_update(&mut host.registries, candidate, started);
    let mut retired = match end {
        UpdateEnd::Retire(retired) => retired,
        UpdateEnd::Discard(..) => panic!("the candidate started"),
    };
    let cleanup = host.dispose(
        &mut retired,
        Err(NativePluginError::Runtime {
            package: "stop-failing-update".to_owned(),
            message: "old stop fails".to_owned(),
        }),
    );
    assert!(matches!(
        update_outcome(Ok(()), cleanup),
        Err(NativePluginError::Runtime { message, .. }) if message == "old stop fails"
    ));
    assert!(
        !old_service.is_current(&host.registries),
        "committing the candidate invalidates only the retired provider"
    );
    assert_eq!(
        host.value(&root, &managed_service()),
        Some(2),
        "candidate service remains current after old cleanup fails"
    );
    assert!(retired.snapshot(&host.tree).fiber.resources.is_empty());
    assert!(
        !instance.snapshot(&host.tree).fiber.resources.is_empty(),
        "the ready candidate still owns its resources"
    );
    host.dispose(&mut instance, Ok(())).expect("candidate disposes");
    assert_eq!(host.value(&root, &managed_service()), None);
}

#[test]
fn native_instances_validate_rollback_update_and_dispose_without_resources() {
    let descriptor = NativePluginDescriptor {
        name: "schema-probe".to_owned(),
        version: "1.0.0".to_owned(),
        dependencies: vec![],
        config_schema: object_schema("enabled", NativeConfigSchema::Boolean),
    };
    assert!(matches!(
        descriptor.validate_config(&json(r#"{"enabled": "not-a-bool"}"#)),
        Err(NativePluginError::Config(NativeConfigError::Type { path, .. })) if path == "$.enabled"
    ));
    assert!(matches!(
        descriptor.validate_config(&json(r#"{"enabled": true, "surprise": 1}"#)),
        Err(NativePluginError::Config(NativeConfigError::AdditionalProperty { path, property }))
            if path == "$" && property == "surprise"
    ));

    let (mut host, failed_root) = Host::new();
    let mut failed = NativePluginInstance::instantiate(
        &mut host.tree,
        free("failing"),
        failed_root.clone(),
        JsonValue::Null,
    )
    .expect("failing plugin descriptor instantiates");
    failed
        .start(&mut host.tree, &mut host.registries)
        .expect("the start begins");
    let failure = host
        .enter(&mut failed, &|host, context| {
            host.provide(context, key("failing.service"), 1);
            let error = context
                .get(&host.registries, &key("failing.service"), SERVICE + 1)
                .expect_err("the provisional service intentionally has the wrong type");
            setup_of_start(Err(NativePluginError::Core(error)))
        })
        .expect_err("the start fails");
    assert!(failed.stop_plugin(), "a failed start stops its plugin once");
    assert!(matches!(
        finish_failed(failure, Ok(())),
        NativePluginError::Core(CoreError::ServiceTypeMismatch { .. })
    ));
    assert!(!failed.stop_plugin());
    assert_eq!(failed.fiber().state(&host.tree), FiberState::Failed);
    assert!(
        failed.snapshot(&host.tree).fiber.resources.is_empty(),
        "a failed start rolls back the service it registered"
    );
    assert_eq!(
        host.value(&failed_root, &key("failing.service")),
        None,
        "the failed child transaction never leaks its provisional service"
    );

    let (mut host, root) = Host::new();
    let mut instance = NativePluginInstance::instantiate_with_factory(
        &mut host.tree,
        probe(),
        1,
        root.clone(),
        json(r#"{"enabled": true}"#),
    )
    .expect("valid probe config instantiates");
    instance
        .start(&mut host.tree, &mut host.registries)
        .expect("the start begins");
    host.enter(&mut instance, &|host, context| {
        context
            .scope()
            .add_effect(&mut host.tree, "probe-resource".to_owned())?;
        Ok(())
    })
    .expect("probe starts");
    assert!(matches!(
        instance.stage_update(
            &mut host.tree,
            &mut host.registries,
            probe(),
            json(r#"{"enabled": "no"}"#),
        ),
        Err(NativePluginError::Config(NativeConfigError::Type { path, .. })) if path == "$.enabled"
    ));
    assert_eq!(
        instance.snapshot(&host.tree).config,
        json(r#"{"enabled": true}"#),
        "a rejected update keeps the last validated configuration"
    );
    let mut candidate = instance
        .stage_update(
            &mut host.tree,
            &mut host.registries,
            probe(),
            json(r#"{"enabled": false}"#),
        )
        .expect("the candidate is staged");
    candidate
        .start_after_update(&mut host.tree, &mut host.registries)
        .expect("the start begins");
    let started = host.enter(&mut candidate, &|host, context| {
        context
            .scope()
            .add_effect(&mut host.tree, "probe-resource".to_owned())?;
        Ok(())
    });
    let (end, _) = instance.conclude_update(&mut host.registries, candidate, started);
    match end {
        UpdateEnd::Retire(mut retired) => host
            .dispose(&mut retired, Ok(()))
            .expect("the retired plugin stops"),
        UpdateEnd::Discard(..) => panic!("validated update restarts the transaction"),
    }
    assert_eq!(*instance.config(), json(r#"{"enabled": false}"#));
    host.dispose(&mut instance, Ok(()))
        .expect("first disposal succeeds");
    host.dispose(&mut instance, Ok(()))
        .expect("second disposal is idempotent");
    host.dispose_scope(root.scope());
    assert_eq!(
        host.log,
        ["start:probe", "start:probe", "stop:probe", "stop:probe"]
    );
    assert!(
        instance.snapshot(&host.tree).fiber.resources.is_empty(),
        "disposed instance snapshots expose zero owned resources"
    );
    assert!(root.scope().effects(&host.tree).is_empty());
}

#[test]
fn updates_need_an_active_plugin_with_a_factory() {
    let (mut host, root) = Host::new();
    let mut plugin = NativePluginInstance::instantiate(
        &mut host.tree,
        free("single"),
        root.clone(),
        JsonValue::Null,
    )
    .expect("plugin instantiates");
    assert!(matches!(
        plugin.update(&host.tree, &JsonValue::Null),
        Err(NativePluginError::Core(CoreError::InvalidState { operation, state: FiberState::Pending }))
            if operation == "update native plugin"
    ));
    plugin
        .start(&mut host.tree, &mut host.registries)
        .expect("the start begins");
    host.enter(&mut plugin, &|_, _| Ok(())).expect("plugin starts");
    assert!(matches!(
        plugin.update(&host.tree, &JsonValue::Null),
        Err(NativePluginError::Runtime { package, message })
            if package == "single"
                && message == "transactional updates require an instance factory"
    ));
    assert!(matches!(
        plugin.start(&mut host.tree, &mut host.registries),
        Err(NativePluginError::Core(CoreError::InvalidState { state: FiberState::Active, .. }))
    ));
    assert!(matches!(
        plugin.enter(&host.tree, &host.registries, false),
        Ok(Admission::Refused(CoreError::InvalidState { .. }))
    ));
}

#[test]
fn stopping_collects_what_failed() {
    let stop = || NativePluginError::plugin(NativePluginPhase::Stop, "stop failed".to_owned());
    assert_eq!(stop_current(Ok(()), Ok(())), Ok(()));
    assert_eq!(stop_current(Err(stop()), Ok(())), Err(stop()));
    assert_eq!(
        stop_current(Err(stop()), Err(CoreError::Cancelled)),
        Err(NativePluginError::Cleanup(vec![
            stop(),
            NativePluginError::Core(CoreError::Cancelled)
        ]))
    );
    assert_eq!(
        update_outcome(Err(stop()), Err(NativePluginError::Core(CoreError::Cancelled))),
        Err(NativePluginError::Cleanup(vec![
            stop(),
            NativePluginError::Core(CoreError::Cancelled)
        ]))
    );
    assert_eq!(update_outcome(Err(stop()), Ok(())), Err(stop()));
}

#[test]
fn factories_have_one_name_each() {
    let mut runtime = NativePluginRuntime::new();
    runtime.register("native/b".to_owned(), 2).expect("registers");
    runtime.register("native/a".to_owned(), 1).expect("registers");
    assert!(matches!(
        runtime.register(" \t".to_owned(), 3),
        Err(NativePluginError::Runtime { message, .. })
            if message == "package specifier must not be blank"
    ));
    assert!(matches!(
        runtime.register("native/a".to_owned(), 3),
        Err(NativePluginError::Runtime { package, message })
            if package == "native/a" && message == "a factory is already registered"
    ));
    assert_eq!(runtime.find("native/b"), Ok(2));
    assert_eq!(
        runtime.find("native/c"),
        Err(LoaderError::Validation(
            "no native plugin factory is registered for native/c".to_owned()
        ))
    );
    assert_eq!(runtime.snapshot().packages, ["native/a", "native/b"]);
}

#[test]
fn contracts_name_the_place_of_a_fault() {
    let list = NativeConfigSchema::Array(Box::new(NativeConfigSchema::Integer));
    assert_eq!(list.validate_value(&json("[1, 2]"), "$"), Ok(()));
    assert_eq!(
        list.validate_value(&json("[1, 2.5]"), "$"),
        Err(NativeConfigError::Type {
            path: "$[1]".to_owned(),
            expected: NativeConfigKind::Integer,
            actual: NativeConfigKind::Number,
        })
    );
    let object = object_schema("enabled", NativeConfigSchema::Boolean);
    assert_eq!(
        object.validate_value(&json("{}"), "$"),
        Err(NativeConfigError::Required {
            path: "$".to_owned(),
            property: "enabled".to_owned(),
        })
    );
    let open = NativeConfigSchema::Object {
        properties: vec![],
        required: vec!["missing".to_owned()],
        allow_additional: true,
    };
    assert!(matches!(
        open.validate_schema("$"),
        Err(NativeConfigError::InvalidSchema { path, .. }) if path == "$"
    ));
    let nested = NativeConfigSchema::Array(Box::new(open));
    assert!(matches!(
        nested.validate_schema("$"),
        Err(NativeConfigError::InvalidSchema { path, .. }) if path == "$[]"
    ));
    for (schema, good, bad) in [
        (NativeConfigSchema::Null, "null", "0"),
        (NativeConfigSchema::Boolean, "false", "null"),
        (NativeConfigSchema::Integer, "-3", "1.5"),
        (NativeConfigSchema::Number, "1.5", "\"1.5\""),
        (NativeConfigSchema::String, "\"\"", "1"),
    ] {
        assert!(schema.validate_value(&json(good), "$").is_ok(), "{good}");
        assert!(schema.validate_value(&json(bad), "$").is_err(), "{bad}");
        assert!(NativeConfigSchema::Any.validate_value(&json(bad), "$").is_ok());
    }
}

#[test]
fn updates_follow_one_another() {
    let (mut host, root) = Host::new();
    let mut instance = NativePluginInstance::instantiate_with_factory(
        &mut host.tree,
        free("repeated"),
        1,
        root.clone(),
        JsonValue::Null,
    )
    .expect("plugin instantiates");
    instance
        .start(&mut host.tree, &mut host.registries)
        .expect("the start begins");
    host.enter(&mut instance, &|host, context| {
        host.provide(context, managed_service(), 1);
        Ok(())
    })
    .expect("plugin starts");
    for value in 2..5 {
        let mut candidate = instance
            .stage_update(
                &mut host.tree,
                &mut host.registries,
                free("repeated"),
                JsonValue::Null,
            )
            .expect("the candidate is staged");
        candidate
            .start_after_update(&mut host.tree, &mut host.registries)
            .expect("the start begins");
        let started = host.enter(&mut candidate, &|host, context| {
            assert_eq!(host.value(context, &managed_service()), Some(value - 1));
            host.provide(context, managed_service(), value);
            assert_eq!(host.value(context, &managed_service()), Some(value));
            Ok(())
        });
        assert_eq!(host.value(&root, &managed_service()), Some(value - 1));
        let (end, _) = instance.conclude_update(&mut host.registries, candidate, started);
        assert_eq!(host.value(&root, &managed_service()), Some(value));
        match end {
            UpdateEnd::Retire(mut retired) => host
                .dispose(&mut retired, Ok(()))
                .expect("the retired plugin stops"),
            UpdateEnd::Discard(..) => panic!("the candidate started"),
        }
        assert_eq!(
            host.value(&root, &managed_service()),
            Some(value),
            "retiring the old plugin leaves the service of the new one"
        );
        let seen = instance.context();
        assert_eq!(host.value(&seen, &managed_service()), Some(value));
    }
    host.dispose(&mut instance, Ok(())).expect("the last plugin stops");
    assert_eq!(host.value(&root, &managed_service()), None);
}
