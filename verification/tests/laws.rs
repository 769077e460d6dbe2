use tessivum::context::ContextHandle;
use tessivum::decode::parse_entry_tree;
use tessivum::dispatch::{take_turn, Turn};
use tessivum::error::{CoreError, LoaderError};
use tessivum::events::{
    DispatchMode, EventBus, EventHub, EventOptions, ListenerHandle, ListenerKind, PayloadType,
};
use tessivum::ids::{next, IdSource, RealmLabel, ServiceKey};
use tessivum::lifecycle::{Disposal, Scope, ScopeTree};
use tessivum::managed::managed_disposal;
use tessivum::native::NativePluginError;
use tessivum::patch::Patch;
use tessivum::registry::Registries;
use tessivum::replace::{ReplaceStep, Replacement};
use tessivum::service::Dependency;
use tessivum::tree::{EntryId, EntryTree};

const NAMED: u64 = 1;

fn id(value: &str) -> EntryId {
    EntryId::new(value.to_owned()).expect("test identifier is valid")
}

fn tree() -> EntryTree {
    parse_entry_tree(
        r#"{
            "entries": [{"package": "p", "id": "a"}, {"package": "p", "id": "b", "disabled": true}],
            "groups": [
                {"id": "g", "entries": [{"package": "p", "id": "c"}, {"package": "p", "id": "d"}],
                 "groups": [{"id": "h", "disabled": true, "entries": [{"package": "p", "id": "e"}]}]},
                {"id": "i", "entries": [{"package": "p", "id": "f"}]}
            ]
        }"#,
    )
    .expect("the tree is valid")
}

fn ids(tree: &EntryTree) -> Vec<String> {
    tree.entries().iter().map(|entry| entry.options.id.as_str().to_owned()).collect()
}

#[test]
fn active_entries_are_the_others() {
    let tree = tree();
    assert_eq!(ids(&tree), ["a", "b", "c", "d", "e", "f"]);
    let active: Vec<String> = tree
        .active_entries()
        .iter()
        .map(|entry| entry.options.id.as_str().to_owned())
        .collect();
    assert_eq!(active, ["a", "c", "d", "f"]);
}

#[test]
fn moved_entries_join_the_list_of_their_target() {
    let tree = tree();
    let moved = tree
        .apply(&Patch::Move { id: id("a"), before: Some(id("e")) })
        .expect("both entries occur");
    assert_eq!(ids(&moved), ["b", "c", "d", "a", "e", "f"]);
    assert_eq!(moved.groups[0].groups[0].entries.len(), 2);
    assert_eq!(moved.groups[0].groups[0].id, "h");
    assert_eq!(moved.entries.len(), 1);
    let last = tree
        .apply(&Patch::Move { id: id("d"), before: None })
        .expect("the entry occurs");
    assert_eq!(ids(&last), ["a", "b", "d", "c", "e", "f"]);
    for (from, to) in [("a", "a"), ("a", "z"), ("z", "a")] {
        assert!(tree.apply(&Patch::Move { id: id(from), before: Some(id(to)) }).is_err());
    }
}

#[test]
fn identifiers_count_up() {
    let mut source = IdSource::new();
    let first = source.next_resource_id();
    let scope = source.next_scope_id();
    let second = source.next_resource_id();
    assert!(first < second);
    assert_eq!(source.next_scope_id().get(), scope.get() + 1);
}

#[test]
fn scopes_keep_their_identifiers() {
    let mut tree = ScopeTree::new();
    let parent = Scope::root(&mut tree);
    let child = parent.child(&mut tree).expect("the parent is active");
    let other = Scope::root(&mut tree);
    let before: Vec<_> = [parent, child, other]
        .iter()
        .map(|scope| (scope.id(&tree), scope.generation(&tree)))
        .collect();
    assert_ne!(before[0].0, before[1].0);
    assert_ne!(before[1].1, before[2].1);
    let none = Vec::new();
    assert!(matches!(parent.dispose(&mut tree, &none, &Vec::new()), Disposal::Run(_)));
    assert!(matches!(other.dispose(&mut tree, &none, &Vec::new()), Disposal::Run(_)));
    other.finish_disposal(&mut tree, Ok(()));
    let after: Vec<_> = [parent, child, other]
        .iter()
        .map(|scope| (scope.id(&tree), scope.generation(&tree)))
        .collect();
    assert_eq!(before, after);
}

fn key(name: &str) -> ServiceKey {
    ServiceKey::new(name.to_owned(), "test/v1".to_owned())
}

#[test]
fn stale_handles_listeners_and_listings() {
    let mut tree = ScopeTree::new();
    let mut registries = Registries::new();
    let root = ContextHandle::root(&mut tree, &mut registries);
    let listener = root
        .subscribe(&mut tree, &mut registries, &vec![Dependency::Required(key("b"))])
        .expect("the context is active")
        .subscription;
    let first = root.provide(&mut tree, &mut registries, key("b"), NAMED, 1);
    assert_eq!(first.deliveries.len(), 1);
    assert_eq!(first.deliveries[0].listener, listener.id);
    let first = first.result.expect("the context is active").0;
    let other = root.provide(&mut tree, &mut registries, key("a"), NAMED, 2);
    assert_eq!(other.deliveries.len(), 0);
    let second = root.provide(&mut tree, &mut registries, key("b"), NAMED, 3);
    assert_eq!(second.deliveries.len(), 1);
    let second = second.result.expect("the context is active").0;
    assert!(first.with(&registries).is_err());
    assert_eq!(second.with(&registries), Ok(3));
    let keys: Vec<String> =
        root.snapshots(&registries).into_iter().map(|snapshot| snapshot.key).collect();
    assert_eq!(keys, ["a@test/v1", "b@test/v1"]);
    let third = root.provide(&mut tree, &mut registries, key("b"), NAMED, 4);
    assert!(third.result.is_ok());
    assert!(first.with(&registries).is_err());
    assert!(second.with(&registries).is_err());
    assert!(registries.unregister_listener(root.registry, listener.id));
    let fourth = root.provide(&mut tree, &mut registries, key("b"), NAMED, 5);
    assert_eq!(fourth.deliveries.len(), 0);
}

#[test]
fn replacements_end_replaced_or_left() {
    let mut whole = Replacement::new();
    let mut steps = Vec::new();
    while whole.outcome().is_none() {
        steps.push(whole.step);
        whole.report(Ok(()));
    }
    assert_eq!(
        steps,
        [ReplaceStep::Create, ReplaceStep::Write, ReplaceStep::Sync, ReplaceStep::Rename]
    );
    assert!(matches!(whole.outcome(), Some(Ok(()))));
    let mut torn = Replacement::new();
    torn.report(Ok(()));
    torn.report(Err("disk full".to_owned()));
    assert_eq!(torn.step, ReplaceStep::Remove);
    torn.report(Err("busy".to_owned()));
    match torn.outcome() {
        Some(Err(LoaderError::Persistence(message))) => assert_eq!(message, "disk full"),
        other => panic!("{other:?}"),
    }
}

#[test]
fn managed_disposal_reports_both_failures() {
    let stop = || NativePluginError::Runtime { package: "p".to_owned(), message: "m".to_owned() };
    let end = || CoreError::SetupFailed("end".to_owned());
    assert!(managed_disposal(Ok(()), Ok(())).is_ok());
    let text = |result: Result<(), LoaderError>| match result {
        Err(LoaderError::Validation(message)) => message,
        other => panic!("{other:?}"),
    };
    assert_eq!(text(managed_disposal(Err(stop()), Ok(()))), stop().message());
    assert_eq!(text(managed_disposal(Ok(()), Err(end()))), end().message());
    assert_eq!(
        text(managed_disposal(Err(stop()), Err(end()))),
        "2 native plugin cleanup error(s)"
    );
}

fn listener(
    bus: &EventBus,
    hub: &mut EventHub,
    tree: &mut ScopeTree,
    owner: Scope,
    once: bool,
) -> ListenerHandle {
    let options = EventOptions::default();
    let payload = PayloadType { kind: 1, name: "u64".to_owned() };
    let event = "tick".to_owned();
    bus.register(hub, tree, owner, event, options, once, ListenerKind::Sync, payload)
        .expect("the owner is active")
}

#[test]
fn listeners_are_removed_once() {
    let mut tree = ScopeTree::new();
    let mut hub = EventHub::new();
    let bus = EventBus::new();
    let owner = Scope::root(&mut tree);
    let first = listener(&bus, &mut hub, &mut tree, owner, false);
    let single = listener(&bus, &mut hub, &mut tree, owner, true);
    let last = listener(&bus, &mut hub, &mut tree, owner, false);
    let under_way = bus.snapshot(&hub, &tree, "tick");

    assert!(first.remove(&mut hub));
    assert!(!first.remove(&mut hub));
    let done = bus.emit(&mut hub, &tree, "tick", 1, &vec![], 0);
    assert_eq!(done.called, [single.token, last.token]);
    assert!(!single.remove(&mut hub), "a one-time listener leaves with its turn");
    let turn = take_turn(&mut hub, &under_way, 0, DispatchMode::Emit, "tick", 1);
    assert!(matches!(turn, Turn::Call(0)), "a dispatch under way keeps its listeners");

    let mut order = Vec::new();
    owner
        .dispose_below(&mut tree, &Vec::new(), &Vec::new(), &mut order)
        .expect("disposal succeeds");
    assert_eq!(order, [last.id(), single.id(), first.id()]);
    assert!(bus.emit(&mut hub, &tree, "tick", 1, &vec![], 0).called.is_empty());
    assert!(last.remove(&mut hub), "its disposer removes it");
    assert!(!last.remove(&mut hub));
}

#[test]
fn isolated_views_share_services_by_label() {
    let mut tree = ScopeTree::new();
    let mut registries = Registries::new();
    let root = ContextHandle::root(&mut tree, &mut registries);
    let label = |text: &str| Some(RealmLabel::new(text.to_owned()));
    let a = root.isolate(&mut tree.ids, key("k"), label("one"));
    let same = root.isolate(&mut tree.ids, key("k"), label("one"));
    let other = root.isolate(&mut tree.ids, key("k"), label("two"));
    let private = root.isolate(&mut tree.ids, key("k"), None);
    assert!(a.provide(&mut tree, &mut registries, key("k"), NAMED, 7).result.is_ok());
    let value = |view: &ContextHandle, registries: &Registries| {
        view.get(registries, &key("k"), NAMED)
            .expect("the type is right")
            .map(|handle| handle.with(registries).expect("the handle is current"))
    };
    assert_eq!(value(&a, &registries), Some(7));
    assert_eq!(value(&same, &registries), Some(7));
    assert_eq!(value(&other, &registries), None);
    assert_eq!(value(&private, &registries), None);
    assert_eq!(value(&root, &registries), None);
    assert!(matches!(
        a.get(&registries, &key("k"), NAMED + 1),
        Err(CoreError::ServiceTypeMismatch { .. })
    ));
}

#[test]
fn counters_go_on_where_they_were() {
    let mut counter: u64 = 41;
    assert_eq!(next(&mut counter), 41);
    assert_eq!(next(&mut counter), 42);
    assert_eq!(counter, 43);
}
