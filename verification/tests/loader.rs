use tessivum::config::ConfigScope;
use tessivum::context::ContextHandle;
use tessivum::decode::{accept_tree_value, normalize_entries, parse_entry_tree};
use tessivum::document::parse_json;
use tessivum::error::LoaderError;
use tessivum::fixture::TraceEventKind;
use tessivum::json::{JsonValue, Number};
use tessivum::lifecycle::ScopeTree;
use tessivum::loader::{
    ActivationState, HmrDriver, Import, Loader, PackageResolver, Progress, Replacement,
    ResolvedPackage, RuntimeHandle, Stage,
};
use tessivum::patch::{apply_entry_patches, Patch};
use tessivum::persist::{persist_entry_tree, DocumentFormat};
use tessivum::registry::Registries;
use tessivum::tree::{Entry, EntryGroup, EntryId, EntryOptions, EntryTree, RuntimeKind};

fn json(text: &str) -> JsonValue {
    parse_json(text).expect("test document is JSON")
}

fn id(value: &str) -> EntryId {
    EntryId::new(value.to_owned()).expect("test identifier is valid")
}

fn entry(value: &str) -> Entry {
    Entry {
        package: format!("test/{value}"),
        options: EntryOptions {
            id: id(value),
            name: Some(format!("plugin.{value}")),
            runtime: RuntimeKind::Native,
            config: json(&format!(r#"{{"version": "{value}"}}"#)),
            inject: Vec::new(),
            isolate: Vec::new(),
            intercept: json("{}"),
            disabled: false,
            group: None,
        },
    }
}

fn tree(entries: &[&str]) -> EntryTree {
    EntryTree { entries: entries.iter().map(|value| entry(value)).collect(), groups: Vec::new() }
}

fn entry_ids(tree: &EntryTree) -> Vec<String> {
    tree.entries.iter().map(|entry| entry.options.id.as_str().to_owned()).collect()
}

#[test]
fn yaml_and_json_entry_trees_parse_and_validate_before_loading() {
    let json_tree = parse_entry_tree(
        r#"{
            "entries": [
                {
                    "package": "test/native",
                    "id": "base",
                    "name": "plugin.base",
                    "runtime": "native",
                    "config": {"mode": "base"},
                    "inject": ["logger"],
                    "isolate": ["storage"],
                    "intercept": {"logger": {"level": "info"}},
                    "disabled": false,
                    "group": "base"
                },
                {
                    "package": "test/wasm",
                    "id": "headless",
                    "runtime": "wasm",
                    "config": null,
                    "disabled": true
                }
            ]
        }"#,
    )
    .expect("base/headless JSON tree parses");
    json_tree
        .validate()
        .expect("parsed JSON tree is valid before any runtime starts");

    let yaml_tree = parse_entry_tree(
        r#"
entries:
  - package: test/native
    id: base
    name: plugin.base
    runtime: native
    config:
      mode: base
    inject: [logger]
    isolate: [storage]
    intercept:
      logger:
        level: info
    disabled: false
    group: base
  - package: test/wasm
    id: headless
    runtime: wasm
    config: null
    disabled: true
"#,
    )
    .expect("equivalent base/headless YAML tree parses");
    yaml_tree
        .validate()
        .expect("parsed YAML tree is valid before any runtime starts");
    assert_eq!(json_tree, yaml_tree, "both documents describe one tree");
    assert_eq!(json_tree.entries().len(), 2);
    assert_eq!(json_tree.active_entries().len(), 1);
}

#[test]
fn stable_ids_schema_and_runtime_are_rejected_before_loading() {
    assert!(
        EntryId::new("".to_owned()).is_err(),
        "an entry cannot have an empty stable identifier"
    );
    assert!(
        EntryId::new("contains spaces".to_owned()).is_err(),
        "stable entry identifiers cannot be ambiguous display labels"
    );
    assert!(
        parse_entry_tree(
            r#"{"entries":[
                {"package":"test/one","id":"duplicate","runtime":"native"},
                {"package":"test/two","id":"duplicate","runtime":"wasm"}
            ]}"#
        )
        .is_err(),
        "duplicate entry identifiers fail while the candidate is detached"
    );
    assert!(
        parse_entry_tree(
            r#"{"entries":[{"package":"test/one","id":"bad-runtime","runtime":"python"}]}"#
        )
        .is_err(),
        "an unsupported runtime cannot survive schema parsing"
    );
    assert!(
        parse_entry_tree(r#"{"entries":[{"package":"test/one","id":"unknown-field","runtime":"native","surprise":true}]}"#)
            .is_err(),
        "entry schema is closed rather than silently accepting misspelled configuration"
    );
}

#[test]
fn entry_options_round_trip_all_runtime_context_controls() {
    let restored = accept_tree_value(&json(
        r#"[{
            "package": "test/native",
            "id": "contextual",
            "name": "plugin.contextual",
            "runtime": "native",
            "config": {"enabled": true, "label": "contextual"},
            "inject": ["logger", "metrics"],
            "isolate": ["storage"],
            "intercept": {"logger": {"level": "debug"}},
            "disabled": false,
            "group": "headless"
        }]"#,
    ))
    .expect("serialized entry deserializes");
    let restored = &restored.entries[0];
    assert_eq!(restored.package, "test/native");
    assert_eq!(restored.options.name.as_deref(), Some("plugin.contextual"));
    assert_eq!(restored.options.config, json(r#"{"enabled": true, "label": "contextual"}"#));
    assert_eq!(
        restored.options.inject,
        vec!["logger", "metrics"],
        "required services retain their declared order"
    );
    assert_eq!(restored.options.isolate, vec!["storage"]);
    assert_eq!(restored.options.intercept, json(r#"{"logger": {"level": "debug"}}"#));
    assert!(!restored.options.disabled);
    assert_eq!(restored.options.group.as_deref(), Some("headless"));

    for name in ["legacy-node", "legacy_node"] {
        let document =
            format!(r#"[{{"package": "test/legacy", "id": "old", "runtime": "{name}"}}]"#);
        let tree = parse_entry_tree(&document).expect("legacy entries deserialize");
        assert_eq!(
            tree.entries[0].options.runtime,
            RuntimeKind::LegacyNode,
            "runtime names remain stable configuration data"
        );
    }
}

#[test]
fn ordered_patches_clone_then_insert_and_target_later_entries() {
    let original = tree(&["first", "second", "third"]);
    let candidate = original
        .apply_all(&[
            Patch::Insert { entry: entry("inserted"), before: Some(id("second")) },
            Patch::UpdateConfig { id: id("inserted"), config: json(r#"{"patched": true}"#) },
            Patch::Move { id: id("third"), before: Some(id("first")) },
            Patch::Update {
                id: id("second"),
                entry: Entry {
                    package: "test/replaced".to_owned(),
                    options: EntryOptions {
                        config: json(r#"{"replacement": true}"#),
                        ..entry("second").options
                    },
                },
            },
            Patch::Remove { id: id("first") },
        ])
        .expect("ordered patch set produces a validated candidate tree");

    assert_eq!(
        entry_ids(&candidate),
        ["third", "inserted", "second"],
        "an inserted entry is immediately targetable by a later patch and moves are stable"
    );
    assert_eq!(
        candidate.entries[1].options.config,
        json(r#"{"patched": true}"#),
        "config patch replaces the complete config value rather than shallow-merging it"
    );
    assert_eq!(candidate.entries[2].package, "test/replaced");
    assert_eq!(
        entry_ids(&original),
        ["first", "second", "third"],
        "patch application changes the detached candidate and never mutates the source tree"
    );
}

#[test]
fn malformed_candidate_patch_never_changes_the_last_known_good_tree() {
    let original = tree(&["stable"]);
    let error = apply_entry_patches(
        &original,
        &[
            Patch::UpdateConfig { id: id("stable"), config: json(r#"{"candidate": "changed"}"#) },
            Patch::Remove { id: id("missing") },
        ],
    )
    .expect_err("a patch that targets no entry is rejected before it can become active");
    assert_eq!(error, LoaderError::MissingEntry(id("missing")));
    assert_eq!(
        original.entries[0].options.config,
        json(r#"{"version": "stable"}"#),
        "the committed tree remains intact when a detached candidate fails validation"
    );
}

#[test]
fn nested_groups_validate_and_atomic_persistence_replaces_only_committed_trees() {
    let mut tree = EntryTree {
        entries: vec![entry("root")],
        groups: vec![EntryGroup {
            id: "root".to_owned(),
            entries: vec![entry("child")],
            groups: vec![EntryGroup {
                id: "root.child".to_owned(),
                entries: vec![entry("leaf")],
                groups: Vec::new(),
                disabled: false,
            }],
            disabled: false,
        }],
    };
    tree.validate().expect("nested groups form one valid detached tree");
    assert_eq!(
        tree.active_entries().len(),
        3,
        "active entry traversal includes root entries and each enabled nested group in stable order"
    );

    let plan = tree
        .persist(Some("json"), Some("loader.json"), 7, 3)
        .expect("validated tree is persisted through an atomic replacement");
    assert_eq!(plan.format, DocumentFormat::Json);
    assert_eq!(plan.temporary, ".loader.json.7.3.tmp");
    let persisted = serde_json::to_string_pretty(&written(&plan.document))
        .expect("the document is written");
    let restored = parse_entry_tree(&persisted)
        .expect("atomic replacement leaves a complete parseable configuration file");
    assert_eq!(restored.active_entries().len(), 3);
    assert_eq!(restored, tree);

    tree.groups[0].disabled = true;
    assert_eq!(tree.active_entries().len(), 1, "a disabled group suppresses all below it");
    assert_eq!(tree.entries().len(), 3);
}

/// The value that the writers of documents take.
fn written(value: &JsonValue) -> serde_json::Value {
    match value {
        JsonValue::Null => serde_json::Value::Null,
        JsonValue::Bool(flag) => serde_json::Value::Bool(*flag),
        JsonValue::Number(Number::Unsigned(number)) => serde_json::Value::from(*number),
        JsonValue::Number(Number::Negative(number)) => serde_json::Value::from(*number),
        JsonValue::Number(Number::Float(bits)) => serde_json::Value::from(f64::from_bits(*bits)),
        JsonValue::String(text) => serde_json::Value::from(text.as_str()),
        JsonValue::Array(values) => serde_json::Value::Array(values.iter().map(written).collect()),
        JsonValue::Object(members) => serde_json::Value::Object(
            members
                .iter()
                .map(|member| (member.key.clone(), written(&member.value)))
                .collect(),
        ),
    }
}

#[test]
fn persisted_documents_read_back_in_both_formats() {
    let mut odd = entry("odd");
    odd.options.name = None;
    odd.options.runtime = RuntimeKind::LegacyNode;
    odd.options.config = json(r#"{"list": [1, -2, 1.5, null, "x"], "deep": {"flag": true}}"#);
    odd.options.inject = vec!["clock".to_owned(), "log".to_owned()];
    odd.options.isolate = vec!["http".to_owned()];
    odd.options.disabled = true;
    odd.options.group = Some("root".to_owned());
    let mut wasm = entry("guest");
    wasm.options.runtime = RuntimeKind::Wasm;
    let tree = EntryTree {
        entries: vec![odd],
        groups: vec![EntryGroup {
            id: "root".to_owned(),
            entries: vec![wasm],
            groups: vec![],
            disabled: true,
        }],
    };
    let plan = persist_entry_tree(&tree, Some("yml"), Some("loader.yml"), 1, 0)
        .expect("the tree is valid");
    assert_eq!(plan.format, DocumentFormat::Yaml);
    let yaml = serde_yaml::to_string(&written(&plan.document)).expect("the document is written");
    assert_eq!(parse_entry_tree(&yaml).expect("the document is a tree"), tree);
    let text = serde_json::to_string(&written(&plan.document)).expect("the document is written");
    assert_eq!(parse_entry_tree(&text).expect("the document is a tree"), tree);
    assert_eq!(accept_tree_value(&tree.document()).expect("the document is a tree"), tree);
}

#[test]
fn trees_are_persisted_only_when_they_can_be() {
    let plan = |tree: &EntryTree, extension: Option<&str>, file: Option<&str>| {
        persist_entry_tree(tree, extension, file, 1, 0)
    };
    let good = tree(&["a"]);
    for (extension, format) in [
        (Some("yaml"), DocumentFormat::Yaml),
        (Some("yml"), DocumentFormat::Yaml),
        (Some("YAML"), DocumentFormat::Json),
        (Some("json"), DocumentFormat::Json),
        (None, DocumentFormat::Json),
    ] {
        let plan = plan(&good, extension, Some("tree")).expect("the tree is valid");
        assert_eq!(plan.format, format);
    }
    assert_eq!(
        plan(&good, None, None).expect_err("the path names no file"),
        LoaderError::Persistence("persistence path has no file name".to_owned())
    );
    let twice = tree(&["a", "a"]);
    assert!(matches!(
        plan(&twice, None, None),
        Err(LoaderError::Validation(_))
    ));
}

#[test]
fn keyed_entries_are_listed_with_their_names() {
    let keyed = json(r#"{"clock": {"name": "wall"}, "odd": 3}"#);
    assert_eq!(
        normalize_entries(&keyed),
        json(r#"[{"id": "clock", "name": "wall", "package": "wall"}, {"id": "odd", "package": "odd"}]"#)
    );
    let tree = parse_entry_tree(r#"{"plugins": {"clock": {"name": "wall"}}}"#)
        .expect("a plugin map is an entry list");
    assert_eq!(tree.entries[0].package, "wall");
    assert_eq!(tree.entries[0].options.id.as_str(), "clock");
    assert!(matches!(parse_entry_tree("3"), Err(LoaderError::Parse(_))));
    assert!(matches!(parse_entry_tree("a: [b"), Err(LoaderError::Parse(_))));
    assert!(matches!(
        parse_entry_tree("entries:\n  - !!js process.exit(1)\n"),
        Err(LoaderError::Expression(_))
    ));
}

#[test]
fn patches_that_contradict_themselves_are_refused() {
    let original = tree(&["a", "b"]);
    assert!(matches!(
        original.apply(&Patch::Move { id: id("a"), before: Some(id("a")) }),
        Err(LoaderError::Patch(_))
    ));
    assert!(matches!(
        original.apply(&Patch::Update { id: id("a"), entry: entry("b") }),
        Err(LoaderError::Patch(_))
    ));
    assert!(matches!(
        original.apply(&Patch::Insert { entry: entry("a"), before: None }),
        Err(LoaderError::Validation(_))
    ));
    let inserted = original
        .apply(&Patch::Insert { entry: entry("c"), before: Some(id("b")) })
        .expect("a new entry is put before another");
    let removed = inserted.apply(&Patch::Remove { id: id("c") }).expect("and taken out again");
    assert_eq!(removed, original, "removal undoes insertion");
}

#[derive(Default)]
struct Mock {
    calls: Vec<String>,
    fail_resolve: Vec<&'static str>,
    fail_activate: Vec<&'static str>,
    fail_dispose: Vec<&'static str>,
    handles: Vec<String>,
}

impl Mock {
    fn record(&mut self, call: String) {
        self.calls.push(call);
    }

    /// Imports one entry, as a runtime does.
    fn import(&mut self, loader: &Loader, entry: &Entry) -> Import {
        let entry = match loader.prepare(entry) {
            Ok(entry) => entry,
            Err(error) => return Import::Failed(error),
        };
        self.record(format!("resolve:{}", entry.package));
        if self.fail_resolve.contains(&entry.package.as_str()) {
            return Import::Unresolved(LoaderError::Validation(format!(
                "resolver rejected {}",
                entry.package
            )));
        }
        if let Err(error) = loader.runtime_for(&entry) {
            return Import::Failed(error);
        }
        self.record(format!(
            "instantiate:{}:resolved:{}",
            entry.options.id.as_str(),
            entry.package
        ));
        self.handles.push(entry.options.id.as_str().to_owned());
        Import::Live(self.handles.len() as u64 - 1)
    }

    /// Runs one stage of a transaction.
    fn act(&mut self, stage: Stage, handles: Vec<u64>) -> Vec<Result<(), LoaderError>> {
        let ids: Vec<String> =
            handles.iter().map(|handle| self.handles[*handle as usize].clone()).collect();
        if stage == Stage::Activate || stage == Stage::Restore {
            for id in &ids {
                self.record(format!("activate:start:{id}"));
            }
        }
        ids.iter()
            .map(|id| {
                if stage == Stage::Activate || stage == Stage::Restore {
                    if self.fail_activate.contains(&id.as_str()) {
                        self.record(format!("activate:failed:{id}"));
                        return Err(LoaderError::Validation(format!("activation failed for {id}")));
                    }
                    self.record(format!("activate:ok:{id}"));
                } else {
                    self.record(format!("dispose:{id}"));
                    if self.fail_dispose.contains(&id.as_str()) {
                        return Err(LoaderError::Validation(format!("disposal failed for {id}")));
                    }
                }
                Ok(())
            })
            .collect()
    }

    /// Drives a transaction to its end.
    fn drive(&mut self, loader: &mut Loader, replacement: Replacement) -> Result<(), LoaderError> {
        let imports: Vec<Import> = replacement
            .tree
            .active_entries()
            .iter()
            .map(|entry| self.import(loader, entry))
            .collect();
        let mut current = loader.imported(replacement, imports);
        loop {
            let handles = loader.handles(&current);
            let results = self.act(current.stage, handles);
            match loader.settle(current, results) {
                Progress::Next(next) => current = next,
                Progress::Done(result) => return result,
            }
        }
    }

    fn replace(&mut self, loader: &mut Loader, tree: EntryTree) -> Result<(), LoaderError> {
        let replacement = loader.replace(tree, loader.context())?;
        self.drive(loader, replacement)
    }

    fn load(&mut self, loader: &mut Loader, tree: EntryTree) -> Result<(), LoaderError> {
        let replacement = loader.load(tree, loader.context())?;
        self.drive(loader, replacement)
    }

    fn called(&self, call: &str) -> bool {
        self.calls.iter().any(|made| made == call)
    }
}

fn loader() -> Loader {
    let mut scopes = ScopeTree::new();
    let mut registries = Registries::new();
    let context = ContextHandle::root(&mut scopes, &mut registries);
    Loader::try_new(
        vec![RuntimeKind::Native],
        context,
        ConfigScope::new("test-os".to_owned(), "test-arch".to_owned()),
    )
    .expect("one native runtime makes a valid loader")
}

fn last_kind(loader: &Loader) -> Option<TraceEventKind> {
    loader.trace().last().map(|event| event.kind)
}

#[test]
fn loader_imports_and_activates_candidate_before_disposing_old_then_commits_config() {
    let mut state = Mock::default();
    let mut loader = loader();
    state.load(&mut loader, tree(&["old"])).expect("initial tree loads");
    state.calls.clear();

    state
        .replace(&mut loader, tree(&["new"]))
        .expect("replacement candidate imports and activates");
    let candidate_activation = state
        .calls
        .iter()
        .position(|call| call == "activate:ok:new")
        .expect("replacement candidate activates");
    let old_disposal = state
        .calls
        .iter()
        .position(|call| call == "dispose:old")
        .expect("previous plugin disposes after successful candidate activation");
    assert!(
        candidate_activation < old_disposal,
        "the old committed plugin remains live until its replacement imported and activated"
    );
    assert_eq!(entry_ids(loader.tree()), ["new"]);
    assert_eq!(
        last_kind(&loader),
        Some(TraceEventKind::ConfigCommitted),
        "only a complete candidate appends a committed configuration trace"
    );

    state.calls.clear();
    let replacement = loader
        .update(
            &[Patch::UpdateConfig { id: id("new"), config: json(r#"{"revision": 2}"#) }],
            loader.context(),
        )
        .expect("config-only update begins the same transaction");
    state.drive(&mut loader, replacement).expect("and commits through it");
    assert_eq!(loader.tree().entries[0].options.config, json(r#"{"revision": 2}"#));
    assert!(
        state.called("instantiate:new:resolved:test/new"),
        "a config update reimports a detached candidate instead of mutating a live handle"
    );
    assert!(
        state.called("dispose:new"),
        "only after candidate success is the previous configuration retired"
    );
}

#[test]
fn concurrent_group_candidates_all_settle_and_aggregate_rollback_failures() {
    let mut state = Mock {
        fail_activate: vec!["broken"],
        fail_dispose: vec!["broken", "settled"],
        ..Mock::default()
    };
    let mut loader = loader();
    state
        .load(&mut loader, tree(&["old"]))
        .expect("initial tree loads before candidate failure");
    state.calls.clear();

    let grouped = EntryTree {
        entries: Vec::new(),
        groups: vec![EntryGroup {
            id: "batch".to_owned(),
            entries: vec![entry("broken"), entry("settled")],
            groups: Vec::new(),
            disabled: false,
        }],
    };
    let error = state
        .replace(&mut loader, grouped)
        .expect_err("one candidate activation rolls the whole group back");
    let position = |prefix: &str| -> Vec<usize> {
        state
            .calls
            .iter()
            .enumerate()
            .filter(|(_, call)| call.starts_with(prefix))
            .map(|(index, _)| index)
            .collect()
    };
    let starts = position("activate:start:");
    let completions: Vec<usize> =
        position("activate:ok:").into_iter().chain(position("activate:failed:")).collect();
    let first_completion = *completions.iter().min().expect("activations settle");
    assert_eq!(starts.len(), 2, "every enabled group member starts despite a sibling failure");
    assert!(
        starts.iter().all(|start| *start < first_completion),
        "candidate group activation starts concurrently before any result is accepted"
    );
    assert_eq!(
        error.rollback_errors().len(),
        2,
        "all rollback disposal errors are retained instead of masking the original activation failure"
    );
    assert_eq!(
        position("dispose:settled"),
        [position("dispose:broken")[0] - 1],
        "every candidate handle receives rollback disposal in reverse stable order"
    );
    assert!(
        !state.called("dispose:old"),
        "the old group is never removed until every candidate has settled successfully"
    );
    assert_eq!(entry_ids(loader.tree()), ["old"]);
    assert_eq!(
        last_kind(&loader),
        Some(TraceEventKind::ConfigRolledBack),
        "failed candidate transactions leave an explicit rollback trace"
    );
    assert_eq!(
        loader.trace().last().and_then(|event| event.error.clone()),
        Some(error.message())
    );
}

#[test]
fn import_failure_rolls_back_detached_handles_without_touching_committed_tree() {
    let mut state = Mock { fail_resolve: vec!["test/import-fails"], ..Mock::default() };
    let mut loader = loader();
    state.load(&mut loader, tree(&["old"])).expect("initial tree loads");
    state.calls.clear();

    let error = state
        .replace(&mut loader, tree(&["survivor", "import-fails"]))
        .expect_err("a resolver failure rejects the detached candidate tree");
    assert!(matches!(error, LoaderError::Transaction { .. }));
    assert!(
        state.called("dispose:survivor"),
        "already-imported candidate handles are rolled back after another import fails"
    );
    assert!(
        !state.called("activate:start:survivor"),
        "candidate handles are not activated once group import has a failure"
    );
    assert!(
        !state.called("dispose:old"),
        "the known-good tree remains live after a detached import failure"
    );
    assert_eq!(entry_ids(loader.tree()), ["old"]);
}

struct Recorder {
    calls: std::cell::RefCell<Vec<String>>,
}

impl PackageResolver for Recorder {
    fn resolve(
        &self,
        specifier: &str,
        _runtime: RuntimeKind,
    ) -> Result<ResolvedPackage, LoaderError> {
        self.calls.borrow_mut().push(format!("resolve:{specifier}"));
        Ok(ResolvedPackage {
            specifier: specifier.to_owned(),
            location: format!("resolved:{specifier}"),
        })
    }
}

impl HmrDriver for Recorder {
    fn invalidate(&self, package: &ResolvedPackage) -> Result<(), LoaderError> {
        self.calls.borrow_mut().push(format!("hmr:{}", package.specifier));
        Ok(())
    }
}

struct Plain;

impl RuntimeHandle for Plain {
    fn activate(&mut self) -> Result<(), LoaderError> {
        Ok(())
    }

    fn activation(&mut self) -> Result<ActivationState, LoaderError> {
        self.activate().map(|()| ActivationState::Active)
    }

    fn dispose(&mut self) -> Result<(), LoaderError> {
        Ok(())
    }
}

#[test]
fn resolver_and_hmr_are_public_runtime_boundaries() {
    let recorder = Recorder { calls: std::cell::RefCell::new(Vec::new()) };
    let package = recorder
        .resolve("test/hot", RuntimeKind::Native)
        .expect("resolver produces a runtime-specific imported package");
    assert_eq!(package.location, "resolved:test/hot");
    recorder
        .invalidate(&package)
        .expect("HMR driver is invoked only through its package boundary");
    assert_eq!(
        *recorder.calls.borrow(),
        ["resolve:test/hot", "hmr:test/hot"],
        "the loader-facing interfaces pass resolved packages rather than runtime internals"
    );
    assert_eq!(Plain.activation(), Ok(ActivationState::Active));
    assert_eq!(Plain.dispose(), Ok(()));
}

#[test]
fn failed_retirement_restores_what_was_live() {
    let mut state = Mock { fail_dispose: vec!["old"], ..Mock::default() };
    let mut loader = loader();
    state.load(&mut loader, tree(&["old"])).expect("initial tree loads");
    state.calls.clear();
    let error = state
        .replace(&mut loader, tree(&["new"]))
        .expect_err("a plugin that cannot be disposed stays");
    assert_eq!(
        state.calls,
        [
            "resolve:test/new",
            "instantiate:new:resolved:test/new",
            "activate:start:new",
            "activate:ok:new",
            "dispose:old",
            "activate:start:old",
            "activate:ok:old",
            "dispose:new",
        ]
    );
    assert!(error.rollback_errors().is_empty());
    assert_eq!(entry_ids(loader.tree()), ["old"]);
    assert_eq!(loader.live.len(), 1);
    assert_eq!(
        error.message(),
        "1 loader error(s) with 0 rollback error(s)"
    );

    let results = state.act(Stage::Retire, vec![0]);
    let error = loader.unload(&results).expect_err("it cannot be unloaded either");
    assert!(matches!(error, LoaderError::Aggregate(_)));
    assert_eq!(entry_ids(loader.tree()), ["old"]);
    loader.unload(&vec![Ok(())]).expect("a loader whose plugins are gone unloads");
    assert!(loader.tree().entries.is_empty());
}

#[test]
fn loaders_check_their_runtimes_and_their_first_tree() {
    let mut scopes = ScopeTree::new();
    let mut registries = Registries::new();
    let context = ContextHandle::root(&mut scopes, &mut registries);
    let error = Loader::try_new(
        vec![RuntimeKind::Native, RuntimeKind::Wasm, RuntimeKind::Native],
        context.clone(),
        ConfigScope::new("os".to_owned(), "arch".to_owned()),
    )
    .expect_err("one runtime of each kind is enough");
    assert_eq!(error.message(), "more than one runtime registered for Native");

    let mut state = Mock::default();
    let mut loader = loader().with_context(context);
    state.load(&mut loader, tree(&["one"])).expect("initial tree loads");
    assert!(matches!(
        loader.load(tree(&["two"]), loader.context()),
        Err(LoaderError::Validation(_))
    ));
    let mut wasm = entry("guest");
    wasm.options.runtime = RuntimeKind::Wasm;
    let error = loader.runtime_for(&wasm).expect_err("there is no such runtime");
    assert_eq!(error.message(), "import failed for entry guest: no Wasm runtime is registered");
    let mut scripted = entry("scripted");
    scripted.options.config = json(r#"{"$expr": "env.SECRET"}"#);
    assert!(matches!(loader.prepare(&scripted), Err(LoaderError::Runtime { .. })));
    scripted.options.config = json(r#"{"os": {"$expr": "platform"}}"#);
    let prepared = loader.prepare(&scripted).expect("declared inputs evaluate");
    assert_eq!(prepared.options.config, json(r#"{"os": "test-os"}"#));
}

#[test]
fn entries_are_prepared_in_the_scope_of_their_loader() {
    let scope = ConfigScope::new("plan9".to_owned(), "mips".to_owned());
    let loader = loader().with_config_scope(scope);
    let mut given = entry("a");
    given.options.config = json(r#"{"on": {"$expr": "platform"}}"#);
    given.options.intercept = json(r#"{"cpu": {"$expr": "architecture"}}"#);
    let prepared = loader.prepare(&given).expect("both expressions are declared");
    assert_eq!(prepared.options.config, json(r#"{"on": "plan9"}"#));
    assert_eq!(prepared.options.intercept, json(r#"{"cpu": "mips"}"#));
    given.options.config = json(r#"{"home": {"$expr": "env.HOME"}}"#);
    let error = loader.prepare(&given).expect_err("the variable is not allowed");
    assert!(matches!(error, LoaderError::Runtime { stage, .. } if stage == "import"));
}

#[test]
fn committed_transactions_leave_the_context_they_began_with() {
    let mut scopes = ScopeTree::new();
    let mut registries = Registries::new();
    let mut state = Mock::default();
    let first = ContextHandle::root(&mut scopes, &mut registries);
    let mut loader = loader().with_context(first.clone());
    let second = ContextHandle::root(&mut scopes, &mut registries);
    let third = ContextHandle::root(&mut scopes, &mut registries);
    assert_ne!(first.scope(), second.scope());

    let replacement = loader.load(tree(&["old"]), second.clone()).expect("the tree is valid");
    state.drive(&mut loader, replacement).expect("the tree loads");
    assert_eq!(loader.context().scope(), second.scope());

    state.fail_activate = vec!["new"];
    let replacement = loader.replace(tree(&["new"]), third.clone()).expect("the tree is valid");
    state.drive(&mut loader, replacement).expect_err("the candidate does not activate");
    assert_eq!(loader.context().scope(), second.scope());
    assert_eq!(entry_ids(loader.tree()), ["old"]);

    state.fail_activate.clear();
    state.fail_dispose = vec!["old"];
    let replacement = loader.replace(tree(&["new"]), third.clone()).expect("the tree is valid");
    state.drive(&mut loader, replacement).expect_err("the old entry does not go");
    assert_eq!(loader.context().scope(), second.scope());

    state.fail_dispose.clear();
    let replacement = loader.replace(tree(&["new"]), third.clone()).expect("the tree is valid");
    state.drive(&mut loader, replacement).expect("the tree is replaced");
    assert_eq!(loader.context().scope(), third.scope());
    assert_eq!(loader.context().registry, third.registry);

    loader.unload(&vec![Ok(())]).expect("what is live can be disposed");
    assert_eq!(loader.context().scope(), third.scope());
    assert_eq!(loader.runtimes, [RuntimeKind::Native]);
}

#[test]
fn imports_fail_for_the_first_thing_that_is_wrong() {
    let loader = loader();
    let context = loader.context();
    let mut guest = entry("guest");
    guest.options.runtime = RuntimeKind::Wasm;
    let mut scripted = entry("scripted");
    scripted.options.config = json(r#"{"$expr": "env.SECRET"}"#);
    let mut hidden = entry("hidden");
    hidden.options.disabled = true;
    let whole = EntryTree {
        entries: vec![entry("plain"), hidden, scripted, guest.clone(), entry("lost"), guest, entry("sick")],
        groups: Vec::new(),
    };
    let mut whole = whole;
    whole.entries[5].options.id = id("unresolved");
    let replacement = loader.replace(whole, context).expect("the tree is valid");
    let lost = || LoaderError::Validation("lost".to_owned());
    let after = loader.imported(
        replacement,
        vec![
            Import::Live(7),
            Import::Live(8),
            Import::Live(9),
            Import::Unresolved(lost()),
            Import::Unresolved(lost()),
            Import::Failed(lost()),
        ],
    );
    assert_eq!(after.stage, Stage::UndoImport);
    assert_eq!(after.candidates.len(), 1);
    assert_eq!(after.candidates[0].handle, 7);
    assert_eq!(after.candidates[0].entry, entry("plain"));
    let messages: Vec<String> = after.failures.iter().map(|error| error.message()).collect();
    assert_eq!(messages.len(), 5);
    assert_eq!(messages[1], "import failed for entry guest: no Wasm runtime is registered");
    assert_eq!(messages[2], lost().in_entry("import", &entry("lost")).message());
    assert!(messages[3].contains("unresolved") && messages[3].contains("lost"));
    assert_eq!(messages[4], lost().in_entry("import", &entry("sick")).message());
}
