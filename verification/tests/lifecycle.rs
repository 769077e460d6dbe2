use tessivum::disposal::EffectFailure;
use tessivum::error::CoreError;
use tessivum::ids::{ResourceId, ScopeId};
use tessivum::lifecycle::{
    rolled_back, CancellationToken, Cleanup, CleanupStep, Disposal, DisposeClaim, Fiber,
    FiberState, Scope, ScopeTree, StartOutcome,
};

fn setup_error(message: &str) -> CoreError {
    CoreError::SetupFailed(message.to_owned())
}

/// Disposes a scope and all below it with disposers that succeed.
fn dispose(tree: &mut ScopeTree, scope: Scope) -> Vec<ResourceId> {
    let mut order = Vec::new();
    scope
        .dispose_below(tree, &vec![], &vec![], &mut order)
        .expect("disposal succeeds");
    order
}

fn first_claim(tree: &mut ScopeTree, scope: Scope) -> Cleanup {
    match scope.dispose(tree, &vec![], &vec![]) {
        Disposal::Run(cleanup) => cleanup,
        other => panic!("the first caller runs the cleanup: {other:?}"),
    }
}

fn next_label(cleanup: &mut Cleanup) -> Option<String> {
    match cleanup.next() {
        CleanupStep::Effect(effect) => Some(effect.label),
        CleanupStep::Child(child) => Some(format!("child {}", child.index)),
        CleanupStep::Finished => None,
    }
}

#[test]
fn scope_ids_generations_and_effect_diagnostics_are_stable() {
    let mut tree = ScopeTree::new();
    let root = Scope::root(&mut tree);
    let root_clone = root;
    let other_root = Scope::root(&mut tree);
    let child = root.child(&mut tree).expect("root accepts child scopes");

    assert_eq!(root.id(&tree), root_clone.id(&tree));
    assert_eq!(root.generation(&tree), root_clone.generation(&tree));
    assert_ne!(root.id(&tree), other_root.id(&tree));
    assert_ne!(root.generation(&tree), other_root.generation(&tree));
    assert_ne!(root.id(&tree), child.id(&tree));
    assert_ne!(root.generation(&tree), child.generation(&tree));

    let first = root
        .add_effect(&mut tree, "first".to_owned())
        .expect("root accepts effects");
    let second = root
        .add_effect(&mut tree, "second".to_owned())
        .expect("root accepts effects");
    let child_effect = child
        .add_effect(&mut tree, "child".to_owned())
        .expect("child accepts effects");

    assert_ne!(first, second);
    assert_ne!(first, child_effect);
    assert_ne!(second, child_effect);

    let root_effects = root.effects(&tree);
    assert_eq!(root_effects.len(), 2);
    assert_eq!(root_effects[0].id, first);
    assert_eq!(root_effects[0].label, "first");
    assert!(root_effects[0].children.is_empty());
    assert_eq!(root_effects[1].label, "second");
    assert_eq!(root_effects[1].id, second);
    assert!(root_effects[1].children.is_empty());

    let child_effects = child.effects(&tree);
    assert_eq!(child_effects.len(), 1);
    assert_eq!(child_effects[0].label, "child");
    assert_eq!(child_effects[0].id, child_effect);
    assert!(child_effects[0].children.is_empty());

    dispose(&mut tree, root);
    assert_eq!(root.state(&tree), FiberState::Disposed);
    assert_eq!(child.state(&tree), FiberState::Disposed);
    assert!(root.effects(&tree).is_empty());
    assert!(child.effects(&tree).is_empty());
    assert_eq!(other_root.state(&tree), FiberState::Active, "other scopes stay open");
}

#[test]
fn fiber_start_commits_pending_loading_active_then_disposed() {
    let mut tree = ScopeTree::new();
    let parent = Scope::root(&mut tree);
    let mut fiber =
        Fiber::new(&mut tree, parent, "normal".to_owned()).expect("parent accepts fibers");
    assert_eq!(fiber.state(&tree), FiberState::Pending);
    fiber.start(&tree).expect("a pending fiber starts");
    assert_eq!(fiber.name(), "normal");
    assert_eq!(fiber.state(&tree), FiberState::Loading);
    assert_ne!(fiber.scope().id(&tree), parent.id(&tree));
    assert!(fiber.start(&tree).is_err(), "a fiber starts only once");

    assert!(matches!(fiber.finish_start(&mut tree, Ok(())), StartOutcome::Settled(Ok(()))));
    assert_eq!(fiber.state(&tree), FiberState::Active);

    let scope = fiber.dispose();
    dispose(&mut tree, scope);
    fiber.finish_disposal(&tree);
    assert_eq!(fiber.state(&tree), FiberState::Disposed);
    assert_eq!(fiber.scope().state(&tree), FiberState::Disposed);
}

#[test]
fn cleanup_is_async_and_runs_local_effects_in_reverse_registration_order() {
    let mut tree = ScopeTree::new();
    let scope = Scope::root(&mut tree);
    scope
        .add_effect(&mut tree, "first".to_owned())
        .expect("effect registration succeeds");
    scope
        .add_effect(&mut tree, "second".to_owned())
        .expect("effect registration succeeds");

    let mut order = Vec::new();
    let mut cleanup = first_claim(&mut tree, scope);
    assert_eq!(
        next_label(&mut cleanup).as_deref(),
        Some("second"),
        "reverse-order cleanup reaches second effect first"
    );
    order.push("second-start");
    assert_eq!(scope.state(&tree), FiberState::Unloading, "dispose must await async cleanup");
    assert_eq!(order, ["second-start"]);
    order.push("second-end");
    cleanup.record(Ok(()));
    assert_eq!(next_label(&mut cleanup).as_deref(), Some("first"));
    order.push("first");
    cleanup.record(Ok(()));
    assert_eq!(next_label(&mut cleanup), None);
    let outcome = cleanup.finish();
    assert_eq!(outcome, Ok(()), "cleanup succeeds");
    scope.finish_disposal(&mut tree, outcome);
    assert_eq!(order, ["second-start", "second-end", "first"]);
    assert_eq!(scope.state(&tree), FiberState::Disposed);
}

#[test]
fn repeated_and_reentrant_disposal_share_one_cleanup() {
    let mut tree = ScopeTree::new();
    let scope = Scope::root(&mut tree);
    scope
        .add_effect(&mut tree, "blocking".to_owned())
        .expect("effect registration succeeds");
    let mut calls = 0;
    let mut cleanup = first_claim(&mut tree, scope);
    assert_eq!(next_label(&mut cleanup).as_deref(), Some("blocking"));
    calls += 1;
    assert!(
        matches!(scope.dispose(&mut tree, &vec![], &vec![]), Disposal::Wait),
        "a second caller waits for the first"
    );
    cleanup.record(Ok(()));
    scope.finish_disposal(&mut tree, cleanup.finish());
    assert!(
        matches!(scope.dispose(&mut tree, &vec![], &vec![]), Disposal::Settled(Ok(()))),
        "second dispose joins the first one"
    );
    assert_eq!(calls, 1);

    let reentrant = Scope::root(&mut tree);
    reentrant
        .add_effect(&mut tree, "reentrant".to_owned())
        .expect("effect registration succeeds");
    let mut cleanup = first_claim(&mut tree, reentrant);
    let mut reentrant_calls = 0;
    assert_eq!(next_label(&mut cleanup).as_deref(), Some("reentrant"));
    reentrant_calls += 1;
    let inside: Vec<ScopeId> = vec![reentrant.id(&tree)];
    assert!(
        matches!(reentrant.dispose(&mut tree, &vec![], &inside), Disposal::Reentrant),
        "reentrant dispose joins without deadlocking"
    );
    assert!(
        matches!(reentrant.dispose(&mut tree, &vec![inside], &vec![]), Disposal::Reentrant),
        "and so does one from a task that inherited the disposal"
    );
    cleanup.record(Ok(()));
    reentrant.finish_disposal(&mut tree, cleanup.finish());
    assert_eq!(reentrant_calls, 1);
    assert_eq!(reentrant.state(&tree), FiberState::Disposed);
}

#[test]
fn failed_start_rolls_back_every_effect_and_leaves_fiber_failed() {
    let mut tree = ScopeTree::new();
    let parent = Scope::root(&mut tree);
    let mut fiber =
        Fiber::new(&mut tree, parent, "fails".to_owned()).expect("parent accepts fibers");
    let scope = fiber.start(&tree).expect("a pending fiber starts");
    scope
        .add_effect(&mut tree, "first".to_owned())
        .expect("setup can register its first effect");
    scope
        .add_effect(&mut tree, "second".to_owned())
        .expect("setup can register its second effect");
    let failure = setup_error("setup failed after registering effects");
    let (mut cleanup, failure) = match fiber.finish_start(&mut tree, Err(failure)) {
        StartOutcome::RollBack(cleanup, failure) => (cleanup, failure),
        StartOutcome::Settled(outcome) => panic!("the start is rolled back: {outcome:?}"),
    };
    let mut order = Vec::new();
    while let Some(label) = next_label(&mut cleanup) {
        order.push(label);
        cleanup.record(Ok(()));
    }
    let result = rolled_back(failure, cleanup.finish());

    assert!(matches!(result, CoreError::SetupFailed(_)));
    assert_eq!(fiber.state(&tree), FiberState::Failed);
    assert_eq!(order, ["second", "first"]);
    assert!(fiber.scope().effects(&tree).is_empty());
    let scope = fiber.dispose();
    assert!(
        dispose(&mut tree, scope).is_empty(),
        "disposing an already failed fiber remains idempotent"
    );
    assert_eq!(
        rolled_back(setup_error("setup"), Err(CoreError::Cleanup(vec![setup_error("one")]))),
        CoreError::Cleanup(vec![setup_error("setup"), setup_error("one")])
    );
}

#[test]
fn setup_can_dispose_its_own_scope_or_its_parent_without_reactivation() {
    let mut tree = ScopeTree::new();
    let parent = Scope::root(&mut tree);
    let mut self_disposing =
        Fiber::new(&mut tree, parent, "self-disposing".to_owned()).expect("parent accepts fibers");
    let scope = self_disposing.start(&tree).expect("a pending fiber starts");
    dispose(&mut tree, scope);
    self_disposing.finish_start(&mut tree, Ok(()));
    assert_eq!(self_disposing.scope().state(&tree), FiberState::Disposed);
    assert_eq!(self_disposing.state(&tree), FiberState::Disposed);

    let parent = Scope::root(&mut tree);
    let mut parent_disposing = Fiber::new(&mut tree, parent, "parent-disposing".to_owned())
        .expect("parent accepts fibers");
    parent_disposing.start(&tree).expect("a pending fiber starts");
    dispose(&mut tree, parent);
    parent_disposing.finish_start(&mut tree, Ok(()));
    assert_eq!(parent.state(&tree), FiberState::Disposed);
    assert_eq!(parent_disposing.scope().state(&tree), FiberState::Disposed);
    assert_eq!(parent_disposing.state(&tree), FiberState::Disposed);
}

#[test]
fn cleanup_aggregates_sync_and_async_failures_after_running_every_effect() {
    let mut tree = ScopeTree::new();
    let scope = Scope::root(&mut tree);
    let mut ids = Vec::new();
    for label in ["first", "middle", "last"] {
        ids.push(
            scope
                .add_effect(&mut tree, label.to_owned())
                .expect("effect registration succeeds"),
        );
    }
    let failures = vec![
        EffectFailure { id: ids[0], error: setup_error("first") },
        EffectFailure { id: ids[2], error: setup_error("last") },
    ];
    let mut order = Vec::new();
    let error = scope
        .dispose_below(&mut tree, &failures, &vec![], &mut order)
        .expect_err("two cleanups fail");
    match error {
        CoreError::Cleanup(errors) => {
            assert_eq!(errors.len(), 2);
            assert_eq!(errors, [setup_error("last"), setup_error("first")]);
        }
        other => panic!("expected aggregate cleanup error, got {other:?}"),
    }
    assert_eq!(order, [ids[2], ids[1], ids[0]]);
    assert_eq!(scope.state(&tree), FiberState::Disposed);
    assert!(scope.effects(&tree).is_empty());
}

#[test]
fn parent_disposal_quiesces_children_and_closes_registration() {
    let mut tree = ScopeTree::new();
    let parent = Scope::root(&mut tree);
    let child = parent.child(&mut tree).expect("parent accepts child scopes");
    child
        .add_effect(&mut tree, "child-blocker".to_owned())
        .expect("child accepts effects");

    let mut outer = first_claim(&mut tree, parent);
    let below = match outer.next() {
        CleanupStep::Child(child) => child,
        other => panic!("parent disposal starts child cleanup: {other:?}"),
    };
    assert_eq!(below, child);
    let parents: Vec<ScopeId> = vec![parent.id(&tree)];
    let mut inner = match below.claim_disposal(&mut tree, &parents) {
        DisposeClaim::Owner(cleanup) => cleanup,
        DisposeClaim::Join => panic!("the parent owns the child's cleanup"),
    };
    assert_eq!(next_label(&mut inner).as_deref(), Some("child-blocker"));
    assert_eq!(parent.state(&tree), FiberState::Unloading);
    assert_eq!(child.state(&tree), FiberState::Unloading);

    assert!(
        parent.add_effect(&mut tree, "late-parent-effect".to_owned()).is_err(),
        "unloading scope rejects effects"
    );
    assert!(parent.child(&mut tree).is_err(), "unloading scope rejects children");
    assert!(
        Fiber::new(&mut tree, parent, "late-fiber".to_owned()).is_err(),
        "unloading scope rejects fibers"
    );
    assert!(
        child.add_effect(&mut tree, "late-child-effect".to_owned()).is_err(),
        "unloading child rejects effects"
    );

    inner.record(Ok(()));
    let outcome = inner.finish();
    child.finish_disposal(&mut tree, Ok(()));
    outer.record(outcome);
    assert_eq!(next_label(&mut outer), None);
    parent.finish_disposal(&mut tree, outer.finish());
    assert_eq!(parent.state(&tree), FiberState::Disposed);
    assert_eq!(child.state(&tree), FiberState::Disposed);
    assert!(parent.effects(&tree).is_empty());
    assert!(child.effects(&tree).is_empty());
    assert!(
        parent.add_effect(&mut tree, "disposed-effect".to_owned()).is_err(),
        "disposed scope rejects effects"
    );
    assert!(parent.child(&mut tree).is_err(), "disposed scope rejects children");
    assert!(
        Fiber::new(&mut tree, parent, "disposed-fiber".to_owned()).is_err(),
        "disposed scope rejects fibers"
    );
}

#[test]
fn cancellation_is_first_wins_and_wakes_all_waiters() {
    let mut tree = ScopeTree::new();
    let scope = Scope::root(&mut tree);
    let token: CancellationToken = scope.cancellation();
    let first_waiter = token;
    let second_waiter = token;
    assert!(!first_waiter.is_cancelled(&tree));
    assert!(!second_waiter.is_cancelled(&tree));
    assert!(!token.is_cancelled(&tree));

    let first_canceller = token;
    let second_canceller = scope.cancellation();
    let first_won = first_canceller.cancel(&mut tree);
    let second_won = second_canceller.cancel(&mut tree);
    assert_ne!(first_won, second_won, "exactly one racing cancellation commits");
    assert!(token.is_cancelled(&tree));
    assert!(first_waiter.is_cancelled(&tree), "first waiter wakes after cancellation");
    assert!(second_waiter.is_cancelled(&tree), "second waiter wakes after cancellation");
    assert!(scope.cancellation().is_cancelled(&tree));
    assert!(!token.cancel(&mut tree), "later cancellation attempts cannot replace the first one");

    assert_eq!(scope.state(&tree), FiberState::Active, "cancellation does not close a scope");
    scope.add_effect(&mut tree, "after".to_owned()).expect("a cancelled scope takes effects");
    scope.child(&mut tree).expect("a cancelled scope takes children");
    let ran = dispose(&mut tree, scope);
    assert_eq!(ran.len(), 1, "disposing a cancelled scope succeeds");
}

#[test]
fn disposal_and_failed_starts_cancel_their_scope() {
    let mut tree = ScopeTree::new();
    let scope = Scope::root(&mut tree);
    let other = Scope::root(&mut tree);
    let token = scope.cancellation();
    dispose(&mut tree, scope);
    assert!(token.is_cancelled(&tree), "disposal cancels the scope");
    assert!(!other.cancellation().is_cancelled(&tree));

    let mut fiber = Fiber::new(&mut tree, other, "failing".to_owned()).expect("a fiber is made");
    let token = fiber.scope().cancellation();
    fiber.start(&tree).expect("the fiber starts");
    let failure = CoreError::SetupFailed("setup failed".to_owned());
    assert!(matches!(
        fiber.finish_start(&mut tree, Err(failure)),
        StartOutcome::RollBack(..)
    ));
    assert!(token.is_cancelled(&tree), "a failed start cancels its scope");
}

#[test]
fn concurrent_completion_and_disposal_never_resurrect_or_leak_a_fiber() {
    for completed_first in [false, true] {
        let mut tree = ScopeTree::new();
        let parent = Scope::root(&mut tree);
        let mut fiber =
            Fiber::new(&mut tree, parent, "racing".to_owned()).expect("parent accepts fibers");
        fiber
            .scope()
            .add_effect(&mut tree, "owned".to_owned())
            .expect("fiber scope accepts its owned effect");
        fiber.start(&tree).expect("a pending fiber starts");
        assert_eq!(fiber.state(&tree), FiberState::Loading);
        let cleanup_calls = if completed_first {
            fiber.finish_start(&mut tree, Ok(()));
            let scope = fiber.dispose();
            dispose(&mut tree, scope).len()
        } else {
            let scope = fiber.dispose();
            let ran = dispose(&mut tree, scope).len();
            fiber.finish_start(&mut tree, Ok(()));
            ran
        };
        fiber.finish_disposal(&tree);
        assert_eq!(fiber.state(&tree), FiberState::Disposed);
        assert_eq!(fiber.scope().state(&tree), FiberState::Disposed);
        assert!(fiber.scope().cancellation().is_cancelled(&tree));
        assert_eq!(cleanup_calls, 1, "owned cleanup runs once");
        assert!(fiber.scope().effects(&tree).is_empty());
    }
}

#[test]
fn nested_cleanup_errors_are_flattened_in_order() {
    let mut tree = ScopeTree::new();
    let parent = Scope::root(&mut tree);
    let child = parent.child(&mut tree).expect("parent accepts child scopes");
    let inner = child.add_effect(&mut tree, "inner".to_owned()).expect("child accepts effects");
    let outer = parent.add_effect(&mut tree, "outer".to_owned()).expect("parent accepts effects");
    let failures = vec![
        EffectFailure { id: outer, error: setup_error("outer") },
        EffectFailure {
            id: inner,
            error: CoreError::Cleanup(vec![setup_error("a"), setup_error("b")]),
        },
    ];
    let mut order = Vec::new();
    let error = parent
        .dispose_below(&mut tree, &failures, &vec![], &mut order)
        .expect_err("disposers fail");
    assert_eq!(order, [inner, outer]);
    assert_eq!(
        error,
        CoreError::Cleanup(vec![setup_error("a"), setup_error("b"), setup_error("outer")])
    );
    assert_eq!(error.message(), "3 cleanup error(s)");
    let mut again = Vec::new();
    assert_eq!(
        parent.dispose_below(&mut tree, &vec![], &vec![], &mut again),
        Err(error),
        "later disposals give the outcome of the first"
    );
    assert!(again.is_empty(), "and run nothing");
}

#[test]
fn states_have_stable_numbers_and_names() {
    let states = [
        FiberState::Pending,
        FiberState::Loading,
        FiberState::Active,
        FiberState::Failed,
        FiberState::Unloading,
        FiberState::Disposed,
    ];
    for state in states {
        assert_eq!(FiberState::from_raw(state.raw()), state);
        assert_eq!(state.name(), format!("{state:?}"));
    }
    assert_eq!(
        CoreError::InvalidState { operation: "start fiber".to_owned(), state: FiberState::Active }
            .message(),
        "cannot start fiber while Active"
    );
    assert_eq!(CoreError::from("text"), setup_error("text"));
    assert_eq!(CoreError::from("text".to_owned()), setup_error("text"));
    assert_eq!(CoreError::Cancelled.message(), "operation cancelled");
}
