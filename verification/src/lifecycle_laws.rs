//! What disposal runs and reports, and what native plugins accept and report.

use vstd::prelude::*;

use crate::config_laws::{conforms, has_key};
use crate::disposal::{
    after_outcome, child_at, children_errors, children_order, disposal_order, disposal_outcome,
    effect_errors, effect_order, effect_outcome, effects_run_in_reverse, open_below, reaches,
    EffectFailure,
};
use crate::error::CoreFailure;
use crate::ids::{key_text, IdSource, ResourceId, ScopeId};
use crate::json::{lookup, Json};
use crate::lifecycle::{
    cleanup_outcome, closed, collected, merged, shown_state, sound, with_rollback, EffectModel,
    FiberState, RecordModel,
};
use crate::native::{
    descriptor_fault, fiber_failure, first_repeated, native_cleanup, native_config_fault,
    native_message, need_list, NativeFailure, NativePluginDescriptor, NativePluginPhase, Need,
};
use crate::native_instance::{native_with_cleanup, start_setup};
use crate::native_update::update_report;
use crate::registry::{entry_of, readiness, RegistryModel};
use crate::schema::{
    first_missing, lemma_schema_view, properties_fault, property_list, schema_fault,
    NativeConfigSchema, SchemaModel, SchemaProperty,
};
use crate::service::{DependencyModel, ServiceModel};
use crate::text::{blank, text_list};

verus! {

/// The outcome of a disposer is the first failure listed for its effect, and
/// success when none is.
pub proof fn disposers_fail_as_listed(
    failures: Seq<EffectFailure>,
    id: ResourceId,
    from: int,
    at: int,
)
    requires
        0 <= from,
    ensures
        (forall|i: int| from <= i < failures.len() ==> (#[trigger] failures[i]).id != id)
            <==> effect_outcome(failures, id, from) is Ok,
        from <= at < failures.len() && failures[at].id == id && (forall|i: int|
            from <= i < at ==> (#[trigger] failures[i]).id != id) ==> effect_outcome(
            failures,
            id,
            from,
        ) == Err::<(), CoreFailure>(failures[at].error@),
    decreases failures.len() - from,
{
    if from < failures.len() {
        disposers_fail_as_listed(failures, id, from + 1, at);
        if failures[from].id == id {
            assert(failures[from].id == id);
        }
    }
}

/// The order in which child `k` of scope `i` is disposed within, or nothing when
/// there is no such child.
pub open spec fn child_order(records: Seq<RecordModel>, i: int, k: int) -> Seq<ResourceId> {
    disposal_order(records, records[i].children[k].index as int)
}

proof fn children_go_last_first(records: Seq<RecordModel>, ids: IdSource, i: int, count: int)
    requires
        sound(records, ids),
        0 <= i < records.len(),
        0 <= count <= records[i].children.len(),
    ensures
        children_order(records, i, count) == Seq::new(
            count as nat,
            |k: int| child_order(records, i, count - 1 - k),
        ).flatten(),
    decreases count,
{
    let all = Seq::new(count as nat, |k: int| child_order(records, i, count - 1 - k));
    if count > 0 {
        children_go_last_first(records, ids, i, count - 1);
        let rest = Seq::new((count - 1) as nat, |k: int| child_order(records, i, count - 2 - k));
        assert(all.drop_first() =~= rest);
        assert(i < records[i].children[count - 1].index < records.len());
        assert(child_at(records, i, count - 1) == records[i].children[count - 1].index);
        assert(all.first() == child_order(records, i, count - 1));
        assert(all.flatten() == all.first() + all.drop_first().flatten());
        let before = Seq::new(
            (count - 1) as nat,
            |k: int| child_order(records, i, (count - 1) - 1 - k),
        );
        assert(before =~= rest);
    } else {
        assert(all.flatten() =~= Seq::empty());
    }
}

/// Disposing an open scope disposes its children first, the last one first,
/// each with everything below it, and then runs its own effects, the last one
/// first.
pub proof fn disposal_goes_inside_out_and_backwards(
    records: Seq<RecordModel>,
    ids: IdSource,
    i: int,
)
    requires
        sound(records, ids),
        0 <= i < records.len(),
        !closed(records[i].state),
    ensures
        ({
            let children = records[i].children.len() as int;
            let effects = records[i].effects;
            disposal_order(records, i) == Seq::new(
                children as nat,
                |k: int| child_order(records, i, children - 1 - k),
            ).flatten() + Seq::new(effects.len(), |k: int| effects[effects.len() - 1 - k].id)
        }),
{
    let effects = records[i].effects;
    children_go_last_first(records, ids, i, records[i].children.len() as int);
    effects_run_in_reverse(effects, effects.len() as int);
    assert(effect_order(effects, effects.len() as int) =~= Seq::new(
        effects.len(),
        |k: int| effects[effects.len() - 1 - k].id,
    ));
}

/// What a failed disposer adds to the errors: those of a cleanup one by one,
/// any other as it is.
pub open spec fn told(outcome: Result<(), CoreFailure>) -> Seq<CoreFailure> {
    match outcome {
        Ok(()) => Seq::empty(),
        Err(CoreFailure::Cleanup(errors)) => errors,
        Err(error) => seq![error],
    }
}

/// The errors of disposers that run in this order.
pub open spec fn errors_in(order: Seq<ResourceId>, failures: Seq<EffectFailure>) -> Seq<
    CoreFailure,
>
    decreases order.len(),
{
    if order.len() == 0 {
        Seq::empty()
    } else {
        told(effect_outcome(failures, order.first(), 0)) + errors_in(order.drop_first(), failures)
    }
}

proof fn errors_in_joined(
    a: Seq<ResourceId>,
    b: Seq<ResourceId>,
    failures: Seq<EffectFailure>,
)
    ensures
        errors_in(a + b, failures) == errors_in(a, failures) + errors_in(b, failures),
    decreases a.len(),
{
    if a.len() == 0 {
        assert(a + b =~= b);
        assert(errors_in(a, failures) + errors_in(b, failures) =~= errors_in(b, failures));
    } else {
        errors_in_joined(a.drop_first(), b, failures);
        assert((a + b).drop_first() =~= a.drop_first() + b);
        assert((a + b).first() == a.first());
        let first = told(effect_outcome(failures, a.first(), 0));
        assert(first + (errors_in(a.drop_first(), failures) + errors_in(b, failures)) =~= (first
            + errors_in(a.drop_first(), failures)) + errors_in(b, failures));
    }
}

proof fn more_errors(errors: Seq<CoreFailure>, outcome: Result<(), CoreFailure>)
    ensures
        after_outcome(errors, outcome) == errors + told(outcome),
{
    assert(errors + Seq::<CoreFailure>::empty() =~= errors);
    match outcome {
        Err(CoreFailure::Cleanup(_)) => {},
        Err(error) => {
            assert(errors.push(error) =~= errors + seq![error]);
        },
        Ok(()) => {},
    }
}

proof fn effects_tell_their_errors(
    effects: Seq<EffectModel>,
    count: int,
    failures: Seq<EffectFailure>,
    errors: Seq<CoreFailure>,
)
    requires
        0 <= count <= effects.len(),
    ensures
        effect_errors(effects, count, failures, errors) == errors + errors_in(
            effect_order(effects, count),
            failures,
        ),
    decreases count,
{
    let order = effect_order(effects, count);
    if count > 0 {
        let id = effects[count - 1].id;
        let outcome = effect_outcome(failures, id, 0);
        more_errors(errors, outcome);
        effects_tell_their_errors(effects, count - 1, failures, after_outcome(errors, outcome));
        let rest = effect_order(effects, count - 1);
        assert(order.drop_first() =~= rest);
        assert(order.first() == id);
        assert((errors + told(outcome)) + errors_in(rest, failures) =~= errors + (told(outcome)
            + errors_in(rest, failures)));
    } else {
        assert(errors + errors_in(order, failures) =~= errors);
    }
}

proof fn children_tell_their_errors(
    records: Seq<RecordModel>,
    ids: IdSource,
    i: int,
    count: int,
    failures: Seq<EffectFailure>,
    errors: Seq<CoreFailure>,
)
    requires
        sound(records, ids),
        0 <= i < records.len(),
        0 <= count <= records[i].children.len(),
        open_below(records, i),
    ensures
        children_errors(records, i, count, failures, errors) == errors + errors_in(
            children_order(records, i, count),
            failures,
        ),
    decreases records.len() - i, 0int, count,
{
    if count > 0 {
        let child = records[i].children[count - 1].index as int;
        assert(i < records[i].children[count - 1].index < records.len());
        assert(child_at(records, i, count - 1) == child);
        assert(open_below(records, child)) by {
            assert forall|j: int| #[trigger] reaches(records, child, j) implies !closed(
                records[j].state,
            ) by {
                assert(reaches(records, i, j)) by {
                    assert(i < child_at(records, i, count - 1) && reaches(
                        records,
                        child_at(records, i, count - 1),
                        j,
                    ));
                }
            }
        }
        disposal_reports_every_error(records, ids, child, failures);
        let outcome = disposal_outcome(records, child, failures);
        let order = disposal_order(records, child);
        more_errors(errors, outcome);
        assert(told(outcome) =~= errors_in(order, failures));
        children_tell_their_errors(
            records,
            ids,
            i,
            count - 1,
            failures,
            after_outcome(errors, outcome),
        );
        let rest = children_order(records, i, count - 1);
        errors_in_joined(order, rest, failures);
        assert((errors + errors_in(order, failures)) + errors_in(rest, failures) =~= errors + (
        errors_in(order, failures) + errors_in(rest, failures)));
    } else {
        assert(errors + errors_in(children_order(records, i, count), failures) =~= errors);
    }
}

/// Disposing a scope below which all is open succeeds exactly if every disposer
/// that it runs does, and otherwise fails with all their errors, in the order
/// in which they ran: one failure keeps no other disposer from running.
pub proof fn disposal_reports_every_error(
    records: Seq<RecordModel>,
    ids: IdSource,
    i: int,
    failures: Seq<EffectFailure>,
)
    requires
        sound(records, ids),
        0 <= i < records.len(),
        open_below(records, i),
    ensures
        ({
            let errors = errors_in(disposal_order(records, i), failures);
            disposal_outcome(records, i, failures) == (if errors.len() == 0 {
                Ok::<(), CoreFailure>(())
            } else {
                Err::<(), CoreFailure>(CoreFailure::Cleanup(errors))
            })
        }),
    decreases records.len() - i, 1int, 0int,
{
    assert(reaches(records, i, i));
    let children = records[i].children.len() as int;
    let effects = records[i].effects;
    let none = Seq::<CoreFailure>::empty();
    children_tell_their_errors(records, ids, i, children, failures, none);
    let before = children_errors(records, i, children, failures, none);
    effects_tell_their_errors(effects, effects.len() as int, failures, before);
    errors_in_joined(
        children_order(records, i, children),
        effect_order(effects, effects.len() as int),
        failures,
    );
    assert(none + errors_in(children_order(records, i, children), failures) =~= errors_in(
        children_order(records, i, children),
        failures,
    ));
}

/// Cleanup fails exactly if there were errors, and gives all of them.
pub proof fn cleanup_fails_with_all_errors(errors: Seq<CoreFailure>, error: CoreFailure)
    ensures
        cleanup_outcome(errors) is Ok <==> errors.len() == 0,
        cleanup_outcome(errors) matches Err(failure) ==> failure == CoreFailure::Cleanup(errors),
        collected(errors, error).subrange(0, errors.len() as int) == errors,
        collected(errors, error).len() > errors.len() || error == CoreFailure::Cleanup(
            Seq::empty(),
        ),
{
    assert(collected(errors, error).subrange(0, errors.len() as int) =~= errors);
    match error {
        CoreFailure::Cleanup(nested) => {
            if nested.len() == 0 {
                assert(nested =~= Seq::empty());
            }
        },
        _ => {},
    }
}

/// Merging keeps what was known in front and in order.
pub proof fn merging_keeps_the_known_in_front(
    known: Seq<ScopeId>,
    added: Seq<ScopeId>,
    count: int,
)
    ensures
        merged(known, added, count).len() >= known.len(),
        merged(known, added, count).subrange(0, known.len() as int) == known,
    decreases count,
{
    if count > 0 {
        merging_keeps_the_known_in_front(known, added, count - 1);
    }
    assert(merged(known, added, count).subrange(0, known.len() as int) =~= known);
}

/// A fiber shows the state of its scope once that failed or is on its way out,
/// and else its own: it never shows more life than its scope has.
pub proof fn fibers_do_not_outlive_their_scope(scope: FiberState, own: FiberState)
    ensures
        shown_state(scope, own) == FiberState::Active ==> own == FiberState::Active && scope
            != FiberState::Failed && scope != FiberState::Unloading && scope
            != FiberState::Disposed,
        scope == FiberState::Failed ==> shown_state(scope, own) == FiberState::Failed,
        scope == FiberState::Unloading ==> shown_state(scope, own) == FiberState::Unloading,
        scope == FiberState::Disposed ==> shown_state(scope, own) == FiberState::Disposed,
        scope == FiberState::Active || scope == FiberState::Pending || scope == FiberState::Loading
            ==> shown_state(scope, own) == own,
        closed(scope) <==> scope == FiberState::Unloading || scope == FiberState::Disposed,
{
}

/// A failed setup is reported first, followed by everything that failed while
/// it was rolled back.
pub proof fn rollbacks_keep_the_first_failure(
    failure: CoreFailure,
    rollback: Result<(), CoreFailure>,
)
    ensures
        rollback is Ok ==> with_rollback(failure, rollback) == failure,
        rollback is Err ==> (with_rollback(failure, rollback) matches CoreFailure::Cleanup(errors)
            && errors.len() == 1 + told(rollback).len() && errors[0] == failure
            && errors.subrange(1, errors.len() as int) == told(rollback)),
{
    match rollback {
        Err(CoreFailure::Cleanup(nested)) => {
            let errors = seq![failure] + nested;
            assert(errors.subrange(1, errors.len() as int) =~= nested);
        },
        Err(other) => {
            let errors = seq![failure, other];
            assert(errors.subrange(1, errors.len() as int) =~= seq![other]);
        },
        Ok(()) => {},
    }
}

/// A contract can be met: every required property has a contract, at every
/// depth.
pub open spec fn satisfiable(schema: NativeConfigSchema) -> bool
    decreases schema,
{
    match schema {
        NativeConfigSchema::Array(items) => satisfiable(*items),
        NativeConfigSchema::Object { properties, required, .. } => {
            &&& forall|r: int|
                0 <= r < required@.len() ==> exists|p: int|
                    0 <= p < properties@.len() && (#[trigger] properties@[p]).name@ == (
                    #[trigger] required@[r])@
            &&& forall|p: int|
                0 <= p < properties@.len() ==> satisfiable((#[trigger] properties@[p]).schema)
        },
        _ => true,
    }
}

proof fn contracts_of_properties(
    properties: Seq<SchemaProperty>,
    path: Seq<char>,
    from: int,
)
    requires
        0 <= from <= properties.len(),
    ensures
        properties_fault(property_list(properties), path, from) is None <==> forall|p: int|
            from <= p < properties.len() ==> satisfiable((#[trigger] properties[p]).schema),
    decreases properties, properties.len() - from,
{
    if from < properties.len() {
        contracts_of_properties(properties, path, from + 1);
        assert(property_list(properties)[from] == (
            properties[from].name@,
            properties[from].schema@,
        ));
        assert(decreases_to!(properties => properties[from]));
        contracts_are_accepted_if_satisfiable(
            properties[from].schema,
            crate::schema::property_path(path, properties[from].name@),
        );
    }
}

/// A contract is accepted if and only if everything it requires has a contract
/// itself.
pub proof fn contracts_are_accepted_if_satisfiable(schema: NativeConfigSchema, path: Seq<char>)
    ensures
        schema_fault(schema@, path) is None <==> satisfiable(schema),
    decreases schema, 0int,
{
    lemma_schema_view(schema);
    match schema {
        NativeConfigSchema::Array(items) => {
            assert(schema@ == SchemaModel::Array(Box::new(items@)));
            contracts_are_accepted_if_satisfiable(*items, path + "[]"@);
        },
        NativeConfigSchema::Object { properties, required, .. } => {
            let list = property_list(properties@);
            let names = text_list(required@);
            required_have_contracts(names, list, 0);
            contracts_of_properties(properties@, path, 0);
            assert forall|r: int| 0 <= r < required@.len() implies (has_key(
                list,
                (#[trigger] required@[r])@,
            ) <==> exists|p: int|
                0 <= p < properties@.len() && (#[trigger] properties@[p]).name@
                    == required@[r]@) by {
                if has_key(list, required@[r]@) {
                    let p = choose|p: int|
                        0 <= p < list.len() && (#[trigger] list[p]).0 == required@[r]@;
                    assert(properties@[p].name@ == required@[r]@);
                }
                if exists|p: int|
                    0 <= p < properties@.len() && (#[trigger] properties@[p]).name@
                        == required@[r]@ {
                    let p = choose|p: int|
                        0 <= p < properties@.len() && (#[trigger] properties@[p]).name@
                            == required@[r]@;
                    assert(list[p].0 == required@[r]@);
                }
            }
            if forall|r: int| 0 <= r < names.len() ==> has_key(list, #[trigger] names[r]) {
                assert forall|r: int| 0 <= r < required@.len() implies exists|p: int|
                    0 <= p < properties@.len() && (#[trigger] properties@[p]).name@ == (
                    #[trigger] required@[r])@ by {
                    assert(names[r] == required@[r]@);
                }
            }
            if forall|r: int|
                0 <= r < required@.len() ==> exists|p: int|
                    0 <= p < properties@.len() && (#[trigger] properties@[p]).name@ == (
                    #[trigger] required@[r])@ {
                assert forall|r: int| 0 <= r < names.len() implies has_key(
                    list,
                    #[trigger] names[r],
                ) by {
                    assert(names[r] == required@[r]@);
                }
            }
        },
        _ => {},
    }
}

proof fn required_have_contracts<V>(
    names: Seq<Seq<char>>,
    members: Seq<(Seq<char>, V)>,
    from: int,
)
    requires
        0 <= from,
    ensures
        first_missing(names, members, from) is None <==> forall|r: int|
            from <= r < names.len() ==> has_key(members, #[trigger] names[r]),
    decreases names.len() - from,
{
    if from < names.len() {
        required_have_contracts(names, members, from + 1);
        crate::json_laws::lookups_find_the_first_member(members, names[from]);
        if has_key(members, names[from]) {
            let i = choose|i: int| 0 <= i < members.len() && (#[trigger] members[i]).0
                == names[from];
            assert(members[i].0 == names[from]);
        }
    }
}

proof fn repetitions_are_found(needs: Seq<Need>, from: int)
    requires
        0 <= from,
    ensures
        first_repeated(needs, from) is None <==> forall|i: int, k: int|
            0 <= k < i && from <= i < needs.len() ==> key_text((#[trigger] needs[k]).key)
                != key_text((#[trigger] needs[i]).key),
    decreases needs.len() - from,
{
    if from < needs.len() {
        repetitions_are_found(needs, from + 1);
    }
}

/// A descriptor is accepted exactly if it has a name and a version, names no
/// service twice, and its contract can be met. Its plugin accepts a
/// configuration exactly if the descriptor is accepted and the configuration
/// conforms to the contract.
pub proof fn descriptors_accept_what_conforms(descriptor: NativePluginDescriptor, config: Json)
    ensures
        descriptor_fault(descriptor@) is None <==> {
            &&& !blank(descriptor.name@)
            &&& !blank(descriptor.version@)
            &&& forall|i: int, k: int|
                0 <= k < i < descriptor.dependencies@.len() ==> key_text(
                    (#[trigger] descriptor.dependencies@[k]).spec_key(),
                ) != key_text((#[trigger] descriptor.dependencies@[i]).spec_key())
            &&& satisfiable(descriptor.config_schema)
        },
        native_config_fault(descriptor@, config) is None <==> descriptor_fault(descriptor@) is None
            && conforms(descriptor.config_schema, config),
{
    let needs = need_list(descriptor.dependencies@);
    repetitions_are_found(needs, 0);
    contracts_are_accepted_if_satisfiable(descriptor.config_schema, "$schema"@);
    crate::config_laws::native_values_are_accepted_if_they_conform(
        descriptor.config_schema,
        config,
        "$"@,
    );
    let dependencies = descriptor.dependencies@;
    if forall|i: int, k: int|
        0 <= k < i && 0 <= i < needs.len() ==> key_text((#[trigger] needs[k]).key) != key_text(
            (#[trigger] needs[i]).key,
        ) {
        assert forall|i: int, k: int| 0 <= k < i < dependencies.len() implies key_text(
            (#[trigger] dependencies[k]).spec_key(),
        ) != key_text((#[trigger] dependencies[i]).spec_key()) by {
            assert(key_text(needs[k].key) != key_text(needs[i].key));
        }
    }
    if forall|i: int, k: int|
        0 <= k < i < dependencies.len() ==> key_text((#[trigger] dependencies[k]).spec_key())
            != key_text((#[trigger] dependencies[i]).spec_key()) {
        assert forall|i: int, k: int| 0 <= k < i && 0 <= i < needs.len() implies key_text(
            (#[trigger] needs[k]).key,
        ) != key_text((#[trigger] needs[i]).key) by {
            assert(needs[k].key == dependencies[k].spec_key());
            assert(needs[i].key == dependencies[i].spec_key());
        }
    }
}

/// A failure of the host stays what it is; one of the plugin shows the phase
/// and its message. Failures are reported in order, and one alone as it is.
pub proof fn native_failures_are_reported_in_order(
    failure: NativeFailure,
    other: NativeFailure,
    phase: NativePluginPhase,
)
    ensures
        failure matches NativeFailure::Core(inner) ==> fiber_failure(failure, phase) == inner,
        !(failure is Core) ==> fiber_failure(failure, phase) == (CoreFailure::Plugin {
            phase: phase.spec_operation(),
            message: native_message(failure),
        }),
        start_setup(Ok(())) is Ok,
        start_setup(Err(failure)) == Err::<(), CoreFailure>(
            fiber_failure(failure, NativePluginPhase::Start),
        ),
        native_cleanup(seq![failure]) == failure,
        native_cleanup(seq![failure, other]) == NativeFailure::Cleanup(seq![failure, other]),
        native_with_cleanup(failure, Ok(())) == failure,
        native_with_cleanup(failure, Err(other)) == NativeFailure::Cleanup(seq![failure, other]),
        update_report(Ok(()), Ok(())) is Ok,
        update_report(Ok(()), Err(other)) == Err::<(), NativeFailure>(other),
        update_report(Err(failure), Ok(())) == Err::<(), NativeFailure>(failure),
        update_report(Err(failure), Err(other)) == Err::<(), NativeFailure>(
            NativeFailure::Cleanup(seq![failure, other]),
        ),
{
}

/// Dependencies are ready exactly if each required one is shown as available,
/// each is shown in its place, and a service is shown as available exactly if
/// it has a provider, under that provider's generation.
pub proof fn readiness_is_what_is_shown(
    records: Seq<RegistryModel>,
    r: int,
    dependencies: Seq<DependencyModel>,
)
    ensures
        ({
            let shown = readiness(records, r, dependencies);
            &&& shown.services.len() == dependencies.len()
            &&& shown.ready <==> forall|i: int|
                0 <= i < dependencies.len() && (#[trigger] dependencies[i]).required
                    ==> shown.services[i].available
            &&& forall|i: int|
                0 <= i < dependencies.len() ==> {
                    let service = dependencies[i].service;
                    let one = #[trigger] shown.services[i];
                    &&& one.available <==> entry_of(records, r, service) is Some
                    &&& one.generation is Some <==> one.available
                    &&& one.available ==> one.generation == Some(
                        entry_of(records, r, service)->0.generation,
                    )
                    &&& one.key == key_text(service.key)
                    &&& one.intercepts == dependencies[i].intercepts
                }
        }),
{
    let shown = readiness(records, r, dependencies);
    if shown.ready {
        assert forall|i: int| 0 <= i < dependencies.len() && (
        #[trigger] dependencies[i]).required implies shown.services[i].available by {
            assert(entry_of(records, r, dependencies[i].service) is Some);
        }
    } else {
        let i = choose|i: int|
            0 <= i < dependencies.len() && !((#[trigger] dependencies[i]).required ==> entry_of(
                records,
                r,
                dependencies[i].service,
            ) is Some);
        assert(dependencies[i].required && !shown.services[i].available);
    }
}

/// What a registry shows of a service is its own provider while it is open, and
/// else what its parent shows; without a parent it shows no other.
pub proof fn registries_look_up_to_their_parent(
    records: Seq<RegistryModel>,
    r: int,
    service: ServiceModel,
)
    requires
        0 <= r < records.len(),
        records[r].parent matches Some(p) ==> p < r,
    ensures
        !records[r].committed ==> (lookup(records[r].providers, service) matches Some(entry)
            ==> entry_of(records, r, service) == Some(entry)),
        records[r].committed || lookup(records[r].providers, service) is None ==> entry_of(
            records,
            r,
            service,
        ) == (match records[r].parent {
            Some(p) => entry_of(records, p as int, service),
            None => None,
        }),
{
}

}
