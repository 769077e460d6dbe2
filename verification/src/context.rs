//! Contexts: immutable views that bind a scope to a registry and choose where
//! each service is looked up.

use vstd::prelude::*;
use vstd::string::*;

use crate::error::{CoreError, CoreFailure};
use crate::events::{EventBus, FilterModel};
use crate::ids::{
    key_text, Generation, IdSource, RealmLabel, ResourceId, ServiceKey, ServiceKeyModel,
};
use crate::json::{
    clone_values, json_list, json_members, lemma_array_view, lookup, lookup_finds_a_member,
    ordered, set_member, set_member_is_readable, set_member_keeps_other_keys, with_member, Json,
    JsonValue, Member,
};
use crate::lifecycle::{
    after_scope, fresh_record, state_failure, EffectModel, FiberState, RecordModel, Scope,
    ScopeTree,
};
use crate::registry::{
    delivery_list, entry_of, holder, holds_generation, provided, readiness, removed,
    service_list, target, told_from, visible, Delivery, Registries, Registry, RegistryModel,
};
use crate::service::{
    clone_dependencies, dependency_list, snapshot_list, snapshot_of, Dependency, DependencyModel,
    DependencySnapshot, Realm, RealmModel, ResolvedDependency, ResolvedService, ServiceEntry,
    ServiceModel, ServiceSnapshot, SnapshotModel,
};
use crate::text::{join2, text_before, text_order_is_irreflexive};

verus! {

/// The realm chosen for one service.
#[derive(Debug)]
pub struct RealmChoice {
    pub key: ServiceKey,
    pub realm: Realm,
}

/// The intercept values of one service, from ancestor to descendant.
#[derive(Debug)]
pub struct InterceptChain {
    pub key: ServiceKey,
    pub values: Vec<JsonValue>,
}

/// A list of pairs after `key` got `value`: in place, or at the end.
pub open spec fn assigned<K, V>(pairs: Seq<(K, V)>, key: K, value: V) -> Seq<(K, V)>
    decreases pairs.len(),
{
    if pairs.len() == 0 {
        seq![(key, value)]
    } else if pairs[0].0 == key {
        seq![(key, value)] + pairs.drop_first()
    } else {
        seq![pairs[0]] + assigned(pairs.drop_first(), key, value)
    }
}

/// Assigning makes the value the one found, and leaves every other key.
pub proof fn assigned_values_are_found<K, V>(pairs: Seq<(K, V)>, key: K, value: V, other: K)
    ensures
        lookup(assigned(pairs, key, value), key) == Some(value),
        other != key ==> lookup(assigned(pairs, key, value), other) == lookup(pairs, other),
    decreases pairs.len(),
{
    let result = assigned(pairs, key, value);
    if pairs.len() == 0 {
        assert(result.drop_first() =~= pairs);
        assert(lookup(result.drop_first(), other) == lookup(pairs, other));
    } else if pairs[0].0 == key {
        assert(result.drop_first() =~= pairs.drop_first());
    } else {
        assigned_values_are_found(pairs.drop_first(), key, value, other);
        assert(result.drop_first() =~= assigned(pairs.drop_first(), key, value));
    }
}

/// The models of a list of realm choices.
pub open spec fn realm_list(realms: Seq<RealmChoice>) -> Seq<(ServiceKeyModel, RealmModel)> {
    Seq::new(realms.len(), |i: int| (realms[i].key@, realms[i].realm@))
}

/// The models of a list of intercept chains.
pub open spec fn chain_list(chains: Seq<InterceptChain>) -> Seq<(ServiceKeyModel, Seq<Json>)> {
    Seq::new(chains.len(), |i: int| (chains[i].key@, json_list(chains[i].values@)))
}

/// A lightweight, immutable service view bound to one ownership scope.
#[derive(Debug)]
pub struct ContextHandle {
    pub scope: Scope,
    pub registry: Registry,
    pub realms: Vec<RealmChoice>,
    pub intercepts: Vec<InterceptChain>,
}

/// The model of a context.
#[verifier::ext_equal]
pub struct ContextModel {
    pub scope: Scope,
    pub registry: Registry,
    pub realms: Seq<(ServiceKeyModel, RealmModel)>,
    pub intercepts: Seq<(ServiceKeyModel, Seq<Json>)>,
}

impl View for ContextHandle {
    type V = ContextModel;

    open spec fn view(&self) -> ContextModel {
        ContextModel {
            scope: self.scope,
            registry: self.registry,
            realms: realm_list(self.realms@),
            intercepts: chain_list(self.intercepts@),
        }
    }
}

/// The service that a key means in a context: in the realm chosen for it, or
/// else in the root realm.
pub open spec fn resolved(context: ContextModel, key: ServiceKeyModel) -> ServiceModel {
    ServiceModel {
        key,
        realm: match lookup(context.realms, key) {
            Some(realm) => realm,
            None => RealmModel::Root,
        },
    }
}

/// The intercept values of a service in a context.
pub open spec fn chain_of(context: ContextModel, key: ServiceKeyModel) -> Seq<Json> {
    match lookup(context.intercepts, key) {
        Some(values) => values,
        None => Seq::empty(),
    }
}

/// The members of the objects `values[..count]`, later ones over earlier ones.
pub open spec fn merged_members(values: Seq<Json>, count: int) -> Seq<(Seq<char>, Json)>
    decreases count,
{
    if count <= 0 {
        Seq::empty()
    } else {
        let before = merged_members(values, count - 1);
        match values[count - 1] {
            Json::Object(members) => overlaid(before, members, members.len() as int),
            _ => before,
        }
    }
}

/// Members with those of `added[..count]` set over them.
pub open spec fn overlaid(
    members: Seq<(Seq<char>, Json)>,
    added: Seq<(Seq<char>, Json)>,
    count: int,
) -> Seq<(Seq<char>, Json)>
    decreases count,
{
    if count <= 0 {
        members
    } else {
        with_member(overlaid(members, added, count - 1), added[count - 1].0, added[count - 1].1)
    }
}

fn clone_realms(realms: &Vec<RealmChoice>) -> (result: Vec<RealmChoice>)
    ensures
        realm_list(result@) == realm_list(realms@),
{
    let mut result: Vec<RealmChoice> = Vec::new();
    let mut i: usize = 0;
    while i < realms.len()
        invariant
            i <= realms@.len(),
            result@.len() == i,
            forall|j: int|
                0 <= j < i ==> (#[trigger] result@[j]).key@ == realms@[j].key@ && result@[j].realm@
                    == realms@[j].realm@,
        decreases realms@.len() - i,
    {
        result.push(RealmChoice { key: realms[i].key.clone(), realm: realms[i].realm.clone() });
        i += 1;
    }
    assert(realm_list(result@) =~= realm_list(realms@));
    result
}

fn clone_chains(chains: &Vec<InterceptChain>) -> (result: Vec<InterceptChain>)
    ensures
        chain_list(result@) == chain_list(chains@),
{
    let mut result: Vec<InterceptChain> = Vec::new();
    let mut i: usize = 0;
    while i < chains.len()
        invariant
            i <= chains@.len(),
            result@.len() == i,
            forall|j: int|
                0 <= j < i ==> (#[trigger] result@[j]).key@ == chains@[j].key@ && json_list(
                    result@[j].values@,
                ) == json_list(chains@[j].values@),
        decreases chains@.len() - i,
    {
        result.push(
            InterceptChain { key: chains[i].key.clone(), values: clone_values(&chains[i].values) },
        );
        i += 1;
    }
    assert(chain_list(result@) =~= chain_list(chains@));
    result
}

fn find_realm(realms: &Vec<RealmChoice>, key: &ServiceKey) -> (result: Option<usize>)
    ensures
        match result {
            Some(at) => at < realms@.len() && lookup(realm_list(realms@), key@) == Some(
                realms@[at as int].realm@,
            ),
            None => lookup(realm_list(realms@), key@) is None,
        },
{
    let ghost model = realm_list(realms@);
    let mut i: usize = 0;
    assert(model.subrange(0, model.len() as int) =~= model);
    while i < realms.len()
        invariant
            i <= realms@.len(),
            model == realm_list(realms@),
            lookup(model, key@) == lookup(model.subrange(i as int, model.len() as int), key@),
        decreases realms@.len() - i,
    {
        let ghost rest = model.subrange(i as int, model.len() as int);
        assert(rest[0] == model[i as int]);
        assert(rest.drop_first() =~= model.subrange(i + 1, model.len() as int));
        if realms[i].key.same(key) {
            return Some(i);
        }
        i += 1;
    }
    None
}

fn find_chain(chains: &Vec<InterceptChain>, key: &ServiceKey) -> (result: Option<usize>)
    ensures
        match result {
            Some(at) => at < chains@.len() && chains@[at as int].key@ == key@ && lookup(
                chain_list(chains@),
                key@,
            ) == Some(json_list(chains@[at as int].values@)) && (forall|v: Seq<Json>|
                #[trigger] assigned(chain_list(chains@), key@, v) == chain_list(chains@).update(
                    at as int,
                    (key@, v),
                )),
            None => lookup(chain_list(chains@), key@) is None && (forall|v: Seq<Json>|
                #[trigger] assigned(chain_list(chains@), key@, v) == chain_list(chains@).push(
                    (key@, v),
                )),
        },
{
    let ghost model = chain_list(chains@);
    let mut i: usize = 0;
    assert(model.subrange(0, model.len() as int) =~= model);
    proof {
        assert forall|v: Seq<Json>| #[trigger] assigned(model, key@, v) == model.subrange(0, 0)
            + assigned(model, key@, v) by {
            assert(model.subrange(0, 0) + assigned(model, key@, v) =~= assigned(model, key@, v));
        }
    }
    while i < chains.len()
        invariant
            i <= chains@.len(),
            model == chain_list(chains@),
            lookup(model, key@) == lookup(model.subrange(i as int, model.len() as int), key@),
            forall|v: Seq<Json>| #[trigger]
                assigned(model, key@, v) == model.subrange(0, i as int) + assigned(
                    model.subrange(i as int, model.len() as int),
                    key@,
                    v,
                ),
        decreases chains@.len() - i,
    {
        let ghost rest = model.subrange(i as int, model.len() as int);
        assert(rest[0] == model[i as int]);
        assert(rest.drop_first() =~= model.subrange(i + 1, model.len() as int));
        if chains[i].key.same(key) {
            proof {
                assert forall|v: Seq<Json>| #[trigger] assigned(model, key@, v) == model.update(
                    i as int,
                    (key@, v),
                ) by {
                    assert(model.subrange(0, i as int) + (seq![(key@, v)] + rest.drop_first())
                        =~= model.update(i as int, (key@, v)));
                }
            }
            return Some(i);
        }
        proof {
            assert forall|v: Seq<Json>| #[trigger] assigned(model, key@, v) == model.subrange(
                0,
                i + 1,
            ) + assigned(model.subrange(i + 1, model.len() as int), key@, v) by {
                assert(model.subrange(0, i + 1) =~= model.subrange(0, i as int) + seq![rest[0]]);
                assert(model.subrange(0, i as int) + (seq![rest[0]] + assigned(
                    rest.drop_first(),
                    key@,
                    v,
                )) =~= model.subrange(0, i + 1) + assigned(rest.drop_first(), key@, v));
            }
        }
        i += 1;
    }
    proof {
        assert(model.subrange(i as int, model.len() as int) =~= Seq::empty());
        assert forall|v: Seq<Json>| #[trigger] assigned(model, key@, v) == model.push(
            (key@, v),
        ) by {
            assert(model.subrange(0, i as int) + seq![(key@, v)] =~= model.push((key@, v)));
        }
    }
    None
}

fn set_realm(realms: &mut Vec<RealmChoice>, key: ServiceKey, realm: Realm)
    ensures
        realm_list(final(realms)@) == assigned(realm_list(old(realms)@), key@, realm@),
{
    let ghost model = realm_list(realms@);
    let mut i: usize = 0;
    assert(model.subrange(0, model.len() as int) =~= model);
    assert(model.subrange(0, 0) + assigned(model, key@, realm@) =~= assigned(model, key@, realm@));
    while i < realms.len()
        invariant
            i <= realms@.len(),
            realms@ == old(realms)@,
            model == realm_list(old(realms)@),
            assigned(model, key@, realm@) == model.subrange(0, i as int) + assigned(
                model.subrange(i as int, model.len() as int),
                key@,
                realm@,
            ),
        decreases realms@.len() - i,
    {
        let ghost rest = model.subrange(i as int, model.len() as int);
        assert(rest[0] == model[i as int]);
        assert(rest.drop_first() =~= model.subrange(i + 1, model.len() as int));
        if realms[i].key.same(&key) {
            realms[i].realm = realm;
            assert(realm_list(realms@) =~= model.subrange(0, i as int) + (seq![(key@, realm@)]
                + rest.drop_first()));
            return;
        }
        assert(model.subrange(0, i + 1) =~= model.subrange(0, i as int) + seq![rest[0]]);
        assert(assigned(model, key@, realm@) =~= model.subrange(0, i + 1) + assigned(
            rest.drop_first(),
            key@,
            realm@,
        ));
        i += 1;
    }
    assert(model.subrange(i as int, model.len() as int) =~= Seq::empty());
    realms.push(RealmChoice { key, realm });
    assert(realm_list(realms@) =~= model.subrange(0, i as int) + seq![(key@, realm@)]);
}

impl Clone for ContextHandle {
    fn clone(&self) -> (result: Self)
        ensures
            result@ == self@,
    {
        ContextHandle {
            scope: self.scope,
            registry: self.registry,
            realms: clone_realms(&self.realms),
            intercepts: clone_chains(&self.intercepts),
        }
    }
}

impl ContextHandle {
    /// The scope and the registry of this context exist.
    pub open spec fn lives(&self, records: Seq<RecordModel>, registries: Seq<RegistryModel>) -> bool {
        self.scope.in_tree(records) && self.registry.index < registries.len()
    }

    /// A context tree of its own, with a root scope.
    pub fn root(tree: &mut ScopeTree, registries: &mut Registries) -> (result: Self)
        requires
            old(tree).wf(),
            old(tree).has_scope_ids(),
            old(registries).wf(),
        ensures
            final(tree).wf(),
            final(registries).wf(),
            final(tree)@ == old(tree)@.push(fresh_record(old(tree).ids)),
            final(tree).ids == after_scope(old(tree).ids),
            final(registries)@ == old(registries)@.push(
                RegistryModel {
                    providers: Seq::empty(),
                    listeners: Seq::empty(),
                    committed: false,
                    parent: None,
                },
            ),
            result.scope.index == old(tree)@.len(),
            result.registry.index == old(registries)@.len(),
            result@.realms == Seq::<(ServiceKeyModel, RealmModel)>::empty(),
            result@.intercepts == Seq::<(ServiceKeyModel, Seq<Json>)>::empty(),
            result.lives(final(tree)@, final(registries)@),
    {
        let scope = Scope::root(tree);
        ContextHandle::from_scope(scope, registries)
    }

    /// A context tree rooted at `scope`.
    pub fn new(scope: Scope, registries: &mut Registries) -> (result: Self)
        requires
            old(registries).wf(),
        ensures
            final(registries).wf(),
            final(registries)@ == old(registries)@.push(
                RegistryModel {
                    providers: Seq::empty(),
                    listeners: Seq::empty(),
                    committed: false,
                    parent: None,
                },
            ),
            result.scope == scope,
            result.registry.index == old(registries)@.len(),
            result@.realms == Seq::<(ServiceKeyModel, RealmModel)>::empty(),
            result@.intercepts == Seq::<(ServiceKeyModel, Seq<Json>)>::empty(),
    {
        ContextHandle::from_scope(scope, registries)
    }

    /// A context tree rooted at `scope`.
    pub fn from_scope(scope: Scope, registries: &mut Registries) -> (result: Self)
        requires
            old(registries).wf(),
        ensures
            final(registries).wf(),
            final(registries)@ == old(registries)@.push(
                RegistryModel {
                    providers: Seq::empty(),
                    listeners: Seq::empty(),
                    committed: false,
                    parent: None,
                },
            ),
            result.scope == scope,
            result.registry.index == old(registries)@.len(),
            result@.realms == Seq::<(ServiceKeyModel, RealmModel)>::empty(),
            result@.intercepts == Seq::<(ServiceKeyModel, Seq<Json>)>::empty(),
    {
        let registry = registries.open_registry();
        let result = ContextHandle {
            scope,
            registry,
            realms: Vec::new(),
            intercepts: Vec::new(),
        };
        assert(result@.realms =~= Seq::empty());
        assert(result@.intercepts =~= Seq::empty());
        result
    }

    /// The scope that owns what is made through this context.
    pub fn scope(&self) -> (result: Scope)
        ensures
            result == self.scope,
    {
        self.scope
    }

    /// The event bus of this context: the same from every view of it.
    pub fn events(&self) -> (result: EventBus)
        ensures
            result.filter@ == (FilterModel { context: None, realm: None }),
    {
        EventBus::new()
    }

    /// This view bound to another scope.
    pub fn with_scope(&self, scope: Scope) -> (result: Self)
        ensures
            result@ == (ContextModel { scope, ..self@ }),
    {
        let mut result = self.clone();
        result.scope = scope;
        result
    }

    /// This view bound to a child scope.
    pub fn child(&self, tree: &mut ScopeTree) -> (result: Result<Self, CoreError>)
        requires
            old(tree).wf(),
            self.scope.in_tree(old(tree)@),
            old(tree).has_scope_ids(),
        ensures
            final(tree).wf(),
            match result {
                Ok(child) => {
                    &&& old(tree)@[self.scope.index as int].state == FiberState::Active
                    &&& child.scope.index == old(tree)@.len()
                    &&& child@ == (ContextModel { scope: child.scope, ..self@ })
                    &&& final(tree)@ == old(tree)@.update(
                        self.scope.index as int,
                        RecordModel {
                            children: old(tree)@[self.scope.index as int].children.push(child.scope),
                            ..old(tree)@[self.scope.index as int]
                        },
                    ).push(fresh_record(old(tree).ids))
                    &&& final(tree).ids == after_scope(old(tree).ids)
                },
                Err(error) => {
                    &&& old(tree)@[self.scope.index as int].state != FiberState::Active
                    &&& error@ == state_failure(
                        "create child scope"@,
                        old(tree)@[self.scope.index as int].state,
                    )
                    &&& *final(tree) == *old(tree)
                },
            },
    {
        match self.scope.child(tree) {
            Ok(scope) => Ok(self.with_scope(scope)),
            Err(error) => Err(error),
        }
    }

    /// A view that looks `service` up in another realm: the one of a label, or
    /// a private one of its own.
    pub fn isolate(&self, ids: &mut IdSource, service: ServiceKey, label: Option<RealmLabel>) -> (result:
        Self)
        requires
            label is None ==> old(ids).generation < u64::MAX,
        ensures
            result@ == (ContextModel {
                realms: assigned(
                    self@.realms,
                    service@,
                    match label {
                        Some(label) => RealmModel::Shared(label@),
                        None => RealmModel::Private(Generation(old(ids).generation)),
                    },
                ),
                ..self@
            }),
            *final(ids) == (match label {
                Some(_) => *old(ids),
                None => IdSource {
                    generation: (old(ids).generation + 1) as u64,
                    ..*old(ids)
                },
            }),
    {
        let realm = match label {
            Some(label) => Realm::Shared(label),
            None => Realm::Private(ids.next_generation()),
        };
        let mut result = self.clone();
        set_realm(&mut result.realms, service, realm);
        result
    }

    /// A view with one more intercept value at the end of the chain.
    pub fn intercept(&self, service: ServiceKey, value: JsonValue) -> (result: Self)
        ensures
            result@ == (ContextModel {
                intercepts: assigned(
                    self@.intercepts,
                    service@,
                    chain_of(self@, service@).push(value@),
                ),
                ..self@
            }),
    {
        let mut result = self.clone();
        let ghost model = chain_list(result.intercepts@);
        let ghost grown = chain_of(self@, service@).push(value@);
        match find_chain(&result.intercepts, &service) {
            Some(at) => {
                let ghost before = json_list(result.intercepts@[at as int].values@);
                result.intercepts[at].values.push(value);
                proof {
                    assert(json_list(result.intercepts@[at as int].values@) =~= before.push(
                        value@,
                    ));
                    assert(chain_list(result.intercepts@) =~= model.update(
                        at as int,
                        (service@, grown),
                    ));
                }
            },
            None => {
                let values = vec![value];
                assert(json_list(values@) =~= grown);
                result.intercepts.push(InterceptChain { key: service, values });
                assert(chain_list(result.intercepts@) =~= model.push((service@, grown)));
            },
        }
        result
    }

    /// The intercept values of a service, from ancestor to descendant.
    pub fn intercept_chain(&self, service: &ServiceKey) -> (result: Vec<JsonValue>)
        ensures
            json_list(result@) == chain_of(self@, service@),
    {
        match find_chain(&self.intercepts, service) {
            Some(at) => clone_values(&self.intercepts[at].values),
            None => {
                let values: Vec<JsonValue> = Vec::new();
                assert(json_list(values@) =~= Seq::empty());
                values
            },
        }
    }

    /// The object intercepts of a service merged into one, descendants over
    /// ancestors. Values that are no objects are left out.
    pub fn intercept_config(&self, service: &ServiceKey) -> (result: JsonValue)
        ensures
            result@ == Json::Object(
                merged_members(
                    chain_of(self@, service@),
                    chain_of(self@, service@).len() as int,
                ),
            ),
    {
        let values = self.intercept_chain(service);
        let ghost chain = chain_of(self@, service@);
        let mut merged: Vec<Member> = Vec::new();
        let mut i: usize = 0;
        assert(json_members(merged@) =~= Seq::empty());
        while i < values.len()
            invariant
                i <= values@.len(),
                json_list(values@) == chain,
                json_members(merged@) == merged_members(chain, i as int),
            decreases values@.len() - i,
        {
            assert(chain[i as int] == values@[i as int]@);
            if let Some(members) = values[i].as_object() {
                let ghost base = json_members(merged@);
                let ghost added = json_members(members@);
                let mut k: usize = 0;
                while k < members.len()
                    invariant
                        k <= members@.len(),
                        added == json_members(members@),
                        json_members(merged@) == overlaid(base, added, k as int),
                    decreases members@.len() - k,
                {
                    assert(added[k as int] == (members@[k as int].key@, members@[k as int].value@));
                    set_member(&mut merged, members[k].key.clone(), members[k].value.clone());
                    k += 1;
                }
            }
            i += 1;
        }
        let result = JsonValue::Object(merged);
        proof {
            lemma_array_view(result);
        }
        result
    }

    /// The service that a key means in this context.
    pub fn resolve(&self, service: &ServiceKey) -> (result: ResolvedService)
        ensures
            result@ == resolved(self@, service@),
    {
        let realm = match find_realm(&self.realms, service) {
            Some(at) => self.realms[at].realm.clone(),
            None => Realm::Root,
        };
        ResolvedService { key: service.clone(), realm }
    }

    /// What a service shows in this context.
    pub fn snapshot(&self, registries: &Registries, service: &ServiceKey) -> (result:
        ServiceSnapshot)
        requires
            registries.wf(),
            self.registry.index < registries@.len(),
        ensures
            result@ == snapshot_of(
                resolved(self@, service@),
                entry_of(registries@, self.registry.index as int, resolved(self@, service@)),
                chain_of(self@, service@),
            ),
    {
        let service_here = self.resolve(service);
        registries.snapshot(self.registry, &service_here, self.intercept_chain(service))
    }
}

/// The snapshots of those services of `services[from..]` that the context
/// itself would look up there.
pub open spec fn shown_from(
    context: ContextModel,
    records: Seq<RegistryModel>,
    services: Seq<ServiceModel>,
    from: int,
) -> Seq<SnapshotModel>
    decreases services.len() - from,
{
    if from < 0 || from >= services.len() {
        Seq::empty()
    } else {
        let rest = shown_from(context, records, services, from + 1);
        if resolved(context, services[from].key) == services[from] {
            seq![
                snapshot_of(
                    services[from],
                    entry_of(records, context.registry.index as int, services[from]),
                    chain_of(context, services[from].key),
                ),
            ] + rest
        } else {
            rest
        }
    }
}

/// A generation-checked handle to a native service.
#[derive(Debug)]
pub struct ServiceHandle {
    pub registry: Registry,
    pub service: ResolvedService,
    pub generation: Generation,
    pub value: u64,
}

impl ServiceHandle {
    pub fn key(&self) -> (result: &ServiceKey)
        ensures
            result@ == self.service@.key,
    {
        &self.service.key
    }

    pub fn generation(&self) -> (result: Generation)
        ensures
            result == self.generation,
    {
        self.generation
    }

    /// The provider of this handle is still the current one.
    pub open spec fn current(&self, records: Seq<RegistryModel>) -> bool {
        entry_of(records, self.registry.index as int, self.service@) matches Some(entry)
            && entry.generation == self.generation
    }

    /// Whether this handle still names the current provider.
    pub fn is_current(&self, registries: &Registries) -> (result: bool)
        requires
            registries.wf(),
            self.registry.index < registries@.len(),
        ensures
            result == self.current(registries@),
    {
        registries.is_current(self.registry, &self.service, self.generation)
    }

    /// Gives the value, only while this handle names the current provider.
    pub fn with(&self, registries: &Registries) -> (result: Result<u64, CoreError>)
        requires
            registries.wf(),
            self.registry.index < registries@.len(),
        ensures
            match result {
                Ok(value) => self.current(registries@) && value == self.value,
                Err(error) => !self.current(registries@) && error@ == (
                CoreFailure::StaleServiceHandle {
                    key: key_text(self.service@.key),
                    generation: self.generation,
                }),
            },
    {
        if self.is_current(registries) {
            Ok(self.value)
        } else {
            Err(
                CoreError::StaleServiceHandle {
                    key: self.service.key.diagnostic_key(),
                    generation: self.generation,
                },
            )
        }
    }
}

/// What became of providing a service.
#[derive(Debug)]
pub struct Provision {
    /// The handle and the effect that removes the provider, or why the scope
    /// refused it.
    pub result: Result<(ServiceHandle, ResourceId), CoreError>,
    /// The messages to listeners, in order.
    pub deliveries: Vec<Delivery>,
}

/// A scope-owned dependency subscription.
#[derive(Debug)]
pub struct DependencySubscription {
    pub registry: Registry,
    pub id: ResourceId,
    pub dependencies: Vec<ResolvedDependency>,
}

impl DependencySubscription {
    /// Whether every required dependency is provided.
    pub fn ready(&self, registries: &Registries) -> (result: bool)
        requires
            registries.wf(),
            self.registry.index < registries@.len(),
        ensures
            result == readiness(
                registries@,
                self.registry.index as int,
                dependency_list(self.dependencies@),
            ).ready,
    {
        self.snapshot(registries).ready
    }

    /// What the dependencies show.
    pub fn snapshot(&self, registries: &Registries) -> (result: DependencySnapshot)
        requires
            registries.wf(),
            self.registry.index < registries@.len(),
        ensures
            result@ == readiness(
                registries@,
                self.registry.index as int,
                dependency_list(self.dependencies@),
            ),
    {
        registries.dependency_snapshot(self.registry, &self.dependencies)
    }

    /// Detaches the listener, and says whether it was attached.
    pub fn unsubscribe(&self, registries: &mut Registries) -> (result: bool)
        requires
            old(registries).wf(),
            self.registry.index < old(registries)@.len(),
        ensures
            final(registries).wf(),
            result == crate::registry::listening(
                old(registries)@[self.registry.index as int].listeners,
                self.id,
            ),
            !result ==> *final(registries) == *old(registries),
            final(registries)@.len() == old(registries)@.len(),
            result ==> exists|k: int|
                #![trigger old(registries)@[self.registry.index as int].listeners[k]]
                {
                    let at = self.registry.index as int;
                    let listeners = old(registries)@[at].listeners;
                    &&& 0 <= k < listeners.len()
                    &&& listeners[k].0 == self.id
                    &&& final(registries)@ == old(registries)@.update(
                        at,
                        RegistryModel { listeners: listeners.remove(k), ..old(registries)@[at] },
                    )
                },
    {
        registries.unregister_listener(self.registry, self.id)
    }
}

/// What subscribing to dependencies in a context gives and changes.
pub open spec fn subscribes(
    context: ContextModel,
    tree: ScopeTree,
    registries: Registries,
    dependencies: Seq<Dependency>,
    result: Result<Subscribed, CoreError>,
    tree_after: ScopeTree,
    registries_after: Registries,
) -> bool {
    let at = context.scope.index as int;
    let r = context.registry.index as int;
    let record = tree@[at];
    let wanted = resolved_dependencies(context, dependencies);
    match result {
        Ok(subscribed) => {
            &&& record.state == FiberState::Active
            &&& subscribed.subscription.registry == context.registry
            &&& subscribed.subscription.id.0 == tree.ids.resource
            &&& dependency_list(subscribed.subscription.dependencies@) == wanted
            &&& subscribed.effect.0 == tree.ids.resource + 1
            &&& registries_after@ == registries@.update(
                r,
                RegistryModel {
                    listeners: registries@[r].listeners.push((subscribed.subscription.id, wanted)),
                    ..registries@[r]
                },
            )
            &&& subscribed.snapshot@ == readiness(registries_after@, r, wanted)
            &&& tree_after.ids == (IdSource {
                resource: (tree.ids.resource + 2) as u64,
                ..tree.ids
            })
            &&& tree_after@ == tree@.update(
                at,
                RecordModel {
                    effects: record.effects.push(
                        EffectModel {
                            id: subscribed.effect,
                            label: "service-subscription"@,
                            children: Seq::empty(),
                        },
                    ),
                    ..record
                },
            )
        },
        Err(error) => {
            &&& record.state != FiberState::Active
            &&& error@ == state_failure("register effect"@, record.state)
            &&& tree_after == tree
            &&& registries_after == registries
        },
    }
}

/// The dependencies `dependencies[..]` with the realm and the intercepts that
/// a context gives each.
pub open spec fn resolved_dependencies(context: ContextModel, dependencies: Seq<Dependency>) -> Seq<
    DependencyModel,
> {
    Seq::new(
        dependencies.len(),
        |i: int|
            DependencyModel {
                service: resolved(context, dependencies[i].spec_key()),
                required: dependencies[i] is Required,
                intercepts: chain_of(context, dependencies[i].spec_key()),
            },
    )
}

/// What became of subscribing.
#[derive(Debug)]
pub struct Subscribed {
    pub subscription: DependencySubscription,
    /// The effect that detaches the listener.
    pub effect: ResourceId,
    /// What the listener is told at once.
    pub snapshot: DependencySnapshot,
}

impl ContextHandle {
    /// Every provider visible from this context, in order of their keys.
    pub fn snapshots(&self, registries: &Registries) -> (result: Vec<ServiceSnapshot>)
        requires
            registries.wf(),
            self.registry.index < registries@.len(),
        ensures
            snapshot_list(result@) == shown_from(
                self@,
                registries@,
                visible(registries@, self.registry.index as int),
                0,
            ),
    {
        let services = registries.provider_services(self.registry);
        let ghost model = visible(registries@, self.registry.index as int);
        let ghost whole = shown_from(self@, registries@, model, 0);
        let mut result: Vec<ServiceSnapshot> = Vec::new();
        let mut i: usize = 0;
        assert(snapshot_list(result@) =~= Seq::empty());
        assert(Seq::<SnapshotModel>::empty() + whole =~= whole);
        while i < services.len()
            invariant
                registries.wf(),
                self.registry.index < registries@.len(),
                i <= services@.len(),
                model == service_list(services@),
                whole == shown_from(self@, registries@, model, 0),
                whole == snapshot_list(result@) + shown_from(self@, registries@, model, i as int),
            decreases services@.len() - i,
        {
            let service = &services[i];
            assert(model[i as int] == service@);
            let here = self.resolve(&service.key);
            if here.same(service) {
                let chain = self.intercept_chain(&service.key);
                let snapshot = registries.snapshot(self.registry, service, chain);
                let ghost before = snapshot_list(result@);
                result.push(snapshot);
                proof {
                    let rest = shown_from(self@, registries@, model, i + 1);
                    assert(snapshot_list(result@) =~= before.push(snapshot@));
                    assert(before + (seq![snapshot@] + rest) =~= snapshot_list(result@) + rest);
                }
            }
            i += 1;
        }
        assert(snapshot_list(result@) + Seq::<SnapshotModel>::empty() =~= snapshot_list(result@));
        result
    }

    /// Provides a service that this context's scope owns. When the scope
    /// refuses the effect that would remove it, the provider is taken back.
    pub fn provide(
        &self,
        tree: &mut ScopeTree,
        registries: &mut Registries,
        service: ServiceKey,
        kind: u64,
        value: u64,
    ) -> (result: Provision)
        requires
            old(tree).wf(),
            old(registries).wf(),
            self.lives(old(tree)@, old(registries)@),
            old(tree).ids.generation < u64::MAX,
            old(tree).ids.resource < u64::MAX,
        ensures
            final(tree).wf(),
            final(registries).wf(),
            ({
                let at = self.scope.index as int;
                let r = self.registry.index as int;
                let record = old(tree)@[at];
                let here = resolved(self@, service@);
                let entry = ServiceEntry {
                    generation: Generation(old(tree).ids.generation),
                    kind,
                    value,
                };
                let with_it = provided(old(registries)@, target(old(registries)@, r), here, entry);
                match result.result {
                    Ok((handle, effect)) => {
                        &&& record.state == FiberState::Active
                        &&& handle.registry == self.registry
                        &&& handle.service@ == here
                        &&& handle.generation == entry.generation
                        &&& handle.value == value
                        &&& effect.0 == old(tree).ids.resource
                        &&& final(tree)@ == old(tree)@.update(
                            at,
                            RecordModel {
                                effects: record.effects.push(
                                    EffectModel {
                                        id: effect,
                                        label: "service:"@ + key_text(service@),
                                        children: Seq::empty(),
                                    },
                                ),
                                ..record
                            },
                        )
                        &&& final(tree).ids == (IdSource {
                            generation: (old(tree).ids.generation + 1) as u64,
                            resource: (old(tree).ids.resource + 1) as u64,
                            ..old(tree).ids
                        })
                        &&& final(registries)@ == with_it
                        &&& delivery_list(result.deliveries@) == told_from(
                            with_it,
                            target(old(registries)@, r),
                            0,
                            here,
                        )
                    },
                    Err(error) => {
                        &&& record.state != FiberState::Active
                        &&& error@ == state_failure("register effect"@, record.state)
                        &&& final(tree)@ == old(tree)@
                        &&& final(tree).ids == (IdSource {
                            generation: (old(tree).ids.generation + 1) as u64,
                            ..old(tree).ids
                        })
                        &&& final(registries)@ == (if holds_generation(
                            with_it,
                            holder(with_it, r),
                            here,
                            entry.generation,
                        ) {
                            removed(with_it, holder(with_it, r), here)
                        } else {
                            with_it
                        })
                        &&& delivery_list(result.deliveries@) == told_from(
                            with_it,
                            target(old(registries)@, r),
                            0,
                            here,
                        ) + (if holds_generation(
                            with_it,
                            holder(with_it, r),
                            here,
                            entry.generation,
                        ) {
                            told_from(final(registries)@, holder(with_it, r), 0, here)
                        } else {
                            Seq::empty()
                        })
                    },
                }
            }),
    {
        let here = self.resolve(&service);
        let (generation, mut deliveries) = registries.provide(
            &mut tree.ids,
            self.registry,
            here.clone(),
            kind,
            value,
        );
        proof {
            // Only the generation counter moved, so the forest stays sound.
            let before = old(tree)@;
            assert(tree@ =~= before);
            assert(crate::lifecycle::sound(tree@, tree.ids)) by {
                assert forall|i: int| 0 <= i < before.len() implies (#[trigger] before[i]).id.0
                    < tree.ids.scope && before[i].generation.0 < tree.ids.generation by {
                    assert(before[i].generation.0 < old(tree).ids.generation);
                }
            }
        }
        let label = join2("service:", service.diagnostic_key().as_str());
        match self.scope.add_effect(tree, label) {
            Ok(effect) => Provision {
                result: Ok(
                    (
                        ServiceHandle { registry: self.registry, service: here, generation, value },
                        effect,
                    ),
                ),
                deliveries,
            },
            Err(error) => {
                let ghost first = deliveries@;
                let (_, mut more) = registries.remove_if_current(self.registry, &here, generation);
                let ghost second = more@;
                deliveries.append(&mut more);
                proof {
                    assert(delivery_list(deliveries@) =~= delivery_list(first) + delivery_list(
                        second,
                    ));
                    assert(second.len() == 0 ==> delivery_list(second) =~= Seq::empty());
                }
                Provision { result: Err(error), deliveries }
            },
        }
    }

    /// Looks a service of type `kind` up in this context.
    pub fn get(&self, registries: &Registries, service: &ServiceKey, kind: u64) -> (result: Result<
        Option<ServiceHandle>,
        CoreError,
    >)
        requires
            registries.wf(),
            self.registry.index < registries@.len(),
        ensures
            ({
                let here = resolved(self@, service@);
                let entry = entry_of(registries@, self.registry.index as int, here);
                match result {
                    Ok(None) => entry is None,
                    Ok(Some(handle)) => entry is Some && entry->Some_0.kind == kind
                        && handle.registry == self.registry && handle.service@ == here
                        && handle.generation == entry->Some_0.generation && handle.value
                        == entry->Some_0.value,
                    Err(error) => entry is Some && entry->Some_0.kind != kind && error@ == (
                    CoreFailure::ServiceTypeMismatch { key: key_text(service@) }),
                }
            }),
    {
        let here = self.resolve(service);
        match registries.entry(self.registry, &here) {
            None => Ok(None),
            Some(entry) => if entry.kind != kind {
                Err(CoreError::ServiceTypeMismatch { key: service.diagnostic_key() })
            } else {
                Ok(
                    Some(
                        ServiceHandle {
                            registry: self.registry,
                            service: here,
                            generation: entry.generation,
                            value: entry.value,
                        },
                    ),
                )
            },
        }
    }

    fn resolve_dependencies(&self, dependencies: &Vec<Dependency>) -> (result: Vec<
        ResolvedDependency,
    >)
        ensures
            dependency_list(result@) == resolved_dependencies(self@, dependencies@),
    {
        let mut result: Vec<ResolvedDependency> = Vec::new();
        let mut i: usize = 0;
        while i < dependencies.len()
            invariant
                i <= dependencies@.len(),
                result@.len() == i,
                forall|k: int|
                    0 <= k < i ==> (#[trigger] result@[k])@ == resolved_dependencies(
                        self@,
                        dependencies@,
                    )[k],
            decreases dependencies@.len() - i,
        {
            let key = dependencies[i].key();
            result.push(
                ResolvedDependency {
                    service: self.resolve(key),
                    required: dependencies[i].is_required(),
                    intercepts: self.intercept_chain(key),
                },
            );
            i += 1;
        }
        assert(dependency_list(result@) =~= resolved_dependencies(self@, dependencies@));
        result
    }

    /// Subscribes to availability changes. The listener is told at once what
    /// the dependencies show, and is detached with this context's scope. A
    /// scope that takes no effects takes no listener either.
    pub fn subscribe(
        &self,
        tree: &mut ScopeTree,
        registries: &mut Registries,
        dependencies: &Vec<Dependency>,
    ) -> (result: Result<Subscribed, CoreError>)
        requires
            old(tree).wf(),
            old(registries).wf(),
            self.lives(old(tree)@, old(registries)@),
            old(tree).ids.resource < u64::MAX - 1,
        ensures
            final(tree).wf(),
            final(registries).wf(),
            subscribes(
                self@,
                *old(tree),
                *old(registries),
                dependencies@,
                result,
                *final(tree),
                *final(registries),
            ),
    {
        let state = self.scope.state(tree);
        if state != FiberState::Active {
            return Err(CoreError::InvalidState { operation: "register effect".to_owned(), state });
        }
        let wanted = self.resolve_dependencies(dependencies);
        let id = registries.register_listener(
            &mut tree.ids,
            self.registry,
            clone_dependencies(&wanted),
        );
        proof {
            // Only the resource counter moved, so the forest stays sound.
            let records = old(tree)@;
            assert(tree@ =~= records);
            assert(crate::lifecycle::sound(tree@, tree.ids)) by {
                assert forall|i: int, k: int|
                    0 <= i < records.len() && 0 <= k < records[i].effects.len() implies (
                #[trigger] records[i].effects[k]).id.0 < tree.ids.resource by {
                    assert(records[i].effects[k].id.0 < old(tree).ids.resource);
                }
            }
        }
        let subscription = DependencySubscription {
            registry: self.registry,
            id,
            dependencies: wanted,
        };
        match self.scope.add_effect(tree, "service-subscription".to_owned()) {
            Ok(effect) => {
                let snapshot = subscription.snapshot(registries);
                Ok(Subscribed { subscription, effect, snapshot })
            },
            Err(error) => Err(error),
        }
    }

    /// This view with a staged registry: what it provides stays apart until it
    /// is committed into the registry that holds what this view provides.
    pub fn staged(&self, registries: &mut Registries) -> (result: Self)
        requires
            old(registries).wf(),
            self.registry.index < old(registries)@.len(),
        ensures
            final(registries).wf(),
            result.registry.index == old(registries)@.len(),
            result@ == (ContextModel { registry: result.registry, ..self@ }),
            final(registries)@ == old(registries)@.push(
                RegistryModel {
                    providers: Seq::empty(),
                    listeners: Seq::empty(),
                    committed: false,
                    parent: Some(
                        holder(old(registries)@, self.registry.index as int) as usize,
                    ),
                },
            ),
    {
        let held = registries.holding(self.registry);
        let registry = registries.staged(held);
        let mut result = self.clone();
        result.registry = registry;
        result
    }

    /// Commits the staged registry of this view.
    pub fn commit_staged(&self, registries: &mut Registries) -> (result: Vec<Delivery>)
        requires
            old(registries).wf(),
            self.registry.index < old(registries)@.len(),
        ensures
            final(registries).wf(),
            ({
                let r = self.registry.index as int;
                let record = old(registries)@[r];
                match record.parent {
                    Some(p) => if record.committed {
                        final(registries)@ == old(registries)@ && result@.len() == 0
                    } else {
                        final(registries)@ == crate::registry::committed(
                            old(registries)@,
                            r,
                            p as int,
                        ) && delivery_list(result@) == crate::registry::told_all(
                            final(registries)@,
                            p as int,
                            record.providers,
                            record.providers.len() as int,
                        )
                    },
                    None => final(registries)@ == old(registries)@ && result@.len() == 0,
                }
            }),
    {
        registries.commit(self.registry)
    }
}

/// Two views that isolate a service without a label never share it, while two
/// that use one label always do.
pub proof fn isolation_follows_labels(
    a: ContextModel,
    b: ContextModel,
    key: ServiceKeyModel,
    first: RealmModel,
    second: RealmModel,
)
    ensures
        ({
            let x = ContextModel { realms: assigned(a.realms, key, first), ..a };
            let y = ContextModel { realms: assigned(b.realms, key, second), ..b };
            resolved(x, key) == resolved(y, key) <==> first == second
        }),
{
    assigned_values_are_found(a.realms, key, first, key);
    assigned_values_are_found(b.realms, key, second, key);
}

/// Isolating one service leaves where every other service is looked up.
pub proof fn isolation_leaves_other_services(
    context: ContextModel,
    key: ServiceKeyModel,
    realm: RealmModel,
    other: ServiceKeyModel,
)
    requires
        other != key,
    ensures
        resolved(
            ContextModel { realms: assigned(context.realms, key, realm), ..context },
            other,
        ) == resolved(context, other),
{
    assigned_values_are_found(context.realms, key, realm, other);
}

proof fn overlaid_lookup(
    members: Seq<(Seq<char>, Json)>,
    added: Seq<(Seq<char>, Json)>,
    count: int,
    key: Seq<char>,
)
    requires
        ordered(added),
        0 <= count <= added.len(),
    ensures
        forall|k: int|
            0 <= k < count && (#[trigger] added[k]).0 == key ==> lookup(
                overlaid(members, added, count),
                key,
            ) == Some(added[k].1),
        (forall|k: int| 0 <= k < count ==> (#[trigger] added[k]).0 != key) ==> lookup(
            overlaid(members, added, count),
            key,
        ) == lookup(members, key),
    decreases count,
{
    if count > 0 {
        overlaid_lookup(members, added, count - 1, key);
        let before = overlaid(members, added, count - 1);
        let (last, value) = added[count - 1];
        if last == key {
            set_member_is_readable(before, last, value);
            assert forall|k: int| 0 <= k < count && (#[trigger] added[k]).0 == key implies k
                == count - 1 by {
                if k < count - 1 {
                    assert(text_before(added[k].0, added[count - 1].0));
                    text_order_is_irreflexive(key);
                }
            }
        } else {
            set_member_keeps_other_keys(before, last, value, key);
        }
    }
}

/// In merged intercepts a descendant's object decides every member that it
/// has, and leaves the others as its ancestors had them.
pub proof fn descendant_intercepts_win(
    values: Seq<Json>,
    members: Seq<(Seq<char>, Json)>,
    key: Seq<char>,
)
    requires
        ordered(members),
    ensures
        ({
            let before = merged_members(values, values.len() as int);
            let after = merged_members(
                values.push(Json::Object(members)),
                values.len() as int + 1,
            );
            lookup(after, key) == (match lookup(members, key) {
                Some(value) => Some(value),
                None => lookup(before, key),
            })
        }),
{
    let longer = values.push(Json::Object(members));
    let n = values.len() as int;
    let before = merged_members(values, n);
    merged_prefix(values, Json::Object(members), n);
    assert(merged_members(longer, n + 1) == overlaid(before, members, members.len() as int));
    overlaid_lookup(before, members, members.len() as int, key);
    lookup_finds_a_member(members, key);
    if lookup(members, key) is None {
        assert forall|k: int| 0 <= k < members.len() implies (#[trigger] members[k]).0 != key by {
            if members[k].0 == key {
                absent_keys_have_no_member(members, key, k);
            }
        }
    }
}

proof fn absent_keys_have_no_member(members: Seq<(Seq<char>, Json)>, key: Seq<char>, k: int)
    requires
        lookup(members, key) is None,
        0 <= k < members.len(),
    ensures
        members[k].0 != key,
    decreases k,
{
    if k > 0 {
        absent_keys_have_no_member(members.drop_first(), key, k - 1);
        assert(members.drop_first()[k - 1] == members[k]);
    }
}

proof fn merged_prefix(values: Seq<Json>, last: Json, count: int)
    requires
        0 <= count <= values.len(),
    ensures
        merged_members(values.push(last), count) == merged_members(values, count),
    decreases count,
{
    if count > 0 {
        merged_prefix(values, last, count - 1);
        assert(values.push(last)[count - 1] == values[count - 1]);
    }
}

}
