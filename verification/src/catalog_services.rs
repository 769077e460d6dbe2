//! The service part of the conformance catalog: scenarios that every provider
//! and consumer of services has to pass.

use vstd::prelude::*;
use vstd::string::*;

use crate::catalog_lifecycle::{dispose_all, states, unused, verdict};
use crate::context::{
    assigned, chain_of, merged_members, overlaid, resolved, ContextHandle, ContextModel,
    DependencySubscription, ServiceHandle,
};
use crate::disposal::{children_order, disposes, effect_order};
use crate::ids::{Generation, IdSource, RealmLabel, ResourceId, ServiceKey, ServiceKeyModel};
use crate::json::{
    json_members, lemma_array_view, lookup, same_json, values_equal, with_member, Json, JsonValue,
    Member, Number,
};
use crate::lifecycle::{FiberState, ScopeTree};
use crate::registry::{
    entry_of, provided_services_are_current, provided_services_leave_others, readiness,
    removed_services_are_unavailable, Registries, RegistryModel,
};
use crate::service::{
    dependency_list, Dependency, DependencyModel, RealmModel, ServiceEntry, ServiceModel,
};
use crate::text::{join2, quoted, quoted_text, same_text, text_before};

verus! {

/// The type that all services of the catalog have.
pub const CATALOG_SERVICE: u64 = 1;

fn key(name: &str) -> (result: ServiceKey)
    ensures
        result@.name == name@,
        result@.contract_version == "conformance/v1"@,
{
    ServiceKey::new(name.to_owned(), "conformance/v1".to_owned())
}

/// The key of a service of the catalog.
pub open spec fn catalog_key(name: Seq<char>) -> ServiceKeyModel {
    ServiceKeyModel { name, contract_version: "conformance/v1"@ }
}

/// A service of the catalog in one realm.
pub open spec fn catalog_service(name: Seq<char>, realm: RealmModel) -> ServiceModel {
    ServiceModel { key: catalog_key(name), realm }
}

/// A provider of the catalog.
pub open spec fn catalog_provider(generation: int, value: u64) -> ServiceEntry {
    ServiceEntry { generation: Generation(generation as u64), kind: CATALOG_SERVICE, value }
}

/// A registry without a parent that has one provider.
pub open spec fn registry_with(service: ServiceModel, entry: ServiceEntry) -> RegistryModel {
    RegistryModel {
        providers: seq![(service, entry)],
        listeners: Seq::empty(),
        committed: false,
        parent: None,
    }
}

/// A listener for one service without intercepts.
pub open spec fn waiting_for(id: u64, service: ServiceModel, required: bool) -> (
    ResourceId,
    Seq<DependencyModel>,
) {
    (ResourceId(id), seq![DependencyModel { service, required, intercepts: Seq::empty() }])
}

/// A host without scopes and registries.
pub open spec fn unused_host(tree: ScopeTree, registries: Registries) -> bool {
    unused(tree) && registries.wf() && registries@.len() == 0
}

/// Identifiers after so many scopes, resources and generations.
pub open spec fn used(ids: IdSource, scopes: int, resources: int, generations: int) -> IdSource {
    IdSource {
        scope: (ids.scope + scopes) as u64,
        resource: (ids.resource + resources) as u64,
        generation: (ids.generation + generations) as u64,
        ..ids
    }
}

/// A provider that comes late activates its consumer. Gives the subscription
/// of the consumer.
fn activates_late_consumers(tree: &mut ScopeTree, registries: &mut Registries) -> (result: Result<
    DependencySubscription,
    String,
>)
    requires
        unused_host(*old(tree), *old(registries)),
    ensures
        final(tree).wf(),
        final(registries).wf(),
        states(final(tree)@) == seq![FiberState::Active],
        final(tree).ids == used(old(tree).ids, 1, 3, 2),
        ({
            let ids = old(tree).ids;
            let clock = catalog_service("clock"@, RealmModel::Root);
            let waiting = waiting_for(ids.resource, clock, true);
            &&& final(registries)@ == seq![
                RegistryModel {
                    listeners: seq![waiting],
                    ..registry_with(clock, catalog_provider(ids.generation + 1, 1))
                },
            ]
            &&& match result {
                Ok(subscription) => {
                    &&& subscription.registry.index == 0
                    &&& subscription.id == waiting.0
                    &&& dependency_list(subscription.dependencies@) == waiting.1
                    &&& readiness(final(registries)@, 0, waiting.1).ready
                },
                Err(_) => false,
            }
        }),
{
    let context = ContextHandle::root(tree, registries);
    let service = key("clock");
    let mut dependencies: Vec<Dependency> = Vec::new();
    dependencies.push(Dependency::Required(service.clone()));
    let subscribed = match context.subscribe(tree, registries, &dependencies) {
        Ok(subscribed) => subscribed,
        Err(error) => return Err(error.message()),
    };
    let ghost here = resolved(context@, service@);
    let ghost wanted = dependency_list(subscribed.subscription.dependencies@);
    proof {
        assert(here == catalog_service("clock"@, RealmModel::Root));
        assert(wanted =~= waiting_for(old(tree).ids.resource, here, true).1);
        assert(wanted[0].service == here && wanted[0].required);
        assert(registries@[0].providers.len() == 0);
        assert(entry_of(registries@, 0, here) is None);
    }
    if subscribed.subscription.ready(registries) {
        return Err("missing required provider did not gate its consumer".to_owned());
    }
    let ghost before = registries@;
    let provision = context.provide(tree, registries, service, CATALOG_SERVICE, 1);
    if let Err(error) = provision.result {
        return Err(error.message());
    }
    proof {
        let entry = catalog_provider(old(tree).ids.generation + 1, 1);
        provided_services_are_current(before, 0, here, entry);
        assert(before[0].listeners =~= seq![
            waiting_for(old(tree).ids.resource, here, true),
        ]);
        assert(before[0].providers =~= Seq::empty());
        assert(registries@ =~= seq![
            RegistryModel {
                listeners: seq![waiting_for(old(tree).ids.resource, here, true)],
                ..registry_with(here, entry)
            },
        ]);
        assert(states(tree@) =~= seq![FiberState::Active]);
    }
    if !subscribed.subscription.ready(registries) {
        return Err("late provider did not activate its consumer".to_owned());
    }
    Ok(subscribed.subscription)
}

/// A second provider takes the place of the first, whose handles are stale.
/// Gives the handle of the first, and the handle that is found afterwards.
fn replaces_providers(tree: &mut ScopeTree, registries: &mut Registries, id: &str) -> (result: Result<
    (ServiceHandle, ServiceHandle),
    String,
>)
    requires
        unused_host(*old(tree), *old(registries)),
    ensures
        final(tree).wf(),
        final(registries).wf(),
        states(final(tree)@) == seq![FiberState::Active],
        final(tree).ids == used(old(tree).ids, 1, 2, 3),
        ({
            let ids = old(tree).ids;
            let theme = catalog_service("theme"@, RealmModel::Root);
            &&& final(registries)@ == seq![
                registry_with(theme, catalog_provider(ids.generation + 2, 2)),
            ]
            &&& match result {
                Ok((first, shown)) => {
                    &&& first.service@ == theme
                    &&& first.generation.0 == ids.generation + 1
                    &&& !first.current(final(registries)@)
                    &&& shown.service@ == theme
                    &&& shown.generation.0 == ids.generation + 2
                    &&& shown.value == 2
                    &&& shown.current(final(registries)@)
                },
                Err(_) => false,
            }
        }),
{
    let context = ContextHandle::root(tree, registries);
    let service = key("theme");
    let ghost here = resolved(context@, service@);
    let ghost start = registries@;
    let first = match context.provide(
        tree,
        registries,
        service.clone(),
        CATALOG_SERVICE,
        1,
    ).result {
        Ok((handle, _)) => handle,
        Err(error) => return Err(error.message()),
    };
    let ghost before = registries@;
    let replacement = match context.provide(
        tree,
        registries,
        service.clone(),
        CATALOG_SERVICE,
        2,
    ).result {
        Ok((handle, _)) => handle,
        Err(error) => return Err(error.message()),
    };
    proof {
        let entry = catalog_provider(old(tree).ids.generation + 2, 2);
        assert(here == catalog_service("theme"@, RealmModel::Root));
        provided_services_are_current(before, 0, here, entry);
        assert(start[0].providers =~= Seq::empty());
        assert(before[0].providers =~= seq![
            (here, catalog_provider(old(tree).ids.generation + 1, 1)),
        ]);
        assert(before[0].providers.drop_first() =~= Seq::empty());
        assert(registries@[0].providers =~= seq![(here, entry)]);
        assert(registries@ =~= seq![registry_with(here, entry)]);
        assert(states(tree@) =~= seq![FiberState::Active]);
    }
    if first.with(registries).is_ok() || !replacement.is_current(registries) {
        return Err(join2(id, " did not replace the provider generation"));
    }
    let shown = match context.get(registries, &service, CATALOG_SERVICE) {
        Ok(Some(handle)) => handle,
        Ok(None) => return Err("replacement service is missing".to_owned()),
        Err(error) => return Err(error.message()),
    };
    match shown.with(registries) {
        Ok(value) => {
            if value != 2 {
                return Err(join2(id, " did not expose the replacement"));
            }
        },
        Err(error) => return Err(error.message()),
    }
    Ok((first, shown))
}

/// A provider goes with its scope, and another can take its place. Gives the
/// handles of both.
fn recovers_from_removal(tree: &mut ScopeTree, registries: &mut Registries) -> (result: Result<
    (ServiceHandle, ServiceHandle),
    String,
>)
    requires
        unused_host(*old(tree), *old(registries)),
    ensures
        final(tree).wf(),
        final(registries).wf(),
        states(final(tree)@) == seq![FiberState::Active, FiberState::Disposed],
        final(tree).ids == used(old(tree).ids, 2, 2, 4),
        ({
            let ids = old(tree).ids;
            let cache = catalog_service("cache"@, RealmModel::Root);
            &&& final(registries)@ == seq![
                registry_with(cache, catalog_provider(ids.generation + 3, 2)),
            ]
            &&& match result {
                Ok((removed, replacement)) => {
                    &&& removed.service@ == cache
                    &&& removed.generation.0 == ids.generation + 2
                    &&& !removed.current(final(registries)@)
                    &&& replacement.service@ == cache
                    &&& replacement.generation.0 == ids.generation + 3
                    &&& replacement.value == 2
                    &&& replacement.current(final(registries)@)
                },
                Err(_) => false,
            }
        }),
{
    let root = ContextHandle::root(tree, registries);
    let owner = match root.child(tree) {
        Ok(owner) => owner,
        Err(error) => return Err(error.message()),
    };
    let service = key("cache");
    let ghost here = resolved(root@, service@);
    let ghost start = registries@;
    let (removed, effect) = match owner.provide(
        tree,
        registries,
        service.clone(),
        CATALOG_SERVICE,
        1,
    ).result {
        Ok(pair) => pair,
        Err(error) => return Err(error.message()),
    };
    let ghost before = tree@;
    let order = match dispose_all(tree, owner.scope()) {
        Ok(order) => order,
        Err(message) => return Err(message),
    };
    proof {
        reveal_with_fuel(effect_order, 2);
        assert(children_order(before, 1, 0) =~= Seq::empty());
        assert(order@ =~= seq![effect]);
        assert(disposes(before, 1, 1));
        assert(!disposes(before, 1, 0));
    }
    let ghost held = registries@;
    if order.len() > 0 && order[0] == effect {
        registries.remove_if_current(owner.registry, &removed.service, removed.generation);
    }
    proof {
        assert(here == catalog_service("cache"@, RealmModel::Root));
        assert(start[0].providers =~= Seq::empty());
        let entry = catalog_provider(old(tree).ids.generation + 2, 1);
        assert(held[0].providers =~= seq![(here, entry)]);
        removed_services_are_unavailable(held, 0, here);
        assert(registries@[0].providers =~= Seq::empty());
    }
    let gone = match root.get(registries, &service, CATALOG_SERVICE) {
        Ok(found) => found.is_none(),
        Err(error) => return Err(error.message()),
    };
    if !gone || removed.with(registries).is_ok() {
        return Err("provider removal left a live service handle".to_owned());
    }
    let ghost cleared = registries@;
    let replacement = match root.provide(
        tree,
        registries,
        service.clone(),
        CATALOG_SERVICE,
        2,
    ).result {
        Ok((handle, _)) => handle,
        Err(error) => return Err(error.message()),
    };
    proof {
        let entry = catalog_provider(old(tree).ids.generation + 3, 2);
        provided_services_are_current(cleared, 0, here, entry);
        assert(registries@ =~= seq![registry_with(here, entry)]);
        assert(states(tree@) =~= seq![FiberState::Active, FiberState::Disposed]);
    }
    match replacement.with(registries) {
        Ok(value) => {
            if value != 2 {
                return Err("provider recovery did not create a live generation".to_owned());
            }
        },
        Err(error) => return Err(error.message()),
    }
    Ok((removed, replacement))
}

/// A missing optional service holds nobody up. Gives the subscription of the
/// consumer.
fn starts_without_optional_services(tree: &mut ScopeTree, registries: &mut Registries) -> (result:
    Result<DependencySubscription, String>)
    requires
        unused_host(*old(tree), *old(registries)),
    ensures
        final(tree).wf(),
        final(registries).wf(),
        states(final(tree)@) == seq![FiberState::Active],
        final(tree).ids == used(old(tree).ids, 1, 2, 1),
        ({
            let metrics = catalog_service("metrics"@, RealmModel::Root);
            let waiting = waiting_for(old(tree).ids.resource, metrics, false);
            &&& final(registries)@ == seq![
                RegistryModel {
                    providers: Seq::empty(),
                    listeners: seq![waiting],
                    committed: false,
                    parent: None,
                },
            ]
            &&& match result {
                Ok(subscription) => {
                    &&& subscription.registry.index == 0
                    &&& subscription.id == waiting.0
                    &&& dependency_list(subscription.dependencies@) == waiting.1
                    &&& readiness(final(registries)@, 0, waiting.1).ready
                },
                Err(_) => false,
            }
        }),
{
    let context = ContextHandle::root(tree, registries);
    let mut dependencies: Vec<Dependency> = Vec::new();
    dependencies.push(Dependency::Optional(key("metrics")));
    let subscribed = match context.subscribe(tree, registries, &dependencies) {
        Ok(subscribed) => subscribed,
        Err(error) => return Err(error.message()),
    };
    proof {
        let metrics = catalog_service("metrics"@, RealmModel::Root);
        let waiting = waiting_for(old(tree).ids.resource, metrics, false);
        assert(dependencies@[0].spec_key() == metrics.key);
        assert(resolved(context@, metrics.key) == metrics);
        assert(dependency_list(subscribed.subscription.dependencies@) =~= waiting.1);
        assert(registries@[0].listeners =~= seq![waiting]);
        assert(registries@ =~= seq![
            RegistryModel {
                providers: Seq::empty(),
                listeners: seq![waiting],
                committed: false,
                parent: None,
            },
        ]);
        assert(states(tree@) =~= seq![FiberState::Active]);
    }
    if !subscribed.subscription.ready(registries) {
        return Err("missing optional provider gated its consumer".to_owned());
    }
    Ok(subscribed.subscription)
}

/// What one realm provides, another realm shows only if they are the same.
/// Gives what the other realm shows.
fn keeps_realms_apart(tree: &mut ScopeTree, registries: &mut Registries, shared: bool) -> (result:
    Result<Option<ServiceHandle>, String>)
    requires
        unused_host(*old(tree), *old(registries)),
    ensures
        final(tree).wf(),
        final(registries).wf(),
        states(final(tree)@) == seq![FiberState::Active],
        final(tree).ids == used(old(tree).ids, 1, 1, if shared {
            2
        } else {
            4
        }),
        ({
            let generation = old(tree).ids.generation + if shared {
                1int
            } else {
                3int
            };
            let service = if shared {
                catalog_service("bus"@, RealmModel::Shared("shared"@))
            } else {
                catalog_service(
                    "storage"@,
                    RealmModel::Private(Generation((old(tree).ids.generation + 1) as u64)),
                )
            };
            &&& final(registries)@ == seq![
                registry_with(service, catalog_provider(generation, 1)),
            ]
            &&& match result {
                Ok(Some(found)) => {
                    &&& shared
                    &&& found.service@ == service
                    &&& found.generation.0 == generation
                    &&& found.value == 1
                },
                Ok(None) => !shared,
                Err(_) => false,
            }
        }),
{
    let root = ContextHandle::root(tree, registries);
    let name = if shared {
        "bus"
    } else {
        "storage"
    };
    let service = key(name);
    let (first, second) = if shared {
        (
            Some(RealmLabel::new("shared".to_owned())),
            Some(RealmLabel::new("shared".to_owned())),
        )
    } else {
        (None, None)
    };
    let alpha = root.isolate(&mut tree.ids, service.clone(), first);
    let beta = root.isolate(&mut tree.ids, service.clone(), second);
    proof {
        crate::context::assigned_values_are_found(
            root@.realms,
            service@,
            lookup(alpha@.realms, service@)->0,
            service@,
        );
        crate::context::assigned_values_are_found(
            root@.realms,
            service@,
            lookup(beta@.realms, service@)->0,
            service@,
        );
    }
    let ghost there = resolved(alpha@, service@);
    let ghost elsewhere = resolved(beta@, service@);
    let ghost before = registries@;
    let handle = match alpha.provide(
        tree,
        registries,
        service.clone(),
        CATALOG_SERVICE,
        1,
    ).result {
        Ok((handle, _)) => handle,
        Err(error) => return Err(error.message()),
    };
    proof {
        let entry = catalog_provider(handle.generation.0 as int, 1);
        assert(before[0].providers =~= Seq::empty());
        assert(entry_of(before, 0, elsewhere) is None);
        if there == elsewhere {
            provided_services_are_current(before, 0, there, entry);
        } else {
            provided_services_leave_others(before, 0, 0, there, entry, elsewhere);
        }
        assert(registries@[0].providers =~= seq![(there, entry)]);
        assert(registries@ =~= seq![registry_with(there, entry)]);
        assert(states(tree@) =~= seq![FiberState::Active]);
    }
    let found = match beta.get(registries, &service, CATALOG_SERVICE) {
        Ok(found) => found,
        Err(error) => return Err(error.message()),
    };
    match &found {
        Some(handle) => {
            if !shared {
                return Err("isolated realms leaked a provider".to_owned());
            }
            match handle.with(registries) {
                Ok(value) => {
                    if value != 1 {
                        return Err("shared realm did not coactivate its provider".to_owned());
                    }
                },
                Err(error) => return Err(error.message()),
            }
        },
        None => {
            if shared {
                return Err("shared realm provider is missing".to_owned());
            }
        },
    }
    Ok(found)
}

/// An object with two members.
fn pair(first: &str, first_value: JsonValue, second: &str, second_value: JsonValue) -> (result:
    JsonValue)
    ensures
        result@ == Json::Object(seq![(first@, first_value@), (second@, second_value@)]),
{
    let mut members: Vec<Member> = Vec::new();
    members.push(Member { key: first.to_owned(), value: first_value });
    members.push(Member { key: second.to_owned(), value: second_value });
    let result = JsonValue::Object(members);
    proof {
        lemma_array_view(result);
        assert(json_members(members@) =~= seq![
            (first@, first_value@),
            (second@, second_value@),
        ]);
    }
    result
}

/// An object with one member.
pub fn single(name: &str, value: JsonValue) -> (result: JsonValue)
    ensures
        result@ == Json::Object(seq![(name@, value@)]),
{
    let mut members: Vec<Member> = Vec::new();
    members.push(Member { key: name.to_owned(), value });
    let result = JsonValue::Object(members);
    proof {
        lemma_array_view(result);
        assert(json_members(members@) =~= seq![(name@, value@)]);
    }
    result
}

/// A text value.
pub fn text(value: &str) -> (result: JsonValue)
    ensures
        result@ == Json::String(value@),
{
    JsonValue::String(value.to_owned())
}

/// A value equals itself.
pub proof fn values_equal_themselves(value: Json)
    ensures
        same_json(value, value),
    decreases value,
{
    match value {
        Json::Array(values) => {
            assert forall|i: int| 0 <= i < values.len() implies same_json(
                #[trigger] values[i],
                values[i],
            ) by {
                values_equal_themselves(values[i]);
            }
        },
        Json::Object(members) => {
            assert forall|i: int| 0 <= i < members.len() implies same_json(
                (#[trigger] members[i]).1,
                members[i].1,
            ) by {
                values_equal_themselves(members[i].1);
            }
        },
        _ => {},
    }
}

/// Setting the two members of an object once more replaces both.
proof fn lemma_two_members(first: Seq<char>, second: Seq<char>, a: Json, b: Json, c: Json, d: Json)
    requires
        first != second,
        !text_before(second, first),
    ensures
        ({
            let none = Seq::<(Seq<char>, Json)>::empty();
            let once = overlaid(none, seq![(first, a), (second, b)], 2);
            &&& once == seq![(first, a), (second, b)]
            &&& overlaid(once, seq![(first, c), (second, d)], 2) == seq![(first, c), (second, d)]
        }),
{
    let none = Seq::<(Seq<char>, Json)>::empty();
    let base = seq![(first, a), (second, b)];
    let over = seq![(first, c), (second, d)];
    reveal_with_fuel(overlaid, 3);
    reveal_with_fuel(with_member, 3);
    let one = seq![(first, a)];
    assert(with_member(none, first, a) =~= one);
    assert(one.drop_first() =~= none);
    assert(with_member(one, second, b) =~= base);
    assert(base.drop_first() =~= seq![(second, b)]);
    let half = seq![(first, c), (second, b)];
    assert(with_member(base, first, c) =~= half);
    assert(half.drop_first() =~= seq![(second, b)]);
    assert(seq![(second, b)].drop_first() =~= none);
    assert(with_member(half, second, d) =~= over);
}

/// What an ancestor intercepts.
pub open spec fn outer_intercept() -> Json {
    Json::Object(
        seq![
            ("retry"@, Json::Object(seq![("attempts"@, Json::Number(Number::Unsigned(1)))])),
            ("source"@, Json::String("parent"@)),
        ],
    )
}

/// What a descendant intercepts.
pub open spec fn inner_intercept() -> Json {
    Json::Object(
        seq![
            ("retry"@, Json::Object(seq![("backoff"@, Json::String("fast"@))])),
            ("source"@, Json::String("child"@)),
        ],
    )
}

/// Of the intercepts of a service, those of descendants win. Gives the context
/// of the descendant.
fn merges_intercepts(context: &ContextHandle) -> (result: Result<ContextHandle, String>)
    requires
        chain_of(context@, catalog_key("config"@)).len() == 0,
    ensures
        ({
            let service = catalog_key("config"@);
            let chain = seq![outer_intercept(), inner_intercept()];
            match result {
                Ok(inner) => {
                    &&& inner@ == (ContextModel {
                        intercepts: assigned(
                            assigned(context@.intercepts, service, seq![outer_intercept()]),
                            service,
                            chain,
                        ),
                        ..context@
                    })
                    &&& chain_of(inner@, service) == chain
                    &&& Json::Object(merged_members(chain, 2)) == inner_intercept()
                },
                Err(_) => false,
            }
        }),
{
    let service = key("config");
    let parent = pair(
        "retry",
        single("attempts", JsonValue::Number(Number::Unsigned(1))),
        "source",
        text("parent"),
    );
    let child = pair("retry", single("backoff", text("fast")), "source", text("child"));
    let expected = pair("retry", single("backoff", text("fast")), "source", text("child"));
    let ghost outer = parent@;
    let ghost inner = child@;
    let outer_context = context.intercept(service.clone(), parent);
    let inner_context = outer_context.intercept(service.clone(), child);
    let merged = inner_context.intercept_config(&service);
    proof {
        assert(service@ == catalog_key("config"@));
        assert(outer == outer_intercept() && inner == inner_intercept());
        crate::context::assigned_values_are_found(
            context@.intercepts,
            service@,
            seq![outer],
            service@,
        );
        assert(chain_of(context@, service@) =~= Seq::empty());
        assert(Seq::<Json>::empty().push(outer) =~= seq![outer]);
        assert(chain_of(outer_context@, service@) == seq![outer]);
        crate::context::assigned_values_are_found(
            outer_context@.intercepts,
            service@,
            seq![outer, inner],
            service@,
        );
        assert(seq![outer].push(inner) =~= seq![outer, inner]);
        let chain = chain_of(inner_context@, service@);
        assert(chain == seq![outer, inner]);
        reveal_strlit("retry");
        reveal_strlit("source");
        assert("retry"@[0] != "source"@[0]);
        assert("retry"@ != "source"@);
        assert(!text_before("source"@, "retry"@));
        reveal_with_fuel(merged_members, 3);
        lemma_two_members(
            "retry"@,
            "source"@,
            outer->Object_0[0].1,
            outer->Object_0[1].1,
            inner->Object_0[0].1,
            inner->Object_0[1].1,
        );
        assert(merged@ == expected@);
        values_equal_themselves(expected@);
    }
    if !values_equal(&merged, &expected) {
        return Err("intercept chain did not merge child precedence".to_owned());
    }
    Ok(inner_context)
}

/// The service scenarios.
pub open spec fn is_service_case(id: Seq<char>) -> bool {
    id == "late-provider"@ || id == "provider-replacement"@ || id == "duplicate-provider"@ || id
        == "stale-generation"@ || id == "provider-removal-recovery"@ || id
        == "optional-dependency"@ || id == "isolate-realms"@ || id == "shared-realm"@ || id
        == "intercept-merge"@
}

/// Runs a service scenario. All of them pass.
pub fn services_case(id: &str) -> (result: Result<(), String>)
    ensures
        match result {
            Ok(()) => is_service_case(id@),
            Err(message) => !is_service_case(id@) && message@ == "unsupported service catalog case "@
                + quoted_text(id@),
        },
{
    let mut tree = ScopeTree::new();
    let mut registries = Registries::new();
    if same_text(id, "late-provider") {
        verdict(activates_late_consumers(&mut tree, &mut registries))
    } else if same_text(id, "provider-replacement") || same_text(id, "duplicate-provider")
        || same_text(id, "stale-generation") {
        verdict(replaces_providers(&mut tree, &mut registries, id))
    } else if same_text(id, "provider-removal-recovery") {
        verdict(recovers_from_removal(&mut tree, &mut registries))
    } else if same_text(id, "optional-dependency") {
        verdict(starts_without_optional_services(&mut tree, &mut registries))
    } else if same_text(id, "isolate-realms") {
        verdict(keeps_realms_apart(&mut tree, &mut registries, false))
    } else if same_text(id, "shared-realm") {
        verdict(keeps_realms_apart(&mut tree, &mut registries, true))
    } else if same_text(id, "intercept-merge") {
        let context = ContextHandle::root(&mut tree, &mut registries);
        verdict(merges_intercepts(&context))
    } else {
        Err(join2("unsupported service catalog case ", quoted(id).as_str()))
    }
}

}
