//! Service registries: providers, listeners, and staged registries that are
//! committed into their parent.

use vstd::prelude::*;

use crate::ids::{Generation, IdSource, ResourceId};
use crate::json::{clone_values, json_list, lookup, JsonValue};
use crate::service::{
    dependency_list, other_services_are_untouched, provided_services_are_found, provider_list,
    service_before, snapshot_list, snapshot_of, with_provider, without_provider, DependencyModel,
    DependencySnapshot, Provider, ReadinessModel, ResolvedDependency, ResolvedService,
    ServiceEntry, ServiceModel, ServiceSnapshot,
};
use crate::service_order::{
    in_service_order, providing_keeps_order, removing_keeps_order, service_order_is_total,
};

verus! {

/// Someone who is told when a dependency changes.
#[derive(Debug)]
pub struct Listener {
    pub id: ResourceId,
    pub dependencies: Vec<ResolvedDependency>,
}

/// The identifiers and dependencies of a list of listeners.
pub open spec fn listener_list(listeners: Seq<Listener>) -> Seq<
    (ResourceId, Seq<DependencyModel>),
> {
    Seq::new(
        listeners.len(),
        |i: int| (listeners[i].id, dependency_list(listeners[i].dependencies@)),
    )
}

/// One registry.
#[derive(Debug)]
pub struct RegistryRecord {
    pub providers: Vec<Provider>,
    pub listeners: Vec<Listener>,
    pub committed: bool,
    pub parent: Option<usize>,
}

/// The model of a registry.
#[verifier::ext_equal]
pub struct RegistryModel {
    pub providers: Seq<(ServiceModel, ServiceEntry)>,
    pub listeners: Seq<(ResourceId, Seq<DependencyModel>)>,
    pub committed: bool,
    pub parent: Option<usize>,
}

impl View for RegistryRecord {
    type V = RegistryModel;

    open spec fn view(&self) -> RegistryModel {
        RegistryModel {
            providers: provider_list(self.providers@),
            listeners: listener_list(self.listeners@),
            committed: self.committed,
            parent: self.parent,
        }
    }
}

/// A handle to one registry.
#[derive(Clone, Copy, Debug, PartialEq, Eq, Structural)]
pub struct Registry {
    pub index: usize,
}

/// All registries of a host.
#[derive(Debug)]
pub struct Registries {
    pub records: Vec<RegistryRecord>,
}

/// The models of a list of registries.
pub open spec fn registry_list(records: Seq<RegistryRecord>) -> Seq<RegistryModel> {
    Seq::new(records.len(), |i: int| records[i]@)
}

impl View for Registries {
    type V = Seq<RegistryModel>;

    open spec fn view(&self) -> Seq<RegistryModel> {
        registry_list(self.records@)
    }
}

/// Every parent was created before its staged registries, and only staged
/// registries are committed.
pub open spec fn rooted(records: Seq<RegistryModel>) -> bool {
    forall|i: int|
        0 <= i < records.len() ==> {
            &&& (#[trigger] records[i]).parent matches Some(p) ==> p < i
            &&& records[i].committed ==> records[i].parent is Some
        }
}

/// The providers of every registry are in service order.
pub open spec fn sorted(records: Seq<RegistryModel>) -> bool {
    forall|i: int| 0 <= i < records.len() ==> in_service_order((#[trigger] records[i]).providers)
}

/// The provider of `service` seen from registry `r`: its own, unless it was
/// committed, or else that of its parent.
pub open spec fn entry_of(records: Seq<RegistryModel>, r: int, service: ServiceModel) -> Option<
    ServiceEntry,
>
    decreases r,
{
    if !(0 <= r < records.len()) {
        None
    } else {
        let own = if records[r].committed {
            None
        } else {
            lookup(records[r].providers, service)
        };
        match own {
            Some(entry) => Some(entry),
            None => match records[r].parent {
                Some(p) => if p < r {
                    entry_of(records, p as int, service)
                } else {
                    None
                },
                None => None,
            },
        }
    }
}

/// Every required dependency is provided.
pub open spec fn all_ready(
    records: Seq<RegistryModel>,
    r: int,
    dependencies: Seq<DependencyModel>,
) -> bool {
    forall|i: int|
        0 <= i < dependencies.len() ==> ((#[trigger] dependencies[i]).required ==> entry_of(
            records,
            r,
            dependencies[i].service,
        ) is Some)
}

/// What dependencies show from registry `r`.
pub open spec fn readiness(
    records: Seq<RegistryModel>,
    r: int,
    dependencies: Seq<DependencyModel>,
) -> ReadinessModel {
    ReadinessModel {
        ready: all_ready(records, r, dependencies),
        services: Seq::new(
            dependencies.len(),
            |i: int|
                snapshot_of(
                    dependencies[i].service,
                    entry_of(records, r, dependencies[i].service),
                    dependencies[i].intercepts,
                ),
        ),
    }
}

/// What dependencies show when their registry is gone.
pub open spec fn unavailable(dependencies: Seq<DependencyModel>) -> ReadinessModel {
    ReadinessModel {
        ready: forall|i: int|
            0 <= i < dependencies.len() ==> !(#[trigger] dependencies[i]).required,
        services: Seq::new(
            dependencies.len(),
            |i: int| snapshot_of(dependencies[i].service, None, dependencies[i].intercepts),
        ),
    }
}

/// One of the dependencies is `service`.
pub open spec fn concerns(dependencies: Seq<DependencyModel>, service: ServiceModel) -> bool {
    exists|i: int| 0 <= i < dependencies.len() && (#[trigger] dependencies[i]).service == service
}

/// What the listeners `listeners[from..]` of registry `r` are told after
/// `service` changed: those it concerns, in order of registration.
pub open spec fn told_from(
    records: Seq<RegistryModel>,
    r: int,
    from: int,
    service: ServiceModel,
) -> Seq<(ResourceId, ReadinessModel)>
    decreases records[r].listeners.len() - from,
{
    let listeners = records[r].listeners;
    if from < 0 || from >= listeners.len() {
        Seq::empty()
    } else if concerns(listeners[from].1, service) {
        seq![(listeners[from].0, readiness(records, r, listeners[from].1))] + told_from(
            records,
            r,
            from + 1,
            service,
        )
    } else {
        told_from(records, r, from + 1, service)
    }
}

/// A message to a listener.
#[derive(Debug)]
pub struct Delivery {
    pub listener: ResourceId,
    pub snapshot: DependencySnapshot,
}

/// The listeners and snapshots of a list of messages.
pub open spec fn delivery_list(deliveries: Seq<Delivery>) -> Seq<(ResourceId, ReadinessModel)> {
    Seq::new(deliveries.len(), |i: int| (deliveries[i].listener, deliveries[i].snapshot@))
}

/// What dependencies show when their registry is gone.
pub fn unavailable_snapshot(dependencies: &Vec<ResolvedDependency>) -> (result: DependencySnapshot)
    ensures
        result@ == unavailable(dependency_list(dependencies@)),
{
    let ghost model = dependency_list(dependencies@);
    let mut services: Vec<ServiceSnapshot> = Vec::new();
    let mut ready = true;
    let mut i: usize = 0;
    while i < dependencies.len()
        invariant
            i <= dependencies@.len(),
            model == dependency_list(dependencies@),
            services@.len() == i,
            ready == forall|k: int| 0 <= k < i ==> !(#[trigger] model[k]).required,
            forall|k: int|
                0 <= k < i ==> (#[trigger] services@[k])@ == snapshot_of(
                    model[k].service,
                    None,
                    model[k].intercepts,
                ),
        decreases dependencies@.len() - i,
    {
        let dependency = &dependencies[i];
        assert(model[i as int] == dependency@);
        let snapshot = ServiceSnapshot {
            key: dependency.service.key.diagnostic_key(),
            realm: dependency.service.realm.diagnostic_key(),
            generation: None,
            available: false,
            intercepts: clone_values(&dependency.intercepts),
        };
        services.push(snapshot);
        if dependency.required {
            ready = false;
        }
        i += 1;
    }
    assert(snapshot_list(services@) =~= unavailable(model).services);
    DependencySnapshot { ready, services }
}

impl Registries {
    /// Every registry comes after its parent, and its providers are in order.
    pub open spec fn wf(&self) -> bool {
        rooted(self@) && sorted(self@)
    }

    /// A host without registries.
    pub fn new() -> (result: Self)
        ensures
            result.wf(),
            result@ == Seq::<RegistryModel>::empty(),
    {
        let result = Registries { records: Vec::new() };
        assert(result@ =~= Seq::empty());
        result
    }

    fn add(&mut self, parent: Option<usize>) -> (result: Registry)
        requires
            old(self).wf(),
            parent matches Some(p) ==> p < old(self)@.len(),
        ensures
            final(self).wf(),
            result.index == old(self)@.len(),
            final(self)@ == old(self)@.push(
                RegistryModel {
                    providers: Seq::empty(),
                    listeners: Seq::empty(),
                    committed: false,
                    parent,
                },
            ),
    {
        let ghost before = self@;
        let index = self.records.len();
        let record = RegistryRecord {
            providers: Vec::new(),
            listeners: Vec::new(),
            committed: false,
            parent,
        };
        proof {
            assert(record@.providers =~= Seq::empty());
            assert(record@.listeners =~= Seq::empty());
        }
        self.records.push(record);
        proof {
            assert(self@ =~= before.push(record@));
            assert forall|i: int| 0 <= i < self@.len() implies {
                &&& (#[trigger] self@[i]).parent matches Some(p) ==> p < i
                &&& self@[i].committed ==> self@[i].parent is Some
            } by {
                if i < before.len() {
                    assert(self@[i] == before[i]);
                }
            }
            assert forall|i: int| 0 <= i < self@.len() implies in_service_order(
                (#[trigger] self@[i]).providers,
            ) by {
                if i < before.len() {
                    assert(self@[i] == before[i]);
                }
            }
        }
        Registry { index }
    }

    /// A registry of its own.
    pub fn open_registry(&mut self) -> (result: Registry)
        requires
            old(self).wf(),
        ensures
            final(self).wf(),
            result.index == old(self)@.len(),
            final(self)@ == old(self)@.push(
                RegistryModel {
                    providers: Seq::empty(),
                    listeners: Seq::empty(),
                    committed: false,
                    parent: None,
                },
            ),
    {
        self.add(None)
    }

    /// A registry whose providers stay apart until it is committed.
    pub fn staged(&mut self, parent: Registry) -> (result: Registry)
        requires
            old(self).wf(),
            parent.index < old(self)@.len(),
        ensures
            final(self).wf(),
            result.index == old(self)@.len(),
            final(self)@ == old(self)@.push(
                RegistryModel {
                    providers: Seq::empty(),
                    listeners: Seq::empty(),
                    committed: false,
                    parent: Some(parent.index),
                },
            ),
    {
        self.add(Some(parent.index))
    }

    /// The provider of a service seen from a registry.
    pub fn entry(&self, registry: Registry, service: &ResolvedService) -> (result: Option<
        ServiceEntry,
    >)
        requires
            self.wf(),
            registry.index < self@.len(),
        ensures
            result == entry_of(self@, registry.index as int, service@),
        decreases registry.index,
    {
        let record = &self.records[registry.index];
        assert(self@[registry.index as int] == record@);
        if !record.committed {
            if let Some(at) = crate::service::find_provider(&record.providers, service) {
                return Some(record.providers[at].entry);
            }
        }
        match record.parent {
            Some(parent) => self.entry(Registry { index: parent }, service),
            None => None,
        }
    }

    /// Whether `generation` is the current provider of a service.
    pub fn is_current(&self, registry: Registry, service: &ResolvedService, generation: Generation) -> (result:
        bool)
        requires
            self.wf(),
            registry.index < self@.len(),
        ensures
            result == (entry_of(self@, registry.index as int, service@) matches Some(entry)
                && entry.generation == generation),
    {
        match self.entry(registry, service) {
            Some(entry) => entry.generation == generation,
            None => false,
        }
    }

    /// What a service shows from a registry.
    pub fn snapshot(
        &self,
        registry: Registry,
        service: &ResolvedService,
        intercepts: Vec<JsonValue>,
    ) -> (result: ServiceSnapshot)
        requires
            self.wf(),
            registry.index < self@.len(),
        ensures
            result@ == snapshot_of(
                service@,
                entry_of(self@, registry.index as int, service@),
                json_list(intercepts@),
            ),
    {
        let entry = self.entry(registry, service);
        crate::service::make_snapshot(service, entry, intercepts)
    }

    /// What dependencies show from a registry.
    pub fn dependency_snapshot(&self, registry: Registry, dependencies: &Vec<ResolvedDependency>) -> (result:
        DependencySnapshot)
        requires
            self.wf(),
            registry.index < self@.len(),
        ensures
            result@ == readiness(self@, registry.index as int, dependency_list(dependencies@)),
    {
        let ghost model = dependency_list(dependencies@);
        let ghost r = registry.index as int;
        let mut services: Vec<ServiceSnapshot> = Vec::new();
        let mut ready = true;
        let mut i: usize = 0;
        while i < dependencies.len()
            invariant
                self.wf(),
                registry.index < self@.len(),
                r == registry.index,
                i <= dependencies@.len(),
                model == dependency_list(dependencies@),
                services@.len() == i,
                ready == forall|k: int|
                    0 <= k < i ==> ((#[trigger] model[k]).required ==> entry_of(
                        self@,
                        r,
                        model[k].service,
                    ) is Some),
                forall|k: int|
                    0 <= k < i ==> (#[trigger] services@[k])@ == snapshot_of(
                        model[k].service,
                        entry_of(self@, r, model[k].service),
                        model[k].intercepts,
                    ),
            decreases dependencies@.len() - i,
        {
            let dependency = &dependencies[i];
            assert(model[i as int] == dependency@);
            let snapshot = self.snapshot(
                registry,
                &dependency.service,
                clone_values(&dependency.intercepts),
            );
            if dependency.required && !snapshot.available {
                ready = false;
            }
            services.push(snapshot);
            i += 1;
        }
        assert(snapshot_list(services@) =~= readiness(self@, r, model).services);
        DependencySnapshot { ready, services }
    }

    /// The messages to the listeners of a registry after a service changed.
    pub fn notify(&self, registry: Registry, changed: &ResolvedService) -> (result: Vec<Delivery>)
        requires
            self.wf(),
            registry.index < self@.len(),
        ensures
            delivery_list(result@) == told_from(self@, registry.index as int, 0, changed@),
    {
        let ghost r = registry.index as int;
        let record = &self.records[registry.index];
        assert(self@[r] == record@);
        let ghost listeners = self@[r].listeners;
        let ghost whole = told_from(self@, r, 0, changed@);
        let mut deliveries: Vec<Delivery> = Vec::new();
        let mut i: usize = 0;
        assert(delivery_list(deliveries@) =~= Seq::empty());
        assert(Seq::<(ResourceId, ReadinessModel)>::empty() + whole =~= whole);
        while i < record.listeners.len()
            invariant
                self.wf(),
                registry.index < self@.len(),
                r == registry.index,
                i <= record.listeners@.len(),
                listeners == listener_list(record.listeners@),
                listeners == self@[r].listeners,
                whole == told_from(self@, r, 0, changed@),
                whole == delivery_list(deliveries@) + told_from(self@, r, i as int, changed@),
            decreases record.listeners@.len() - i,
        {
            let listener = &record.listeners[i];
            let ghost dependencies = dependency_list(listener.dependencies@);
            assert(listeners[i as int] == (listener.id, dependencies));
            if depends_on(&listener.dependencies, changed) {
                let snapshot = self.dependency_snapshot(registry, &listener.dependencies);
                let ghost before = delivery_list(deliveries@);
                deliveries.push(Delivery { listener: listener.id, snapshot });
                proof {
                    let pair = (listener.id, snapshot@);
                    let rest = told_from(self@, r, i + 1, changed@);
                    assert(delivery_list(deliveries@) =~= before.push(pair));
                    assert(before + (seq![pair] + rest) =~= delivery_list(deliveries@) + rest);
                }
            }
            i += 1;
        }
        assert(delivery_list(deliveries@) + Seq::<(ResourceId, ReadinessModel)>::empty()
            =~= delivery_list(deliveries@));
        deliveries
    }
}

fn depends_on(dependencies: &Vec<ResolvedDependency>, service: &ResolvedService) -> (result: bool)
    ensures
        result == concerns(dependency_list(dependencies@), service@),
{
    let ghost model = dependency_list(dependencies@);
    let mut i: usize = 0;
    while i < dependencies.len()
        invariant
            i <= dependencies@.len(),
            model == dependency_list(dependencies@),
            forall|k: int| 0 <= k < i ==> (#[trigger] model[k]).service != service@,
        decreases dependencies@.len() - i,
    {
        assert(model[i as int] == dependencies@[i as int]@);
        if dependencies[i].service.same(service) {
            return true;
        }
        i += 1;
    }
    false
}

/// Where a registry puts new providers: itself, or its parent once it was
/// committed.
pub open spec fn target(records: Seq<RegistryModel>, r: int) -> int {
    match records[r].parent {
        Some(p) => if records[r].committed {
            p as int
        } else {
            r
        },
        None => r,
    }
}

/// The registry that holds the providers made through `r`: the first on the
/// way up that was not committed.
pub open spec fn holder(records: Seq<RegistryModel>, r: int) -> int
    decreases r,
{
    if !(0 <= r < records.len()) || !records[r].committed {
        r
    } else {
        match records[r].parent {
            Some(p) => if p < r {
                holder(records, p as int)
            } else {
                r
            },
            None => r,
        }
    }
}

/// Registries after `service` is provided in registry `t`.
pub open spec fn provided(
    records: Seq<RegistryModel>,
    t: int,
    service: ServiceModel,
    entry: ServiceEntry,
) -> Seq<RegistryModel> {
    records.update(
        t,
        RegistryModel {
            providers: with_provider(records[t].providers, service, entry),
            ..records[t]
        },
    )
}

/// Registries after `service` is removed from registry `t`.
pub open spec fn removed(records: Seq<RegistryModel>, t: int, service: ServiceModel) -> Seq<
    RegistryModel,
> {
    records.update(
        t,
        RegistryModel {
            providers: without_provider(records[t].providers, service),
            ..records[t]
        },
    )
}

/// The provider of `service` in registry `t` has that generation.
pub open spec fn holds_generation(
    records: Seq<RegistryModel>,
    t: int,
    service: ServiceModel,
    generation: Generation,
) -> bool {
    lookup(records[t].providers, service) matches Some(entry) && entry.generation == generation
}

/// Providers after those of `added[..count]` joined them.
pub open spec fn joined(
    providers: Seq<(ServiceModel, ServiceEntry)>,
    added: Seq<(ServiceModel, ServiceEntry)>,
    count: int,
) -> Seq<(ServiceModel, ServiceEntry)>
    decreases count,
{
    if count <= 0 {
        providers
    } else {
        with_provider(
            joined(providers, added, count - 1),
            added[count - 1].0,
            added[count - 1].1,
        )
    }
}

/// Registries after staged registry `r` was committed into its parent `p`.
pub open spec fn committed(records: Seq<RegistryModel>, r: int, p: int) -> Seq<RegistryModel> {
    let added = records[r].providers;
    records.update(
        p,
        RegistryModel {
            providers: joined(records[p].providers, added, added.len() as int),
            ..records[p]
        },
    ).update(r, RegistryModel { committed: true, ..records[r] })
}

/// What the listeners of registry `p` are told after the services of
/// `added[..count]` changed, one service after the other.
pub open spec fn told_all(
    records: Seq<RegistryModel>,
    p: int,
    added: Seq<(ServiceModel, ServiceEntry)>,
    count: int,
) -> Seq<(ResourceId, ReadinessModel)>
    decreases count,
{
    if count <= 0 {
        Seq::empty()
    } else {
        told_all(records, p, added, count - 1) + told_from(records, p, 0, added[count - 1].0)
    }
}

/// Services with one more, in order and each once.
pub open spec fn with_service(services: Seq<ServiceModel>, service: ServiceModel) -> Seq<
    ServiceModel,
>
    decreases services.len(),
{
    if services.len() == 0 {
        seq![service]
    } else if services[0] == service {
        services
    } else if service_before(service, services[0]) {
        seq![service] + services
    } else {
        seq![services[0]] + with_service(services.drop_first(), service)
    }
}

/// Services with those of `providers[..count]`, in order and each once.
pub open spec fn with_services(
    services: Seq<ServiceModel>,
    providers: Seq<(ServiceModel, ServiceEntry)>,
    count: int,
) -> Seq<ServiceModel>
    decreases count,
{
    if count <= 0 {
        services
    } else {
        with_service(with_services(services, providers, count - 1), providers[count - 1].0)
    }
}

/// Every service that has a provider seen from registry `r`, in order.
pub open spec fn visible(records: Seq<RegistryModel>, r: int) -> Seq<ServiceModel>
    decreases r,
{
    if !(0 <= r < records.len()) {
        Seq::empty()
    } else {
        let above = match records[r].parent {
            Some(p) => if p < r {
                visible(records, p as int)
            } else {
                Seq::empty()
            },
            None => Seq::empty(),
        };
        if records[r].committed {
            above
        } else {
            with_services(above, records[r].providers, records[r].providers.len() as int)
        }
    }
}

/// The models of a list of services.
pub open spec fn service_list(services: Seq<ResolvedService>) -> Seq<ServiceModel> {
    Seq::new(services.len(), |i: int| services[i]@)
}

fn add_service(services: &mut Vec<ResolvedService>, service: ResolvedService)
    ensures
        service_list(final(services)@) == with_service(service_list(old(services)@), service@),
{
    let ghost model = service_list(services@);
    let mut i: usize = 0;
    assert(model.subrange(0, model.len() as int) =~= model);
    assert(model.subrange(0, 0) + with_service(model, service@) =~= with_service(model, service@));
    while i < services.len()
        invariant
            i <= services@.len(),
            services@ == old(services)@,
            model == service_list(old(services)@),
            with_service(model, service@) == model.subrange(0, i as int) + with_service(
                model.subrange(i as int, model.len() as int),
                service@,
            ),
        decreases services@.len() - i,
    {
        let ghost rest = model.subrange(i as int, model.len() as int);
        assert(rest[0] == model[i as int]);
        assert(rest.drop_first() =~= model.subrange(i + 1, model.len() as int));
        if services[i].same(&service) {
            assert(model.subrange(0, i as int) + rest =~= model);
            return;
        }
        if service.before(&services[i]) {
            services.insert(i, service);
            assert(service_list(services@) =~= model.subrange(0, i as int) + (seq![service@]
                + rest));
            return;
        }
        assert(model.subrange(0, i + 1) =~= model.subrange(0, i as int) + seq![rest[0]]);
        assert(with_service(model, service@) =~= model.subrange(0, i + 1) + with_service(
            rest.drop_first(),
            service@,
        ));
        i += 1;
    }
    assert(model.subrange(i as int, model.len() as int) =~= Seq::empty());
    services.push(service);
    assert(service_list(services@) =~= model.subrange(0, i as int) + seq![service@]);
}

impl Registries {
    /// Provides a service with a fresh generation. Gives the generation and
    /// the messages to the listeners concerned.
    pub fn provide(
        &mut self,
        ids: &mut IdSource,
        registry: Registry,
        service: ResolvedService,
        kind: u64,
        value: u64,
    ) -> (result: (Generation, Vec<Delivery>))
        requires
            old(self).wf(),
            registry.index < old(self)@.len(),
            old(ids).generation < u64::MAX,
        ensures
            final(self).wf(),
            result.0.0 == old(ids).generation,
            *final(ids) == (IdSource {
                generation: (old(ids).generation + 1) as u64,
                ..*old(ids)
            }),
            final(self)@ == provided(
                old(self)@,
                target(old(self)@, registry.index as int),
                service@,
                ServiceEntry { generation: result.0, kind, value },
            ),
            delivery_list(result.1@) == told_from(
                final(self)@,
                target(old(self)@, registry.index as int),
                0,
                service@,
            ),
    {
        let ghost before = self@;
        let generation = ids.next_generation();
        let entry = ServiceEntry { generation, kind, value };
        assert(self@[registry.index as int] == self.records@[registry.index as int]@);
        let at: usize = match self.records[registry.index].parent {
            Some(parent) => if self.records[registry.index].committed {
                parent
            } else {
                registry.index
            },
            None => registry.index,
        };
        crate::service::set_provider(&mut self.records[at].providers, service.clone(), entry);
        proof {
            assert(self@ =~= provided(before, at as int, service@, entry));
            providing_keeps_order(before[at as int].providers, service@, entry);
            keeps_roots(before, self@);
        }
        let deliveries = self.notify(Registry { index: at }, &service);
        (generation, deliveries)
    }

    /// The registry that holds the providers made through this one.
    pub fn holding(&self, registry: Registry) -> (result: Registry)
        requires
            self.wf(),
            registry.index < self@.len(),
        ensures
            result.index == holder(self@, registry.index as int),
            result.index <= registry.index,
            !self@[result.index as int].committed,
        decreases registry.index,
    {
        assert(self@[registry.index as int] == self.records@[registry.index as int]@);
        if self.records[registry.index].committed {
            if let Some(parent) = self.records[registry.index].parent {
                return self.holding(Registry { index: parent });
            }
        }
        registry
    }

    /// Removes a provider, if it is still the one of that generation. Says
    /// whether it was, and gives the messages to the listeners concerned.
    pub fn remove_if_current(
        &mut self,
        registry: Registry,
        service: &ResolvedService,
        generation: Generation,
    ) -> (result: (bool, Vec<Delivery>))
        requires
            old(self).wf(),
            registry.index < old(self)@.len(),
        ensures
            final(self).wf(),
            ({
                let t = holder(old(self)@, registry.index as int);
                &&& result.0 == holds_generation(old(self)@, t, service@, generation)
                &&& if result.0 {
                    &&& final(self)@ == removed(old(self)@, t, service@)
                    &&& delivery_list(result.1@) == told_from(final(self)@, t, 0, service@)
                } else {
                    &&& final(self)@ == old(self)@
                    &&& result.1@.len() == 0
                }
            }),
        decreases registry.index,
    {
        let ghost before = self@;
        assert(self@[registry.index as int] == self.records@[registry.index as int]@);
        if self.records[registry.index].committed {
            if let Some(parent) = self.records[registry.index].parent {
                return self.remove_if_current(Registry { index: parent }, service, generation);
            }
        }
        let found = crate::service::find_provider(&self.records[registry.index].providers, service);
        match found {
            Some(at) => {
                if self.records[registry.index].providers[at].entry.generation != generation {
                    return (false, Vec::new());
                }
                let ghost model = provider_list(self.records@[registry.index as int].providers@);
                self.records[registry.index].providers.remove(at);
                proof {
                    assert(provider_list(self.records@[registry.index as int].providers@)
                        =~= model.remove(at as int));
                    assert(self@ =~= removed(before, registry.index as int, service@));
                    removing_keeps_order(before[registry.index as int].providers, service@);
                    keeps_roots(before, self@);
                }
                let deliveries = self.notify(registry, service);
                (true, deliveries)
            },
            None => (false, Vec::new()),
        }
    }

    /// Every service that has a provider seen from a registry, in order.
    pub fn provider_services(&self, registry: Registry) -> (result: Vec<ResolvedService>)
        requires
            self.wf(),
            registry.index < self@.len(),
        ensures
            service_list(result@) == visible(self@, registry.index as int),
        decreases registry.index,
    {
        let record = &self.records[registry.index];
        assert(self@[registry.index as int] == record@);
        let mut services: Vec<ResolvedService> = match record.parent {
            Some(parent) => self.provider_services(Registry { index: parent }),
            None => Vec::new(),
        };
        let ghost above = service_list(services@);
        proof {
            if record.parent is None {
                assert(above =~= Seq::empty());
            }
        }
        if record.committed {
            return services;
        }
        let ghost providers = provider_list(record.providers@);
        let mut i: usize = 0;
        while i < record.providers.len()
            invariant
                i <= record.providers@.len(),
                providers == provider_list(record.providers@),
                service_list(services@) == with_services(above, providers, i as int),
            decreases record.providers@.len() - i,
        {
            assert(providers[i as int].0 == record.providers@[i as int].service@);
            add_service(&mut services, record.providers[i].service.clone());
            i += 1;
        }
        services
    }

    /// Registers a listener.
    pub fn register_listener(
        &mut self,
        ids: &mut IdSource,
        registry: Registry,
        dependencies: Vec<ResolvedDependency>,
    ) -> (result: ResourceId)
        requires
            old(self).wf(),
            registry.index < old(self)@.len(),
            old(ids).resource < u64::MAX,
        ensures
            final(self).wf(),
            result.0 == old(ids).resource,
            *final(ids) == (IdSource { resource: (old(ids).resource + 1) as u64, ..*old(ids) }),
            final(self)@ == old(self)@.update(
                registry.index as int,
                RegistryModel {
                    listeners: old(self)@[registry.index as int].listeners.push(
                        (result, dependency_list(dependencies@)),
                    ),
                    ..old(self)@[registry.index as int]
                },
            ),
    {
        let ghost before = self@;
        let ghost at = registry.index as int;
        let id = ids.next_resource_id();
        assert(self@[at] == self.records@[at]@);
        let ghost held = listener_list(self.records@[at].listeners@);
        self.records[registry.index].listeners.push(Listener { id, dependencies });
        proof {
            assert(listener_list(self.records@[at].listeners@) =~= held.push(
                (id, dependency_list(dependencies@)),
            ));
            assert(self@ =~= before.update(
                at,
                RegistryModel {
                    listeners: before[at].listeners.push((id, dependency_list(dependencies@))),
                    ..before[at]
                },
            ));
            keeps_roots(before, self@);
        }
        id
    }

    /// Removes a listener, and says whether it was there.
    pub fn unregister_listener(&mut self, registry: Registry, id: ResourceId) -> (result: bool)
        requires
            old(self).wf(),
            registry.index < old(self)@.len(),
        ensures
            final(self).wf(),
            ({
                let at = registry.index as int;
                let listeners = old(self)@[at].listeners;
                &&& result == listening(listeners, id)
                &&& result ==> exists|k: int|
                    0 <= k < listeners.len() && (#[trigger] listeners[k]).0 == id && (forall|j: int|
                        0 <= j < k ==> (#[trigger] listeners[j]).0 != id) && final(self)@ == old(
                        self)@.update(
                        at,
                        RegistryModel { listeners: listeners.remove(k), ..old(self)@[at] },
                    )
                &&& !result ==> *final(self) == *old(self)
            }),
    {
        let ghost before = self@;
        let ghost at = registry.index as int;
        assert(self@[at] == self.records@[at]@);
        let ghost listeners = before[at].listeners;
        let mut i: usize = 0;
        while i < self.records[registry.index].listeners.len()
            invariant
                *self == *old(self),
                before == self@,
                at == registry.index,
                registry.index < self@.len(),
                listeners == before[at].listeners,
                listeners == listener_list(self.records@[at].listeners@),
                i <= listeners.len(),
                forall|j: int| 0 <= j < i ==> (#[trigger] listeners[j]).0 != id,
                self.wf(),
            decreases listeners.len() - i,
        {
            assert(listeners[i as int].0 == self.records@[at].listeners@[i as int].id);
            if self.records[registry.index].listeners[i].id == id {
                self.records[registry.index].listeners.remove(i);
                proof {
                    assert(listener_list(self.records@[at].listeners@) =~= listeners.remove(
                        i as int,
                    ));
                    assert(self@ =~= before.update(
                        at,
                        RegistryModel { listeners: listeners.remove(i as int), ..before[at] },
                    ));
                    keeps_roots(before, self@);
                    assert(listeners[i as int].0 == id);
                }
                return true;
            }
            i += 1;
        }
        false
    }

    /// Commits a staged registry: its providers join those of its parent, and
    /// the parent's listeners are told. Later providers go to the parent. A
    /// registry without a parent, or one that was committed before, is left
    /// as it is.
    pub fn commit(&mut self, registry: Registry) -> (result: Vec<Delivery>)
        requires
            old(self).wf(),
            registry.index < old(self)@.len(),
        ensures
            final(self).wf(),
            ({
                let r = registry.index as int;
                let record = old(self)@[r];
                match record.parent {
                    Some(p) => if record.committed {
                        final(self)@ == old(self)@ && result@.len() == 0
                    } else {
                        final(self)@ == committed(old(self)@, r, p as int) && delivery_list(
                            result@,
                        ) == told_all(
                            final(self)@,
                            p as int,
                            record.providers,
                            record.providers.len() as int,
                        )
                    },
                    None => final(self)@ == old(self)@ && result@.len() == 0,
                }
            }),
    {
        let ghost before = self@;
        let ghost r = registry.index as int;
        assert(self@[r] == self.records@[r]@);
        let parent: usize = match self.records[registry.index].parent {
            None => return Vec::new(),
            Some(parent) => parent,
        };
        if self.records[registry.index].committed {
            return Vec::new();
        }
        let ghost added = before[r].providers;
        let ghost p = parent as int;
        let mut i: usize = 0;
        while i < self.records[registry.index].providers.len()
            invariant
                self.records@.len() == before.len(),
                registry.index < before.len(),
                r == registry.index,
                p == parent,
                parent < registry.index,
                added == before[r].providers,
                added == provider_list(self.records@[r].providers@),
                i <= added.len(),
                self@ == before.update(
                    p,
                    RegistryModel {
                        providers: joined(before[p].providers, added, i as int),
                        ..before[p]
                    },
                ),
            decreases added.len() - i,
        {
            let service = self.records[registry.index].providers[i].service.clone();
            let entry = self.records[registry.index].providers[i].entry;
            assert(added[i as int] == (service@, entry));
            let ghost previous = self@;
            assert(previous[p] == self.records@[p]@);
            crate::service::set_provider(&mut self.records[parent].providers, service, entry);
            proof {
                assert(self@ =~= previous.update(p, self@[p]));
                assert(self@[p].providers == with_provider(previous[p].providers, service@, entry));
                assert(joined(before[p].providers, added, i + 1) == with_provider(
                    joined(before[p].providers, added, i as int),
                    service@,
                    entry,
                ));
                assert(self@[p] == (RegistryModel {
                    providers: joined(before[p].providers, added, i + 1),
                    ..before[p]
                }));
                assert(self@ =~= before.update(
                    p,
                    RegistryModel {
                        providers: joined(before[p].providers, added, i + 1),
                        ..before[p]
                    },
                ));
                assert(self@[r] == self.records@[r]@);
            }
            i += 1;
        }
        let ghost merged = self@;
        assert(merged[r] == before[r]);
        self.records[registry.index].committed = true;
        proof {
            assert(self@ =~= merged.update(r, self@[r]));
            assert(self@[r] == (RegistryModel { committed: true, ..merged[r] }));
            assert(self@ =~= committed(before, r, p));
            joining_keeps_order(before[p].providers, added, added.len() as int);
            keeps_roots(before, self@);
        }
        let mut deliveries: Vec<Delivery> = Vec::new();
        assert(delivery_list(deliveries@) =~= Seq::empty());
        let ghost done = self@;
        let mut k: usize = 0;
        while k < self.records[registry.index].providers.len()
            invariant
                self.wf(),
                self@ == done,
                registry.index < self@.len(),
                r == registry.index,
                p == parent,
                parent < self@.len(),
                added == provider_list(self.records@[r].providers@),
                k <= added.len(),
                delivery_list(deliveries@) == told_all(done, p, added, k as int),
            decreases added.len() - k,
        {
            let mut more = self.notify(
                Registry { index: parent },
                &self.records[registry.index].providers[k].service,
            );
            assert(added[k as int].0 == self.records@[r].providers@[k as int].service@);
            let ghost before_more = delivery_list(deliveries@);
            let ghost fresh = delivery_list(more@);
            deliveries.append(&mut more);
            assert(delivery_list(deliveries@) =~= before_more + fresh);
            k += 1;
        }
        deliveries
    }
}

/// A listener of that identifier is registered.
pub open spec fn listening(
    listeners: Seq<(ResourceId, Seq<DependencyModel>)>,
    id: ResourceId,
) -> bool {
    exists|k: int| 0 <= k < listeners.len() && (#[trigger] listeners[k]).0 == id
}

pub(crate) proof fn joining_keeps_order(
    providers: Seq<(ServiceModel, ServiceEntry)>,
    added: Seq<(ServiceModel, ServiceEntry)>,
    count: int,
)
    requires
        in_service_order(providers),
    ensures
        in_service_order(joined(providers, added, count)),
    decreases count,
{
    if count > 0 {
        joining_keeps_order(providers, added, count - 1);
        providing_keeps_order(
            joined(providers, added, count - 1),
            added[count - 1].0,
            added[count - 1].1,
        );
    }
}

proof fn keeps_roots(before: Seq<RegistryModel>, after: Seq<RegistryModel>)
    requires
        rooted(before),
        after.len() == before.len(),
        forall|i: int|
            0 <= i < before.len() ==> (#[trigger] after[i]).parent == before[i].parent && (
            after[i].committed ==> after[i].parent is Some) && in_service_order(after[i].providers),
    ensures
        rooted(after),
        sorted(after),
{
    assert forall|i: int| 0 <= i < after.len() implies {
        &&& (#[trigger] after[i]).parent matches Some(p) ==> p < i
        &&& after[i].committed ==> after[i].parent is Some
    } by {
        assert(before[i].parent == after[i].parent);
    }
}

/// What registries below `t` show does not depend on registry `t`.
proof fn earlier_registries_are_apart(
    before: Seq<RegistryModel>,
    after: Seq<RegistryModel>,
    t: int,
    q: int,
    service: ServiceModel,
)
    requires
        after.len() == before.len(),
        forall|i: int| 0 <= i < before.len() && i != t ==> #[trigger] after[i] == before[i],
        q < t,
    ensures
        entry_of(after, q, service) == entry_of(before, q, service),
    decreases q,
{
    if 0 <= q < before.len() {
        assert(after[q] == before[q]);
        match before[q].parent {
            Some(p) => {
                if p < q {
                    earlier_registries_are_apart(before, after, t, p as int, service);
                }
            },
            None => {},
        }
    }
}

/// A provided service is at once the one that the registry shows, under its
/// fresh generation, so that every handle of another generation is stale.
pub proof fn provided_services_are_current(
    records: Seq<RegistryModel>,
    r: int,
    service: ServiceModel,
    entry: ServiceEntry,
)
    requires
        rooted(records),
        0 <= r < records.len(),
        !records[target(records, r)].committed,
    ensures
        entry_of(provided(records, target(records, r), service, entry), r, service) == Some(entry),
{
    let t = target(records, r);
    let after = provided(records, t, service, entry);
    provided_services_are_found(records[t].providers, service, entry);
    assert(entry_of(after, t, service) == Some(entry));
    if t != r {
        assert(after[r] == records[r]);
    }
}

/// Providing a service leaves what a registry shows of every other service:
/// another key, or the same key in another realm.
pub proof fn provided_services_leave_others(
    records: Seq<RegistryModel>,
    t: int,
    q: int,
    service: ServiceModel,
    entry: ServiceEntry,
    other: ServiceModel,
)
    requires
        0 <= t < records.len(),
        other != service,
    ensures
        entry_of(provided(records, t, service, entry), q, other) == entry_of(records, q, other),
    decreases q,
{
    let after = provided(records, t, service, entry);
    if 0 <= q < records.len() {
        other_services_are_untouched(records[t].providers, service, entry, other);
        match records[q].parent {
            Some(p) => {
                if p < q {
                    provided_services_leave_others(records, t, p as int, service, entry, other);
                }
            },
            None => {},
        }
    }
}

/// What is provided in a staged registry stays out of sight of every registry
/// that was there before it, until it is committed.
pub proof fn staged_services_are_hidden(
    records: Seq<RegistryModel>,
    r: int,
    q: int,
    service: ServiceModel,
    entry: ServiceEntry,
    shown: ServiceModel,
)
    requires
        0 <= q < r < records.len(),
        !records[r].committed,
    ensures
        entry_of(provided(records, target(records, r), service, entry), q, shown) == entry_of(
            records,
            q,
            shown,
        ),
{
    let after = provided(records, r, service, entry);
    earlier_registries_are_apart(records, after, r, q, shown);
}

proof fn joined_services_are_found(
    providers: Seq<(ServiceModel, ServiceEntry)>,
    added: Seq<(ServiceModel, ServiceEntry)>,
    count: int,
    k: int,
)
    requires
        in_service_order(added),
        0 <= k < count <= added.len(),
    ensures
        lookup(joined(providers, added, count), added[k].0) == Some(added[k].1),
    decreases count,
{
    let before = joined(providers, added, count - 1);
    let (service, entry) = added[count - 1];
    if k == count - 1 {
        provided_services_are_found(before, service, entry);
    } else {
        joined_services_are_found(providers, added, count - 1, k);
        service_order_is_total(service, service, service);
        assert(added[k].0 != added[count - 1].0);
        other_services_are_untouched(before, service, entry, added[k].0);
    }
}

/// Committing a staged registry makes each of its services the one that its
/// parent shows.
pub proof fn committed_services_are_shown(records: Seq<RegistryModel>, r: int, p: int, k: int)
    requires
        0 <= p < r < records.len(),
        sorted(records),
        !records[p].committed,
        0 <= k < records[r].providers.len(),
    ensures
        entry_of(committed(records, r, p), p, records[r].providers[k].0) == Some(
            records[r].providers[k].1,
        ),
{
    let added = records[r].providers;
    joined_services_are_found(records[p].providers, added, added.len() as int, k);
    assert(committed(records, r, p)[p].providers == joined(
        records[p].providers,
        added,
        added.len() as int,
    ));
}

/// The registry that holds the providers made through another is open.
pub proof fn holders_are_open(records: Seq<RegistryModel>, q: int)
    requires
        rooted(records),
        0 <= q < records.len(),
    ensures
        0 <= holder(records, q) <= q,
        !records[holder(records, q)].committed,
    decreases q,
{
    if records[q].committed {
        holders_are_open(records, records[q].parent->0 as int);
    }
}

/// What is seen through a committed registry is what its holder shows, as long
/// as the committed registries stay as they are.
proof fn committed_registries_look_through(
    records: Seq<RegistryModel>,
    after: Seq<RegistryModel>,
    q: int,
    service: ServiceModel,
)
    requires
        rooted(records),
        0 <= q < records.len(),
        after.len() == records.len(),
        forall|i: int|
            0 <= i < records.len() && records[i].committed ==> #[trigger] after[i] == records[i],
    ensures
        entry_of(after, q, service) == entry_of(after, holder(records, q), service),
    decreases q,
{
    if records[q].committed {
        assert(after[q] == records[q]);
        committed_registries_look_through(records, after, records[q].parent->0 as int, service);
    }
}

/// Committing a staged registry makes each of its services the one that is
/// seen through every registry whose holder is its parent.
pub proof fn committed_services_are_seen(records: Seq<RegistryModel>, r: int, q: int, k: int)
    requires
        rooted(records),
        sorted(records),
        0 <= r < records.len(),
        0 <= q < records.len(),
        !records[r].committed,
        records[r].parent is Some,
        holder(records, q) == records[r].parent->0,
        0 <= k < records[r].providers.len(),
    ensures
        entry_of(
            committed(records, r, records[r].parent->0 as int),
            q,
            records[r].providers[k].0,
        ) == Some(records[r].providers[k].1),
{
    let p = records[r].parent->0 as int;
    let after = committed(records, r, p);
    let service = records[r].providers[k].0;
    holders_are_open(records, q);
    committed_services_are_shown(records, r, p, k);
    committed_registries_look_through(records, after, q, service);
}

pub(crate) proof fn removed_services_are_gone(
    providers: Seq<(ServiceModel, ServiceEntry)>,
    service: ServiceModel,
)
    requires
        in_service_order(providers),
    ensures
        lookup(without_provider(providers, service), service) is None,
    decreases providers.len(),
{
    if providers.len() > 0 {
        let rest = providers.drop_first();
        assert forall|i: int, j: int| 0 <= i < j < rest.len() implies service_before(
            (#[trigger] rest[i]).0,
            (#[trigger] rest[j]).0,
        ) by {
            assert(rest[i] == providers[i + 1]);
            assert(rest[j] == providers[j + 1]);
        }
        service_order_is_total(service, service, service);
        removed_services_are_gone(rest, service);
        if providers[0].0 == service {
            lookup_needs_a_member(rest, service);
            assert forall|i: int| 0 <= i < rest.len() implies (#[trigger] rest[i]).0
                != service by {
                assert(rest[i] == providers[i + 1]);
            }
        } else {
            let result = without_provider(providers, service);
            assert(result.drop_first() =~= without_provider(rest, service));
        }
    }
}

pub(crate) proof fn lookup_needs_a_member(
    providers: Seq<(ServiceModel, ServiceEntry)>,
    service: ServiceModel,
)
    ensures
        (forall|i: int| 0 <= i < providers.len() ==> (#[trigger] providers[i]).0 != service)
            ==> lookup(providers, service) is None,
{
    crate::json::lookup_finds_a_member(providers, service);
}

/// After a provider made through registry `q` is removed, `q` shows what the
/// parent of the registry that held it shows of the service, and nothing when
/// there is no parent.
pub proof fn removed_services_are_unavailable(
    records: Seq<RegistryModel>,
    q: int,
    service: ServiceModel,
)
    requires
        0 <= q < records.len(),
        rooted(records),
        sorted(records),
    ensures
        entry_of(removed(records, holder(records, q), service), q, service) == (match records[holder(
            records,
            q,
        )].parent {
            Some(p) => entry_of(records, p as int, service),
            None => None,
        }),
{
    let t = holder(records, q);
    let after = removed(records, t, service);
    holders_are_open(records, q);
    removed_services_are_gone(records[t].providers, service);
    committed_registries_look_through(records, after, q, service);
    match records[t].parent {
        Some(p) => earlier_registries_are_apart(records, after, t, p as int, service),
        None => {},
    }
}

}
