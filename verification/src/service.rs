//! Native services: who provides them, who waits for them, and which handles
//! are current.

use vstd::prelude::*;
use vstd::string::*;

use crate::ids::{key_text, Generation, RealmLabel, ServiceKey, ServiceKeyModel};
use crate::json::{clone_values, json_list, lookup, Json, JsonValue};
use crate::text::{comes_before, decimal, decimal_text, join2, text_before};

verus! {

/// A dependency which may gate a managed service consumer.
#[derive(Debug, PartialEq, Eq)]
pub enum Dependency {
    Required(ServiceKey),
    Optional(ServiceKey),
}

impl Dependency {
    /// The service that is depended on.
    pub open spec fn spec_key(&self) -> ServiceKeyModel {
        match self {
            Dependency::Required(key) => key@,
            Dependency::Optional(key) => key@,
        }
    }

    /// The service that is depended on.
    pub fn key(&self) -> (result: &ServiceKey)
        ensures
            result@ == self.spec_key(),
    {
        match self {
            Dependency::Required(key) => key,
            Dependency::Optional(key) => key,
        }
    }

    /// Whether the consumer waits for the service.
    pub fn is_required(&self) -> (result: bool)
        ensures
            result == (self is Required),
    {
        match self {
            Dependency::Required(_) => true,
            Dependency::Optional(_) => false,
        }
    }
}

impl Clone for Dependency {
    fn clone(&self) -> (result: Self)
        ensures
            result.spec_key() == self.spec_key(),
            (result is Required) == (self is Required),
    {
        match self {
            Dependency::Required(key) => Dependency::Required(key.clone()),
            Dependency::Optional(key) => Dependency::Optional(key.clone()),
        }
    }
}

/// Where a service is looked up.
#[derive(Debug, PartialEq, Eq)]
pub enum Realm {
    Root,
    Shared(RealmLabel),
    Private(Generation),
}

/// The model of a realm.
#[verifier::ext_equal]
pub enum RealmModel {
    Root,
    Shared(Seq<char>),
    Private(Generation),
}

impl View for Realm {
    type V = RealmModel;

    open spec fn view(&self) -> RealmModel {
        match self {
            Realm::Root => RealmModel::Root,
            Realm::Shared(label) => RealmModel::Shared(label@),
            Realm::Private(generation) => RealmModel::Private(*generation),
        }
    }
}

/// The diagnostic form of a realm.
pub open spec fn realm_text(realm: RealmModel) -> Seq<char> {
    match realm {
        RealmModel::Root => "root"@,
        RealmModel::Shared(label) => label,
        RealmModel::Private(generation) => "private-"@ + decimal_text(generation.0 as nat),
    }
}

/// The order of realms: the root, then labels, then private realms by age.
pub open spec fn realm_before(a: RealmModel, b: RealmModel) -> bool {
    match (a, b) {
        (RealmModel::Root, RealmModel::Root) => false,
        (RealmModel::Root, _) => true,
        (_, RealmModel::Root) => false,
        (RealmModel::Shared(x), RealmModel::Shared(y)) => text_before(x, y),
        (RealmModel::Shared(_), RealmModel::Private(_)) => true,
        (RealmModel::Private(_), RealmModel::Shared(_)) => false,
        (RealmModel::Private(x), RealmModel::Private(y)) => x.0 < y.0,
    }
}

impl Clone for Realm {
    fn clone(&self) -> (result: Self)
        ensures
            result@ == self@,
    {
        match self {
            Realm::Root => Realm::Root,
            Realm::Shared(label) => Realm::Shared(label.clone()),
            Realm::Private(generation) => Realm::Private(*generation),
        }
    }
}

impl Realm {
    /// The diagnostic form of this realm.
    pub fn diagnostic_key(&self) -> (result: String)
        ensures
            result@ == realm_text(self@),
    {
        match self {
            Realm::Root => "root".to_owned(),
            Realm::Shared(label) => label.as_str().to_owned(),
            Realm::Private(generation) => join2("private-", decimal(generation.0).as_str()),
        }
    }

    fn same(&self, other: &Realm) -> (result: bool)
        ensures
            result == (self@ == other@),
    {
        match (self, other) {
            (Realm::Root, Realm::Root) => true,
            (Realm::Shared(a), Realm::Shared(b)) => a.0 == b.0,
            (Realm::Private(a), Realm::Private(b)) => *a == *b,
            _ => false,
        }
    }

    fn before(&self, other: &Realm) -> (result: bool)
        ensures
            result == realm_before(self@, other@),
    {
        match (self, other) {
            (Realm::Root, Realm::Root) => false,
            (Realm::Root, _) => true,
            (_, Realm::Root) => false,
            (Realm::Shared(a), Realm::Shared(b)) => comes_before(a.as_str(), b.as_str()),
            (Realm::Shared(_), Realm::Private(_)) => true,
            (Realm::Private(_), Realm::Shared(_)) => false,
            (Realm::Private(a), Realm::Private(b)) => a.0 < b.0,
        }
    }
}

/// A service in one realm.
#[derive(Debug, PartialEq, Eq)]
pub struct ResolvedService {
    pub key: ServiceKey,
    pub realm: Realm,
}

/// The model of a service in one realm.
#[verifier::ext_equal]
pub struct ServiceModel {
    pub key: ServiceKeyModel,
    pub realm: RealmModel,
}

impl View for ResolvedService {
    type V = ServiceModel;

    open spec fn view(&self) -> ServiceModel {
        ServiceModel { key: self.key@, realm: self.realm@ }
    }
}

impl Clone for ResolvedService {
    fn clone(&self) -> (result: Self)
        ensures
            result@ == self@,
    {
        ResolvedService { key: self.key.clone(), realm: self.realm.clone() }
    }
}

/// The order of services: by name, then version, then realm.
pub open spec fn service_before(a: ServiceModel, b: ServiceModel) -> bool {
    if a.key.name != b.key.name {
        text_before(a.key.name, b.key.name)
    } else if a.key.contract_version != b.key.contract_version {
        text_before(a.key.contract_version, b.key.contract_version)
    } else {
        realm_before(a.realm, b.realm)
    }
}

impl ResolvedService {
    /// Whether both are the same service in the same realm.
    pub fn same(&self, other: &ResolvedService) -> (result: bool)
        ensures
            result == (self@ == other@),
    {
        self.key.same(&other.key) && self.realm.same(&other.realm)
    }

    pub(crate) fn before(&self, other: &ResolvedService) -> (result: bool)
        ensures
            result == service_before(self@, other@),
    {
        if self.key.name != other.key.name {
            comes_before(self.key.name.as_str(), other.key.name.as_str())
        } else if self.key.contract_version != other.key.contract_version {
            comes_before(
                self.key.contract_version.as_str(),
                other.key.contract_version.as_str(),
            )
        } else {
            self.realm.before(&other.realm)
        }
    }
}

/// A provided service: its version, the type of its value, and the value's
/// place in the host.
#[derive(Clone, Copy, Debug, PartialEq, Eq, Structural)]
pub struct ServiceEntry {
    pub generation: Generation,
    pub kind: u64,
    pub value: u64,
}

/// A dependency with the realm in which it is looked up.
#[derive(Debug)]
pub struct ResolvedDependency {
    pub service: ResolvedService,
    pub required: bool,
    pub intercepts: Vec<JsonValue>,
}

/// The model of a resolved dependency.
#[verifier::ext_equal]
pub struct DependencyModel {
    pub service: ServiceModel,
    pub required: bool,
    pub intercepts: Seq<Json>,
}

impl View for ResolvedDependency {
    type V = DependencyModel;

    open spec fn view(&self) -> DependencyModel {
        DependencyModel {
            service: self.service@,
            required: self.required,
            intercepts: json_list(self.intercepts@),
        }
    }
}

impl Clone for ResolvedDependency {
    fn clone(&self) -> (result: Self)
        ensures
            result@ == self@,
    {
        ResolvedDependency {
            service: self.service.clone(),
            required: self.required,
            intercepts: clone_values(&self.intercepts),
        }
    }
}

/// The models of a list of dependencies.
pub open spec fn dependency_list(dependencies: Seq<ResolvedDependency>) -> Seq<DependencyModel> {
    Seq::new(dependencies.len(), |i: int| dependencies[i]@)
}

/// Copies a list of dependencies.
pub fn clone_dependencies(dependencies: &Vec<ResolvedDependency>) -> (result: Vec<
    ResolvedDependency,
>)
    ensures
        dependency_list(result@) == dependency_list(dependencies@),
{
    let mut result: Vec<ResolvedDependency> = Vec::new();
    let mut i: usize = 0;
    while i < dependencies.len()
        invariant
            i <= dependencies@.len(),
            result@.len() == i,
            forall|j: int| 0 <= j < i ==> (#[trigger] result@[j])@ == dependencies@[j]@,
        decreases dependencies@.len() - i,
    {
        result.push(dependencies[i].clone());
        i += 1;
    }
    assert(dependency_list(result@) =~= dependency_list(dependencies@));
    result
}

/// A stable diagnostic description of one service in a context.
#[derive(Debug, PartialEq)]
pub struct ServiceSnapshot {
    pub key: String,
    pub realm: String,
    pub generation: Option<Generation>,
    pub available: bool,
    pub intercepts: Vec<JsonValue>,
}

/// The model of a service snapshot.
#[verifier::ext_equal]
pub struct SnapshotModel {
    pub key: Seq<char>,
    pub realm: Seq<char>,
    pub generation: Option<Generation>,
    pub available: bool,
    pub intercepts: Seq<Json>,
}

impl View for ServiceSnapshot {
    type V = SnapshotModel;

    open spec fn view(&self) -> SnapshotModel {
        SnapshotModel {
            key: self.key@,
            realm: self.realm@,
            generation: self.generation,
            available: self.available,
            intercepts: json_list(self.intercepts@),
        }
    }
}

impl Clone for ServiceSnapshot {
    fn clone(&self) -> (result: Self)
        ensures
            result@ == self@,
    {
        ServiceSnapshot {
            key: self.key.clone(),
            realm: self.realm.clone(),
            generation: self.generation,
            available: self.available,
            intercepts: clone_values(&self.intercepts),
        }
    }
}

/// The current activation input of a dependency subscription.
#[derive(Debug, PartialEq)]
pub struct DependencySnapshot {
    pub ready: bool,
    pub services: Vec<ServiceSnapshot>,
}

/// The model of a dependency snapshot.
#[verifier::ext_equal]
pub struct ReadinessModel {
    pub ready: bool,
    pub services: Seq<SnapshotModel>,
}

/// The models of a list of service snapshots.
pub open spec fn snapshot_list(services: Seq<ServiceSnapshot>) -> Seq<SnapshotModel> {
    Seq::new(services.len(), |i: int| services[i]@)
}

impl View for DependencySnapshot {
    type V = ReadinessModel;

    open spec fn view(&self) -> ReadinessModel {
        ReadinessModel { ready: self.ready, services: snapshot_list(self.services@) }
    }
}

impl Clone for DependencySnapshot {
    fn clone(&self) -> (result: Self)
        ensures
            result@ == self@,
    {
        let mut services: Vec<ServiceSnapshot> = Vec::new();
        let mut i: usize = 0;
        while i < self.services.len()
            invariant
                i <= self.services@.len(),
                services@.len() == i,
                forall|j: int| 0 <= j < i ==> (#[trigger] services@[j])@ == self.services@[j]@,
            decreases self.services@.len() - i,
        {
            services.push(self.services[i].clone());
            i += 1;
        }
        assert(snapshot_list(services@) =~= snapshot_list(self.services@));
        DependencySnapshot { ready: self.ready, services }
    }
}

/// What a service shows when it is provided as `entry`, or not at all.
pub open spec fn snapshot_of(
    service: ServiceModel,
    entry: Option<ServiceEntry>,
    intercepts: Seq<Json>,
) -> SnapshotModel {
    SnapshotModel {
        key: key_text(service.key),
        realm: realm_text(service.realm),
        generation: match entry {
            Some(entry) => Some(entry.generation),
            None => None,
        },
        available: entry is Some,
        intercepts,
    }
}

pub(crate) fn make_snapshot(service: &ResolvedService, entry: Option<ServiceEntry>, intercepts: Vec<JsonValue>) -> (result:
    ServiceSnapshot)
    ensures
        result@ == snapshot_of(service@, entry, json_list(intercepts@)),
{
    let generation = match entry {
        Some(entry) => Some(entry.generation),
        None => None,
    };
    ServiceSnapshot {
        key: service.key.diagnostic_key(),
        realm: service.realm.diagnostic_key(),
        generation,
        available: entry.is_some(),
        intercepts,
    }
}

/// One provider.
#[derive(Debug)]
pub struct Provider {
    pub service: ResolvedService,
    pub entry: ServiceEntry,
}

/// The services and entries of a list of providers.
pub open spec fn provider_list(providers: Seq<Provider>) -> Seq<(ServiceModel, ServiceEntry)> {
    Seq::new(providers.len(), |i: int| (providers[i].service@, providers[i].entry))
}

/// Providers after `service` is provided: replaced in place, or put before the
/// first later service.
pub open spec fn with_provider(
    providers: Seq<(ServiceModel, ServiceEntry)>,
    service: ServiceModel,
    entry: ServiceEntry,
) -> Seq<(ServiceModel, ServiceEntry)>
    decreases providers.len(),
{
    if providers.len() == 0 {
        seq![(service, entry)]
    } else if providers[0].0 == service {
        seq![(service, entry)] + providers.drop_first()
    } else if service_before(service, providers[0].0) {
        seq![(service, entry)] + providers
    } else {
        seq![providers[0]] + with_provider(providers.drop_first(), service, entry)
    }
}

/// Providers without the first of `service`.
pub open spec fn without_provider(
    providers: Seq<(ServiceModel, ServiceEntry)>,
    service: ServiceModel,
) -> Seq<(ServiceModel, ServiceEntry)>
    decreases providers.len(),
{
    if providers.len() == 0 {
        providers
    } else if providers[0].0 == service {
        providers.drop_first()
    } else {
        seq![providers[0]] + without_provider(providers.drop_first(), service)
    }
}

pub(crate) fn find_provider(providers: &Vec<Provider>, service: &ResolvedService) -> (result: Option<usize>)
    ensures
        match result {
            Some(at) => at < providers@.len() && providers@[at as int].service@ == service@
                && lookup(provider_list(providers@), service@) == Some(
                providers@[at as int].entry,
            ) && without_provider(provider_list(providers@), service@) == provider_list(
                providers@,
            ).remove(at as int),
            None => lookup(provider_list(providers@), service@) is None,
        },
{
    let ghost model = provider_list(providers@);
    let mut i: usize = 0;
    assert(model.subrange(0, model.len() as int) =~= model);
    assert(model.subrange(0, 0) + without_provider(model, service@) =~= without_provider(
        model,
        service@,
    ));
    while i < providers.len()
        invariant
            i <= providers@.len(),
            model == provider_list(providers@),
            lookup(model, service@) == lookup(
                model.subrange(i as int, model.len() as int),
                service@,
            ),
            without_provider(model, service@) == model.subrange(0, i as int) + without_provider(
                model.subrange(i as int, model.len() as int),
                service@,
            ),
        decreases providers@.len() - i,
    {
        let ghost rest = model.subrange(i as int, model.len() as int);
        assert(rest[0] == model[i as int]);
        assert(rest.drop_first() =~= model.subrange(i + 1, model.len() as int));
        if providers[i].service.same(service) {
            assert(model.subrange(0, i as int) + rest.drop_first() =~= model.remove(i as int));
            return Some(i);
        }
        assert(model.subrange(0, i + 1) =~= model.subrange(0, i as int) + seq![rest[0]]);
        assert(without_provider(model, service@) =~= model.subrange(0, i + 1) + without_provider(
            rest.drop_first(),
            service@,
        ));
        i += 1;
    }
    None
}

pub(crate) fn set_provider(providers: &mut Vec<Provider>, service: ResolvedService, entry: ServiceEntry)
    ensures
        provider_list(final(providers)@) == with_provider(
            provider_list(old(providers)@),
            service@,
            entry,
        ),
{
    let ghost model = provider_list(providers@);
    let mut i: usize = 0;
    assert(model.subrange(0, model.len() as int) =~= model);
    assert(model.subrange(0, 0) + with_provider(model, service@, entry) =~= with_provider(
        model,
        service@,
        entry,
    ));
    while i < providers.len()
        invariant
            i <= providers@.len(),
            providers@ == old(providers)@,
            model == provider_list(old(providers)@),
            with_provider(model, service@, entry) == model.subrange(0, i as int) + with_provider(
                model.subrange(i as int, model.len() as int),
                service@,
                entry,
            ),
        decreases providers@.len() - i,
    {
        let ghost rest = model.subrange(i as int, model.len() as int);
        assert(rest[0] == model[i as int]);
        assert(rest.drop_first() =~= model.subrange(i + 1, model.len() as int));
        if providers[i].service.same(&service) {
            providers[i].entry = entry;
            assert(provider_list(providers@) =~= model.subrange(0, i as int) + (seq![
                (service@, entry),
            ] + rest.drop_first()));
            return;
        }
        if service.before(&providers[i].service) {
            providers.insert(i, Provider { service, entry });
            assert(provider_list(providers@) =~= model.subrange(0, i as int) + (seq![
                (service@, entry),
            ] + rest));
            return;
        }
        assert(model.subrange(0, i + 1) =~= model.subrange(0, i as int) + seq![rest[0]]);
        assert(with_provider(model, service@, entry) =~= model.subrange(0, i + 1) + with_provider(
            rest.drop_first(),
            service@,
            entry,
        ));
        i += 1;
    }
    assert(model.subrange(i as int, model.len() as int) =~= Seq::empty());
    providers.push(Provider { service, entry });
    assert(provider_list(providers@) =~= model.subrange(0, i as int) + seq![(service@, entry)]);
}

/// Providing a service makes it the one found for that service.
pub proof fn provided_services_are_found(
    providers: Seq<(ServiceModel, ServiceEntry)>,
    service: ServiceModel,
    entry: ServiceEntry,
)
    ensures
        lookup(with_provider(providers, service, entry), service) == Some(entry),
    decreases providers.len(),
{
    if providers.len() > 0 {
        let result = with_provider(providers, service, entry);
        if providers[0].0 != service && !service_before(service, providers[0].0) {
            provided_services_are_found(providers.drop_first(), service, entry);
            assert(result.drop_first() =~= with_provider(providers.drop_first(), service, entry));
        }
    }
}

/// Providing a service leaves every other service as it was: another name,
/// another version, or the same key in another realm.
pub proof fn other_services_are_untouched(
    providers: Seq<(ServiceModel, ServiceEntry)>,
    service: ServiceModel,
    entry: ServiceEntry,
    other: ServiceModel,
)
    requires
        other != service,
    ensures
        lookup(with_provider(providers, service, entry), other) == lookup(providers, other),
        lookup(without_provider(providers, service), other) == lookup(providers, other),
    decreases providers.len(),
{
    let result = with_provider(providers, service, entry);
    if providers.len() == 0 {
        assert(result.drop_first() =~= providers);
        assert(lookup(result.drop_first(), other) == lookup(providers, other));
    } else if providers[0].0 == service {
        assert(result.drop_first() =~= providers.drop_first());
        assert(without_provider(providers, service) == providers.drop_first());
    } else {
        other_services_are_untouched(providers.drop_first(), service, entry, other);
        let shorter = without_provider(providers, service);
        assert(shorter.drop_first() =~= without_provider(providers.drop_first(), service));
        if service_before(service, providers[0].0) {
            assert(result.drop_first() =~= providers);
        } else {
            assert(result.drop_first() =~= with_provider(providers.drop_first(), service, entry));
        }
    }
}

}
