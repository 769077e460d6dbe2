//! Stable identifiers.

use vstd::prelude::*;
use vstd::string::*;

use crate::text::{decimal, decimal_text, join2, join3};

verus! {

/// Identifies an ownership scope.
#[derive(Clone, Copy, Debug, PartialEq, Eq, PartialOrd, Ord, Hash, Structural)]
pub struct ScopeId(pub u64);

/// Identifies a fiber.
#[derive(Clone, Copy, Debug, PartialEq, Eq, PartialOrd, Ord, Hash, Structural)]
pub struct FiberId(pub u64);

/// Identifies an effect or listener.
#[derive(Clone, Copy, Debug, PartialEq, Eq, PartialOrd, Ord, Hash, Structural)]
pub struct ResourceId(pub u64);

/// A monotonic version of a scope, provider or private realm.
#[derive(Clone, Copy, Debug, PartialEq, Eq, PartialOrd, Ord, Hash, Structural)]
pub struct Generation(pub u64);

impl ScopeId {
    /// The number of this identifier.
    pub fn get(self) -> (result: u64)
        ensures
            result == self.0,
    {
        self.0
    }

    /// The diagnostic form `scope:N`.
    pub fn text(self) -> (result: String)
        ensures
            result@ == "scope:"@ + decimal_text(self.0 as nat),
    {
        join2("scope:", decimal(self.0).as_str())
    }
}

impl FiberId {
    /// The number of this identifier.
    pub fn get(self) -> (result: u64)
        ensures
            result == self.0,
    {
        self.0
    }

    /// The diagnostic form `fiber:N`.
    pub fn text(self) -> (result: String)
        ensures
            result@ == "fiber:"@ + decimal_text(self.0 as nat),
    {
        join2("fiber:", decimal(self.0).as_str())
    }
}

impl ResourceId {
    /// The number of this identifier.
    pub fn get(self) -> (result: u64)
        ensures
            result == self.0,
    {
        self.0
    }

    /// The diagnostic form `resource:N`.
    pub fn text(self) -> (result: String)
        ensures
            result@ == "resource:"@ + decimal_text(self.0 as nat),
    {
        join2("resource:", decimal(self.0).as_str())
    }
}

impl Generation {
    /// The number of this generation.
    pub fn get(self) -> (result: u64)
        ensures
            result == self.0,
    {
        self.0
    }

    /// The diagnostic form `generation:N`.
    pub fn text(self) -> (result: String)
        ensures
            result@ == "generation:"@ + decimal_text(self.0 as nat),
    {
        join2("generation:", decimal(self.0).as_str())
    }
}

/// The sources of fresh identifiers. Each kind counts up from one and never
/// repeats; the last number of a counter is never handed out.
#[derive(Debug)]
pub struct IdSource {
    pub scope: u64,
    pub fiber: u64,
    pub resource: u64,
    pub generation: u64,
}

/// The number that a counter holds; the counter goes on to the one after it.
pub fn next(counter: &mut u64) -> (result: u64)
    requires
        *old(counter) < u64::MAX,
    ensures
        result == *old(counter),
        *final(counter) == *old(counter) + 1,
{
    let value = *counter;
    *counter = value + 1;
    value
}

/// What a counter held before and after calls of `next`, and what they gave.
pub open spec fn counted(held: Seq<u64>, given: Seq<u64>) -> bool {
    &&& held.len() == given.len() + 1
    &&& forall|i: int|
        0 <= i < given.len() ==> (#[trigger] given[i]) == held[i] && held[i] < u64::MAX && held[i
            + 1] == held[i] + 1
}

/// Successive numbers of one counter strictly increase, so none comes twice.
pub proof fn successive_numbers_increase(held: Seq<u64>, given: Seq<u64>, i: int, j: int)
    requires
        counted(held, given),
        0 <= i < j < given.len(),
    ensures
        given[i] < given[j],
    decreases j - i,
{
    assert(given[i] == held[i] && given[j - 1] == held[j - 1] && given[j] == held[j]);
    if i < j - 1 {
        successive_numbers_increase(held, given, i, j - 1);
    }
}

impl IdSource {
    /// Every counter starts at one.
    pub fn new() -> (result: Self)
        ensures
            result.scope == 1,
            result.fiber == 1,
            result.resource == 1,
            result.generation == 1,
    {
        IdSource { scope: 1, fiber: 1, resource: 1, generation: 1 }
    }

    /// A scope identifier that was not handed out before.
    pub fn next_scope_id(&mut self) -> (result: ScopeId)
        requires
            old(self).scope < u64::MAX,
        ensures
            result.0 == old(self).scope,
            *final(self) == (IdSource { scope: (old(self).scope + 1) as u64, ..*old(self) }),
    {
        ScopeId(next(&mut self.scope))
    }

    /// A fiber identifier that was not handed out before.
    pub fn next_fiber_id(&mut self) -> (result: FiberId)
        requires
            old(self).fiber < u64::MAX,
        ensures
            result.0 == old(self).fiber,
            *final(self) == (IdSource { fiber: (old(self).fiber + 1) as u64, ..*old(self) }),
    {
        FiberId(next(&mut self.fiber))
    }

    /// A resource identifier that was not handed out before.
    pub fn next_resource_id(&mut self) -> (result: ResourceId)
        requires
            old(self).resource < u64::MAX,
        ensures
            result.0 == old(self).resource,
            *final(self) == (IdSource { resource: (old(self).resource + 1) as u64, ..*old(self) }),
    {
        ResourceId(next(&mut self.resource))
    }

    /// A generation that was not handed out before.
    pub fn next_generation(&mut self) -> (result: Generation)
        requires
            old(self).generation < u64::MAX,
        ensures
            result.0 == old(self).generation,
            *final(self) == (IdSource {
                generation: (old(self).generation + 1) as u64,
                ..*old(self)
            }),
    {
        Generation(next(&mut self.generation))
    }
}

/// The kinds of identifiers that a source hands out.
#[derive(Clone, Copy, Debug, PartialEq, Eq, Structural)]
pub enum IdKind {
    Scope,
    Fiber,
    Resource,
    Generation,
}

/// The number that a source hands out next for a kind.
pub open spec fn next_number(ids: IdSource, kind: IdKind) -> u64 {
    match kind {
        IdKind::Scope => ids.scope,
        IdKind::Fiber => ids.fiber,
        IdKind::Resource => ids.resource,
        IdKind::Generation => ids.generation,
    }
}

/// A source after it handed one number out.
pub open spec fn after_one(ids: IdSource, kind: IdKind) -> IdSource {
    match kind {
        IdKind::Scope => IdSource { scope: (ids.scope + 1) as u64, ..ids },
        IdKind::Fiber => IdSource { fiber: (ids.fiber + 1) as u64, ..ids },
        IdKind::Resource => IdSource { resource: (ids.resource + 1) as u64, ..ids },
        IdKind::Generation => IdSource { generation: (ids.generation + 1) as u64, ..ids },
    }
}

/// A source after it handed out numbers of the kinds `kinds[..count]`.
pub open spec fn after_all(ids: IdSource, kinds: Seq<IdKind>, count: int) -> IdSource
    decreases count,
{
    if count <= 0 {
        ids
    } else {
        after_one(after_all(ids, kinds, count - 1), kinds[count - 1])
    }
}

/// The number handed out in draw `i`.
pub open spec fn drawn(ids: IdSource, kinds: Seq<IdKind>, i: int) -> u64 {
    next_number(after_all(ids, kinds, i), kinds[i])
}

/// No counter runs out in that many draws.
pub open spec fn lasts(ids: IdSource, draws: nat) -> bool {
    forall|kind: IdKind| #[trigger] next_number(ids, kind) + draws <= u64::MAX
}

proof fn numbers_only_grow(ids: IdSource, kinds: Seq<IdKind>, i: int, j: int, kind: IdKind)
    requires
        lasts(ids, kinds.len()),
        0 <= i <= j <= kinds.len(),
    ensures
        next_number(after_all(ids, kinds, i), kind) <= next_number(after_all(ids, kinds, j), kind),
        next_number(after_all(ids, kinds, j), kind) <= next_number(ids, kind) + j,
    decreases j,
{
    if i < j {
        numbers_only_grow(ids, kinds, i, j - 1, kind);
        assert(next_number(ids, kind) + kinds.len() <= u64::MAX);
    } else if j > 0 {
        numbers_only_grow(ids, kinds, j - 1, j - 1, kind);
        assert(next_number(ids, kind) + kinds.len() <= u64::MAX);
    }
}

/// The identifiers of a kind that are handed out one after the other, with
/// draws of other kinds between them, strictly increase, so none comes twice.
pub proof fn identifiers_strictly_increase(ids: IdSource, kinds: Seq<IdKind>, i: int, j: int)
    requires
        lasts(ids, kinds.len()),
        0 <= i < j < kinds.len(),
        kinds[i] == kinds[j],
    ensures
        drawn(ids, kinds, i) < drawn(ids, kinds, j),
{
    numbers_only_grow(ids, kinds, i, i, kinds[i]);
    numbers_only_grow(ids, kinds, i + 1, j, kinds[i]);
    assert(next_number(ids, kinds[i]) + kinds.len() <= u64::MAX);
}

/// The model of a service key: its name and its contract version.
#[verifier::ext_equal]
pub struct ServiceKeyModel {
    pub name: Seq<char>,
    pub contract_version: Seq<char>,
}

/// A versioned, stable identifier for a native service contract.
#[derive(Debug, PartialEq, Eq)]
pub struct ServiceKey {
    pub name: String,
    pub contract_version: String,
}

impl View for ServiceKey {
    type V = ServiceKeyModel;

    open spec fn view(&self) -> ServiceKeyModel {
        ServiceKeyModel { name: self.name@, contract_version: self.contract_version@ }
    }
}

impl Clone for ServiceKey {
    fn clone(&self) -> (result: Self)
        ensures
            result@ == self@,
    {
        ServiceKey { name: self.name.clone(), contract_version: self.contract_version.clone() }
    }
}

impl ServiceKey {
    pub fn new(name: String, contract_version: String) -> (result: Self)
        ensures
            result@ == (ServiceKeyModel { name: name@, contract_version: contract_version@ }),
    {
        ServiceKey { name, contract_version }
    }

    /// Whether both keys name the same contract and version.
    pub fn same(&self, other: &ServiceKey) -> (result: bool)
        ensures
            result == (self@ == other@),
    {
        self.name == other.name && self.contract_version == other.contract_version
    }

    /// The stable diagnostic key used in snapshots and errors.
    pub fn diagnostic_key(&self) -> (result: String)
        ensures
            result@ == key_text(self@),
    {
        join3(self.name.as_str(), "@", self.contract_version.as_str())
    }
}

/// The diagnostic form `name@version`.
pub open spec fn key_text(key: ServiceKeyModel) -> Seq<char> {
    key.name + "@"@ + key.contract_version
}

/// A stable name for an explicitly shared service realm.
#[derive(Debug, PartialEq, Eq)]
pub struct RealmLabel(pub String);

impl View for RealmLabel {
    type V = Seq<char>;

    open spec fn view(&self) -> Seq<char> {
        self.0@
    }
}

impl Clone for RealmLabel {
    fn clone(&self) -> (result: Self)
        ensures
            result@ == self@,
    {
        RealmLabel(self.0.clone())
    }
}

impl RealmLabel {
    pub fn new(value: String) -> (result: Self)
        ensures
            result@ == value@,
    {
        RealmLabel(value)
    }

    pub fn as_str(&self) -> (result: &str)
        ensures
            result@ == self@,
    {
        self.0.as_str()
    }
}

}
