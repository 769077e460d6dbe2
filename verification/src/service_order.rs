//! The order of providers: by service, each service once.

use vstd::prelude::*;

use crate::service::{
    realm_before, service_before, with_provider, without_provider, RealmModel, ServiceEntry,
    ServiceModel,
};
use crate::text::{text_before, text_order_is_irreflexive, text_order_is_total, text_order_is_transitive};

verus! {

/// The providers are in service order, so no service has two.
pub open spec fn in_service_order(providers: Seq<(ServiceModel, ServiceEntry)>) -> bool {
    forall|i: int, j: int|
        0 <= i < j < providers.len() ==> service_before(
            (#[trigger] providers[i]).0,
            (#[trigger] providers[j]).0,
        )
}

proof fn realm_order(a: RealmModel, b: RealmModel, c: RealmModel)
    ensures
        !realm_before(a, a),
        a != b ==> realm_before(a, b) || realm_before(b, a),
        realm_before(a, b) && realm_before(b, c) ==> realm_before(a, c),
{
    match (a, b) {
        (RealmModel::Shared(x), RealmModel::Shared(y)) => {
            text_order_is_irreflexive(x);
            if x != y {
                text_order_is_total(x, y);
            }
            match c {
                RealmModel::Shared(z) => {
                    if text_before(x, y) && text_before(y, z) {
                        text_order_is_transitive(x, y, z);
                    }
                },
                _ => {},
            }
        },
        (RealmModel::Shared(x), _) => {
            text_order_is_irreflexive(x);
        },
        _ => {},
    }
}

/// Services have a strict total order.
pub proof fn service_order_is_total(a: ServiceModel, b: ServiceModel, c: ServiceModel)
    ensures
        !service_before(a, a),
        a != b ==> service_before(a, b) || service_before(b, a),
        service_before(a, b) && service_before(b, c) ==> service_before(a, c),
{
    realm_order(a.realm, b.realm, c.realm);
    text_order_is_irreflexive(a.key.name);
    text_order_is_irreflexive(a.key.contract_version);
    if a.key.name != b.key.name {
        text_order_is_total(a.key.name, b.key.name);
        text_order_is_irreflexive(b.key.name);
    } else if a.key.contract_version != b.key.contract_version {
        text_order_is_total(a.key.contract_version, b.key.contract_version);
    }
    if text_before(a.key.name, b.key.name) && text_before(b.key.name, c.key.name) {
        text_order_is_transitive(a.key.name, b.key.name, c.key.name);
    }
    if text_before(a.key.contract_version, b.key.contract_version) && text_before(
        b.key.contract_version,
        c.key.contract_version,
    ) {
        text_order_is_transitive(
            a.key.contract_version,
            b.key.contract_version,
            c.key.contract_version,
        );
    }
}

proof fn sources(
    providers: Seq<(ServiceModel, ServiceEntry)>,
    service: ServiceModel,
    entry: ServiceEntry,
    i: int,
)
    requires
        0 <= i < with_provider(providers, service, entry).len(),
    ensures
        with_provider(providers, service, entry)[i].0 == service || exists|j: int|
            0 <= j < providers.len() && #[trigger] providers[j] == with_provider(
                providers,
                service,
                entry,
            )[i],
    decreases providers.len(),
{
    let result = with_provider(providers, service, entry);
    if providers.len() > 0 && i > 0 {
        let rest = providers.drop_first();
        if providers[0].0 == service {
            assert(result[i] == providers[i]);
        } else if service_before(service, providers[0].0) {
            assert(result[i] == providers[i - 1]);
        } else {
            sources(rest, service, entry, i - 1);
            assert(result[i] == with_provider(rest, service, entry)[i - 1]);
            if result[i].0 != service {
                let j = choose|j: int|
                    0 <= j < rest.len() && #[trigger] rest[j] == with_provider(
                        rest,
                        service,
                        entry,
                    )[i - 1];
                assert(providers[j + 1] == result[i]);
            }
        }
    } else if providers.len() > 0 && result[0].0 != service {
        assert(providers[0] == result[0]);
    }
}

/// Providing a service keeps the providers in order.
pub proof fn providing_keeps_order(
    providers: Seq<(ServiceModel, ServiceEntry)>,
    service: ServiceModel,
    entry: ServiceEntry,
)
    requires
        in_service_order(providers),
    ensures
        in_service_order(with_provider(providers, service, entry)),
    decreases providers.len(),
{
    let result = with_provider(providers, service, entry);
    if providers.len() > 0 {
        let rest = providers.drop_first();
        let inner = with_provider(rest, service, entry);
        let inserted = providers[0].0 != service && service_before(service, providers[0].0);
        let deeper = providers[0].0 != service && !inserted;
        if deeper {
            assert forall|i: int, j: int| 0 <= i < j < rest.len() implies service_before(
                (#[trigger] rest[i]).0,
                (#[trigger] rest[j]).0,
            ) by {
                assert(rest[i] == providers[i + 1] && rest[j] == providers[j + 1]);
            }
            providing_keeps_order(rest, service, entry);
        }
        assert forall|i: int, j: int| 0 <= i < j < result.len() implies service_before(
            (#[trigger] result[i]).0,
            (#[trigger] result[j]).0,
        ) by {
            if inserted {
                assert(result[j] == providers[j - 1]);
                if i == 0 {
                    service_order_is_total(service, providers[0].0, providers[j - 1].0);
                } else {
                    assert(result[i] == providers[i - 1]);
                }
            } else if deeper {
                assert(result[j] == inner[j - 1]);
                if i == 0 {
                    sources(rest, service, entry, j - 1);
                    if inner[j - 1].0 == service {
                        service_order_is_total(service, providers[0].0, service);
                    } else {
                        let k = choose|k: int| 0 <= k < rest.len() && #[trigger] rest[k] == inner[j - 1];
                        assert(providers[k + 1] == inner[j - 1]);
                    }
                } else {
                    assert(result[i] == inner[i - 1]);
                }
            } else {
                assert(result[i].0 == providers[i].0 && result[j].0 == providers[j].0);
            }
        }
    }
}

/// Removing a service keeps the providers in order.
pub proof fn removing_keeps_order(
    providers: Seq<(ServiceModel, ServiceEntry)>,
    service: ServiceModel,
)
    requires
        in_service_order(providers),
    ensures
        in_service_order(without_provider(providers, service)),
        without_provider(providers, service).len() <= providers.len(),
        forall|i: int|
            0 <= i < without_provider(providers, service).len() ==> providers.contains(
                #[trigger] without_provider(providers, service)[i],
            ),
    decreases providers.len(),
{
    let result = without_provider(providers, service);
    if providers.len() > 0 {
        let rest = providers.drop_first();
        assert forall|i: int, j: int| 0 <= i < j < rest.len() implies service_before(
            (#[trigger] rest[i]).0,
            (#[trigger] rest[j]).0,
        ) by {
            assert(rest[i] == providers[i + 1] && rest[j] == providers[j + 1]);
        }
        removing_keeps_order(rest, service);
        let inner = without_provider(rest, service);
        if providers[0].0 == service {
            assert forall|i: int| 0 <= i < result.len() implies providers.contains(
                #[trigger] result[i],
            ) by {
                assert(result[i] == providers[i + 1]);
            }
        } else {
            assert forall|i: int| 0 <= i < result.len() implies providers.contains(
                #[trigger] result[i],
            ) by {
                if i == 0 {
                    assert(result[0] == providers[0]);
                } else {
                    assert(result[i] == inner[i - 1]);
                    let k = choose|k: int| 0 <= k < rest.len() && rest[k] == inner[i - 1];
                    assert(providers[k + 1] == result[i]);
                }
            }
            assert forall|i: int, j: int| 0 <= i < j < result.len() implies service_before(
                (#[trigger] result[i]).0,
                (#[trigger] result[j]).0,
            ) by {
                assert(result[j] == inner[j - 1]);
                if i == 0 {
                    assert(rest.contains(inner[j - 1]));
                    let k = choose|k: int| 0 <= k < rest.len() && rest[k] == inner[j - 1];
                    assert(providers[k + 1] == inner[j - 1]);
                } else {
                    assert(result[i] == inner[i - 1]);
                }
            }
        }
    }
}

}
