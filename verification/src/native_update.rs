//! Transactional updates: a candidate is staged beside the running plugin, and
//! takes its place only when it has started.

use vstd::prelude::*;

use crate::context::{ContextHandle, ContextModel};
use crate::json::JsonValue;
use crate::lifecycle::{FiberState, ScopeTree};
use crate::native::{
    native_config_fault, native_outcome, NativeFailure, NativePluginDescriptor, NativePluginError,
};
use crate::native_instance::{
    finish_failed, native_state_failure, native_with_cleanup, NativePluginInstance,
};
use crate::registry::{
    committed, committed_services_are_seen, delivery_list, entry_of, holder, provided, rooted,
    sorted, staged_services_are_hidden, target, told_all, Delivery, Registries, RegistryModel,
};
use crate::service::{ServiceEntry, ServiceModel};

verus! {

/// Why a plugin cannot be updated: the configuration, its state, or the lack
/// of a factory, in this order.
pub open spec fn update_fault(plugin: NativePluginInstance, tree: ScopeTree, config: JsonValue) -> Option<
    NativeFailure,
> {
    let state = plugin.shown(tree);
    if native_config_fault(plugin.descriptor@, config@) is Some {
        native_config_fault(plugin.descriptor@, config@)
    } else if state != FiberState::Active {
        Some(native_state_failure("update native plugin"@, state))
    } else if plugin.factory is None {
        Some(
            NativeFailure::Runtime {
                package: plugin.descriptor@.name,
                message: "transactional updates require an instance factory"@,
            },
        )
    } else {
        None
    }
}

/// Registries with a staged one for the context of a plugin.
pub open spec fn with_stage(records: Seq<RegistryModel>, parent: usize) -> Seq<RegistryModel> {
    records.push(
        RegistryModel {
            providers: Seq::empty(),
            listeners: Seq::empty(),
            committed: false,
            parent: Some(parent),
        },
    )
}

/// Registries after the staged registry `r` was committed; one that has no
/// parent, or was committed before, stays as it is.
pub open spec fn settled(records: Seq<RegistryModel>, r: int) -> Seq<RegistryModel> {
    match records[r].parent {
        Some(p) => if records[r].committed {
            records
        } else {
            committed(records, r, p as int)
        },
        None => records,
    }
}

/// What the host does after a candidate was tried.
#[derive(Debug)]
pub enum UpdateEnd {
    /// The candidate runs in its place; stop this plugin and dispose its
    /// fiber. What fails then is what the update reports.
    Retire(NativePluginInstance),
    /// The candidate failed; stop it, if that is due, and dispose its fiber.
    Discard(NativePluginInstance, NativePluginError),
}

impl NativePluginInstance {
    /// Stages the candidate of an update: a fresh instance of the same
    /// factory, whose services stay apart from those of the running plugin.
    /// `descriptor` is that of the plugin that the factory made.
    pub fn stage_update(
        &self,
        tree: &mut ScopeTree,
        registries: &mut Registries,
        descriptor: NativePluginDescriptor,
        config: JsonValue,
    ) -> (result: Result<NativePluginInstance, NativePluginError>)
        requires
            old(tree).wf(),
            old(registries).wf(),
            self.lives(*old(tree), *old(registries)),
            old(tree).has_scope_ids(),
            old(tree).ids.fiber < u64::MAX,
        ensures
            final(tree).wf(),
            final(registries).wf(),
            match update_fault(*self, *old(tree), config) {
                Some(failure) => result is Err && result->Err_0@ == failure && *final(tree) == *old(
                    tree,
                ) && *final(registries) == *old(registries),
                None => final(registries)@ == with_stage(
                    old(registries)@,
                    holder(old(registries)@, self.context.registry.index as int) as usize,
                ) && exists|context: ContextHandle|
                    #![trigger context@]
                    context@ == (ContextModel {
                        registry: context.registry,
                        ..self.context@
                    }) && context.registry.index == old(registries)@.len()
                        && NativePluginInstance::instantiated(
                        *old(tree),
                        descriptor,
                        self.factory,
                        context,
                        config,
                        result,
                        *final(tree),
                    ),
            },
    {
        let factory = match self.update(tree, &config) {
            Ok(factory) => factory,
            Err(error) => return Err(error),
        };
        let context = self.context.staged(registries);
        let ghost staged = context;
        assert(staged@ == (ContextModel { registry: staged.registry, ..self.context@ }));
        NativePluginInstance::instantiate_with_factory(tree, descriptor, factory, context, config)
    }

    /// Ends an update with the outcome of the candidate's hooks. A candidate
    /// that started takes the place of this plugin, and its services become
    /// visible; otherwise nothing changes here.
    pub fn conclude_update(
        &mut self,
        registries: &mut Registries,
        candidate: NativePluginInstance,
        started: Result<(), NativePluginError>,
    ) -> (result: (UpdateEnd, Vec<Delivery>))
        requires
            old(registries).wf(),
            candidate.context.registry.index < old(registries)@.len(),
        ensures
            final(registries).wf(),
            match started {
                Ok(()) => {
                    let r = candidate.context.registry.index as int;
                    let record = old(registries)@[r];
                    &&& *final(self) == candidate
                    &&& result.0 == UpdateEnd::Retire(*old(self))
                    &&& final(registries)@ == settled(old(registries)@, r)
                    &&& delivery_list(result.1@) == (if record.parent is Some
                        && !record.committed {
                        told_all(
                            final(registries)@,
                            record.parent->0 as int,
                            record.providers,
                            record.providers.len() as int,
                        )
                    } else {
                        Seq::empty()
                    })
                },
                Err(error) => {
                    &&& *final(self) == *old(self)
                    &&& result.0 == UpdateEnd::Discard(candidate, error)
                    &&& *final(registries) == *old(registries)
                    &&& result.1@.len() == 0
                },
            },
    {
        match started {
            Ok(()) => {
                let deliveries = candidate.context.commit_staged(registries);
                assert(deliveries@.len() == 0 ==> delivery_list(deliveries@) =~= Seq::empty());
                let mut retired = candidate;
                core::mem::swap(self, &mut retired);
                (UpdateEnd::Retire(retired), deliveries)
            },
            Err(error) => (UpdateEnd::Discard(candidate, error), Vec::new()),
        }
    }
}

/// What an update reports, given what cleaning up after it gave.
pub open spec fn update_report(
    started: Result<(), NativeFailure>,
    cleanup: Result<(), NativeFailure>,
) -> Result<(), NativeFailure> {
    match started {
        Ok(()) => cleanup,
        Err(failure) => Err(native_with_cleanup(failure, cleanup)),
    }
}

/// The outcome of an update: of a successful one that of stopping the retired
/// plugin, of a failed one its failure, together with what failed while the
/// candidate was disposed.
pub fn update_outcome(
    started: Result<(), NativePluginError>,
    cleanup: Result<(), NativePluginError>,
) -> (result: Result<(), NativePluginError>)
    ensures
        native_outcome(result) == update_report(native_outcome(started), native_outcome(cleanup)),
{
    match started {
        Ok(()) => cleanup,
        Err(failure) => Err(finish_failed(failure, cleanup)),
    }
}

/// While a candidate is staged, the service that it provides changes nothing
/// that a registry of the host shows, and after a failed start nothing has to
/// be taken back there.
pub proof fn candidates_are_out_of_sight(
    records: Seq<RegistryModel>,
    parent: usize,
    q: int,
    service: ServiceModel,
    entry: ServiceEntry,
    shown: ServiceModel,
)
    requires
        0 <= q < records.len(),
        parent < records.len(),
    ensures
        ({
            let staged = with_stage(records, parent);
            let r = records.len() as int;
            &&& entry_of(staged, q, shown) == entry_of(records, q, shown)
            &&& entry_of(provided(staged, target(staged, r), service, entry), q, shown) == entry_of(
                records,
                q,
                shown,
            )
        }),
{
    let staged = with_stage(records, parent);
    pushed_registries_are_apart(records, staged, q, shown);
    staged_services_are_hidden(staged, records.len() as int, q, service, entry, shown);
}

proof fn pushed_registries_are_apart(
    records: Seq<RegistryModel>,
    longer: Seq<RegistryModel>,
    q: int,
    shown: ServiceModel,
)
    requires
        0 <= q < records.len(),
        longer.len() == records.len() + 1,
        forall|i: int| 0 <= i < records.len() ==> #[trigger] longer[i] == records[i],
    ensures
        entry_of(longer, q, shown) == entry_of(records, q, shown),
    decreases q,
{
    assert(longer[q] == records[q]);
    match records[q].parent {
        Some(p) => {
            if p < q {
                pushed_registries_are_apart(records, longer, p as int, shown);
            }
        },
        None => {},
    }
}

/// When a candidate takes over, each service that it provided is the one that
/// the host sees: `q` is the registry of the plugin that was updated, or any
/// other that is held by the same one.
pub proof fn accepted_candidates_are_seen(records: Seq<RegistryModel>, r: int, q: int, k: int)
    requires
        rooted(records),
        sorted(records),
        0 <= r < records.len(),
        0 <= q < records.len(),
        !records[r].committed,
        records[r].parent is Some,
        records[r].parent->0 == holder(records, q),
        0 <= k < records[r].providers.len(),
    ensures
        entry_of(settled(records, r), q, records[r].providers[k].0) == Some(
            records[r].providers[k].1,
        ),
{
    committed_services_are_seen(records, r, q, k);
}

}
