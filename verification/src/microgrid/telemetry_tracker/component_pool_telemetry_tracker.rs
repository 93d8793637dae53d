//! The telemetry of a pool whose components are of one kind.

use std::collections::BTreeSet;

use vstd::prelude::*;

use crate::microgrid::telemetry_tracker::battery_pool_telemetry_tracker::PoolAction;
use crate::microgrid::telemetry_tracker::component_partition::ComponentHealthPartition;
use crate::microgrid::telemetry_tracker::component_telemetry_tracker::ComponentHealthStatus;

verus! {

broadcast use vstd::std_specs::btree::group_btree_axioms;

/// What happens to the tracker of a pool whose components are of one kind.
pub enum ComponentPoolEvent {
    /// The tracker of a component reports its status.
    Status(ComponentHealthStatus),
    /// All trackers of components are gone.
    TrackersGone,
    /// It is time to publish; so many receivers listen.
    Tick { receivers: usize },
}

/// Keeps the telemetry of a pool whose components are of one kind.
pub struct ComponentPoolTelemetryTracker {
    is_empty_pool: bool,
    partition: ComponentHealthPartition,
}

impl ComponentPoolTelemetryTracker {
    /// What is known of the pool.
    pub closed spec fn spec_partition(&self) -> ComponentHealthPartition {
        self.partition
    }

    /// Whether the pool has no components.
    pub closed spec fn spec_is_empty_pool(&self) -> bool {
        self.is_empty_pool
    }

    /// A tracker of the given components. All of them count as unhealthy until
    /// they are heard of, so that the first snapshot shows who is in the pool.
    pub fn new(ids: &BTreeSet<u64>) -> (r: Self)
        ensures
            r.spec_partition().all_unhealthy(ids@),
            r.spec_partition().parted(),
            r.spec_is_empty_pool() == (ids@ == Set::<u64>::empty()),
    {
        let is_empty_pool = ids.is_empty();
        ComponentPoolTelemetryTracker {
            is_empty_pool,
            partition: ComponentHealthPartition::unheard(ids),
        }
    }

    /// Whether the pool has no components. No report can come then, and the
    /// tracker goes on for as long as somebody listens.
    pub fn is_empty_pool(&self) -> (r: bool)
        ensures
            r == self.spec_is_empty_pool(),
    {
        self.is_empty_pool
    }

    /// What is known of the pool.
    pub fn partition(&self) -> (r: &ComponentHealthPartition)
        ensures
            *r == self.spec_partition(),
    {
        &self.partition
    }

    /// Takes the next event. A report changes what is known of its component; the
    /// tracker stops when no report can come from a pool that has components, or
    /// when nobody listens.
    pub fn handle(&mut self, event: ComponentPoolEvent) -> (action: PoolAction)
        ensures
            final(self).spec_is_empty_pool() == old(self).spec_is_empty_pool(),
            old(self).spec_partition().parted() ==> final(self).spec_partition().parted(),
            match event {
                ComponentPoolEvent::Status(status) => {
                    &&& action == PoolAction::Nothing
                    &&& final(self).spec_partition().holds(old(self).spec_partition(), status)
                    &&& final(self).spec_partition().members()
                        == old(self).spec_partition().members().insert(status.spec_component_id())
                },
                ComponentPoolEvent::TrackersGone => {
                    &&& action == (if old(self).spec_is_empty_pool() {
                        PoolAction::Nothing
                    } else {
                        PoolAction::Stop
                    })
                    &&& final(self).spec_partition() == old(self).spec_partition()
                },
                ComponentPoolEvent::Tick { receivers } => {
                    &&& action == (if receivers == 0 {
                        PoolAction::Stop
                    } else {
                        PoolAction::PublishIfChanged
                    })
                    &&& final(self).spec_partition() == old(self).spec_partition()
                },
            },
    {
        match event {
            ComponentPoolEvent::Status(status) => {
                self.partition.mark(status);
                PoolAction::Nothing
            },
            ComponentPoolEvent::TrackersGone => {
                if self.is_empty_pool {
                    PoolAction::Nothing
                } else {
                    PoolAction::Stop
                }
            },
            ComponentPoolEvent::Tick { receivers } => {
                if receivers == 0 {
                    PoolAction::Stop
                } else {
                    PoolAction::PublishIfChanged
                }
            },
        }
    }
}

/// Reports on components of the pool leave the members as they are: healthy or
/// not, every component stays in the pool.
pub proof fn law_reports_keep_the_members(
    before: ComponentHealthPartition,
    after: ComponentHealthPartition,
    status: ComponentHealthStatus,
)
    requires
        before.members().contains(status.spec_component_id()),
        after.holds(before, status),
    ensures
        after.members() == before.members(),
{
    assert(after.members() =~= before.members());
}

}
