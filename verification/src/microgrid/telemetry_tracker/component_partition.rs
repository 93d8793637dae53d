//! The components of a pool, parted by their health.

use std::collections::{BTreeMap, BTreeSet};

use vstd::prelude::*;

use crate::client::proto::ElectricalComponentTelemetry;
use crate::ids::sorted;
use crate::microgrid::telemetry_tracker::component_telemetry_tracker::ComponentHealthStatus;

verus! {

broadcast use vstd::std_specs::btree::group_btree_axioms;

/// The healthy and the unhealthy components of a pool, with the telemetry that
/// showed them so.
#[derive(Clone, Debug, PartialEq)]
pub struct ComponentHealthPartition {
    pub healthy: BTreeMap<u64, ElectricalComponentTelemetry>,
    /// Without telemetry, where none came for too long or none came yet.
    pub unhealthy: BTreeMap<u64, Option<ElectricalComponentTelemetry>>,
}

impl ComponentHealthPartition {
    /// Whether no component counts as both.
    pub open spec fn parted(&self) -> bool {
        self.healthy@.dom().disjoint(self.unhealthy@.dom())
    }

    /// The components that are in the partition.
    pub open spec fn members(&self) -> Set<u64> {
        self.healthy@.dom().union(self.unhealthy@.dom())
    }

    /// A partition without components.
    pub fn new() -> (r: Self)
        ensures
            r.healthy@ == Map::<u64, ElectricalComponentTelemetry>::empty(),
            r.unhealthy@ == Map::<u64, Option<ElectricalComponentTelemetry>>::empty(),
            r.parted(),
    {
        ComponentHealthPartition { healthy: BTreeMap::new(), unhealthy: BTreeMap::new() }
    }

    /// Counts a component as healthy.
    pub fn mark_healthy(&mut self, id: u64, telemetry: ElectricalComponentTelemetry)
        ensures
            final(self).healthy@ == old(self).healthy@.insert(id, telemetry),
            final(self).unhealthy@ == old(self).unhealthy@.remove(id),
            final(self).members() == old(self).members().insert(id),
            old(self).parted() ==> final(self).parted(),
    {
        self.unhealthy.remove(&id);
        assert(self.unhealthy@ =~= old(self).unhealthy@.remove(id));
        self.healthy.insert(id, telemetry);
        assert(self.members() =~= old(self).members().insert(id));
    }

    /// Counts a component as unhealthy.
    pub fn mark_unhealthy(&mut self, id: u64, telemetry: Option<ElectricalComponentTelemetry>)
        ensures
            final(self).unhealthy@ == old(self).unhealthy@.insert(id, telemetry),
            final(self).healthy@ == old(self).healthy@.remove(id),
            final(self).members() == old(self).members().insert(id),
            old(self).parted() ==> final(self).parted(),
    {
        self.healthy.remove(&id);
        assert(self.healthy@ =~= old(self).healthy@.remove(id));
        self.unhealthy.insert(id, telemetry);
        assert(self.members() =~= old(self).members().insert(id));
    }

    /// Whether this is `before` with a component counted as its tracker reports
    /// it.
    pub open spec fn holds(&self, before: Self, status: ComponentHealthStatus) -> bool {
        match status {
            ComponentHealthStatus::Healthy(id, telemetry) => {
                &&& self.healthy@ == before.healthy@.insert(id, telemetry)
                &&& self.unhealthy@ == before.unhealthy@.remove(id)
            },
            ComponentHealthStatus::Unhealthy(id, telemetry) => {
                &&& self.unhealthy@ == before.unhealthy@.insert(id, telemetry)
                &&& self.healthy@ == before.healthy@.remove(id)
            },
        }
    }

    /// Counts a component as its tracker reports it.
    pub fn mark(&mut self, status: ComponentHealthStatus)
        ensures
            final(self).holds(*old(self), status),
            final(self).members() == old(self).members().insert(status.spec_component_id()),
            old(self).parted() ==> final(self).parted(),
    {
        match status {
            ComponentHealthStatus::Healthy(id, telemetry) => self.mark_healthy(id, telemetry),
            ComponentHealthStatus::Unhealthy(id, telemetry) => self.mark_unhealthy(id, telemetry),
        }
    }

    /// Whether every one of `ids` counts as unhealthy, without telemetry, and
    /// nothing else is in the partition.
    pub open spec fn all_unhealthy(&self, ids: Set<u64>) -> bool {
        &&& self.healthy@ == Map::<u64, ElectricalComponentTelemetry>::empty()
        &&& self.unhealthy@.dom() == ids
        &&& forall|id: u64| #[trigger] ids.contains(id) ==> self.unhealthy@[id] is None
    }

    /// A partition in which every one of `ids` counts as unhealthy, until it is
    /// heard of.
    pub fn unheard(ids: &BTreeSet<u64>) -> (r: Self)
        ensures
            r.all_unhealthy(ids@),
            r.parted(),
    {
        let list = sorted(ids);
        let mut r = ComponentHealthPartition::new();
        let mut k: usize = 0;
        assert(list@.take(0).to_set() =~= Set::<u64>::empty());
        assert(r.unhealthy@.dom() =~= Set::<u64>::empty());
        while k < list.len()
            invariant
                k <= list.len(),
                r.all_unhealthy(list@.take(k as int).to_set()),
            decreases list.len() - k,
        {
            let ghost before = r;
            r.mark_unhealthy(list[k], None);
            proof {
                crate::ids::lemma_one_more(list@, k as int);
                assert(r.healthy@ =~= before.healthy@);
                assert(r.unhealthy@.dom() =~= list@.take(k + 1).to_set());
            }
            k = k + 1;
        }
        assert(list@.take(list@.len() as int) =~= list@);
        r
    }
}

/// A component counts as it was reported last, with what came with the report, and
/// as nothing else; the others count as they did.
pub proof fn law_reports_move_their_component(
    before: ComponentHealthPartition,
    after: ComponentHealthPartition,
    status: ComponentHealthStatus,
    other: u64,
)
    requires
        after.holds(before, status),
    ensures
        status matches ComponentHealthStatus::Healthy(id, data) ==> after.healthy@.contains_key(id)
            && after.healthy@[id] == data && !after.unhealthy@.contains_key(id),
        status matches ComponentHealthStatus::Unhealthy(id, data)
            ==> after.unhealthy@.contains_key(id) && after.unhealthy@[id] == data
            && !after.healthy@.contains_key(id),
        other != status.spec_component_id() ==> after.healthy@.contains_key(other)
            == before.healthy@.contains_key(other) && after.unhealthy@.contains_key(other)
            == before.unhealthy@.contains_key(other),
        other != status.spec_component_id() && before.healthy@.contains_key(other)
            ==> after.healthy@[other] == before.healthy@[other],
        other != status.spec_component_id() && before.unhealthy@.contains_key(other)
            ==> after.unhealthy@[other] == before.unhealthy@[other],
{
}

}
