//! The health of a pool of electrical components.

pub mod component_health_tracker;

use std::collections::HashSet;

use vstd::prelude::*;

use crate::client::proto::ElectricalComponentStateCode;
use component_health_tracker::{ComponentHealthStatus, ComponentHealthTracker};

verus! {

broadcast use vstd::std_specs::hash::group_hash_axioms;

/// The healthy and the unhealthy components of a pool.
pub struct ComponentPoolStatus {
    pub healthy_components: HashSet<u64>,
    pub unhealthy_components: HashSet<u64>,
}

/// Keeps the health of a pool of components.
pub struct ComponentPoolHealthTracker {
    component_ids: Vec<u64>,
    healthy_components: HashSet<u64>,
    unhealthy_components: HashSet<u64>,
}

/// A copy of a set.
fn copy_of(set: &HashSet<u64>) -> (r: HashSet<u64>)
    ensures
        r@ == set@,
{
    let mut r: HashSet<u64> = HashSet::new();
    assert(Seq::<u64>::empty().to_set() =~= Set::<u64>::empty());
    for id in it: set.iter()
        invariant
            r@ == it.seq().unref().take(it.index()).to_set(),
            it.seq().unref().to_set() == set@,
            it.index() == it.seq().len() ==> r@ == set@,
    {
        let ghost all = it.seq().unref();
        let ghost n = it.index();
        r.insert(*id);
        proof {
            crate::ids::lemma_one_more(all, n);
            assert(all[n] == *id);
            assert(all.take(all.len() as int) =~= all);
        }
    }
    r
}

impl ComponentPoolHealthTracker {
    /// The components of the pool.
    pub closed spec fn members(&self) -> Seq<u64> {
        self.component_ids@
    }

    /// The components that count as healthy.
    pub closed spec fn healthy(&self) -> Set<u64> {
        self.healthy_components@
    }

    /// The components that count as unhealthy.
    pub closed spec fn unhealthy(&self) -> Set<u64> {
        self.unhealthy_components@
    }

    /// Whether no component counts as both, and those of the pool, and no others,
    /// count as one of them.
    pub open spec fn partitions_the_pool(&self) -> bool {
        &&& self.healthy().disjoint(self.unhealthy())
        &&& self.healthy().union(self.unhealthy()) == self.members().to_set()
    }

    /// A pool whose components all count as unhealthy, until they are heard of.
    pub fn new(component_ids: Vec<u64>) -> (r: Self)
        ensures
            r.members() == component_ids@,
            r.healthy() == Set::<u64>::empty(),
            r.unhealthy() == component_ids@.to_set(),
            r.partitions_the_pool(),
    {
        let mut unhealthy_components: HashSet<u64> = HashSet::new();
        let mut i: usize = 0;
        assert(component_ids@.take(0).to_set() =~= Set::<u64>::empty());
        while i < component_ids.len()
            invariant
                i <= component_ids.len(),
                unhealthy_components@ == component_ids@.take(i as int).to_set(),
            decreases component_ids.len() - i,
        {
            unhealthy_components.insert(component_ids[i]);
            proof {
                crate::ids::lemma_one_more(component_ids@, i as int);
            }
            i = i + 1;
        }
        assert(component_ids@.take(component_ids@.len() as int) =~= component_ids@);
        assert(Set::<u64>::empty().union(unhealthy_components@) =~= component_ids@.to_set());
        ComponentPoolHealthTracker {
            component_ids,
            healthy_components: HashSet::new(),
            unhealthy_components,
        }
    }

    /// The trackers of the pool's components, one for each, in their order.
    pub fn component_health_trackers(
        &self,
        healthy_state_codes: &Vec<ElectricalComponentStateCode>,
    ) -> (trackers: Vec<ComponentHealthTracker>)
        ensures
            trackers@.len() == self.members().len(),
            forall|i: int|
                0 <= i < trackers@.len() ==> (#[trigger] trackers@[i]).spec_component_id()
                    == self.members()[i] && trackers@[i].healthy_states()
                    == healthy_state_codes@.to_set() && trackers@[i].previous()
                    == ComponentHealthStatus::Unhealthy(self.members()[i]),
    {
        let mut trackers: Vec<ComponentHealthTracker> = Vec::new();
        let mut i: usize = 0;
        while i < self.component_ids.len()
            invariant
                i <= self.component_ids.len(),
                trackers@.len() == i,
                self.component_ids@ == self.members(),
                forall|k: int|
                    0 <= k < i ==> (#[trigger] trackers@[k]).spec_component_id()
                        == self.members()[k] && trackers@[k].healthy_states()
                        == healthy_state_codes@.to_set() && trackers@[k].previous()
                        == ComponentHealthStatus::Unhealthy(self.members()[k]),
            decreases self.component_ids.len() - i,
        {
            let codes = healthy_state_codes.clone();
            assert(codes@ =~= healthy_state_codes@);
            trackers.push(ComponentHealthTracker::new(self.component_ids[i], codes));
            i = i + 1;
        }
        trackers
    }

    /// Takes what a component's tracker reports, and gives the status of the
    /// pool after it.
    pub fn handle(&mut self, status: ComponentHealthStatus) -> (pool: ComponentPoolStatus)
        ensures
            final(self).members() == old(self).members(),
            match status {
                ComponentHealthStatus::Healthy(id) => {
                    &&& final(self).healthy() == old(self).healthy().insert(id)
                    &&& final(self).unhealthy() == old(self).unhealthy().remove(id)
                },
                ComponentHealthStatus::Unhealthy(id) => {
                    &&& final(self).healthy() == old(self).healthy().remove(id)
                    &&& final(self).unhealthy() == old(self).unhealthy().insert(id)
                },
            },
            pool.healthy_components@ == final(self).healthy(),
            pool.unhealthy_components@ == final(self).unhealthy(),
            old(self).partitions_the_pool() && old(self).members().contains(
                status.spec_component_id(),
            ) ==> final(self).partitions_the_pool(),
    {
        match status {
            ComponentHealthStatus::Healthy(id) => {
                self.healthy_components.insert(id);
                self.unhealthy_components.remove(&id);
                assert(self.unhealthy() =~= old(self).unhealthy().remove(id));
            },
            ComponentHealthStatus::Unhealthy(id) => {
                self.unhealthy_components.insert(id);
                self.healthy_components.remove(&id);
                assert(self.healthy() =~= old(self).healthy().remove(id));
            },
        }
        proof {
            let id = status.spec_component_id();
            if old(self).partitions_the_pool() && old(self).members().contains(id) {
                assert(old(self).members().to_set().contains(id));
                assert(self.healthy().union(self.unhealthy()) =~= self.members().to_set());
            }
        }
        ComponentPoolStatus {
            healthy_components: copy_of(&self.healthy_components),
            unhealthy_components: copy_of(&self.unhealthy_components),
        }
    }
}

}
