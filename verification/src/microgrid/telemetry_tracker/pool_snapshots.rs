//! Snapshots of pools whose components are of one kind.

use std::collections::BTreeSet;

use vstd::prelude::*;

use crate::microgrid::telemetry_tracker::component_partition::ComponentHealthPartition;

verus! {

/// The PV inverters of a pool, parted by their health.
#[derive(Clone, Debug, PartialEq)]
pub struct PvPoolSnapshot {
    pub inverters: ComponentHealthPartition,
}

/// The steam boilers of a pool, parted by their health.
#[derive(Clone, Debug, PartialEq)]
pub struct SteamBoilerPoolSnapshot {
    pub boilers: ComponentHealthPartition,
}

impl PvPoolSnapshot {
    /// The snapshot of a pool of which nothing was heard.
    pub fn unheard(ids: &BTreeSet<u64>) -> (r: Self)
        ensures
            r.inverters.all_unhealthy(ids@),
            r.inverters.parted(),
    {
        PvPoolSnapshot { inverters: ComponentHealthPartition::unheard(ids) }
    }
}

impl SteamBoilerPoolSnapshot {
    /// The snapshot of a pool of which nothing was heard.
    pub fn unheard(ids: &BTreeSet<u64>) -> (r: Self)
        ensures
            r.boilers.all_unhealthy(ids@),
            r.boilers.parted(),
    {
        SteamBoilerPoolSnapshot { boilers: ComponentHealthPartition::unheard(ids) }
    }
}

}
