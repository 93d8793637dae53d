//! A pool of steam boilers in the microgrid.

use std::collections::BTreeSet;

use vstd::prelude::*;

use crate::bounds::{is_sum, Bounds};
use crate::component_graph::{asked_ids, ComponentGraph};
use crate::error::{Error, ErrorKind};
use crate::logical_meter::expr::Expr;
use crate::logical_meter::formula::Formula;
use crate::logical_meter::logical_meter_handle::{answers, GraphRequest, LogicalMeterHandle};
use crate::metric::{AcPowerActive, Metric};
use crate::microgrid::bounds_aggregation::aggregate;
use crate::microgrid::pool_bounds::compute_steam_boiler_pool_bounds;
use crate::microgrid::pool_tracking::{
    healthy_states, is_running, tracker_step, TrackerStep, MISSING_DATA_TOLERANCE_SECS,
};
use crate::microgrid::pool_validation::{
    all_ids, copy_selection, ids_of_kind, misfit_text, pool_ids, selected_ids, validate_pool_ids,
    PoolKind,
};
use crate::microgrid::telemetry_tracker::pool_snapshots::SteamBoilerPoolSnapshot;
use crate::quantity::Quantity;
use crate::single::Single;

verus! {

broadcast use vstd::std_specs::btree::group_btree_axioms;

/// A pool of steam boilers: those that were selected, or all of the microgrid.
pub struct SteamBoilerPool {
    component_ids: Option<BTreeSet<u64>>,
}

impl SteamBoilerPool {
    /// The selection that the pool was made with.
    pub closed spec fn selection(&self) -> Option<BTreeSet<u64>> {
        self.component_ids
    }

    /// Creates a pool of the given steam boilers, or of all steam boilers of the
    /// graph. A selection of components that are not all steam boilers is
    /// rejected; an empty one is an empty pool.
    pub fn try_new(component_ids: Option<BTreeSet<u64>>, graph: &ComponentGraph) -> (r: Result<
        Self,
        Error,
    >)
        ensures
            ({
                let ids = pool_ids(component_ids, *graph, PoolKind::SteamBoilers);
                if ids.subset_of(ids_of_kind(*graph, PoolKind::SteamBoilers)) {
                    r matches Ok(pool) && pool.selection() == component_ids
                } else {
                    r matches Err(e) && e.says(
                        ErrorKind::InvalidComponent,
                        misfit_text(ids, PoolKind::SteamBoilers),
                    )
                }
            }),
    {
        let all = all_ids(graph, PoolKind::SteamBoilers);
        match validate_pool_ids(&component_ids, &all, PoolKind::SteamBoilers) {
            Ok(_) => Ok(SteamBoilerPool { component_ids }),
            Err(e) => Err(e),
        }
    }

    /// The IDs of the pool's boilers.
    pub fn get_steam_boiler_ids(&self, graph: &ComponentGraph) -> (ids: BTreeSet<u64>)
        ensures
            ids@ == pool_ids(self.selection(), *graph, PoolKind::SteamBoilers),
    {
        selected_ids(&self.component_ids, graph, PoolKind::SteamBoilers)
    }

    /// A formula for the active power of the pool.
    pub fn power<Q: Quantity, P: Fn(String) -> Result<Expr<u64>, String>>(
        &self,
        logical_meter: &LogicalMeterHandle,
        parse: &P,
    ) -> (r: Result<Formula<Q>, Error>)
        requires
            forall|text: String| #[trigger] call_requires(*parse, (text,)),
        ensures
            exists|ids: Option<BTreeSet<u64>>|
                asked_ids(ids) == asked_ids(self.selection()) && #[trigger] answers::<
                    AcPowerActive,
                    Q,
                    P,
                >(logical_meter.spec_graph(), GraphRequest::SteamBoiler(ids), *parse, r),
    {
        let ids = copy_selection(&self.component_ids);
        let ghost asked = ids;
        let r = logical_meter.steam_boiler::<AcPowerActive, Q, P>(ids, parse);
        assert(asked_ids(asked) == asked_ids(self.selection()));
        r
    }

    /// What to do for a new receiver of the pool's snapshots. `receivers` is how
    /// many listen to the tracker that was started before, where it has not
    /// stopped.
    pub fn telemetry_snapshots(&self, receivers: Option<usize>, graph: &ComponentGraph) -> (step:
        TrackerStep)
        ensures
            match step {
                TrackerStep::Reuse => is_running(receivers),
                TrackerStep::Start(plan) => !is_running(receivers) && plan.component_ids@
                    == pool_ids(self.selection(), *graph, PoolKind::SteamBoilers)
                    && plan.missing_data_tolerance_secs == MISSING_DATA_TOLERANCE_SECS
                    && plan.healthy_state_codes@ == healthy_states(PoolKind::SteamBoilers),
            },
    {
        tracker_step(receivers, self.get_steam_boiler_ids(graph), PoolKind::SteamBoilers)
    }

    /// The active-power bounds of the pool, where this is known of it: those of its
    /// boilers are read from their active power.
    ///
    /// `plus` adds numbers.
    pub fn power_bounds<F: Fn(Single, Single) -> Single>(
        &self,
        snapshot: &SteamBoilerPoolSnapshot,
        plus: &F,
    ) -> (r: Vec<Bounds>)
        requires
            is_sum(*plus),
        ensures
            r@ == aggregate(*plus, snapshot.boilers.healthy@, AcPowerActive::METRIC),
    {
        compute_steam_boiler_pool_bounds::<AcPowerActive, F>(snapshot, plus)
    }

    /// The name under which the tracker of the pool's bounds is told of: the
    /// metric that bounds are read from.
    pub fn bounds_label(&self) -> (r: String)
        ensures
            r@ == AcPowerActive::spec_str_name() + " steam boiler"@,
    {
        let mut text = String::from_str(AcPowerActive::str_name());
        text.append(" steam boiler");
        text
    }
}

}
