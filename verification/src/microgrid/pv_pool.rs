//! A pool of PV inverters in the microgrid.

use std::collections::BTreeSet;

use vstd::prelude::*;

use crate::bounds::{is_sum, Bounds};
use crate::component_graph::{asked_ids, ComponentGraph};
use crate::error::{Error, ErrorKind};
use crate::logical_meter::expr::Expr;
use crate::logical_meter::formula::Formula;
use crate::logical_meter::logical_meter_handle::{answers, GraphRequest, LogicalMeterHandle};
use crate::metric::{AcPowerActive, Metric};
use crate::microgrid::bounds_aggregation::aggregate;
use crate::microgrid::pool_bounds::compute_pv_pool_bounds;
use crate::microgrid::pool_tracking::{
    healthy_states, is_running, tracker_step, TrackerStep, MISSING_DATA_TOLERANCE_SECS,
};
use crate::microgrid::pool_validation::{
    all_ids, copy_selection, ids_of_kind, misfit_text, pool_ids, selected_ids, validate_pool_ids,
    PoolKind,
};
use crate::microgrid::telemetry_tracker::pool_snapshots::PvPoolSnapshot;
use crate::quantity::Quantity;
use crate::single::Single;

verus! {

broadcast use vstd::std_specs::btree::group_btree_axioms;

/// A pool of PV inverters: those that were selected, or all of the microgrid.
pub struct PvPool {
    component_ids: Option<BTreeSet<u64>>,
}

impl PvPool {
    /// The selection that the pool was made with.
    pub closed spec fn selection(&self) -> Option<BTreeSet<u64>> {
        self.component_ids
    }

    /// Creates a pool of the given PV inverters, or of all PV inverters of the
    /// graph. A selection of components that are not all PV inverters is
    /// rejected; an empty one is an empty pool.
    pub fn try_new(component_ids: Option<BTreeSet<u64>>, graph: &ComponentGraph) -> (r: Result<
        Self,
        Error,
    >)
        ensures
            ({
                let ids = pool_ids(component_ids, *graph, PoolKind::PvInverters);
                if ids.subset_of(ids_of_kind(*graph, PoolKind::PvInverters)) {
                    r matches Ok(pool) && pool.selection() == component_ids
                } else {
                    r matches Err(e) && e.says(
                        ErrorKind::InvalidComponent,
                        misfit_text(ids, PoolKind::PvInverters),
                    )
                }
            }),
    {
        let all = all_ids(graph, PoolKind::PvInverters);
        match validate_pool_ids(&component_ids, &all, PoolKind::PvInverters) {
            Ok(_) => Ok(PvPool { component_ids }),
            Err(e) => Err(e),
        }
    }

    /// The IDs of the pool's inverters.
    pub fn get_pv_inverter_ids(&self, graph: &ComponentGraph) -> (ids: BTreeSet<u64>)
        ensures
            ids@ == pool_ids(self.selection(), *graph, PoolKind::PvInverters),
    {
        selected_ids(&self.component_ids, graph, PoolKind::PvInverters)
    }

    /// A formula for the active power of the pool.
    pub fn power<Q: Quantity, P: Fn(String) -> Result<Expr<u64>, String>>(
        &self,
        logical_meter: &LogicalMeterHandle,
        parse: &P,
    ) -> (r: Result<Formula<Q>, Error>)
        requires
            forall|text: String| #[trigger] call_requires(*parse, (text,)),
        ensures
            exists|ids: Option<BTreeSet<u64>>|
                asked_ids(ids) == asked_ids(self.selection()) && #[trigger] answers::<
                    AcPowerActive,
                    Q,
                    P,
                >(logical_meter.spec_graph(), GraphRequest::Pv(ids), *parse, r),
    {
        let ids = copy_selection(&self.component_ids);
        let ghost asked = ids;
        let r = logical_meter.pv::<AcPowerActive, Q, P>(ids, parse);
        assert(asked_ids(asked) == asked_ids(self.selection()));
        r
    }

    /// What to do for a new receiver of the pool's snapshots. `receivers` is how
    /// many listen to the tracker that was started before, where it has not
    /// stopped.
    pub fn telemetry_snapshots(&self, receivers: Option<usize>, graph: &ComponentGraph) -> (step:
        TrackerStep)
        ensures
            match step {
                TrackerStep::Reuse => is_running(receivers),
                TrackerStep::Start(plan) => !is_running(receivers) && plan.component_ids@
                    == pool_ids(self.selection(), *graph, PoolKind::PvInverters)
                    && plan.missing_data_tolerance_secs == MISSING_DATA_TOLERANCE_SECS
                    && plan.healthy_state_codes@ == healthy_states(PoolKind::PvInverters),
            },
    {
        tracker_step(receivers, self.get_pv_inverter_ids(graph), PoolKind::PvInverters)
    }

    /// The active-power bounds of the pool, where this is known of it: those of its
    /// inverters are read from their active power.
    ///
    /// `plus` adds numbers.
    pub fn power_bounds<F: Fn(Single, Single) -> Single>(
        &self,
        snapshot: &PvPoolSnapshot,
        plus: &F,
    ) -> (r: Vec<Bounds>)
        requires
            is_sum(*plus),
        ensures
            r@ == aggregate(*plus, snapshot.inverters.healthy@, AcPowerActive::METRIC),
    {
        compute_pv_pool_bounds::<AcPowerActive, F>(snapshot, plus)
    }

    /// The name under which the tracker of the pool's bounds is told of: the
    /// metric that bounds are read from.
    pub fn bounds_label(&self) -> (r: String)
        ensures
            r@ == AcPowerActive::spec_str_name() + " PV"@,
    {
        let mut text = String::from_str(AcPowerActive::str_name());
        text.append(" PV");
        text
    }
}

}
