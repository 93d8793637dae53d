//! A pool of batteries in the microgrid.

use std::collections::BTreeSet;

use vstd::prelude::*;

use crate::bounds::{is_sum, Bounds};
use crate::client::proto::{ElectricalComponentStateCode, ElectricalComponentTelemetry};
use crate::component_graph::{asked_ids, ComponentGraph};
use crate::error::{Error, ErrorKind};
use crate::logical_meter::expr::{tree_of, Expr, Tree};
use crate::logical_meter::formula::Formula;
use crate::logical_meter::logical_meter_handle::{answers, GraphRequest, LogicalMeterHandle};
use crate::metric::{AcPowerActive, DcPower, Metric};
use crate::microgrid::battery_pool_formulas::{
    evaluates, soc, soc_tree, usable_capacity, usable_capacity_tree, PoolExpr, PoolKey,
};
use crate::microgrid::pool_bounds::{compute_battery_pool_bounds, groups_bounds};
use crate::microgrid::pool_readings::{
    all_down, law_unhealthy_pool_has_no_reading, reader, Heard, PoolReadings,
};
use crate::microgrid::pool_tracking::{
    healthy_state_codes, healthy_states, is_running, tracker_step, TrackerStep, MISSING_DATA_TOLERANCE_SECS,
};
use crate::microgrid::pool_validation::{
    all_ids, copy_selection, ids_of_kind, misfit_text, pool_ids, validate_pool_ids, PoolKind,
};
use crate::microgrid::telemetry_tracker::battery_pool_telemetry_tracker::BatteryPoolSnapshot;
use crate::microgrid::telemetry_tracker::inverter_battery_group::{
    all_finite, extend, groups_of, inverter_battery_groups, law_groups_partition_the_selection, members,
    reports, GroupIds, InverterBatteryGroup,
};
use crate::quantity::Quantity;
use crate::single::Single;

verus! {

broadcast use vstd::std_specs::btree::group_btree_axioms;

/// A pool of batteries: those that were selected, or all of the microgrid.
pub struct BatteryPool {
    component_ids: Option<BTreeSet<u64>>,
    /// The pool's batteries grouped with the inverters they sit behind.
    groups: Vec<InverterBatteryGroup>,
}

/// The batteries in the given groups.
pub open spec fn batteries_in(groups: Seq<GroupIds>) -> Set<u64>
    decreases groups.len(),
{
    if groups.len() == 0 {
        Set::empty()
    } else {
        batteries_in(groups.drop_last()).union(groups.last().batteries)
    }
}

proof fn lemma_batteries_in(groups: Seq<GroupIds>)
    ensures
        forall|b: u64|
            #[trigger] batteries_in(groups).contains(b) <==> exists|k: int|
                0 <= k < groups.len() && #[trigger] groups[k].batteries.contains(b),
    decreases groups.len(),
{
    if groups.len() > 0 {
        let front = groups.drop_last();
        lemma_batteries_in(front);
        assert forall|b: u64| #[trigger] batteries_in(groups).contains(b) <==> exists|k: int|
            0 <= k < groups.len() && #[trigger] groups[k].batteries.contains(b) by {
            if batteries_in(front).contains(b) {
                let k = choose|k: int|
                    0 <= k < front.len() && #[trigger] front[k].batteries.contains(b);
                assert(groups[k].batteries.contains(b));
            }
            if groups.last().batteries.contains(b) {
                assert(groups[groups.len() - 1].batteries.contains(b));
            }
            if exists|k: int|
                0 <= k < groups.len() && #[trigger] groups[k].batteries.contains(b) {
                let k = choose|k: int|
                    0 <= k < groups.len() && #[trigger] groups[k].batteries.contains(b);
                if k < front.len() {
                    assert(front[k].batteries.contains(b));
                }
            }
        }
    }
}

/// The batteries in groups are those that one of the groups has.
pub proof fn law_batteries_are_in_some_group(groups: Seq<GroupIds>, battery: u64)
    ensures
        batteries_in(groups).contains(battery) <==> exists|k: int|
            0 <= k < groups.len() && #[trigger] groups[k].batteries.contains(battery),
{
    lemma_batteries_in(groups);
}

/// The expressions of a pool have no reading while none of its batteries is
/// healthy behind inverters that all are.
proof fn lemma_down_has_no_reading(groups: Seq<GroupIds>)
    requires
        all_finite(groups),
    ensures
        forall|
            value: spec_fn(Tree<PoolKey>) -> Option<Single>,
            telemetry: Map<u64, ElectricalComponentTelemetry>,
            healthy: Set<ElectricalComponentStateCode>,
        | #[trigger]
            evaluates(value, reader(telemetry, healthy)) && all_down(telemetry, healthy, groups)
                ==> value(usable_capacity_tree(groups)) is None && value(soc_tree(groups)) is None,
{
    assert forall|
        value: spec_fn(Tree<PoolKey>) -> Option<Single>,
        telemetry: Map<u64, ElectricalComponentTelemetry>,
        healthy: Set<ElectricalComponentStateCode>,
    | #[trigger]
        evaluates(value, reader(telemetry, healthy)) && all_down(
            telemetry,
            healthy,
            groups,
        ) implies value(usable_capacity_tree(groups)) is None && value(
        soc_tree(groups),
    ) is None by {
        law_unhealthy_pool_has_no_reading(value, telemetry, healthy, groups);
    }
}

impl BatteryPool {
    /// The selection that the pool was made with.
    pub closed spec fn selection(&self) -> Option<Set<u64>> {
        asked_ids(self.component_ids)
    }

    /// The members of the pool's groups.
    pub closed spec fn spec_groups(&self) -> Seq<GroupIds> {
        members(self.groups@)
    }

    #[verifier::type_invariant]
    spec fn inv(self) -> bool {
        all_finite(members(self.groups@))
    }

    /// Creates a pool of the given batteries, or of all batteries of the graph.
    ///
    /// A selection of components that are not all batteries is rejected, and so
    /// is a partial selection, such as one of two batteries behind the same
    /// inverter. A graph without batteries makes an empty pool.
    pub fn try_new(component_ids: Option<BTreeSet<u64>>, graph: &ComponentGraph) -> (r: Result<
        Self,
        Error,
    >)
        ensures
            ({
                let all = ids_of_kind(*graph, PoolKind::Batteries);
                let ids = pool_ids(component_ids, *graph, PoolKind::Batteries);
                if !ids.subset_of(all) {
                    r matches Err(e) && e.says(
                        ErrorKind::InvalidComponent,
                        misfit_text(ids, PoolKind::Batteries),
                    )
                } else {
                    match groups_of(*graph, ids) {
                        Ok(groups) => r matches Ok(pool) && pool.selection() == asked_ids(
                            component_ids,
                        ) && pool.spec_groups() == groups && batteries_in(groups) == ids,
                        Err(fault) => r matches Err(e) && reports(e, fault, ids),
                    }
                }
            }),
    {
        let all = all_ids(graph, PoolKind::Batteries);
        match validate_pool_ids(&component_ids, &all, PoolKind::Batteries) {
            Ok(_) => {},
            Err(e) => {
                return Err(e);
            },
        }
        let battery_ids = match &component_ids {
            Some(ids) => ids.clone(),
            None => all,
        };
        match inverter_battery_groups(graph, &battery_ids) {
            Ok(groups) => {
                proof {
                    let found = members(groups@);
                    assert(groups_of(*graph, battery_ids@)->Ok_0 == found);
                    law_groups_partition_the_selection(*graph, battery_ids@);
                    lemma_batteries_in(found);
                    assert forall|b: u64| batteries_in(found).contains(b)
                        == battery_ids@.contains(b) by {
                        if battery_ids@.contains(b) {
                            let k = choose|k: int|
                                0 <= k < found.len() && #[trigger] found[k].batteries.contains(b);
                            assert(found[k].batteries.contains(b));
                        }
                        if batteries_in(found).contains(b) {
                            let k = choose|k: int|
                                0 <= k < found.len() && #[trigger] found[k].batteries.contains(b);
                            assert(found[k].batteries.contains(b));
                        }
                    }
                    assert(batteries_in(found) =~= battery_ids@);
                }
                Ok(BatteryPool { component_ids, groups })
            },
            Err(e) => Err(e),
        }
    }

    /// The pool's batteries, grouped with their inverters.
    pub fn groups(&self) -> (r: &Vec<InverterBatteryGroup>)
        ensures
            members(r@) == self.spec_groups(),
    {
        &self.groups
    }

    /// The IDs of the pool's batteries: the union of its groups' batteries.
    pub fn get_battery_ids(&self) -> (ids: BTreeSet<u64>)
        ensures
            ids@ == batteries_in(self.spec_groups()),
    {
        let ghost all = members(self.groups@);
        let mut ids: BTreeSet<u64> = BTreeSet::new();
        let mut i: usize = 0;
        while i < self.groups.len()
            invariant
                i <= self.groups.len(),
                all == members(self.groups@),
                ids@ == batteries_in(all.take(i as int)),
            decreases self.groups.len() - i,
        {
            assert(all.take(i + 1).drop_last() =~= all.take(i as int));
            assert(all[i as int] == self.groups@[i as int]@);
            extend(&mut ids, &self.groups[i].battery_ids);
            i = i + 1;
        }
        assert(all.take(all.len() as int) =~= all);
        ids
    }

    /// A formula for the active power of the pool.
    pub fn power<Q: Quantity, P: Fn(String) -> Result<Expr<u64>, String>>(
        &self,
        logical_meter: &LogicalMeterHandle,
        parse: &P,
    ) -> (r: Result<Formula<Q>, Error>)
        requires
            forall|text: String| #[trigger] call_requires(*parse, (text,)),
        ensures
            exists|ids: Option<BTreeSet<u64>>|
                asked_ids(ids) == self.selection() && #[trigger] answers::<AcPowerActive, Q, P>(
                    logical_meter.spec_graph(),
                    GraphRequest::Battery(ids),
                    *parse,
                    r,
                ),
    {
        let ids = copy_selection(&self.component_ids);
        let ghost asked = ids;
        let r = logical_meter.battery::<AcPowerActive, Q, P>(ids, parse);
        assert(asked_ids(asked) == self.selection());
        r
    }

    /// The expression of the usable capacity of the pool: the sum over its
    /// batteries of the capacity between the battery's SoC bounds.
    ///
    /// A battery contributes nothing while its capacity or SoC bounds are
    /// missing, while it is unhealthy, or while an inverter of its group is
    /// unhealthy or has sent nothing for too long: what its leaves read is told
    /// by [`reading`](crate::microgrid::pool_readings::reading). A battery whose
    /// bounds are equal or inverted contributes 0. The expression has no reading
    /// when no battery contributes, and it is not known what it reads while a
    /// component of the pool is not yet subscribed to.
    pub fn capacity(&self) -> (r: PoolExpr)
        ensures
            tree_of(r) == usable_capacity_tree(self.spec_groups()),
            forall|
                value: spec_fn(Tree<PoolKey>) -> Option<Single>,
                telemetry: Map<u64, ElectricalComponentTelemetry>,
                healthy: Set<ElectricalComponentStateCode>,
            | #[trigger]
                evaluates(value, reader(telemetry, healthy)) && all_down(
                    telemetry,
                    healthy,
                    self.spec_groups(),
                ) ==> value(tree_of(r)) is None,
    {
        proof {
            use_type_invariant(self);
            lemma_down_has_no_reading(self.spec_groups());
        }
        usable_capacity(&self.groups)
    }

    /// The expression of the SoC of the pool, in percent. It has no reading when
    /// no battery contributes.
    pub fn soc(&self) -> (r: PoolExpr)
        ensures
            tree_of(r) == soc_tree(self.spec_groups()),
            forall|
                value: spec_fn(Tree<PoolKey>) -> Option<Single>,
                telemetry: Map<u64, ElectricalComponentTelemetry>,
                healthy: Set<ElectricalComponentStateCode>,
            | #[trigger]
                evaluates(value, reader(telemetry, healthy)) && all_down(
                    telemetry,
                    healthy,
                    self.spec_groups(),
                ) ==> value(tree_of(r)) is None,
    {
        proof {
            use_type_invariant(self);
            lemma_down_has_no_reading(self.spec_groups());
        }
        soc(&self.groups)
    }

    /// The readings of the pool's expressions, before any of its components is
    /// subscribed to. `max_age` is for how long a component may send nothing, in
    /// nanoseconds.
    pub fn readings(&self, max_age: u128) -> (r: PoolReadings)
        ensures
            r.healthy_states() == healthy_states(PoolKind::Batteries).to_set(),
            r.spec_max_age() == max_age,
            r.heard() == Map::<u64, Option<Heard>>::empty(),
    {
        PoolReadings::new(healthy_state_codes(PoolKind::Batteries), max_age)
    }

    /// What to do for a new receiver of the pool's snapshots. `receivers` is how
    /// many listen to the tracker that was started before, where it has not
    /// stopped.
    pub fn telemetry_snapshots(&self, receivers: Option<usize>) -> (step: TrackerStep)
        ensures
            match step {
                TrackerStep::Reuse => is_running(receivers),
                TrackerStep::Start(plan) => !is_running(receivers) && plan.component_ids@
                    == batteries_in(self.spec_groups()) && plan.missing_data_tolerance_secs
                    == MISSING_DATA_TOLERANCE_SECS && plan.healthy_state_codes@ == healthy_states(
                    PoolKind::Batteries,
                ),
            },
    {
        tracker_step(receivers, self.get_battery_ids(), PoolKind::Batteries)
    }

    /// The active-power bounds of the pool, where this is known of it: those of its
    /// inverters are read from their active power, those of its batteries from
    /// their DC power.
    ///
    /// `plus` adds numbers.
    pub fn power_bounds<F: Fn(Single, Single) -> Single>(
        &self,
        snapshot: &BatteryPoolSnapshot,
        plus: &F,
    ) -> (r: Vec<Bounds>)
        requires
            snapshot.wf(),
            is_sum(*plus),
        ensures
            r@ == groups_bounds(
                *plus,
                snapshot.spec_entries(),
                AcPowerActive::METRIC,
                DcPower::METRIC,
            ),
    {
        compute_battery_pool_bounds::<AcPowerActive, DcPower, F>(snapshot, plus)
    }

    /// The name under which the tracker of the pool's bounds is told of: the
    /// metrics that bounds are read from, of inverters and of batteries.
    pub fn bounds_label(&self) -> (r: String)
        ensures
            r@ == AcPowerActive::spec_str_name() + "/"@ + DcPower::spec_str_name(),
    {
        let mut text = String::from_str(AcPowerActive::str_name());
        text.append("/");
        text.append(DcPower::str_name());
        text
    }
}

}
