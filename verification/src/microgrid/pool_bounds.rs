//! Pool-level bounds aggregation for PV, steam boiler and battery pools.
//!
//! Each pool's healthy components have their per-metric bounds combined into a
//! single pool-level set. The PV inverters or steam boilers in a pool are wired
//! in parallel, so their bounds are simply added together. A battery pool
//! aggregates following the physical topology of its inverter-battery groups
//! (parallel within a side, series between the inverter and battery sides,
//! parallel across groups).

use vstd::prelude::*;

use crate::bounds::{
    combine_parallel_sets, in_parallel, in_series, intersect_bounds_sets, is_sum, Bounds,
};
use crate::client::proto;
use crate::client::proto::ElectricalComponentTelemetry;
use crate::metric::Metric;
use crate::microgrid::bounds_aggregation::{aggregate, aggregate_parallel};
use crate::microgrid::telemetry_tracker::battery_pool_telemetry_tracker::{
    BatteryPoolSnapshot, InverterBatteryGroupStatus,
};
use crate::microgrid::telemetry_tracker::inverter_battery_group::InverterBatteryGroup;
use crate::microgrid::telemetry_tracker::pool_snapshots::{PvPoolSnapshot, SteamBoilerPoolSnapshot};
use crate::single::Single;

verus! {

/// Aggregates the bounds of every healthy PV inverter in the pool. The
/// inverters are wired in parallel, so their bounds combine in parallel.
///
/// `M` is the metric used to read bounds from the PV inverters (e.g.
/// `AcPowerActive`).
pub fn compute_pv_pool_bounds<M: Metric, F: Fn(Single, Single) -> Single>(
    status: &PvPoolSnapshot,
    plus: &F,
) -> (r: Vec<Bounds>)
    requires
        is_sum(*plus),
    ensures
        r@ == aggregate(*plus, status.inverters.healthy@, M::METRIC),
{
    aggregate_parallel::<M, F>(&status.inverters.healthy, plus)
}

/// Aggregates the bounds of every healthy steam boiler in the pool. The boilers
/// are wired in parallel, so their bounds combine in parallel.
///
/// `M` is the metric used to read bounds from the steam boilers (e.g.
/// `AcPowerActive`).
pub fn compute_steam_boiler_pool_bounds<M: Metric, F: Fn(Single, Single) -> Single>(
    status: &SteamBoilerPoolSnapshot,
    plus: &F,
) -> (r: Vec<Bounds>)
    requires
        is_sum(*plus),
    ensures
        r@ == aggregate(*plus, status.boilers.healthy@, M::METRIC),
{
    aggregate_parallel::<M, F>(&status.boilers.healthy, plus)
}

/// The bounds of one group: those of its inverters in series with those of its
/// batteries.
pub open spec fn group_bounds<F: Fn(Single, Single) -> Single>(
    plus: F,
    group: InverterBatteryGroupStatus,
    inverter_metric: proto::Metric,
    battery_metric: proto::Metric,
) -> Seq<Bounds> {
    in_series(
        aggregate(plus, group.inverters.healthy@, inverter_metric),
        aggregate(plus, group.batteries.healthy@, battery_metric),
    )
}

/// The bounds of all the given groups in parallel.
pub open spec fn groups_bounds<F: Fn(Single, Single) -> Single>(
    plus: F,
    entries: Seq<(InverterBatteryGroup, InverterBatteryGroupStatus)>,
    inverter_metric: proto::Metric,
    battery_metric: proto::Metric,
) -> Seq<Bounds>
    decreases entries.len(),
{
    if entries.len() == 0 {
        Seq::empty()
    } else {
        in_parallel(
            plus,
            groups_bounds(plus, entries.drop_last(), inverter_metric, battery_metric),
            group_bounds(plus, entries.last().1, inverter_metric, battery_metric),
        )
    }
}

/// Aggregates the power bounds of a battery pool following the physical
/// topology of its inverter-battery groups (see the module docs).
///
/// `InverterM` is the metric used to read bounds from inverters (e.g.
/// `AcPowerActive`); `BatteryM` is the metric used to read bounds from
/// batteries (e.g. `DcPower`).
pub fn compute_battery_pool_bounds<
    InverterM: Metric,
    BatteryM: Metric,
    F: Fn(Single, Single) -> Single,
>(status: &BatteryPoolSnapshot, plus: &F) -> (r: Vec<Bounds>)
    requires
        status.wf(),
        is_sum(*plus),
    ensures
        r@ == groups_bounds(*plus, status.spec_entries(), InverterM::METRIC, BatteryM::METRIC),
{
    let entries = status.groups();
    let mut r: Vec<Bounds> = Vec::new();
    let mut i: usize = 0;
    while i < entries.len()
        invariant
            i <= entries.len(),
            is_sum(*plus),
            r@ == groups_bounds(
                *plus,
                entries@.take(i as int),
                InverterM::METRIC,
                BatteryM::METRIC,
            ),
        decreases entries.len() - i,
    {
        assert(entries@.take(i + 1).drop_last() =~= entries@.take(i as int));
        let group = &entries[i].1;
        let inverter_bounds = aggregate_parallel::<InverterM, F>(&group.inverters.healthy, plus);
        let battery_bounds = aggregate_parallel::<BatteryM, F>(&group.batteries.healthy, plus);
        let both = intersect_bounds_sets(&inverter_bounds, &battery_bounds);
        r = combine_parallel_sets(&r, &both, plus);
        i = i + 1;
    }
    assert(entries@.take(entries@.len() as int) =~= entries@);
    r
}

/// Only healthy components count: a snapshot with the same healthy components
/// has the same bounds, whatever its unhealthy ones last reported.
pub proof fn law_unhealthy_components_do_not_count<F: Fn(Single, Single) -> Single>(
    plus: F,
    a: InverterBatteryGroupStatus,
    b: InverterBatteryGroupStatus,
    inverter_metric: proto::Metric,
    battery_metric: proto::Metric,
)
    requires
        a.inverters.healthy@ == b.inverters.healthy@,
        a.batteries.healthy@ == b.batteries.healthy@,
    ensures
        group_bounds(plus, a, inverter_metric, battery_metric) == group_bounds(
            plus,
            b,
            inverter_metric,
            battery_metric,
        ),
{
}

/// A group whose inverters have no bounds, or whose batteries have none, adds
/// nothing to the pool.
pub proof fn law_group_without_a_side_adds_nothing<F: Fn(Single, Single) -> Single>(
    plus: F,
    entries: Seq<(InverterBatteryGroup, InverterBatteryGroupStatus)>,
    k: int,
    inverter_metric: proto::Metric,
    battery_metric: proto::Metric,
)
    requires
        0 <= k < entries.len(),
        aggregate(plus, entries[k].1.inverters.healthy@, inverter_metric).len() == 0 || aggregate(
            plus,
            entries[k].1.batteries.healthy@,
            battery_metric,
        ).len() == 0,
    ensures
        groups_bounds(plus, entries, inverter_metric, battery_metric) == groups_bounds(
            plus,
            entries.remove(k),
            inverter_metric,
            battery_metric,
        ),
    decreases entries.len(),
{
    if k < entries.len() - 1 {
        let front = entries.drop_last();
        law_group_without_a_side_adds_nothing(plus, front, k, inverter_metric, battery_metric);
        assert(entries.remove(k).drop_last() =~= front.remove(k));
        assert(entries.remove(k).last() == entries.last());
    } else {
        let group = entries[k].1;
        let inverters = aggregate(plus, group.inverters.healthy@, inverter_metric);
        let batteries = aggregate(plus, group.batteries.healthy@, battery_metric);
        crate::bounds::law_series_needs_both_sides(inverters);
        crate::bounds::law_series_needs_both_sides(batteries);
        if inverters.len() == 0 {
            assert(inverters =~= Seq::<Bounds>::empty());
        } else {
            assert(batteries =~= Seq::<Bounds>::empty());
        }
        assert(entries.remove(k) =~= entries.drop_last());
    }
}

/// A pool without healthy components has no bounds.
pub proof fn law_no_healthy_component_no_bounds<F: Fn(Single, Single) -> Single>(
    plus: F,
    metric: proto::Metric,
)
    ensures
        aggregate(plus, Map::<u64, ElectricalComponentTelemetry>::empty(), metric) == Seq::<
            Bounds,
        >::empty(),
{
    let none = Map::<u64, ElectricalComponentTelemetry>::empty();
    assert(none.dom() =~= Set::<u64>::empty());
    crate::ids::lemma_has_order(none.dom());
    let all = crate::ids::in_order(none.dom());
    if all.len() > 0 {
        assert(all.to_set().contains(all[0]));
    }
}

/// One more group is in parallel with all the others, and a group is its inverters
/// in series with its batteries.
pub proof fn law_one_more_group_is_in_parallel<F: Fn(Single, Single) -> Single>(
    plus: F,
    entries: Seq<(InverterBatteryGroup, InverterBatteryGroupStatus)>,
    entry: (InverterBatteryGroup, InverterBatteryGroupStatus),
    inverter_metric: proto::Metric,
    battery_metric: proto::Metric,
)
    ensures
        groups_bounds(plus, entries.push(entry), inverter_metric, battery_metric) == in_parallel(
            plus,
            groups_bounds(plus, entries, inverter_metric, battery_metric),
            in_series(
                aggregate(plus, entry.1.inverters.healthy@, inverter_metric),
                aggregate(plus, entry.1.batteries.healthy@, battery_metric),
            ),
        ),
        groups_bounds(plus, Seq::empty(), inverter_metric, battery_metric) == Seq::<Bounds>::empty(),
{
    assert(entries.push(entry).drop_last() =~= entries);
}

}
