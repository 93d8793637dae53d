//! What the leaves of a battery pool's expressions read.
//!
//! A component that is not healthy reads nothing, and so does one that has sent
//! nothing for too long. Only the first bounds entry of a sample is read.

use std::collections::BTreeMap;

use vstd::prelude::*;

use crate::client::proto::{
    carried, law_first_sample_is_found, law_no_sample_without_the_metric, sample_of, Coded,
    ElectricalComponentStateCode, ElectricalComponentTelemetry, Metric, MetricSample,
};
use crate::health::{health, snapshots_health, Health};
use crate::ids::{in_order, lemma_has_order};
use crate::logical_meter::exact::{law_bits_of_zero_and_one, number};
use crate::logical_meter::expr::Tree;
use crate::logical_meter::logical_meter_actor::ReadOutcome;
use crate::microgrid::battery_pool_formulas::{
    all_idle, evaluates, finite, gate_tree, is_idle, is_zero, law_idle_battery_adds_nothing,
    law_no_reading_without_a_contributing_battery, soc_tree, term_tree, usable_capacity_tree,
    PoolKey, Source, Term,
};
use crate::microgrid::telemetry_tracker::inverter_battery_group::{all_finite, is_finite, GroupIds};
use crate::single::{Single, ONE_BITS};

verus! {

broadcast use vstd::std_specs::btree::group_btree_axioms;

/// The lower end of the first bounds of a sample.
pub open spec fn first_lower(sample: MetricSample) -> Option<Single> {
    if sample.bounds@.len() > 0 {
        sample.bounds@[0].lower
    } else {
        None
    }
}

/// The upper end of the first bounds of a sample.
pub open spec fn first_upper(sample: MetricSample) -> Option<Single> {
    if sample.bounds@.len() > 0 {
        sample.bounds@[0].upper
    } else {
        None
    }
}

/// What `source` reads in a telemetry message of a healthy component.
pub open spec fn source_of(source: Source, telemetry: ElectricalComponentTelemetry) -> Option<
    Single,
> {
    match source {
        Source::Health => Some(Single { bits: ONE_BITS }),
        Source::Value(metric) => match sample_of(telemetry.metric_samples@, metric) {
            Some(sample) => carried(sample),
            None => None,
        },
        Source::LowerBound(metric) => match sample_of(telemetry.metric_samples@, metric) {
            Some(sample) => first_lower(sample),
            None => None,
        },
        Source::UpperBound(metric) => match sample_of(telemetry.metric_samples@, metric) {
            Some(sample) => first_upper(sample),
            None => None,
        },
    }
}

/// Whether the component that sent the telemetry is healthy; one that sent none
/// is not.
pub open spec fn is_well(
    telemetry: Option<ElectricalComponentTelemetry>,
    healthy: Set<ElectricalComponentStateCode>,
) -> bool {
    telemetry matches Some(data) && snapshots_health(data.state_snapshots@, healthy)
        == Health::Healthy
}

/// What a leaf reads, given the last telemetry of its component: nothing while
/// the component is not healthy.
pub open spec fn reading_of(
    key: PoolKey,
    telemetry: Option<ElectricalComponentTelemetry>,
    healthy: Set<ElectricalComponentStateCode>,
) -> Option<Single> {
    match telemetry {
        Some(data) => if is_well(telemetry, healthy) {
            source_of(key.source, data)
        } else {
            None
        },
        None => None,
    }
}

/// What a leaf reads, given the last telemetry of its component.
///
/// It reads nothing without telemetry, and nothing while the component is not
/// healthy. The health of a healthy component is 1; its other sources are in
/// the first sample of their metric.
pub fn reading(
    key: PoolKey,
    telemetry: Option<&ElectricalComponentTelemetry>,
    healthy: &Vec<ElectricalComponentStateCode>,
) -> (r: Option<Single>)
    ensures
        r == reading_of(
            key,
            match telemetry {
                Some(data) => Some(*data),
                None => None,
            },
            healthy@.to_set(),
        ),
        telemetry is None ==> r is None,
        telemetry matches Some(data) && snapshots_health(data.state_snapshots@, healthy@.to_set())
            != Health::Healthy ==> r is None,
{
    let data = match telemetry {
        Some(data) => data,
        None => {
            return None;
        },
    };
    match health(data, healthy) {
        Health::Healthy => {},
        _ => {
            return None;
        },
    }
    match key.source {
        Source::Health => Some(Single::from_bits(ONE_BITS)),
        Source::Value(metric) => match data.find_sample(metric) {
            Some(sample) => sample.carried_value(),
            None => None,
        },
        Source::LowerBound(metric) => match data.find_sample(metric) {
            Some(sample) => {
                if sample.bounds.len() > 0 {
                    sample.bounds[0].lower
                } else {
                    None
                }
            },
            None => None,
        },
        Source::UpperBound(metric) => match data.find_sample(metric) {
            Some(sample) => {
                if sample.bounds.len() > 0 {
                    sample.bounds[0].upper
                } else {
                    None
                }
            },
            None => None,
        },
    }
}

/// A telemetry message and when it came.
#[derive(Clone, Debug)]
pub struct Heard {
    /// The time, in nanoseconds since a start of the caller's choice.
    pub at: u128,
    pub telemetry: ElectricalComponentTelemetry,
}

/// The last telemetry of each component of a pool.
#[derive(Clone, Debug)]
pub struct PoolReadings {
    healthy_state_codes: Vec<ElectricalComponentStateCode>,
    max_age: u128,
    last: BTreeMap<u64, Option<Heard>>,
}

impl PoolReadings {
    /// The states in which a component is healthy.
    pub closed spec fn healthy_states(&self) -> Set<ElectricalComponentStateCode> {
        self.healthy_state_codes@.to_set()
    }

    /// How old telemetry may be, in nanoseconds.
    pub closed spec fn spec_max_age(&self) -> u128 {
        self.max_age
    }

    /// What came last of each component that is subscribed to.
    pub closed spec fn heard(&self) -> Map<u64, Option<Heard>> {
        self.last@
    }

    /// The telemetry of a component that counts at the given time: the last that
    /// came, unless nothing came for too long.
    pub open spec fn current(&self, id: u64, now: u128) -> Option<ElectricalComponentTelemetry> {
        match self.heard()[id] {
            Some(heard) => if now - heard.at < self.spec_max_age() {
                Some(heard.telemetry)
            } else {
                None
            },
            None => None,
        }
    }

    /// Readings of a pool of which no component is subscribed to. `max_age` is
    /// how old telemetry may be, in nanoseconds.
    pub fn new(healthy_state_codes: Vec<ElectricalComponentStateCode>, max_age: u128) -> (r: Self)
        ensures
            r.healthy_states() == healthy_state_codes@.to_set(),
            r.spec_max_age() == max_age,
            r.heard() == Map::<u64, Option<Heard>>::empty(),
    {
        PoolReadings { healthy_state_codes, max_age, last: BTreeMap::new() }
    }

    /// Takes note that a component is subscribed to.
    pub fn subscribed(&mut self, id: u64)
        ensures
            final(self).healthy_states() == old(self).healthy_states(),
            final(self).spec_max_age() == old(self).spec_max_age(),
            final(self).heard() == old(self).heard().insert(id, None),
    {
        self.last.insert(id, None);
    }

    /// Takes the telemetry of a component that is subscribed to.
    pub fn received(&mut self, id: u64, at: u128, telemetry: ElectricalComponentTelemetry)
        ensures
            final(self).healthy_states() == old(self).healthy_states(),
            final(self).spec_max_age() == old(self).spec_max_age(),
            final(self).heard() == old(self).heard().insert(id, Some(Heard { at, telemetry })),
    {
        self.last.insert(id, Some(Heard { at, telemetry }));
    }

    /// Reads a leaf at the given time. What a component reads is not known until
    /// it is subscribed to.
    pub fn read(&self, key: PoolKey, now: u128) -> (r: ReadOutcome)
        ensures
            r == (if self.heard().contains_key(key.component_id) {
                ReadOutcome::Known(
                    reading_of(
                        key,
                        self.current(key.component_id, now),
                        self.healthy_states(),
                    ),
                )
            } else {
                ReadOutcome::Unknown
            }),
    {
        match self.last.get(&key.component_id) {
            Some(Some(heard)) => {
                if now < heard.at || now - heard.at < self.max_age {
                    ReadOutcome::Known(
                        reading(key, Some(&heard.telemetry), &self.healthy_state_codes),
                    )
                } else {
                    ReadOutcome::Known(reading(key, None, &self.healthy_state_codes))
                }
            },
            Some(None) => ReadOutcome::Known(reading(key, None, &self.healthy_state_codes)),
            None => ReadOutcome::Unknown,
        }
    }
}

/// What all leaves read, given the last telemetry of the components that have
/// sent any.
pub open spec fn reader(
    telemetry: Map<u64, ElectricalComponentTelemetry>,
    healthy: Set<ElectricalComponentStateCode>,
) -> spec_fn(PoolKey) -> Option<Single> {
    |key: PoolKey| reading_of(key, last_of(telemetry, key.component_id), healthy)
}

/// The last telemetry of a component, where it has sent any.
pub open spec fn last_of(telemetry: Map<u64, ElectricalComponentTelemetry>, id: u64) -> Option<
    ElectricalComponentTelemetry,
> {
    if telemetry.contains_key(id) {
        Some(telemetry[id])
    } else {
        None
    }
}

/// Whether the group can give nothing of a battery: the battery is not healthy,
/// or one of the group's inverters is not.
pub open spec fn is_down(
    telemetry: Map<u64, ElectricalComponentTelemetry>,
    healthy: Set<ElectricalComponentStateCode>,
    battery: u64,
    inverters: Set<u64>,
) -> bool {
    !is_well(last_of(telemetry, battery), healthy) || exists|i: u64| #[trigger]
        inverters.contains(i) && !is_well(last_of(telemetry, i), healthy)
}

/// Whether the groups can give nothing of any of their batteries.
pub open spec fn all_down(
    telemetry: Map<u64, ElectricalComponentTelemetry>,
    healthy: Set<ElectricalComponentStateCode>,
    groups: Seq<GroupIds>,
) -> bool {
    forall|k: int, b: u64|
        0 <= k < groups.len() && #[trigger] groups[k].batteries.contains(b) ==> is_down(
            telemetry,
            healthy,
            b,
            groups[k].inverters,
        )
}

proof fn lemma_down_is_idle(
    telemetry: Map<u64, ElectricalComponentTelemetry>,
    healthy: Set<ElectricalComponentStateCode>,
    battery: u64,
    inverters: Set<u64>,
)
    requires
        inverters.finite(),
        is_down(telemetry, healthy, battery, inverters),
    ensures
        is_idle(reader(telemetry, healthy), battery, in_order(inverters)),
{
    let read = reader(telemetry, healthy);
    if is_well(last_of(telemetry, battery), healthy) {
        lemma_has_order(inverters);
        let list = in_order(inverters);
        let bad = choose|i: u64| #[trigger]
            inverters.contains(i) && !is_well(last_of(telemetry, i), healthy);
        assert(list.to_set().contains(bad));
        let k = choose|k: int| 0 <= k < list.len() && list[k] == bad;
        assert(finite(read(PoolKey { component_id: list[k], source: Source::Health })) is None);
    }
}

/// A battery contributes nothing while it is not healthy, and while an inverter
/// of its group is not: it adds zero to every sum.
pub proof fn law_unhealthy_battery_contributes_nothing(
    value: spec_fn(Tree<PoolKey>) -> Option<Single>,
    telemetry: Map<u64, ElectricalComponentTelemetry>,
    healthy: Set<ElectricalComponentStateCode>,
    battery: u64,
    inverters: Set<u64>,
    term: Term,
)
    requires
        evaluates(value, reader(telemetry, healthy)),
        inverters.finite(),
        is_down(telemetry, healthy, battery, inverters),
    ensures
        is_zero(value(term_tree(term, battery, gate_tree(in_order(inverters))))),
{
    lemma_down_is_idle(telemetry, healthy, battery, inverters);
    law_idle_battery_adds_nothing(
        value,
        reader(telemetry, healthy),
        battery,
        in_order(inverters),
        term,
    );
}

/// The usable capacity and the SoC of a pool have no reading while none of its
/// batteries is healthy behind inverters that all are.
pub proof fn law_unhealthy_pool_has_no_reading(
    value: spec_fn(Tree<PoolKey>) -> Option<Single>,
    telemetry: Map<u64, ElectricalComponentTelemetry>,
    healthy: Set<ElectricalComponentStateCode>,
    groups: Seq<GroupIds>,
)
    requires
        evaluates(value, reader(telemetry, healthy)),
        all_finite(groups),
        all_down(telemetry, healthy, groups),
    ensures
        value(usable_capacity_tree(groups)) is None,
        value(soc_tree(groups)) is None,
{
    let read = reader(telemetry, healthy);
    assert forall|k: int, n: int|
        0 <= k < groups.len() && 0 <= n < in_order(groups[k].batteries).len() implies is_idle(
        read,
        #[trigger] in_order(groups[k].batteries)[n],
        in_order(groups[k].inverters),
    ) by {
        let list = in_order(groups[k].batteries);
        assert(is_finite(groups[k]));
        lemma_has_order(groups[k].batteries);
        assert(list.to_set().contains(list[n]));
        assert(groups[k].batteries.contains(list[n]));
        lemma_down_is_idle(telemetry, healthy, list[n], groups[k].inverters);
    }
    assert(all_idle(read, groups));
    law_no_reading_without_a_contributing_battery(value, read, groups);
}

/// Of a healthy component, a leaf reads the first sample of its metric: the value
/// that the sample carries, or an end of the first bounds of the sample.
pub proof fn law_leaves_read_the_first_sample(
    id: u64,
    metric: Metric,
    data: ElectricalComponentTelemetry,
    healthy: Set<ElectricalComponentStateCode>,
    at: int,
)
    requires
        snapshots_health(data.state_snapshots@, healthy) == Health::Healthy,
        0 <= at < data.metric_samples@.len(),
        data.metric_samples@[at].metric == Coded::<Metric>::Known(metric),
        forall|i: int|
            0 <= i < at ==> (#[trigger] data.metric_samples@[i]).metric != Coded::<Metric>::Known(
                metric,
            ),
    ensures
        ({
            let sample = data.metric_samples@[at];
            let value = PoolKey { component_id: id, source: Source::Value(metric) };
            let lower = PoolKey { component_id: id, source: Source::LowerBound(metric) };
            let upper = PoolKey { component_id: id, source: Source::UpperBound(metric) };
            &&& reading_of(value, Some(data), healthy) == carried(sample)
            &&& sample.bounds@.len() > 0 ==> reading_of(lower, Some(data), healthy)
                == sample.bounds@[0].lower
            &&& sample.bounds@.len() > 0 ==> reading_of(upper, Some(data), healthy)
                == sample.bounds@[0].upper
            &&& sample.bounds@.len() == 0 ==> reading_of(lower, Some(data), healthy) is None
                && reading_of(upper, Some(data), healthy) is None
        }),
{
    law_first_sample_is_found(data.metric_samples@, metric, at);
}

/// A leaf reads nothing without telemetry, nothing of a component that is not
/// healthy, and nothing of a metric that the telemetry has no sample of.
pub proof fn law_leaves_read_nothing_else(
    key: PoolKey,
    data: ElectricalComponentTelemetry,
    healthy: Set<ElectricalComponentStateCode>,
    metric: Metric,
)
    ensures
        reading_of(key, None, healthy) is None,
        snapshots_health(data.state_snapshots@, healthy) != Health::Healthy ==> reading_of(
            key,
            Some(data),
            healthy,
        ) is None,
        (key.source == Source::Value(metric) || key.source == Source::LowerBound(metric)
            || key.source == Source::UpperBound(metric)) && (forall|i: int|
            0 <= i < data.metric_samples@.len() ==> (#[trigger] data.metric_samples@[i]).metric
                != Coded::<Metric>::Known(metric)) ==> reading_of(key, Some(data), healthy) is None,
{
    if forall|i: int|
        0 <= i < data.metric_samples@.len() ==> (#[trigger] data.metric_samples@[i]).metric
            != Coded::<Metric>::Known(metric) {
        law_no_sample_without_the_metric(data.metric_samples@, metric);
    }
}

/// The health of a component reads one where the component is healthy, and nothing
/// else.
pub proof fn law_health_reads_one(
    id: u64,
    data: ElectricalComponentTelemetry,
    healthy: Set<ElectricalComponentStateCode>,
)
    ensures
        match reading_of(
            PoolKey { component_id: id, source: Source::Health },
            Some(data),
            healthy,
        ) {
            Some(one) => number(one) == Some(1 as real) && snapshots_health(
                data.state_snapshots@,
                healthy,
            ) == Health::Healthy,
            None => snapshots_health(data.state_snapshots@, healthy) != Health::Healthy,
        },
{
    law_bits_of_zero_and_one();
}

/// What a component sent last counts as long as it is not too old, and nothing
/// before it does.
pub proof fn law_telemetry_counts_until_it_is_too_old(
    readings: PoolReadings,
    id: u64,
    heard: Heard,
    now: u128,
)
    requires
        readings.heard()[id] == Some(heard),
    ensures
        now < heard.at + readings.spec_max_age() ==> readings.current(id, now) == Some(
            heard.telemetry,
        ),
        now >= heard.at + readings.spec_max_age() ==> readings.current(id, now) is None,
{
}

}
