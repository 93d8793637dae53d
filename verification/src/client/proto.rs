//! What the microgrid API says of components, connections and telemetry, as
//! plain values.
//!
//! Numeric codes arrive decoded: a code that has no meaning here keeps its
//! number (see [`Coded`]).

pub mod graph;

use vstd::prelude::*;

use crate::single::Single;

verus! {

/// A numeric code of the API: its meaning where it is known, else its number.
#[derive(Clone, Copy, Debug, PartialEq, Eq)]
pub enum Coded<T> {
    /// A code with a known meaning.
    Known(T),
    /// A code that has no known meaning.
    Unknown(i32),
}

/// The metrics that this library reads from components.
#[derive(Clone, Copy, Debug, PartialEq, Eq, Hash, Structural)]
pub enum Metric {
    DcPower,
    AcPowerActive,
    AcPowerReactive,
    AcPowerApparent,
    AcCurrent,
    AcCurrentPhase1,
    AcCurrentPhase2,
    AcCurrentPhase3,
    AcVoltage,
    AcVoltagePhase1N,
    AcVoltagePhase2N,
    AcVoltagePhase3N,
    AcVoltagePhase1Phase2,
    AcVoltagePhase2Phase3,
    AcVoltagePhase3Phase1,
    AcFrequency,
    BatteryCapacity,
    BatterySocPct,
}

/// The category of an electrical component.
#[derive(Clone, Copy, Debug, PartialEq, Eq, Structural)]
pub enum ElectricalComponentCategory {
    Unspecified,
    GridConnectionPoint,
    Meter,
    Inverter,
    Converter,
    Battery,
    EvCharger,
    CryptoMiner,
    Electrolyzer,
    Chp,
    Hvac,
    Breaker,
    Precharger,
    PowerTransformer,
    Plc,
    StaticTransferSwitch,
    UninterruptiblePowerSupply,
    CapacitorBank,
    WindTurbine,
    SteamBoiler,
}

/// The type of an inverter.
#[derive(Clone, Copy, Debug, PartialEq, Eq, Structural)]
pub enum InverterType {
    Unspecified,
    Pv,
    Battery,
    Hybrid,
}

/// The type of a battery.
#[derive(Clone, Copy, Debug, PartialEq, Eq, Structural)]
pub enum BatteryType {
    Unspecified,
    LiIon,
    NaIon,
}

/// The type of an EV charger.
#[derive(Clone, Copy, Debug, PartialEq, Eq, Structural)]
pub enum EvChargerType {
    Unspecified,
    Ac,
    Dc,
    Hybrid,
}

/// How a component may be used.
#[derive(Clone, Copy, Debug, PartialEq, Eq, Structural)]
pub enum ElectricalComponentOperationalMode {
    Unspecified,
    Inactive,
    TelemetryOnly,
    ControlOnly,
    ControlAndTelemetry,
}

/// What only components of one category have.
#[derive(Clone, Copy, Debug, PartialEq, Eq)]
pub enum CategorySpecificKind {
    Inverter(Coded<InverterType>),
    Battery(Coded<BatteryType>),
    EvCharger(Coded<EvChargerType>),
    /// Information on a category that has no type of its own here.
    Other,
}

/// The category-specific part of a component's description.
#[derive(Clone, Copy, Debug, PartialEq, Eq)]
pub struct ElectricalComponentCategorySpecificInfo {
    pub kind: Option<CategorySpecificKind>,
}

/// An electrical component of the microgrid.
#[derive(Clone, Copy, Debug, PartialEq, Eq)]
pub struct ElectricalComponent {
    pub id: u64,
    pub category: Coded<ElectricalComponentCategory>,
    pub category_specific_info: Option<ElectricalComponentCategorySpecificInfo>,
    pub operational_mode: Coded<ElectricalComponentOperationalMode>,
}

/// A connection from one electrical component to another.
#[derive(Clone, Copy, Debug, PartialEq, Eq)]
pub struct ElectricalComponentConnection {
    pub source_electrical_component_id: u64,
    pub destination_electrical_component_id: u64,
}

/// The states of a component that this library tells apart.
#[derive(Clone, Copy, Debug, PartialEq, Eq, Structural)]
pub enum ElectricalComponentStateCode {
    Ready,
    Standby,
    Charging,
    Discharging,
    RelayClosed,
    Error,
    /// Any other state of the API, by its number.
    Other(i32),
}

/// An error that a component reports, by its code.
#[derive(Clone, Copy, Debug, PartialEq, Eq)]
pub struct ElectricalComponentDiagnostic {
    pub code: i32,
}

/// The states and errors of a component at one time.
#[derive(Clone, Debug, PartialEq, Eq)]
pub struct ElectricalComponentStateSnapshot {
    pub states: Vec<Coded<ElectricalComponentStateCode>>,
    pub errors: Vec<ElectricalComponentDiagnostic>,
}

/// A point in time, in seconds and nanoseconds since the Unix epoch.
#[derive(Clone, Copy, Debug, PartialEq, Eq, Structural)]
pub struct Timestamp {
    pub seconds: i64,
    pub nanos: i32,
}

/// The value of a metric sample.
#[derive(Clone, Copy, Debug, PartialEq)]
pub enum MetricValueVariant {
    /// A single value.
    SimpleMetric {
        value: Single,
    },
    /// A value aggregated from several readings, with their mean.
    AggregatedMetric {
        avg_value: Single,
    },
}

/// The value of a metric sample, where there is one.
#[derive(Clone, Copy, Debug, PartialEq)]
pub struct MetricValue {
    pub metric_value_variant: Option<MetricValueVariant>,
}

/// The bounds of a metric, as a component reports them.
#[derive(Clone, Copy, Debug, PartialEq)]
pub struct Bounds {
    pub lower: Option<Single>,
    pub upper: Option<Single>,
}

/// A sample of one metric of a component.
#[derive(Clone, Debug, PartialEq)]
pub struct MetricSample {
    pub sample_time: Option<Timestamp>,
    pub metric: Coded<Metric>,
    pub value: Option<MetricValue>,
    pub bounds: Vec<Bounds>,
}

/// One telemetry message of a component.
#[derive(Clone, Debug, PartialEq)]
pub struct ElectricalComponentTelemetry {
    pub electrical_component_id: u64,
    pub metric_samples: Vec<MetricSample>,
    pub state_snapshots: Vec<ElectricalComponentStateSnapshot>,
}

impl ElectricalComponent {
    /// The category of the component; one that is not known counts as
    /// unspecified.
    pub open spec fn spec_category(&self) -> ElectricalComponentCategory {
        match self.category {
            Coded::Known(category) => category,
            Coded::Unknown(_) => ElectricalComponentCategory::Unspecified,
        }
    }

    /// The category of the component; one that is not known counts as
    /// unspecified.
    pub fn category(&self) -> (r: ElectricalComponentCategory)
        ensures
            r == self.spec_category(),
    {
        match self.category {
            Coded::Known(category) => category,
            Coded::Unknown(_) => ElectricalComponentCategory::Unspecified,
        }
    }
}

impl Metric {
    /// The name of the metric in the API.
    pub open spec fn spec_str_name(self) -> Seq<char> {
        match self {
            Metric::DcPower => "METRIC_DC_POWER"@,
            Metric::AcPowerActive => "METRIC_AC_POWER_ACTIVE"@,
            Metric::AcPowerReactive => "METRIC_AC_POWER_REACTIVE"@,
            Metric::AcPowerApparent => "METRIC_AC_POWER_APPARENT"@,
            Metric::AcCurrent => "METRIC_AC_CURRENT"@,
            Metric::AcCurrentPhase1 => "METRIC_AC_CURRENT_PHASE_1"@,
            Metric::AcCurrentPhase2 => "METRIC_AC_CURRENT_PHASE_2"@,
            Metric::AcCurrentPhase3 => "METRIC_AC_CURRENT_PHASE_3"@,
            Metric::AcVoltage => "METRIC_AC_VOLTAGE"@,
            Metric::AcVoltagePhase1N => "METRIC_AC_VOLTAGE_PHASE_1_N"@,
            Metric::AcVoltagePhase2N => "METRIC_AC_VOLTAGE_PHASE_2_N"@,
            Metric::AcVoltagePhase3N => "METRIC_AC_VOLTAGE_PHASE_3_N"@,
            Metric::AcVoltagePhase1Phase2 => "METRIC_AC_VOLTAGE_PHASE_1_PHASE_2"@,
            Metric::AcVoltagePhase2Phase3 => "METRIC_AC_VOLTAGE_PHASE_2_PHASE_3"@,
            Metric::AcVoltagePhase3Phase1 => "METRIC_AC_VOLTAGE_PHASE_3_PHASE_1"@,
            Metric::AcFrequency => "METRIC_AC_FREQUENCY"@,
            Metric::BatteryCapacity => "METRIC_BATTERY_CAPACITY"@,
            Metric::BatterySocPct => "METRIC_BATTERY_SOC_PCT"@,
        }
    }

    /// The name of the metric in the API.
    pub fn as_str_name(self) -> (name: &'static str)
        ensures
            name@ == self.spec_str_name(),
    {
        match self {
            Metric::DcPower => "METRIC_DC_POWER",
            Metric::AcPowerActive => "METRIC_AC_POWER_ACTIVE",
            Metric::AcPowerReactive => "METRIC_AC_POWER_REACTIVE",
            Metric::AcPowerApparent => "METRIC_AC_POWER_APPARENT",
            Metric::AcCurrent => "METRIC_AC_CURRENT",
            Metric::AcCurrentPhase1 => "METRIC_AC_CURRENT_PHASE_1",
            Metric::AcCurrentPhase2 => "METRIC_AC_CURRENT_PHASE_2",
            Metric::AcCurrentPhase3 => "METRIC_AC_CURRENT_PHASE_3",
            Metric::AcVoltage => "METRIC_AC_VOLTAGE",
            Metric::AcVoltagePhase1N => "METRIC_AC_VOLTAGE_PHASE_1_N",
            Metric::AcVoltagePhase2N => "METRIC_AC_VOLTAGE_PHASE_2_N",
            Metric::AcVoltagePhase3N => "METRIC_AC_VOLTAGE_PHASE_3_N",
            Metric::AcVoltagePhase1Phase2 => "METRIC_AC_VOLTAGE_PHASE_1_PHASE_2",
            Metric::AcVoltagePhase2Phase3 => "METRIC_AC_VOLTAGE_PHASE_2_PHASE_3",
            Metric::AcVoltagePhase3Phase1 => "METRIC_AC_VOLTAGE_PHASE_3_PHASE_1",
            Metric::AcFrequency => "METRIC_AC_FREQUENCY",
            Metric::BatteryCapacity => "METRIC_BATTERY_CAPACITY",
            Metric::BatterySocPct => "METRIC_BATTERY_SOC_PCT",
        }
    }
}

/// The value that a sample carries: its only one, or the mean.
pub open spec fn carried(sample: MetricSample) -> Option<Single> {
    match sample.value {
        Some(value) => match value.metric_value_variant {
            Some(MetricValueVariant::SimpleMetric { value }) => Some(value),
            Some(MetricValueVariant::AggregatedMetric { avg_value }) => Some(avg_value),
            None => None,
        },
        None => None,
    }
}

impl MetricSample {
    /// The value that the sample carries: its only one, or the mean.
    pub fn carried_value(&self) -> (r: Option<Single>)
        ensures
            r == carried(*self),
    {
        match self.value {
            Some(value) => match value.metric_value_variant {
                Some(MetricValueVariant::SimpleMetric { value }) => Some(value),
                Some(MetricValueVariant::AggregatedMetric { avg_value }) => Some(avg_value),
                None => None,
            },
            None => None,
        }
    }
}

/// The first of `samples` that is of `metric`, if any is.
pub open spec fn sample_of(samples: Seq<MetricSample>, metric: Metric) -> Option<MetricSample>
    decreases samples.len(),
{
    if samples.len() == 0 {
        None
    } else {
        match sample_of(samples.drop_last(), metric) {
            Some(sample) => Some(sample),
            None => if samples.last().metric == Coded::<Metric>::Known(metric) {
                Some(samples.last())
            } else {
                None
            },
        }
    }
}

proof fn lemma_sample_stays(samples: Seq<MetricSample>, metric: Metric, n: int)
    requires
        0 <= n <= samples.len(),
        sample_of(samples.take(n), metric) is Some,
    ensures
        sample_of(samples, metric) == sample_of(samples.take(n), metric),
    decreases samples.len() - n,
{
    if n < samples.len() {
        assert(samples.take(n + 1).drop_last() =~= samples.take(n));
        lemma_sample_stays(samples, metric, n + 1);
    } else {
        assert(samples.take(n) =~= samples);
    }
}

impl ElectricalComponentTelemetry {
    /// The first sample of `metric`, if there is one.
    pub fn find_sample(&self, metric: Metric) -> (r: Option<&MetricSample>)
        ensures
            match r {
                Some(sample) => sample_of(self.metric_samples@, metric) == Some(*sample),
                None => sample_of(self.metric_samples@, metric) is None,
            },
    {
        let samples = &self.metric_samples;
        let mut i: usize = 0;
        while i < samples.len()
            invariant
                i <= samples.len(),
                samples@ == self.metric_samples@,
                sample_of(samples@.take(i as int), metric) is None,
            decreases samples.len() - i,
        {
            assert(samples@.take(i + 1).drop_last() =~= samples@.take(i as int));
            let found = match samples[i].metric {
                Coded::Known(known) => known == metric,
                Coded::Unknown(_) => false,
            };
            if found {
                proof {
                    lemma_sample_stays(samples@, metric, i + 1);
                }
                return Some(&samples[i]);
            }
            i = i + 1;
        }
        assert(samples@.take(samples@.len() as int) =~= samples@);
        None
    }
}

/// The sample of a metric is the first that is of it.
pub proof fn law_first_sample_is_found(samples: Seq<MetricSample>, metric: Metric, i: int)
    requires
        0 <= i < samples.len(),
        samples[i].metric == Coded::<Metric>::Known(metric),
        forall|j: int|
            0 <= j < i ==> (#[trigger] samples[j]).metric != Coded::<Metric>::Known(metric),
    ensures
        sample_of(samples, metric) == Some(samples[i]),
{
    let head = samples.take(i);
    assert forall|j: int| 0 <= j < head.len() implies (#[trigger] head[j]).metric != Coded::<
        Metric,
    >::Known(metric) by {
        assert(head[j] == samples[j]);
    }
    law_no_sample_without_the_metric(head, metric);
    assert(samples.take(i + 1).drop_last() =~= head);
    assert(samples.take(i + 1).last() == samples[i]);
    lemma_sample_stays(samples, metric, i + 1);
}

/// Without a sample of the metric there is none.
pub proof fn law_no_sample_without_the_metric(samples: Seq<MetricSample>, metric: Metric)
    requires
        forall|j: int|
            0 <= j < samples.len() ==> (#[trigger] samples[j]).metric != Coded::<Metric>::Known(
                metric,
            ),
    ensures
        sample_of(samples, metric) is None,
    decreases samples.len(),
{
    if samples.len() > 0 {
        let front = samples.drop_last();
        assert forall|j: int| 0 <= j < front.len() implies (#[trigger] front[j]).metric != Coded::<
            Metric,
        >::Known(metric) by {
            assert(front[j] == samples[j]);
        }
        law_no_sample_without_the_metric(front, metric);
        assert(samples[samples.len() - 1].metric != Coded::<Metric>::Known(metric));
    }
}

/// A sample carries its simple value, or the mean of an aggregated one, and
/// nothing else.
pub proof fn law_samples_carry_their_value(sample: MetricSample, value: Single)
    ensures
        carried(sample) == Some(value) <==> (sample.value matches Some(v) && (
        v.metric_value_variant == Some(MetricValueVariant::SimpleMetric { value })
            || v.metric_value_variant == Some(
            MetricValueVariant::AggregatedMetric { avg_value: value },
        ))),
{
}

/// What tells the name of a metric from those of others: its length, and two of its
/// last characters.
spec fn mark(metric: Metric) -> (nat, char, char) {
    match metric {
        Metric::DcPower => (15, 'R', 'W'),
        Metric::AcPowerActive => (22, 'E', 'I'),
        Metric::AcPowerReactive => (24, 'E', 'I'),
        Metric::AcPowerApparent => (24, 'T', 'E'),
        Metric::AcCurrent => (17, 'T', 'E'),
        Metric::AcCurrentPhase1 => (25, '1', 'E'),
        Metric::AcCurrentPhase2 => (25, '2', 'E'),
        Metric::AcCurrentPhase3 => (25, '3', 'E'),
        Metric::AcVoltage => (17, 'E', 'A'),
        Metric::AcVoltagePhase1N => (27, 'N', '1'),
        Metric::AcVoltagePhase2N => (27, 'N', '2'),
        Metric::AcVoltagePhase3N => (27, 'N', '3'),
        Metric::AcVoltagePhase1Phase2 => (33, '2', 'E'),
        Metric::AcVoltagePhase2Phase3 => (33, '3', 'E'),
        Metric::AcVoltagePhase3Phase1 => (33, '1', 'E'),
        Metric::AcFrequency => (19, 'Y', 'N'),
        Metric::BatteryCapacity => (23, 'Y', 'I'),
        Metric::BatterySocPct => (22, 'T', 'P'),
    }
}

proof fn lemma_name_has_its_mark(metric: Metric)
    ensures
        ({
            let name = metric.spec_str_name();
            mark(metric) == (name.len(), name[name.len() - 1], name[name.len() - 3])
        }),
        metric.spec_str_name().len() > 7,
        metric.spec_str_name().take(7) == seq!['M', 'E', 'T', 'R', 'I', 'C', '_'],
{
    reveal_strlit("METRIC_DC_POWER");
    reveal_strlit("METRIC_AC_POWER_ACTIVE");
    reveal_strlit("METRIC_AC_POWER_REACTIVE");
    reveal_strlit("METRIC_AC_POWER_APPARENT");
    reveal_strlit("METRIC_AC_CURRENT");
    reveal_strlit("METRIC_AC_CURRENT_PHASE_1");
    reveal_strlit("METRIC_AC_CURRENT_PHASE_2");
    reveal_strlit("METRIC_AC_CURRENT_PHASE_3");
    reveal_strlit("METRIC_AC_VOLTAGE");
    reveal_strlit("METRIC_AC_VOLTAGE_PHASE_1_N");
    reveal_strlit("METRIC_AC_VOLTAGE_PHASE_2_N");
    reveal_strlit("METRIC_AC_VOLTAGE_PHASE_3_N");
    reveal_strlit("METRIC_AC_VOLTAGE_PHASE_1_PHASE_2");
    reveal_strlit("METRIC_AC_VOLTAGE_PHASE_2_PHASE_3");
    reveal_strlit("METRIC_AC_VOLTAGE_PHASE_3_PHASE_1");
    reveal_strlit("METRIC_AC_FREQUENCY");
    reveal_strlit("METRIC_BATTERY_CAPACITY");
    reveal_strlit("METRIC_BATTERY_SOC_PCT");
    assert(metric.spec_str_name().take(7) =~= seq!['M', 'E', 'T', 'R', 'I', 'C', '_']);
}

/// The API's names of all metrics begin alike, and no two metrics have the same.
pub proof fn law_metrics_have_their_own_names(a: Metric, b: Metric)
    ensures
        a.spec_str_name() == b.spec_str_name() ==> a == b,
        a.spec_str_name().len() > 7,
        a.spec_str_name().take(7) == seq!['M', 'E', 'T', 'R', 'I', 'C', '_'],
{
    lemma_name_has_its_mark(a);
    lemma_name_has_its_mark(b);
}

}
