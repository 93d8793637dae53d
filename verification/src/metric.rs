//! Metrics supported by the logical meter.

use vstd::prelude::*;

use crate::client::proto::Metric as MetricPb;

verus! {

/// Which family of component-graph formula generators a metric uses.
#[derive(Clone, Copy, Debug, PartialEq, Eq, Structural)]
pub enum FormulaKind {
    /// Sums and differences over components, for power and current.
    Aggregation,
    /// The first available source, for voltage and frequency.
    Coalesce,
}

/// A metric the logical meter can stream, and the kind of graph formula that
/// computes it.
pub trait Metric: Clone + Copy + Sync + 'static {
    /// The metric read from components.
    const METRIC: MetricPb;

    /// The graph formula family used to compute this metric.
    const KIND: FormulaKind;

    /// The name of the metric.
    spec fn spec_str_name() -> Seq<char>;

    /// The metric's name, such as `AcPowerActive`.
    fn str_name() -> (name: &'static str)
        ensures
            name@ == Self::spec_str_name(),
    ;
}

/// The `DcPower` metric.
#[derive(Debug, Clone, Copy, PartialEq, Eq)]
pub struct DcPower;

impl Metric for DcPower {
    const METRIC: MetricPb = MetricPb::DcPower;

    const KIND: FormulaKind = FormulaKind::Aggregation;

    open spec fn spec_str_name() -> Seq<char> {
        "DcPower"@
    }

    fn str_name() -> (name: &'static str) {
        "DcPower"
    }
}

/// The `AcPowerActive` metric.
#[derive(Debug, Clone, Copy, PartialEq, Eq)]
pub struct AcPowerActive;

impl Metric for AcPowerActive {
    const METRIC: MetricPb = MetricPb::AcPowerActive;

    const KIND: FormulaKind = FormulaKind::Aggregation;

    open spec fn spec_str_name() -> Seq<char> {
        "AcPowerActive"@
    }

    fn str_name() -> (name: &'static str) {
        "AcPowerActive"
    }
}

/// The `AcPowerReactive` metric.
#[derive(Debug, Clone, Copy, PartialEq, Eq)]
pub struct AcPowerReactive;

impl Metric for AcPowerReactive {
    const METRIC: MetricPb = MetricPb::AcPowerReactive;

    const KIND: FormulaKind = FormulaKind::Aggregation;

    open spec fn spec_str_name() -> Seq<char> {
        "AcPowerReactive"@
    }

    fn str_name() -> (name: &'static str) {
        "AcPowerReactive"
    }
}

/// The `AcPowerApparent` metric.
#[derive(Debug, Clone, Copy, PartialEq, Eq)]
pub struct AcPowerApparent;

impl Metric for AcPowerApparent {
    const METRIC: MetricPb = MetricPb::AcPowerApparent;

    const KIND: FormulaKind = FormulaKind::Aggregation;

    open spec fn spec_str_name() -> Seq<char> {
        "AcPowerApparent"@
    }

    fn str_name() -> (name: &'static str) {
        "AcPowerApparent"
    }
}

/// The `AcCurrent` metric.
#[derive(Debug, Clone, Copy, PartialEq, Eq)]
pub struct AcCurrent;

impl Metric for AcCurrent {
    const METRIC: MetricPb = MetricPb::AcCurrent;

    const KIND: FormulaKind = FormulaKind::Aggregation;

    open spec fn spec_str_name() -> Seq<char> {
        "AcCurrent"@
    }

    fn str_name() -> (name: &'static str) {
        "AcCurrent"
    }
}

/// The `AcCurrentPhase1` metric.
#[derive(Debug, Clone, Copy, PartialEq, Eq)]
pub struct AcCurrentPhase1;

impl Metric for AcCurrentPhase1 {
    const METRIC: MetricPb = MetricPb::AcCurrentPhase1;

    const KIND: FormulaKind = FormulaKind::Aggregation;

    open spec fn spec_str_name() -> Seq<char> {
        "AcCurrentPhase1"@
    }

    fn str_name() -> (name: &'static str) {
        "AcCurrentPhase1"
    }
}

/// The `AcCurrentPhase2` metric.
#[derive(Debug, Clone, Copy, PartialEq, Eq)]
pub struct AcCurrentPhase2;

impl Metric for AcCurrentPhase2 {
    const METRIC: MetricPb = MetricPb::AcCurrentPhase2;

    const KIND: FormulaKind = FormulaKind::Aggregation;

    open spec fn spec_str_name() -> Seq<char> {
        "AcCurrentPhase2"@
    }

    fn str_name() -> (name: &'static str) {
        "AcCurrentPhase2"
    }
}

/// The `AcCurrentPhase3` metric.
#[derive(Debug, Clone, Copy, PartialEq, Eq)]
pub struct AcCurrentPhase3;

impl Metric for AcCurrentPhase3 {
    const METRIC: MetricPb = MetricPb::AcCurrentPhase3;

    const KIND: FormulaKind = FormulaKind::Aggregation;

    open spec fn spec_str_name() -> Seq<char> {
        "AcCurrentPhase3"@
    }

    fn str_name() -> (name: &'static str) {
        "AcCurrentPhase3"
    }
}

/// The `AcVoltage` metric.
#[derive(Debug, Clone, Copy, PartialEq, Eq)]
pub struct AcVoltage;

impl Metric for AcVoltage {
    const METRIC: MetricPb = MetricPb::AcVoltage;

    const KIND: FormulaKind = FormulaKind::Coalesce;

    open spec fn spec_str_name() -> Seq<char> {
        "AcVoltage"@
    }

    fn str_name() -> (name: &'static str) {
        "AcVoltage"
    }
}

/// The `AcVoltagePhase1N` metric.
#[derive(Debug, Clone, Copy, PartialEq, Eq)]
pub struct AcVoltagePhase1N;

impl Metric for AcVoltagePhase1N {
    const METRIC: MetricPb = MetricPb::AcVoltagePhase1N;

    const KIND: FormulaKind = FormulaKind::Coalesce;

    open spec fn spec_str_name() -> Seq<char> {
        "AcVoltagePhase1N"@
    }

    fn str_name() -> (name: &'static str) {
        "AcVoltagePhase1N"
    }
}

/// The `AcVoltagePhase2N` metric.
#[derive(Debug, Clone, Copy, PartialEq, Eq)]
pub struct AcVoltagePhase2N;

impl Metric for AcVoltagePhase2N {
    const METRIC: MetricPb = MetricPb::AcVoltagePhase2N;

    const KIND: FormulaKind = FormulaKind::Coalesce;

    open spec fn spec_str_name() -> Seq<char> {
        "AcVoltagePhase2N"@
    }

    fn str_name() -> (name: &'static str) {
        "AcVoltagePhase2N"
    }
}

/// The `AcVoltagePhase3N` metric.
#[derive(Debug, Clone, Copy, PartialEq, Eq)]
pub struct AcVoltagePhase3N;

impl Metric for AcVoltagePhase3N {
    const METRIC: MetricPb = MetricPb::AcVoltagePhase3N;

    const KIND: FormulaKind = FormulaKind::Coalesce;

    open spec fn spec_str_name() -> Seq<char> {
        "AcVoltagePhase3N"@
    }

    fn str_name() -> (name: &'static str) {
        "AcVoltagePhase3N"
    }
}

/// The `AcVoltagePhase1Phase2` metric.
#[derive(Debug, Clone, Copy, PartialEq, Eq)]
pub struct AcVoltagePhase1Phase2;

impl Metric for AcVoltagePhase1Phase2 {
    const METRIC: MetricPb = MetricPb::AcVoltagePhase1Phase2;

    const KIND: FormulaKind = FormulaKind::Coalesce;

    open spec fn spec_str_name() -> Seq<char> {
        "AcVoltagePhase1Phase2"@
    }

    fn str_name() -> (name: &'static str) {
        "AcVoltagePhase1Phase2"
    }
}

/// The `AcVoltagePhase2Phase3` metric.
#[derive(Debug, Clone, Copy, PartialEq, Eq)]
pub struct AcVoltagePhase2Phase3;

impl Metric for AcVoltagePhase2Phase3 {
    const METRIC: MetricPb = MetricPb::AcVoltagePhase2Phase3;

    const KIND: FormulaKind = FormulaKind::Coalesce;

    open spec fn spec_str_name() -> Seq<char> {
        "AcVoltagePhase2Phase3"@
    }

    fn str_name() -> (name: &'static str) {
        "AcVoltagePhase2Phase3"
    }
}

/// The `AcVoltagePhase3Phase1` metric.
#[derive(Debug, Clone, Copy, PartialEq, Eq)]
pub struct AcVoltagePhase3Phase1;

impl Metric for AcVoltagePhase3Phase1 {
    const METRIC: MetricPb = MetricPb::AcVoltagePhase3Phase1;

    const KIND: FormulaKind = FormulaKind::Coalesce;

    open spec fn spec_str_name() -> Seq<char> {
        "AcVoltagePhase3Phase1"@
    }

    fn str_name() -> (name: &'static str) {
        "AcVoltagePhase3Phase1"
    }
}

/// The `AcFrequency` metric.
#[derive(Debug, Clone, Copy, PartialEq, Eq)]
pub struct AcFrequency;

impl Metric for AcFrequency {
    const METRIC: MetricPb = MetricPb::AcFrequency;

    const KIND: FormulaKind = FormulaKind::Coalesce;

    open spec fn spec_str_name() -> Seq<char> {
        "AcFrequency"@
    }

    fn str_name() -> (name: &'static str) {
        "AcFrequency"
    }
}

/// Every metric reads the metric of its name from components. Powers and
/// currents are computed by sums over components, voltages and the frequency by
/// the first available source.
pub proof fn law_metrics_and_their_kinds()
    ensures
        DcPower::METRIC == MetricPb::DcPower && DcPower::KIND == FormulaKind::Aggregation,
        AcPowerActive::METRIC == MetricPb::AcPowerActive && AcPowerActive::KIND == FormulaKind::Aggregation,
        AcPowerReactive::METRIC == MetricPb::AcPowerReactive && AcPowerReactive::KIND == FormulaKind::Aggregation,
        AcPowerApparent::METRIC == MetricPb::AcPowerApparent && AcPowerApparent::KIND == FormulaKind::Aggregation,
        AcCurrent::METRIC == MetricPb::AcCurrent && AcCurrent::KIND == FormulaKind::Aggregation,
        AcCurrentPhase1::METRIC == MetricPb::AcCurrentPhase1 && AcCurrentPhase1::KIND == FormulaKind::Aggregation,
        AcCurrentPhase2::METRIC == MetricPb::AcCurrentPhase2 && AcCurrentPhase2::KIND == FormulaKind::Aggregation,
        AcCurrentPhase3::METRIC == MetricPb::AcCurrentPhase3 && AcCurrentPhase3::KIND == FormulaKind::Aggregation,
        AcVoltage::METRIC == MetricPb::AcVoltage && AcVoltage::KIND == FormulaKind::Coalesce,
        AcVoltagePhase1N::METRIC == MetricPb::AcVoltagePhase1N && AcVoltagePhase1N::KIND == FormulaKind::Coalesce,
        AcVoltagePhase2N::METRIC == MetricPb::AcVoltagePhase2N && AcVoltagePhase2N::KIND == FormulaKind::Coalesce,
        AcVoltagePhase3N::METRIC == MetricPb::AcVoltagePhase3N && AcVoltagePhase3N::KIND == FormulaKind::Coalesce,
        AcVoltagePhase1Phase2::METRIC == MetricPb::AcVoltagePhase1Phase2 && AcVoltagePhase1Phase2::KIND == FormulaKind::Coalesce,
        AcVoltagePhase2Phase3::METRIC == MetricPb::AcVoltagePhase2Phase3 && AcVoltagePhase2Phase3::KIND == FormulaKind::Coalesce,
        AcVoltagePhase3Phase1::METRIC == MetricPb::AcVoltagePhase3Phase1 && AcVoltagePhase3Phase1::KIND == FormulaKind::Coalesce,
        AcFrequency::METRIC == MetricPb::AcFrequency && AcFrequency::KIND == FormulaKind::Coalesce,
{
}

/// A metric goes by its own name, and is asked of the API by the name that the API
/// gives it.
pub proof fn law_metrics_and_their_names()
    ensures
        DcPower::spec_str_name() == "DcPower"@,
        DcPower::METRIC.spec_str_name() == "METRIC_DC_POWER"@,
        AcPowerActive::spec_str_name() == "AcPowerActive"@,
        AcPowerActive::METRIC.spec_str_name() == "METRIC_AC_POWER_ACTIVE"@,
        AcPowerReactive::spec_str_name() == "AcPowerReactive"@,
        AcPowerReactive::METRIC.spec_str_name() == "METRIC_AC_POWER_REACTIVE"@,
        AcPowerApparent::spec_str_name() == "AcPowerApparent"@,
        AcPowerApparent::METRIC.spec_str_name() == "METRIC_AC_POWER_APPARENT"@,
        AcCurrent::spec_str_name() == "AcCurrent"@,
        AcCurrent::METRIC.spec_str_name() == "METRIC_AC_CURRENT"@,
        AcCurrentPhase1::spec_str_name() == "AcCurrentPhase1"@,
        AcCurrentPhase1::METRIC.spec_str_name() == "METRIC_AC_CURRENT_PHASE_1"@,
        AcCurrentPhase2::spec_str_name() == "AcCurrentPhase2"@,
        AcCurrentPhase2::METRIC.spec_str_name() == "METRIC_AC_CURRENT_PHASE_2"@,
        AcCurrentPhase3::spec_str_name() == "AcCurrentPhase3"@,
        AcCurrentPhase3::METRIC.spec_str_name() == "METRIC_AC_CURRENT_PHASE_3"@,
        AcVoltage::spec_str_name() == "AcVoltage"@,
        AcVoltage::METRIC.spec_str_name() == "METRIC_AC_VOLTAGE"@,
        AcVoltagePhase1N::spec_str_name() == "AcVoltagePhase1N"@,
        AcVoltagePhase1N::METRIC.spec_str_name() == "METRIC_AC_VOLTAGE_PHASE_1_N"@,
        AcVoltagePhase2N::spec_str_name() == "AcVoltagePhase2N"@,
        AcVoltagePhase2N::METRIC.spec_str_name() == "METRIC_AC_VOLTAGE_PHASE_2_N"@,
        AcVoltagePhase3N::spec_str_name() == "AcVoltagePhase3N"@,
        AcVoltagePhase3N::METRIC.spec_str_name() == "METRIC_AC_VOLTAGE_PHASE_3_N"@,
        AcVoltagePhase1Phase2::spec_str_name() == "AcVoltagePhase1Phase2"@,
        AcVoltagePhase1Phase2::METRIC.spec_str_name() == "METRIC_AC_VOLTAGE_PHASE_1_PHASE_2"@,
        AcVoltagePhase2Phase3::spec_str_name() == "AcVoltagePhase2Phase3"@,
        AcVoltagePhase2Phase3::METRIC.spec_str_name() == "METRIC_AC_VOLTAGE_PHASE_2_PHASE_3"@,
        AcVoltagePhase3Phase1::spec_str_name() == "AcVoltagePhase3Phase1"@,
        AcVoltagePhase3Phase1::METRIC.spec_str_name() == "METRIC_AC_VOLTAGE_PHASE_3_PHASE_1"@,
        AcFrequency::spec_str_name() == "AcFrequency"@,
        AcFrequency::METRIC.spec_str_name() == "METRIC_AC_FREQUENCY"@,
        MetricPb::BatteryCapacity.spec_str_name() == "METRIC_BATTERY_CAPACITY"@,
        MetricPb::BatterySocPct.spec_str_name() == "METRIC_BATTERY_SOC_PCT"@,
{
}

}
