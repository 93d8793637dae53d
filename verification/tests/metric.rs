//! The metrics and how formulas over them are made.

use frequenz_microgrid::client::proto::Metric as MetricPb;
use frequenz_microgrid::metric::{
    AcCurrent, AcCurrentPhase1, AcCurrentPhase2, AcCurrentPhase3, AcFrequency, AcPowerActive,
    AcPowerApparent, AcPowerReactive, AcVoltage, AcVoltagePhase1N, AcVoltagePhase1Phase2,
    AcVoltagePhase2N, AcVoltagePhase2Phase3, AcVoltagePhase3N, AcVoltagePhase3Phase1, DcPower,
    FormulaKind, Metric,
};

fn of<M: Metric>() -> (MetricPb, FormulaKind) {
    (M::METRIC, M::KIND)
}

#[test]
fn metrics_have_their_kinds() {
    let sum = FormulaKind::Aggregation;
    let first = FormulaKind::Coalesce;
    assert_eq!(of::<DcPower>(), (MetricPb::DcPower, sum));
    assert_eq!(of::<AcPowerActive>(), (MetricPb::AcPowerActive, sum));
    assert_eq!(of::<AcPowerReactive>(), (MetricPb::AcPowerReactive, sum));
    assert_eq!(of::<AcPowerApparent>(), (MetricPb::AcPowerApparent, sum));
    assert_eq!(of::<AcCurrent>(), (MetricPb::AcCurrent, sum));
    assert_eq!(of::<AcCurrentPhase1>(), (MetricPb::AcCurrentPhase1, sum));
    assert_eq!(of::<AcCurrentPhase2>(), (MetricPb::AcCurrentPhase2, sum));
    assert_eq!(of::<AcCurrentPhase3>(), (MetricPb::AcCurrentPhase3, sum));
    assert_eq!(of::<AcVoltage>(), (MetricPb::AcVoltage, first));
    assert_eq!(of::<AcVoltagePhase1N>(), (MetricPb::AcVoltagePhase1N, first));
    assert_eq!(of::<AcVoltagePhase2N>(), (MetricPb::AcVoltagePhase2N, first));
    assert_eq!(of::<AcVoltagePhase3N>(), (MetricPb::AcVoltagePhase3N, first));
    assert_eq!(of::<AcVoltagePhase1Phase2>(), (MetricPb::AcVoltagePhase1Phase2, first));
    assert_eq!(of::<AcVoltagePhase2Phase3>(), (MetricPb::AcVoltagePhase2Phase3, first));
    assert_eq!(of::<AcVoltagePhase3Phase1>(), (MetricPb::AcVoltagePhase3Phase1, first));
    assert_eq!(of::<AcFrequency>(), (MetricPb::AcFrequency, first));
}
