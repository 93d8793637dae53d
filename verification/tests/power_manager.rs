//! The power manager.

use frequenz_microgrid::client::proto::{
    Coded, ElectricalComponentTelemetry, Metric, MetricSample, MetricValue, MetricValueVariant,
};
use frequenz_microgrid::power_manager::algorithm::{soc, BatteryDistributor};
use frequenz_microgrid::power_manager::instruction::{
    not_sent, propose_power, Instruction, MaxRampPower,
};
use frequenz_microgrid::single::Single;

fn single(value: f32) -> Single {
    Single::from_bits(value.to_bits())
}

fn plus(a: Single, b: Single) -> Single {
    single(f32::from_bits(a.to_bits()) + f32::from_bits(b.to_bits()))
}

fn telemetry(
    id: u64,
    samples: Vec<(Metric, Option<MetricValueVariant>)>,
) -> ElectricalComponentTelemetry {
    ElectricalComponentTelemetry {
        electrical_component_id: id,
        metric_samples: samples
            .into_iter()
            .map(|(metric, variant)| MetricSample {
                sample_time: None,
                metric: Coded::Known(metric),
                value: Some(MetricValue {
                    metric_value_variant: variant,
                }),
                bounds: vec![],
            })
            .collect(),
        state_snapshots: vec![],
    }
}

fn simple(value: f32) -> Option<MetricValueVariant> {
    Some(MetricValueVariant::SimpleMetric {
        value: single(value),
    })
}

fn mean(value: f32) -> Option<MetricValueVariant> {
    Some(MetricValueVariant::AggregatedMetric {
        avg_value: single(value),
    })
}

#[test]
fn states_of_charge_are_summed() {
    let distributor = BatteryDistributor::new(
        [
            (1, telemetry(1, vec![(Metric::BatterySocPct, simple(10.5))])),
            (2, telemetry(2, vec![(Metric::BatteryCapacity, simple(7.0))])),
            (3, telemetry(3, vec![(Metric::BatterySocPct, mean(20.0))])),
            (4, telemetry(4, vec![(Metric::BatterySocPct, None)])),
        ]
        .into(),
        &plus,
    );
    assert_eq!(distributor.total_soc(), single(30.5));
    let empty = BatteryDistributor::new([].into(), &plus);
    assert_eq!(f32::from_bits(empty.total_soc().to_bits()), 0.0);
}

#[test]
fn the_first_sample_tells_the_state_of_charge() {
    let data = telemetry(
        1,
        vec![
            (Metric::DcPower, simple(1.0)),
            (Metric::BatterySocPct, simple(2.0)),
            (Metric::BatterySocPct, simple(3.0)),
        ],
    );
    assert_eq!(soc(&data), Some(single(2.0)));
    let data = telemetry(
        1,
        vec![
            (Metric::BatterySocPct, None),
            (Metric::BatterySocPct, simple(3.0)),
        ],
    );
    assert_eq!(soc(&data), None);
    let mut data = telemetry(1, vec![(Metric::BatterySocPct, None)]);
    data.metric_samples[0].value = None;
    assert_eq!(soc(&data), None);
}

#[test]
fn proposals_carry_what_was_proposed() {
    let ramp = MaxRampPower::PerComponent([(1, single(5.0))].into());
    let proposal = propose_power(vec![1, 2], single(100.0), -3, Some(ramp.clone()));
    assert_eq!(
        proposal,
        Instruction::ProposePower {
            component_ids: vec![1, 2],
            power: single(100.0),
            priority: -3,
            max_ramp_power: Some(ramp),
        }
    );
    assert_ne!(
        proposal,
        propose_power(
            vec![1, 2],
            single(100.0),
            -3,
            Some(MaxRampPower::Cumulative(single(5.0)))
        )
    );
    assert_eq!(
        not_sent("channel closed").to_text(),
        "Internal: Failed to send instruction: channel closed"
    );
}
