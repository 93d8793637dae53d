//! The health of components and pools.

use std::collections::BTreeSet;

use frequenz_microgrid::client::proto::{
    Coded, ElectricalComponentDiagnostic, ElectricalComponentStateCode,
    ElectricalComponentStateSnapshot, ElectricalComponentTelemetry,
};
use frequenz_microgrid::component_pool_health_tracker::component_health_tracker::{
    ComponentHealthStatus, ComponentHealthTracker, TrackerAction, TrackerEvent,
};
use frequenz_microgrid::component_pool_health_tracker::ComponentPoolHealthTracker;
use frequenz_microgrid::health::{health, Health};
use frequenz_microgrid::microgrid::telemetry_tracker::component_partition::ComponentHealthPartition;
use frequenz_microgrid::microgrid::telemetry_tracker::component_telemetry_tracker::{
    ComponentHealthStatus as TelemetryStatus, ComponentTelemetryTracker,
    TrackerAction as TelemetryAction, TrackerEvent as TelemetryEvent,
};

fn state(code: ElectricalComponentStateCode) -> Coded<ElectricalComponentStateCode> {
    Coded::Known(code)
}

fn telemetry(
    states: Vec<Coded<ElectricalComponentStateCode>>,
    errors: usize,
) -> ElectricalComponentTelemetry {
    ElectricalComponentTelemetry {
        electrical_component_id: 7,
        metric_samples: vec![],
        state_snapshots: vec![ElectricalComponentStateSnapshot {
            states,
            errors: (0..errors)
                .map(|_| ElectricalComponentDiagnostic { code: 0 })
                .collect(),
        }],
    }
}

fn healthy_codes() -> Vec<ElectricalComponentStateCode> {
    vec![ElectricalComponentStateCode::Ready]
}

#[test]
fn listed_state_without_errors_is_healthy() {
    let data = telemetry(vec![state(ElectricalComponentStateCode::Ready)], 0);
    assert_eq!(health(&data, &healthy_codes()), Health::Healthy);
}

#[test]
fn no_state_snapshot_is_healthy() {
    let data = ElectricalComponentTelemetry {
        electrical_component_id: 7,
        metric_samples: vec![],
        state_snapshots: vec![],
    };
    assert_eq!(health(&data, &healthy_codes()), Health::Healthy);
}

#[test]
fn error_makes_a_listed_state_unhealthy() {
    let data = telemetry(vec![state(ElectricalComponentStateCode::Ready)], 1);
    assert_eq!(health(&data, &healthy_codes()), Health::Unhealthy);
}

#[test]
fn unlisted_state_is_unhealthy() {
    let data = telemetry(vec![state(ElectricalComponentStateCode::Error)], 0);
    assert_eq!(health(&data, &healthy_codes()), Health::Unhealthy);
}

#[test]
fn unknown_state_code_is_reported_with_its_code() {
    let data = telemetry(vec![Coded::Unknown(9999)], 0);
    assert_eq!(
        health(&data, &healthy_codes()),
        Health::UnknownStateCode(9999)
    );
}

#[test]
fn every_snapshot_counts() {
    let mut data = telemetry(vec![state(ElectricalComponentStateCode::Ready)], 0);
    data.state_snapshots
        .extend(telemetry(vec![state(ElectricalComponentStateCode::Ready)], 1).state_snapshots);
    assert_eq!(health(&data, &healthy_codes()), Health::Unhealthy);
    // The first finding counts.
    let data = telemetry(
        vec![
            Coded::Unknown(5),
            state(ElectricalComponentStateCode::Error),
        ],
        0,
    );
    assert_eq!(health(&data, &healthy_codes()), Health::UnknownStateCode(5));
    let data = telemetry(
        vec![
            state(ElectricalComponentStateCode::Error),
            Coded::Unknown(5),
        ],
        0,
    );
    assert_eq!(health(&data, &healthy_codes()), Health::Unhealthy);
}

#[test]
fn a_health_tracker_reports_changes_only() {
    let mut tracker = ComponentHealthTracker::new(7, healthy_codes());
    assert_eq!(tracker.component_id(), 7);
    let good = || {
        TrackerEvent::Data(telemetry(
            vec![state(ElectricalComponentStateCode::Ready)],
            0,
        ))
    };
    let bad = || {
        TrackerEvent::Data(telemetry(
            vec![state(ElectricalComponentStateCode::Error)],
            0,
        ))
    };
    let report = TrackerAction::Report;
    // It counts as unhealthy until it is heard of.
    assert_eq!(tracker.handle(TrackerEvent::Overdue), TrackerAction::Nothing);
    assert_eq!(
        tracker.handle(good()),
        report(ComponentHealthStatus::Healthy(7))
    );
    assert_eq!(tracker.handle(good()), TrackerAction::Nothing);
    assert_eq!(tracker.handle(TrackerEvent::Lagged), TrackerAction::Nothing);
    assert_eq!(
        tracker.handle(TrackerEvent::Overdue),
        report(ComponentHealthStatus::Unhealthy(7))
    );
    assert_eq!(tracker.handle(bad()), TrackerAction::Nothing);
    assert_eq!(tracker.handle(TrackerEvent::Closed), TrackerAction::Stop);
}

#[test]
fn a_pool_is_parted_by_health() {
    let mut pool = ComponentPoolHealthTracker::new(vec![1, 2, 3]);
    let ids: Vec<u64> = pool
        .component_health_trackers(&healthy_codes())
        .iter()
        .map(|t| t.component_id())
        .collect();
    assert_eq!(ids, vec![1, 2, 3]);
    let status = pool.handle(ComponentHealthStatus::Healthy(2));
    assert_eq!(status.healthy_components, [2].into());
    assert_eq!(status.unhealthy_components, [1, 3].into());
    let status = pool.handle(ComponentHealthStatus::Unhealthy(2));
    assert!(status.healthy_components.is_empty());
    assert_eq!(status.unhealthy_components, [1, 2, 3].into());
}

#[test]
fn telemetry_trackers_report_everything() {
    let tracker = ComponentTelemetryTracker::new(9, healthy_codes());
    let good = telemetry(vec![state(ElectricalComponentStateCode::Ready)], 0);
    // Telemetry tells the ID under which it counts.
    match tracker.handle(TelemetryEvent::Data(good.clone())) {
        TelemetryAction::Report(status) => {
            assert_eq!(status.component_id(), 7);
            assert_eq!(status, TelemetryStatus::Healthy(7, good));
        }
        _ => panic!("expected a report"),
    }
    let bad = telemetry(vec![Coded::Unknown(1)], 0);
    match tracker.handle(TelemetryEvent::Data(bad.clone())) {
        TelemetryAction::Report(status) => {
            assert_eq!(status, TelemetryStatus::Unhealthy(9, Some(bad)))
        }
        _ => panic!("expected a report"),
    }
    match tracker.handle(TelemetryEvent::Overdue) {
        TelemetryAction::Report(status) => {
            assert_eq!(status, TelemetryStatus::Unhealthy(9, None))
        }
        _ => panic!("expected a report"),
    }
    assert!(matches!(
        tracker.handle(TelemetryEvent::Lagged),
        TelemetryAction::Nothing
    ));
    assert!(matches!(
        tracker.handle(TelemetryEvent::Closed),
        TelemetryAction::Stop
    ));
    assert!(matches!(
        tracker.handle(TelemetryEvent::ReportRefused),
        TelemetryAction::Stop
    ));
}

#[test]
fn a_partition_holds_each_component_once() {
    let mut partition = ComponentHealthPartition::unheard(&BTreeSet::from([7, 8]));
    assert!(partition.healthy.is_empty());
    assert_eq!(partition.unhealthy, [(7, None), (8, None)].into());
    let data = telemetry(vec![], 0);
    partition.mark(TelemetryStatus::Healthy(7, data.clone()));
    assert_eq!(partition.healthy, [(7, data.clone())].into());
    assert_eq!(partition.unhealthy, [(8, None)].into());
    partition.mark(TelemetryStatus::Unhealthy(7, Some(data.clone())));
    assert!(partition.healthy.is_empty());
    assert_eq!(
        partition.unhealthy,
        [(7, Some(data)), (8, None)].into()
    );
}
