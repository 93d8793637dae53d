//! The decisions of a tracker that watches the telemetry of one component and
//! judges the component healthy or unhealthy by its state codes and by how
//! recent its telemetry is.

use vstd::prelude::*;

use crate::client::proto::{Coded, ElectricalComponentStateCode, ElectricalComponentTelemetry};
use crate::health::{
    health, law_healthy_without_errors_in_healthy_states, snapshots_health, Health,
};

verus! {

/// The health of a component, with the telemetry that showed it.
#[derive(Clone, Debug, PartialEq)]
pub enum ComponentHealthStatus {
    Healthy(u64, ElectricalComponentTelemetry),
    Unhealthy(u64, Option<ElectricalComponentTelemetry>),
}

impl ComponentHealthStatus {
    /// The component.
    pub open spec fn spec_component_id(&self) -> u64 {
        match self {
            ComponentHealthStatus::Healthy(id, _) => *id,
            ComponentHealthStatus::Unhealthy(id, _) => *id,
        }
    }

    /// The component.
    pub fn component_id(&self) -> (id: u64)
        ensures
            id == self.spec_component_id(),
    {
        match self {
            ComponentHealthStatus::Healthy(id, _) => *id,
            ComponentHealthStatus::Unhealthy(id, _) => *id,
        }
    }
}

/// What happens to a tracker.
pub enum TrackerEvent {
    /// Telemetry came. The caller restarts its timer.
    Data(ElectricalComponentTelemetry),
    /// Telemetry was missed.
    Lagged,
    /// No more telemetry will come.
    Closed,
    /// The timer ran out: no telemetry came for too long.
    Overdue,
    /// A report could not be delivered: nobody is left to report to.
    ReportRefused,
}

/// What a tracker does.
pub enum TrackerAction {
    /// Nothing.
    Nothing,
    /// Report the health of the component.
    Report(ComponentHealthStatus),
    /// Stop.
    Stop,
}

/// Watches the telemetry of one component.
pub struct ComponentTelemetryTracker {
    component_id: u64,
    healthy_state_codes: Vec<ElectricalComponentStateCode>,
}

impl ComponentTelemetryTracker {
    /// The component that is watched.
    pub closed spec fn spec_component_id(&self) -> u64 {
        self.component_id
    }

    /// The states in which the component is healthy.
    pub closed spec fn healthy_states(&self) -> Set<ElectricalComponentStateCode> {
        self.healthy_state_codes@.to_set()
    }

    /// A tracker of the given component.
    pub fn new(
        component_id: u64,
        healthy_state_codes: Vec<ElectricalComponentStateCode>,
    ) -> (r: Self)
        ensures
            r.spec_component_id() == component_id,
            r.healthy_states() == healthy_state_codes@.to_set(),
    {
        ComponentTelemetryTracker { component_id, healthy_state_codes }
    }

    /// What telemetry says of the component: healthy under the ID that the
    /// telemetry carries, unhealthy under the ID that is watched.
    pub open spec fn status_of(&self, data: ElectricalComponentTelemetry) -> ComponentHealthStatus {
        if snapshots_health(data.state_snapshots@, self.healthy_states()) == Health::Healthy {
            ComponentHealthStatus::Healthy(data.electrical_component_id, data)
        } else {
            ComponentHealthStatus::Unhealthy(self.spec_component_id(), Some(data))
        }
    }

    /// What telemetry says of the component.
    pub fn state_from_data(&self, data: ElectricalComponentTelemetry) -> (r: ComponentHealthStatus)
        ensures
            r == self.status_of(data),
    {
        match health(&data, &self.healthy_state_codes) {
            Health::Healthy => ComponentHealthStatus::Healthy(data.electrical_component_id, data),
            Health::Unhealthy => ComponentHealthStatus::Unhealthy(self.component_id, Some(data)),
            Health::UnknownStateCode(_) => {
                ComponentHealthStatus::Unhealthy(self.component_id, Some(data))
            },
        }
    }

    /// Takes the next event. All telemetry is reported, and so is its absence;
    /// the tracker stops when no telemetry can come, or no report can go.
    pub fn handle(&self, event: TrackerEvent) -> (action: TrackerAction)
        ensures
            action == (match event {
                TrackerEvent::Data(data) => TrackerAction::Report(self.status_of(data)),
                TrackerEvent::Overdue => TrackerAction::Report(
                    ComponentHealthStatus::Unhealthy(self.spec_component_id(), None),
                ),
                TrackerEvent::Lagged => TrackerAction::Nothing,
                TrackerEvent::Closed => TrackerAction::Stop,
                TrackerEvent::ReportRefused => TrackerAction::Stop,
            }),
    {
        match event {
            TrackerEvent::Data(data) => TrackerAction::Report(self.state_from_data(data)),
            TrackerEvent::Overdue => {
                TrackerAction::Report(ComponentHealthStatus::Unhealthy(self.component_id, None))
            },
            TrackerEvent::Lagged => TrackerAction::Nothing,
            TrackerEvent::Closed => TrackerAction::Stop,
            TrackerEvent::ReportRefused => TrackerAction::Stop,
        }
    }
}

/// Telemetry shows a component to be healthy where no snapshot in it carries
/// errors or a state that does not count as healthy, and unhealthy anywhere else.
pub proof fn law_telemetry_shows_the_health(
    tracker: ComponentTelemetryTracker,
    data: ElectricalComponentTelemetry,
)
    ensures
        tracker.status_of(data) == (if forall|k: int|
            0 <= k < data.state_snapshots@.len() ==> (
            #[trigger] data.state_snapshots@[k]).errors@.len() == 0 && forall|i: int|
                0 <= i < data.state_snapshots@[k].states@.len() ==> (
                #[trigger] data.state_snapshots@[k].states@[i] matches Coded::Known(code)
                    && tracker.healthy_states().contains(code)) {
            ComponentHealthStatus::Healthy(data.electrical_component_id, data)
        } else {
            ComponentHealthStatus::Unhealthy(tracker.spec_component_id(), Some(data))
        }),
{
    law_healthy_without_errors_in_healthy_states(
        data.state_snapshots@,
        tracker.healthy_states(),
    );
}

}
