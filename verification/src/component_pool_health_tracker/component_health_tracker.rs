//! The decisions of a tracker that watches the health of one component.

use vstd::prelude::*;

use crate::client::proto::{Coded, ElectricalComponentStateCode, ElectricalComponentTelemetry};
use crate::health::{
    health, law_healthy_without_errors_in_healthy_states, snapshots_health, Health,
};

verus! {

/// The health of a component, by its ID.
#[derive(Clone, Copy, Debug, PartialEq, Eq, Structural)]
pub enum ComponentHealthStatus {
    Healthy(u64),
    Unhealthy(u64),
}

impl ComponentHealthStatus {
    /// The component that the status is of.
    pub open spec fn spec_component_id(self) -> u64 {
        match self {
            ComponentHealthStatus::Healthy(id) => id,
            ComponentHealthStatus::Unhealthy(id) => id,
        }
    }
}

/// What happens to a tracker.
pub enum TrackerEvent {
    /// Telemetry came. The caller restarts its timer.
    Data(ElectricalComponentTelemetry),
    /// Telemetry was missed.
    Lagged,
    /// No more telemetry will come.
    Closed,
    /// The timer ran out: no telemetry came for too long.
    Overdue,
}

/// What a tracker does.
#[derive(Clone, Copy, Debug, PartialEq, Eq, Structural)]
pub enum TrackerAction {
    /// Nothing.
    Nothing,
    /// Report the health of the component.
    Report(ComponentHealthStatus),
    /// Stop.
    Stop,
}

/// Watches the health of one component.
pub struct ComponentHealthTracker {
    component_id: u64,
    healthy_state_codes: Vec<ElectricalComponentStateCode>,
    previous_status: ComponentHealthStatus,
}

impl ComponentHealthTracker {
    /// The component that is watched.
    pub closed spec fn spec_component_id(&self) -> u64 {
        self.component_id
    }

    /// The states in which the component is healthy.
    pub closed spec fn healthy_states(&self) -> Set<ElectricalComponentStateCode> {
        self.healthy_state_codes@.to_set()
    }

    /// What was reported last, or counts as reported.
    pub closed spec fn previous(&self) -> ComponentHealthStatus {
        self.previous_status
    }

    /// A tracker of a component that counts as unhealthy until telemetry comes.
    pub fn new(
        component_id: u64,
        healthy_state_codes: Vec<ElectricalComponentStateCode>,
    ) -> (r: Self)
        ensures
            r.spec_component_id() == component_id,
            r.healthy_states() == healthy_state_codes@.to_set(),
            r.previous() == ComponentHealthStatus::Unhealthy(component_id),
    {
        ComponentHealthTracker {
            component_id,
            healthy_state_codes,
            previous_status: ComponentHealthStatus::Unhealthy(component_id),
        }
    }

    /// The component that is watched.
    pub fn component_id(&self) -> (r: u64)
        ensures
            r == self.spec_component_id(),
    {
        self.component_id
    }

    /// What telemetry says of the component: healthy under the ID that the
    /// telemetry carries, unhealthy under the ID that is watched.
    pub open spec fn status_of(&self, data: ElectricalComponentTelemetry) -> ComponentHealthStatus {
        if snapshots_health(data.state_snapshots@, self.healthy_states()) == Health::Healthy {
            ComponentHealthStatus::Healthy(data.electrical_component_id)
        } else {
            ComponentHealthStatus::Unhealthy(self.spec_component_id())
        }
    }

    /// What telemetry says of the component.
    pub fn state_from_data(&self, data: &ElectricalComponentTelemetry) -> (r: ComponentHealthStatus)
        ensures
            r == self.status_of(*data),
    {
        match health(data, &self.healthy_state_codes) {
            Health::Healthy => ComponentHealthStatus::Healthy(data.electrical_component_id),
            Health::Unhealthy => ComponentHealthStatus::Unhealthy(self.component_id),
            Health::UnknownStateCode(_) => ComponentHealthStatus::Unhealthy(self.component_id),
        }
    }

    /// The status that `event` gives, where it gives one.
    pub open spec fn status_after(&self, event: TrackerEvent) -> Option<ComponentHealthStatus> {
        match event {
            TrackerEvent::Data(data) => Some(self.status_of(data)),
            TrackerEvent::Overdue => Some(
                ComponentHealthStatus::Unhealthy(self.spec_component_id()),
            ),
            TrackerEvent::Lagged => None,
            TrackerEvent::Closed => None,
        }
    }

    /// Takes the next event. A status is reported where it is not the one that
    /// was reported last.
    pub fn handle(&mut self, event: TrackerEvent) -> (action: TrackerAction)
        ensures
            final(self).spec_component_id() == old(self).spec_component_id(),
            final(self).healthy_states() == old(self).healthy_states(),
            final(self).previous() == (match old(self).status_after(event) {
                Some(status) => status,
                None => old(self).previous(),
            }),
            action == (match old(self).status_after(event) {
                Some(status) => if status == old(self).previous() {
                    TrackerAction::Nothing
                } else {
                    TrackerAction::Report(status)
                },
                None => if event is Closed {
                    TrackerAction::Stop
                } else {
                    TrackerAction::Nothing
                },
            }),
    {
        let status = match event {
            TrackerEvent::Data(data) => self.state_from_data(&data),
            TrackerEvent::Overdue => ComponentHealthStatus::Unhealthy(self.component_id),
            TrackerEvent::Lagged => {
                return TrackerAction::Nothing;
            },
            TrackerEvent::Closed => {
                return TrackerAction::Stop;
            },
        };
        if status == self.previous_status {
            return TrackerAction::Nothing;
        }
        self.previous_status = status;
        TrackerAction::Report(status)
    }
}

/// Telemetry shows a component to be healthy where no snapshot in it carries
/// errors or a state that does not count as healthy, and unhealthy anywhere else.
pub proof fn law_telemetry_shows_the_health(
    tracker: ComponentHealthTracker,
    data: ElectricalComponentTelemetry,
)
    ensures
        tracker.status_of(data) == (if forall|k: int|
            0 <= k < data.state_snapshots@.len() ==> (
            #[trigger] data.state_snapshots@[k]).errors@.len() == 0 && forall|i: int|
                0 <= i < data.state_snapshots@[k].states@.len() ==> (
                #[trigger] data.state_snapshots@[k].states@[i] matches Coded::Known(code)
                    && tracker.healthy_states().contains(code)) {
            ComponentHealthStatus::Healthy(data.electrical_component_id)
        } else {
            ComponentHealthStatus::Unhealthy(tracker.spec_component_id())
        }),
{
    law_healthy_without_errors_in_healthy_states(
        data.state_snapshots@,
        tracker.healthy_states(),
    );
}

/// A component that sent nothing for too long is unhealthy, and only telemetry can
/// show that it is not.
pub proof fn law_only_telemetry_shows_health(tracker: ComponentHealthTracker, event: TrackerEvent)
    ensures
        event is Overdue ==> tracker.status_after(event) == Some(
            ComponentHealthStatus::Unhealthy(tracker.spec_component_id()),
        ),
        tracker.status_after(event) matches Some(ComponentHealthStatus::Healthy(_))
            ==> event is Data,
        event matches TrackerEvent::Data(data) ==> tracker.status_after(event) == Some(
            tracker.status_of(data),
        ),
        event is Lagged || event is Closed ==> tracker.status_after(event) is None,
{
}

}
