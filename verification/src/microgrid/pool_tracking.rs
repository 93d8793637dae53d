//! When the trackers of a pool are started.

use std::collections::BTreeSet;

use vstd::prelude::*;

use crate::client::proto::ElectricalComponentStateCode;
use crate::microgrid::pool_validation::PoolKind;

verus! {

/// For how long a component may send nothing and still count as healthy, in
/// seconds.
pub const MISSING_DATA_TOLERANCE_SECS: u64 = 10;

/// What a telemetry tracker of a pool is started with.
pub struct TrackerPlan {
    /// The components to be tracked.
    pub component_ids: BTreeSet<u64>,
    /// For how long a component may send nothing, in seconds.
    pub missing_data_tolerance_secs: u64,
    /// The states in which a component is healthy.
    pub healthy_state_codes: Vec<ElectricalComponentStateCode>,
}

/// What to do for a new receiver of a pool's snapshots.
pub enum TrackerStep {
    /// Subscribe it to the tracker that runs, which sends it the last snapshot.
    Reuse,
    /// Start a tracker.
    Start(TrackerPlan),
}

/// The states in which the components of a pool are healthy. Batteries and
/// their inverters also charge, and batteries close their relays; PV inverters
/// that produce are discharging. Steam boilers count by the same states as PV
/// inverters.
pub open spec fn healthy_states(kind: PoolKind) -> Seq<ElectricalComponentStateCode> {
    match kind {
        PoolKind::Batteries => seq![
            ElectricalComponentStateCode::Ready,
            ElectricalComponentStateCode::Standby,
            ElectricalComponentStateCode::Charging,
            ElectricalComponentStateCode::Discharging,
            ElectricalComponentStateCode::RelayClosed,
        ],
        _ => seq![
            ElectricalComponentStateCode::Ready,
            ElectricalComponentStateCode::Standby,
            ElectricalComponentStateCode::Discharging,
        ],
    }
}

/// The states in which the components of a pool are healthy.
pub fn healthy_state_codes(kind: PoolKind) -> (r: Vec<ElectricalComponentStateCode>)
    ensures
        r@ == healthy_states(kind),
{
    let mut r: Vec<ElectricalComponentStateCode> = Vec::new();
    r.push(ElectricalComponentStateCode::Ready);
    r.push(ElectricalComponentStateCode::Standby);
    match kind {
        PoolKind::Batteries => {
            r.push(ElectricalComponentStateCode::Charging);
            r.push(ElectricalComponentStateCode::Discharging);
            r.push(ElectricalComponentStateCode::RelayClosed);
        },
        _ => {
            r.push(ElectricalComponentStateCode::Discharging);
        },
    }
    assert(r@ =~= healthy_states(kind));
    r
}

/// Whether a tracker still runs for somebody: `receivers` is how many listen to
/// it, where it has not stopped.
pub open spec fn is_running(receivers: Option<usize>) -> bool {
    receivers matches Some(n) && n > 0
}

/// Whether a tracker that was started before can serve a new receiver.
pub fn can_reuse(receivers: Option<usize>) -> (r: bool)
    ensures
        r == is_running(receivers),
{
    match receivers {
        Some(n) => n > 0,
        None => false,
    }
}

/// What to do for a new receiver of the snapshots of a pool of `component_ids`.
pub fn tracker_step(
    receivers: Option<usize>,
    component_ids: BTreeSet<u64>,
    kind: PoolKind,
) -> (step: TrackerStep)
    ensures
        match step {
            TrackerStep::Reuse => is_running(receivers),
            TrackerStep::Start(plan) => !is_running(receivers) && plan.component_ids
                == component_ids && plan.missing_data_tolerance_secs == MISSING_DATA_TOLERANCE_SECS
                && plan.healthy_state_codes@ == healthy_states(kind),
        },
{
    if can_reuse(receivers) {
        return TrackerStep::Reuse;
    }
    TrackerStep::Start(
        TrackerPlan {
            component_ids,
            missing_data_tolerance_secs: MISSING_DATA_TOLERANCE_SECS,
            healthy_state_codes: healthy_state_codes(kind),
        },
    )
}

/// What the tracker of a pool's bounds hears of the pool's snapshots.
#[derive(Clone, Copy, Debug, PartialEq, Eq, Structural)]
pub enum SnapshotNews {
    /// A snapshot came.
    Came,
    /// Snapshots were missed.
    Lagged,
    /// No more snapshots will come.
    Closed,
}

/// What the tracker of a pool's bounds does.
#[derive(Clone, Copy, Debug, PartialEq, Eq, Structural)]
pub enum BoundsStep {
    /// Publish the bounds of the snapshot, unless they are those that were
    /// published last.
    PublishIfChanged,
    /// Wait for the next snapshot.
    GoOn,
    /// Stop.
    Stop,
}

/// What the tracker of a pool's bounds does next, where so many listen to it. It
/// stops when nobody listens to a snapshot's bounds, or when no snapshot will
/// come.
pub fn bounds_step(news: SnapshotNews, receivers: usize) -> (step: BoundsStep)
    ensures
        step == (match news {
            SnapshotNews::Came => if receivers == 0 {
                BoundsStep::Stop
            } else {
                BoundsStep::PublishIfChanged
            },
            SnapshotNews::Lagged => BoundsStep::GoOn,
            SnapshotNews::Closed => BoundsStep::Stop,
        }),
{
    match news {
        SnapshotNews::Came => if receivers == 0 {
            BoundsStep::Stop
        } else {
            BoundsStep::PublishIfChanged
        },
        SnapshotNews::Lagged => BoundsStep::GoOn,
        SnapshotNews::Closed => BoundsStep::Stop,
    }
}

/// All pools' components are healthy while they are ready, on standby or
/// discharging, and only those of battery pools while they charge or have their
/// relays closed. In no other state is a component healthy.
pub proof fn law_states_in_which_components_are_healthy(
    kind: PoolKind,
    code: ElectricalComponentStateCode,
)
    ensures
        healthy_states(kind).contains(code) <==> (code == ElectricalComponentStateCode::Ready
            || code == ElectricalComponentStateCode::Standby || code
            == ElectricalComponentStateCode::Discharging || (kind == PoolKind::Batteries && (code
            == ElectricalComponentStateCode::Charging || code
            == ElectricalComponentStateCode::RelayClosed))),
{
    let all = healthy_states(kind);
    if code == ElectricalComponentStateCode::Ready {
        assert(all[0] == code);
    }
    if code == ElectricalComponentStateCode::Standby {
        assert(all[1] == code);
    }
    if kind == PoolKind::Batteries {
        if code == ElectricalComponentStateCode::Charging {
            assert(all[2] == code);
        }
        if code == ElectricalComponentStateCode::Discharging {
            assert(all[3] == code);
        }
        if code == ElectricalComponentStateCode::RelayClosed {
            assert(all[4] == code);
        }
    } else if code == ElectricalComponentStateCode::Discharging {
        assert(all[2] == code);
    }
}

/// A tracker serves a new receiver where it has not stopped and somebody listens
/// to it.
pub proof fn law_trackers_with_receivers_are_running(n: usize)
    ensures
        is_running(Some(n)) <==> n > 0,
        !is_running(None),
{
}

}
