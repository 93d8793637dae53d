//! Health of an electrical component, judged from one telemetry message.

use vstd::prelude::*;

use crate::client::proto::{
    Coded, ElectricalComponentStateCode, ElectricalComponentStateSnapshot,
    ElectricalComponentTelemetry,
};

verus! {

/// A component's health, judged from one telemetry message.
#[derive(Clone, Copy, Debug, PartialEq, Eq, Structural)]
pub enum Health {
    /// No state snapshot carries an error and every state code is in the
    /// healthy set.
    Healthy,
    /// A state snapshot carries an error or a state code outside the healthy
    /// set.
    Unhealthy,
    /// A state code that is not known; the component counts as unhealthy.
    UnknownStateCode(i32),
}

/// Whether `state` is known and in the healthy set.
pub open spec fn is_healthy_state(
    state: Coded<ElectricalComponentStateCode>,
    healthy: Set<ElectricalComponentStateCode>,
) -> bool {
    state matches Coded::Known(code) && healthy.contains(code)
}

/// Whether `snapshot` carries no error and only healthy states.
pub open spec fn is_healthy_snapshot(
    snapshot: ElectricalComponentStateSnapshot,
    healthy: Set<ElectricalComponentStateCode>,
) -> bool {
    &&& snapshot.errors@.len() == 0
    &&& forall|i: int|
        0 <= i < snapshot.states@.len() ==> is_healthy_state(#[trigger] snapshot.states@[i], healthy)
}

/// What the states before the first that is not healthy, and that one, say.
pub open spec fn states_health(
    states: Seq<Coded<ElectricalComponentStateCode>>,
    healthy: Set<ElectricalComponentStateCode>,
) -> Health
    decreases states.len(),
{
    if states.len() == 0 {
        Health::Healthy
    } else {
        match states_health(states.drop_last(), healthy) {
            Health::Healthy => match states.last() {
                Coded::Known(code) => if healthy.contains(code) {
                    Health::Healthy
                } else {
                    Health::Unhealthy
                },
                Coded::Unknown(code) => Health::UnknownStateCode(code),
            },
            other => other,
        }
    }
}

/// What one snapshot says: its errors count before its states.
pub open spec fn snapshot_health(
    snapshot: ElectricalComponentStateSnapshot,
    healthy: Set<ElectricalComponentStateCode>,
) -> Health {
    if snapshot.errors@.len() > 0 {
        Health::Unhealthy
    } else {
        states_health(snapshot.states@, healthy)
    }
}

/// What the snapshots before the first that is not healthy, and that one, say.
pub open spec fn snapshots_health(
    snapshots: Seq<ElectricalComponentStateSnapshot>,
    healthy: Set<ElectricalComponentStateCode>,
) -> Health
    decreases snapshots.len(),
{
    if snapshots.len() == 0 {
        Health::Healthy
    } else {
        match snapshots_health(snapshots.drop_last(), healthy) {
            Health::Healthy => snapshot_health(snapshots.last(), healthy),
            other => other,
        }
    }
}

/// Whether `code` is one of `codes`.
fn is_listed(codes: &Vec<ElectricalComponentStateCode>, code: ElectricalComponentStateCode) -> (r:
    bool)
    ensures
        r == codes@.to_set().contains(code),
{
    let mut i: usize = 0;
    while i < codes.len()
        invariant
            i <= codes.len(),
            forall|k: int| 0 <= k < i ==> codes@[k] != code,
        decreases codes.len() - i,
    {
        if codes[i] == code {
            assert(codes@[i as int] == code);
            return true;
        }
        i = i + 1;
    }
    false
}

/// What does not hold of the first states holds of all, from there on.
proof fn lemma_states_stay(
    states: Seq<Coded<ElectricalComponentStateCode>>,
    healthy: Set<ElectricalComponentStateCode>,
    n: int,
)
    requires
        0 <= n <= states.len(),
        states_health(states.take(n), healthy) != Health::Healthy,
    ensures
        states_health(states, healthy) == states_health(states.take(n), healthy),
    decreases states.len() - n,
{
    if n < states.len() {
        assert(states.take(n + 1).drop_last() =~= states.take(n));
        lemma_states_stay(states, healthy, n + 1);
    } else {
        assert(states.take(n) =~= states);
    }
}

proof fn lemma_snapshots_stay(
    snapshots: Seq<ElectricalComponentStateSnapshot>,
    healthy: Set<ElectricalComponentStateCode>,
    n: int,
)
    requires
        0 <= n <= snapshots.len(),
        snapshots_health(snapshots.take(n), healthy) != Health::Healthy,
    ensures
        snapshots_health(snapshots, healthy) == snapshots_health(snapshots.take(n), healthy),
    decreases snapshots.len() - n,
{
    if n < snapshots.len() {
        assert(snapshots.take(n + 1).drop_last() =~= snapshots.take(n));
        lemma_snapshots_stay(snapshots, healthy, n + 1);
    } else {
        assert(snapshots.take(n) =~= snapshots);
    }
}

fn health_of_snapshot(
    snapshot: &ElectricalComponentStateSnapshot,
    healthy_state_codes: &Vec<ElectricalComponentStateCode>,
) -> (r: Health)
    ensures
        r == snapshot_health(*snapshot, healthy_state_codes@.to_set()),
{
    if snapshot.errors.len() > 0 {
        return Health::Unhealthy;
    }
    let ghost healthy = healthy_state_codes@.to_set();
    let states = &snapshot.states;
    let mut i: usize = 0;
    while i < states.len()
        invariant
            i <= states.len(),
            states@ == snapshot.states@,
            healthy == healthy_state_codes@.to_set(),
            snapshot.errors@.len() == 0,
            states_health(states@.take(i as int), healthy) == Health::Healthy,
        decreases states.len() - i,
    {
        proof {
            assert(states@.take(i + 1).drop_last() =~= states@.take(i as int));
        }
        match states[i] {
            Coded::Known(code) => {
                if !is_listed(healthy_state_codes, code) {
                    proof {
                        lemma_states_stay(states@, healthy, i + 1);
                    }
                    return Health::Unhealthy;
                }
            },
            Coded::Unknown(code) => {
                proof {
                    lemma_states_stay(states@, healthy, i + 1);
                }
                return Health::UnknownStateCode(code);
            },
        }
        i = i + 1;
    }
    assert(states@.take(states@.len() as int) =~= states@);
    Health::Healthy
}

/// The health `telemetry` reports: `Healthy` while no state snapshot carries an
/// error and every state code is in `healthy_state_codes`.
pub fn health(
    telemetry: &ElectricalComponentTelemetry,
    healthy_state_codes: &Vec<ElectricalComponentStateCode>,
) -> (r: Health)
    ensures
        r == snapshots_health(telemetry.state_snapshots@, healthy_state_codes@.to_set()),
        r == Health::Healthy <==> forall|i: int|
            0 <= i < telemetry.state_snapshots@.len() ==> is_healthy_snapshot(
                #[trigger] telemetry.state_snapshots@[i],
                healthy_state_codes@.to_set(),
            ),
{
    let ghost healthy = healthy_state_codes@.to_set();
    proof {
        law_healthy_means_every_snapshot_is(telemetry.state_snapshots@, healthy);
    }
    let snapshots = &telemetry.state_snapshots;
    let mut i: usize = 0;
    while i < snapshots.len()
        invariant
            i <= snapshots.len(),
            snapshots@ == telemetry.state_snapshots@,
            healthy == healthy_state_codes@.to_set(),
            snapshots_health(snapshots@.take(i as int), healthy) == Health::Healthy,
            snapshots_health(snapshots@, healthy) == Health::Healthy <==> forall|i: int|
                0 <= i < snapshots@.len() ==> is_healthy_snapshot(#[trigger] snapshots@[i], healthy),
        decreases snapshots.len() - i,
    {
        proof {
            assert(snapshots@.take(i + 1).drop_last() =~= snapshots@.take(i as int));
        }
        let one = health_of_snapshot(&snapshots[i], healthy_state_codes);
        if one != Health::Healthy {
            proof {
                lemma_snapshots_stay(snapshots@, healthy, i + 1);
            }
            return one;
        }
        i = i + 1;
    }
    assert(snapshots@.take(snapshots@.len() as int) =~= snapshots@);
    Health::Healthy
}

proof fn lemma_healthy_states(
    states: Seq<Coded<ElectricalComponentStateCode>>,
    healthy: Set<ElectricalComponentStateCode>,
)
    ensures
        states_health(states, healthy) == Health::Healthy <==> forall|i: int|
            0 <= i < states.len() ==> is_healthy_state(#[trigger] states[i], healthy),
    decreases states.len(),
{
    if states.len() > 0 {
        let rest = states.drop_last();
        lemma_healthy_states(rest, healthy);
        assert(forall|i: int| 0 <= i < rest.len() ==> rest[i] == states[i]);
        if forall|i: int| 0 <= i < states.len() ==> is_healthy_state(#[trigger] states[i], healthy) {
            assert(is_healthy_state(states[states.len() - 1], healthy));
        }
    }
}

/// A component is healthy where each of its state snapshots is, and there
/// alone.
pub proof fn law_healthy_means_every_snapshot_is(
    snapshots: Seq<ElectricalComponentStateSnapshot>,
    healthy: Set<ElectricalComponentStateCode>,
)
    ensures
        snapshots_health(snapshots, healthy) == Health::Healthy <==> forall|i: int|
            0 <= i < snapshots.len() ==> is_healthy_snapshot(#[trigger] snapshots[i], healthy),
    decreases snapshots.len(),
{
    if snapshots.len() > 0 {
        let rest = snapshots.drop_last();
        law_healthy_means_every_snapshot_is(rest, healthy);
        lemma_healthy_states(snapshots.last().states@, healthy);
        assert(forall|i: int| 0 <= i < rest.len() ==> rest[i] == snapshots[i]);
        if forall|i: int|
            0 <= i < snapshots.len() ==> is_healthy_snapshot(#[trigger] snapshots[i], healthy) {
            assert(is_healthy_snapshot(snapshots[snapshots.len() - 1], healthy));
        }
    }
}

/// The first state that is not healthy decides what the states say: that it is not
/// known, or else that it is not healthy.
pub proof fn law_the_first_bad_state_decides(
    states: Seq<Coded<ElectricalComponentStateCode>>,
    healthy: Set<ElectricalComponentStateCode>,
    i: int,
)
    requires
        0 <= i < states.len(),
        !is_healthy_state(states[i], healthy),
        forall|j: int| 0 <= j < i ==> is_healthy_state(#[trigger] states[j], healthy),
    ensures
        states_health(states, healthy) == (match states[i] {
            Coded::Known(_) => Health::Unhealthy,
            Coded::Unknown(code) => Health::UnknownStateCode(code),
        }),
    decreases states.len(),
{
    let front = states.drop_last();
    if i < states.len() - 1 {
        assert forall|j: int| 0 <= j < i implies is_healthy_state(#[trigger] front[j], healthy) by {
            assert(front[j] == states[j]);
        }
        law_the_first_bad_state_decides(front, healthy, i);
    } else {
        lemma_healthy_states(front, healthy);
        assert forall|j: int| 0 <= j < front.len() implies is_healthy_state(
            #[trigger] front[j],
            healthy,
        ) by {
            assert(front[j] == states[j]);
        }
    }
}

/// The first snapshot that is not healthy decides: that its component is not
/// healthy where it carries errors, and else what its states say.
pub proof fn law_the_first_bad_snapshot_decides(
    snapshots: Seq<ElectricalComponentStateSnapshot>,
    healthy: Set<ElectricalComponentStateCode>,
    i: int,
)
    requires
        0 <= i < snapshots.len(),
        !is_healthy_snapshot(snapshots[i], healthy),
        forall|j: int| 0 <= j < i ==> is_healthy_snapshot(#[trigger] snapshots[j], healthy),
    ensures
        snapshots[i].errors@.len() > 0 ==> snapshots_health(snapshots, healthy)
            == Health::Unhealthy,
        snapshots[i].errors@.len() == 0 ==> snapshots_health(snapshots, healthy) == states_health(
            snapshots[i].states@,
            healthy,
        ),
    decreases snapshots.len(),
{
    let front = snapshots.drop_last();
    if i < snapshots.len() - 1 {
        assert forall|j: int| 0 <= j < i implies is_healthy_snapshot(#[trigger] front[j], healthy) by {
            assert(front[j] == snapshots[j]);
        }
        law_the_first_bad_snapshot_decides(front, healthy, i);
        lemma_healthy_states(snapshots[i].states@, healthy);
        law_healthy_means_every_snapshot_is(front, healthy);
        assert(!is_healthy_snapshot(front[i], healthy));
    } else {
        assert forall|j: int| 0 <= j < front.len() implies is_healthy_snapshot(
            #[trigger] front[j],
            healthy,
        ) by {
            assert(front[j] == snapshots[j]);
        }
        law_healthy_means_every_snapshot_is(front, healthy);
    }
}

/// A component is healthy where no snapshot of it carries errors, and each of the
/// snapshots' states is one that is known and that counts as healthy.
pub proof fn law_healthy_without_errors_in_healthy_states(
    snapshots: Seq<ElectricalComponentStateSnapshot>,
    healthy: Set<ElectricalComponentStateCode>,
)
    ensures
        snapshots_health(snapshots, healthy) == Health::Healthy <==> forall|k: int|
            0 <= k < snapshots.len() ==> (#[trigger] snapshots[k]).errors@.len() == 0 && forall|
                i: int,
            |
                0 <= i < snapshots[k].states@.len() ==> (#[trigger] snapshots[k].states@[i]
                    matches Coded::Known(code) && healthy.contains(code)),
{
    law_healthy_means_every_snapshot_is(snapshots, healthy);
    if snapshots_health(snapshots, healthy) == Health::Healthy {
        assert forall|k: int| 0 <= k < snapshots.len() implies (
        #[trigger] snapshots[k]).errors@.len() == 0 && forall|i: int|
            0 <= i < snapshots[k].states@.len() ==> (#[trigger] snapshots[k].states@[i]
                matches Coded::Known(code) && healthy.contains(code)) by {
            assert(is_healthy_snapshot(snapshots[k], healthy));
            assert forall|i: int| 0 <= i < snapshots[k].states@.len() implies (
            #[trigger] snapshots[k].states@[i] matches Coded::Known(code) && healthy.contains(
                code,
            )) by {
                assert(is_healthy_state(snapshots[k].states@[i], healthy));
            }
        }
    }
}

}
