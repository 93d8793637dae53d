//! The decisions of the microgrid client actor.
//!
//! The actor owns the connection to the microgrid API and serves any number of
//! handles. What it keeps is here: for which components a telemetry stream is
//! open, and when to try again for those whose stream failed. The connection,
//! the channels and the timer are its caller's: each event is handed in, and
//! each action handed out.

use std::collections::{BTreeMap, BTreeSet};
use std::time::Duration;

use chrono::TimeDelta;
use vstd::prelude::*;

use crate::backoff::{Backoff, BackoffConfig};
use crate::client::proto::{
    Bounds, ElectricalComponent, ElectricalComponentCategory, ElectricalComponentConnection,
    ElectricalComponentTelemetry, Metric, Timestamp,
};
use crate::error::{Error, ErrorKind};
use crate::ids::{ascending, in_order, keys_of};
use crate::text::{decimal, push_decimal};
use crate::time::{
    delta_nanos, delta_seconds, delta_subsec_nanos, num_seconds, subsec_nanos, to_utc, utc_of,
    UtcTime, NANOS_PER_SEC,
};

verus! {

broadcast use vstd::std_specs::btree::group_btree_axioms;

/// What became of the telemetry stream of a component.
#[derive(Clone, Copy, Debug, PartialEq, Eq, Structural)]
pub enum StreamStatus {
    /// The stream could not be opened, or broke off.
    Failed(u64),
    /// The stream was opened.
    Connected(u64),
    /// The stream was given up, because nobody listens to it.
    Ended(u64),
}

/// What a handle asks of the actor.
pub enum Instruction {
    /// The telemetry of a component.
    ReceiveElectricalComponentTelemetryStream { electrical_component_id: u64 },
    /// The components with one of these IDs, if any are given, and one of these
    /// categories, if any are given.
    ListElectricalComponents {
        electrical_component_ids: Vec<u64>,
        electrical_component_categories: Vec<ElectricalComponentCategory>,
    },
    /// The connections from one of these components, if any are given, to one
    /// of those, if any are given.
    ListElectricalComponentConnections {
        source_electrical_component_ids: Vec<u64>,
        destination_electrical_component_ids: Vec<u64>,
    },
    /// Bounds to be added to those of a metric of a component for some time.
    AugmentElectricalComponentBounds {
        electrical_component_id: u64,
        target_metric: Metric,
        bounds: Vec<Bounds>,
        request_lifetime: Option<TimeDelta>,
    },
}

/// What the caller does for an instruction.
pub enum Request {
    /// Answer with a new receiver of the stream that is open.
    Subscribe { electrical_component_id: u64 },
    /// Open a channel, keep its sender, start a stream into it, and answer with
    /// its receiver.
    OpenStream { electrical_component_id: u64 },
    /// Ask the API for components.
    ListElectricalComponents {
        electrical_component_ids: Vec<u64>,
        electrical_component_categories: Vec<ElectricalComponentCategory>,
    },
    /// Ask the API for connections.
    ListElectricalComponentConnections {
        source_electrical_component_ids: Vec<u64>,
        destination_electrical_component_ids: Vec<u64>,
    },
    /// Ask the API to add bounds, for a lifetime in seconds.
    AugmentElectricalComponentBounds {
        electrical_component_id: u64,
        target_metric: Metric,
        bounds: Vec<Bounds>,
        request_lifetime: Option<u64>,
    },
    /// Nothing: no handle is left to ask.
    Nothing,
}

/// What the caller does after a change of a stream.
#[derive(Clone, Copy, Debug, PartialEq, Eq, Structural)]
pub enum StreamAction {
    /// Nothing.
    Nothing,
    /// Start the stream of the component again, into the sender that is kept.
    Restart(u64),
    /// Drop the sender that is kept for the component.
    Forget(u64),
    /// Stop: no stream can report any more.
    Exit,
}

/// What the caller does on a tick of the retry timer.
pub struct RetryActions {
    /// The components whose streams are to be started again, in this order.
    pub restart: Vec<u64>,
    /// What went wrong after those, if anything.
    pub error: Option<Error>,
}

/// The lifetime of a request in whole seconds; none where it is negative.
pub open spec fn lifetime_seconds(lifetime: Option<TimeDelta>) -> Option<u64> {
    match lifetime {
        Some(delta) => if delta_seconds(delta) >= 0 {
            Some(delta_seconds(delta) as u64)
        } else {
            None
        },
        None => None,
    }
}

/// Whether `seconds` are the whole seconds of a lifetime: rounded down, and none
/// where the lifetime is negative by a second or more.
pub open spec fn are_whole_seconds(seconds: Option<u64>, lifetime: Option<TimeDelta>) -> bool {
    match (seconds, lifetime) {
        (Some(s), Some(delta)) => {
            &&& delta_nanos(delta) < (s + 1) * 1_000_000_000
            &&& delta_nanos(delta) >= 0 ==> s * 1_000_000_000 <= delta_nanos(delta)
            &&& delta_nanos(delta) < 0 ==> s == 0 && delta_nanos(delta) > -1_000_000_000
        },
        (None, Some(delta)) => delta_nanos(delta) <= -1_000_000_000,
        (Some(_), None) => false,
        (None, None) => true,
    }
}

/// Whether the nanoseconds of a span beyond its seconds are less than a second,
/// with the sign of the span.
pub open spec fn is_span(delta: TimeDelta) -> bool {
    &&& -1_000_000_000 < delta_subsec_nanos(delta) < 1_000_000_000
    &&& delta_seconds(delta) > 0 ==> delta_subsec_nanos(delta) >= 0
    &&& delta_seconds(delta) < 0 ==> delta_subsec_nanos(delta) <= 0
}

/// The lifetime that the API is asked for is the whole seconds of the one that was
/// asked for.
pub proof fn law_lifetimes_are_whole_seconds(lifetime: Option<TimeDelta>)
    requires
        lifetime matches Some(delta) ==> is_span(delta),
    ensures
        are_whole_seconds(lifetime_seconds(lifetime), lifetime),
{
}

fn request_lifetime_seconds(lifetime: Option<TimeDelta>) -> (r: Option<u64>)
    ensures
        r == lifetime_seconds(lifetime),
        are_whole_seconds(r, lifetime),
{
    match lifetime {
        Some(delta) => {
            // The rest of the span says which way it was rounded.
            let _rest = subsec_nanos(&delta);
            let seconds = num_seconds(&delta);
            proof {
                law_lifetimes_are_whole_seconds(lifetime);
            }
            if seconds >= 0 {
                Some(seconds as u64)
            } else {
                None
            }
        },
        None => None,
    }
}

/// What is done for a handle that wants the telemetry of a component, where
/// the streams of the components `open` are open.
pub open spec fn stream_request(open: Set<u64>, electrical_component_id: u64) -> Request {
    if open.contains(electrical_component_id) {
        Request::Subscribe { electrical_component_id }
    } else {
        Request::OpenStream { electrical_component_id }
    }
}

/// The components whose pending retry is due, of those in `ids`.
pub open spec fn due_ids(retries: Map<u64, Backoff>, ids: Seq<u64>, now: u128) -> Seq<u64>
    decreases ids.len(),
{
    if ids.len() == 0 {
        Seq::empty()
    } else {
        let rest = due_ids(retries, ids.drop_last(), now);
        if retries[ids.last()].due(now) {
            rest.push(ids.last())
        } else {
            rest
        }
    }
}

/// The number of `ids` before the first that is not in `open`.
pub open spec fn leading(ids: Seq<u64>, open: Set<u64>) -> nat
    decreases ids.len(),
{
    if ids.len() == 0 {
        0
    } else {
        let n = leading(ids.drop_last(), open);
        if n == ids.len() - 1 && open.contains(ids.last()) {
            ids.len()
        } else {
            n
        }
    }
}

/// A backoff whose pending retry was consumed.
pub open spec fn consumed(before: Backoff, after: Backoff) -> bool {
    &&& after.spec_deadline() is None
    &&& after.spec_config() == before.spec_config()
    &&& after.spec_current_delay() == before.spec_current_delay()
}

/// What is said of a component that is to be retried and has no stream.
pub open spec fn no_stream_text(id: u64) -> Seq<char> {
    "Component stream not found for retry: "@ + decimal(id as nat)
}

/// What the client actor keeps.
pub struct MicrogridClientActor {
    /// The components with an open stream: those whose sender is kept.
    component_streams: BTreeSet<u64>,
    /// The components to be retried.
    components_to_retry: BTreeMap<u64, Backoff>,
    backoff_config: BackoffConfig,
}

impl MicrogridClientActor {
    /// The components with an open stream.
    pub closed spec fn open(&self) -> Set<u64> {
        self.component_streams@
    }

    /// The components to be retried.
    pub closed spec fn retries(&self) -> Map<u64, Backoff> {
        self.components_to_retry@
    }

    /// The configuration of the backoff between retries.
    pub closed spec fn config(&self) -> BackoffConfig {
        self.backoff_config
    }

    /// Whether every component to be retried has an open stream, so that a
    /// retry has a sender to write to.
    pub open spec fn retries_have_streams(&self) -> bool {
        self.retries().dom().subset_of(self.open())
    }

    /// An actor without streams.
    pub fn new(backoff_config: BackoffConfig) -> (r: Self)
        ensures
            r.open() == Set::<u64>::empty(),
            r.retries() == Map::<u64, Backoff>::empty(),
            r.config() == backoff_config,
            r.retries_have_streams(),
    {
        MicrogridClientActor {
            component_streams: BTreeSet::new(),
            components_to_retry: BTreeMap::new(),
            backoff_config,
        }
    }

    /// Handles an instruction of a handle, or the end of all handles.
    ///
    /// A component whose stream is open is subscribed to; for any other, a
    /// stream is opened. Everything else is asked of the API as it stands,
    /// except that a lifetime is given in whole seconds.
    pub fn handle_instruction(&mut self, instruction: Option<Instruction>) -> (request: Request)
        ensures
            final(self).retries() == old(self).retries(),
            final(self).config() == old(self).config(),
            old(self).retries_have_streams() ==> final(self).retries_have_streams(),
            match instruction {
                Some(
                    Instruction::ReceiveElectricalComponentTelemetryStream {
                        electrical_component_id,
                    },
                ) => {
                    &&& final(self).open() == old(self).open().insert(electrical_component_id)
                    &&& request == stream_request(old(self).open(), electrical_component_id)
                },
                Some(
                    Instruction::ListElectricalComponents {
                        electrical_component_ids,
                        electrical_component_categories,
                    },
                ) => final(self).open() == old(self).open() && request
                    == (Request::ListElectricalComponents {
                    electrical_component_ids,
                    electrical_component_categories,
                }),
                Some(
                    Instruction::ListElectricalComponentConnections {
                        source_electrical_component_ids,
                        destination_electrical_component_ids,
                    },
                ) => final(self).open() == old(self).open() && request
                    == (Request::ListElectricalComponentConnections {
                    source_electrical_component_ids,
                    destination_electrical_component_ids,
                }),
                Some(
                    Instruction::AugmentElectricalComponentBounds {
                        electrical_component_id,
                        target_metric,
                        bounds,
                        request_lifetime,
                    },
                ) => final(self).open() == old(self).open() && request
                    == (Request::AugmentElectricalComponentBounds {
                    electrical_component_id,
                    target_metric,
                    bounds,
                    request_lifetime: lifetime_seconds(request_lifetime),
                }) && are_whole_seconds(lifetime_seconds(request_lifetime), request_lifetime),
                None => final(self).open() == old(self).open() && request == Request::Nothing,
            },
    {
        match instruction {
            Some(
                Instruction::ReceiveElectricalComponentTelemetryStream { electrical_component_id },
            ) => {
                if self.component_streams.contains(&electrical_component_id) {
                    assert(self.open().insert(electrical_component_id) =~= self.open());
                    return Request::Subscribe { electrical_component_id };
                }
                self.component_streams.insert(electrical_component_id);
                Request::OpenStream { electrical_component_id }
            },
            Some(
                Instruction::ListElectricalComponents {
                    electrical_component_ids,
                    electrical_component_categories,
                },
            ) => Request::ListElectricalComponents {
                electrical_component_ids,
                electrical_component_categories,
            },
            Some(
                Instruction::ListElectricalComponentConnections {
                    source_electrical_component_ids,
                    destination_electrical_component_ids,
                },
            ) => Request::ListElectricalComponentConnections {
                source_electrical_component_ids,
                destination_electrical_component_ids,
            },
            Some(
                Instruction::AugmentElectricalComponentBounds {
                    electrical_component_id,
                    target_metric,
                    bounds,
                    request_lifetime,
                },
            ) => Request::AugmentElectricalComponentBounds {
                electrical_component_id,
                target_metric,
                bounds,
                request_lifetime: request_lifetime_seconds(request_lifetime),
            },
            None => Request::Nothing,
        }
    }

    /// Handles what became of a stream, or the end of all streams.
    ///
    /// `receivers` is the number of receivers of the component's sender, where
    /// one is kept. A failed stream is retried after a delay. A stream that
    /// ended, because nobody listened, is forgotten, unless somebody listens by
    /// now: then it is started again.
    pub fn handle_stream_status<F: Fn(Duration) -> Duration, G: Fn(Duration) -> Duration>(
        &mut self,
        status: Option<StreamStatus>,
        receivers: usize,
        now: u128,
        scale: F,
        vary: G,
    ) -> (action: StreamAction)
        requires
            now <= u64::MAX * NANOS_PER_SEC,
            forall|d: Duration| #[trigger] call_requires(scale, (d,)),
            forall|d: Duration| #[trigger] call_requires(vary, (d,)),
        ensures
            final(self).config() == old(self).config(),
            match status {
                Some(StreamStatus::Failed(id)) => {
                    &&& action == StreamAction::Nothing
                    &&& final(self).open() == old(self).open()
                    &&& final(self).retries().dom() == old(self).retries().dom().insert(id)
                    &&& forall|other: u64|
                        other != id && old(self).retries().contains_key(other)
                            ==> final(self).retries()[other] == #[trigger] old(self).retries()[other]
                    &&& failed(
                        if old(self).retries().contains_key(id) {
                            Some(old(self).retries()[id])
                        } else {
                            None
                        },
                        old(self).config(),
                        final(self).retries()[id],
                        now,
                        scale,
                        vary,
                    )
                },
                Some(StreamStatus::Connected(id)) => {
                    &&& action == StreamAction::Nothing
                    &&& final(self).open() == old(self).open()
                    &&& final(self).retries() == old(self).retries().remove(id)
                },
                Some(StreamStatus::Ended(id)) => {
                    &&& final(self).retries() == old(self).retries().remove(id)
                    &&& if old(self).open().contains(id) && receivers > 0 {
                        &&& action == StreamAction::Restart(id)
                        &&& final(self).open() == old(self).open()
                    } else {
                        &&& action == StreamAction::Forget(id)
                        &&& final(self).open() == old(self).open().remove(id)
                    }
                },
                None => action == StreamAction::Exit && final(self).open() == old(self).open()
                    && final(self).retries() == old(self).retries(),
            },
            old(self).retries_have_streams() && (status matches Some(StreamStatus::Failed(id))
                ==> old(self).open().contains(id)) ==> final(self).retries_have_streams(),
    {
        match status {
            Some(StreamStatus::Failed(id)) => {
                let mut backoff = match self.components_to_retry.get(&id) {
                    Some(known) => *known,
                    None => Backoff::new(self.backoff_config),
                };
                backoff.next_retry_time(now, scale, vary);
                self.components_to_retry.insert(id, backoff);
                assert(self.retries().dom() =~= old(self).retries().dom().insert(id));
                StreamAction::Nothing
            },
            Some(StreamStatus::Connected(id)) => {
                self.components_to_retry.remove(&id);
                assert(self.retries() =~= old(self).retries().remove(id));
                StreamAction::Nothing
            },
            Some(StreamStatus::Ended(id)) => {
                self.components_to_retry.remove(&id);
                assert(self.retries() =~= old(self).retries().remove(id));
                if receivers > 0 && self.component_streams.contains(&id) {
                    StreamAction::Restart(id)
                } else {
                    self.component_streams.remove(&id);
                    assert(self.open() =~= old(self).open().remove(id));
                    StreamAction::Forget(id)
                }
            },
            None => StreamAction::Exit,
        }
    }

    /// Handles a tick of the retry timer: the streams whose retry is due are
    /// started again, in ascending order of their components. A component that
    /// has no stream is an error, which leaves those after it for the next tick.
    pub fn handle_retry_timer(&mut self, now: u128) -> (actions: RetryActions)
        ensures
            final(self).open() == old(self).open(),
            final(self).config() == old(self).config(),
            final(self).retries().dom() == old(self).retries().dom(),
            ({
                let due = due_ids(
                    old(self).retries(),
                    in_order(old(self).retries().dom()),
                    now,
                );
                let n = leading(due, old(self).open());
                let touched = if n < due.len() {
                    due.take(n as int + 1)
                } else {
                    due
                };
                &&& actions.restart@ == due.take(n as int)
                &&& match actions.error {
                    None => n == due.len(),
                    Some(e) => n < due.len() && e.says(
                        ErrorKind::Internal,
                        no_stream_text(due[n as int]),
                    ),
                }
                &&& forall|id: u64| #[trigger]
                    old(self).retries().contains_key(id) ==> if touched.contains(id) {
                        consumed(old(self).retries()[id], final(self).retries()[id])
                    } else {
                        final(self).retries()[id] == old(self).retries()[id]
                    }
            }),
            old(self).retries_have_streams() ==> actions.error is None,
    {
        let ids = keys_of(&self.components_to_retry);
        let mut restart: Vec<u64> = Vec::new();
        let ghost before = self.retries();
        let ghost open = self.open();
        let mut k: usize = 0;
        while k < ids.len()
            invariant
                k <= ids.len(),
                before == old(self).retries(),
                open == old(self).open(),
                ids@ == in_order(before.dom()),
                ascending(ids@),
                ids@.to_set() == before.dom(),
                self.open() == open,
                self.config() == old(self).config(),
                self.retries().dom() == before.dom(),
                restart@ == due_ids(before, ids@.take(k as int), now),
                leading(restart@, open) == restart@.len(),
                forall|i: int|
                    0 <= i < k ==> restart@.contains(#[trigger] ids@[i]) == before[ids@[i]].due(now),
                forall|id: u64| #[trigger]
                    before.contains_key(id) ==> if restart@.contains(id) {
                        consumed(before[id], self.retries()[id])
                    } else {
                        self.retries()[id] == before[id]
                    },
                forall|i: int| 0 <= i < restart@.len() ==> open.contains(#[trigger] restart@[i]),
            decreases ids.len() - k,
        {
            let id = ids[k];
            let ghost so_far = restart@;
            proof {
                assert(ids@.to_set().contains(id));
                assert(ids@.take(k + 1).drop_last() =~= ids@.take(k as int));
                lemma_due_are_among(before, ids@.take(k as int), now);
                if so_far.contains(id) {
                    let j = choose|j: int| 0 <= j < k && ids@.take(k as int)[j] == id;
                    assert(ids@[j] == ids@[k as int]);
                }
                lemma_due_prefix(before, ids@, k + 1, now);
            }
            let mut backoff = match self.components_to_retry.get(&id) {
                Some(known) => *known,
                None => {
                    return RetryActions { restart, error: None };
                },
            };
            if backoff.take_due(now) {
                let ghost held = self.retries();
                self.components_to_retry.insert(id, backoff);
                assert(self.retries() == held.insert(id, backoff));
                assert(self.retries().dom() =~= before.dom());
                if self.component_streams.contains(&id) {
                    restart.push(id);
                    proof {
                        assert(restart@.drop_last() =~= so_far);
                        assert(restart@[restart@.len() - 1] == id);
                        assert forall|other: u64| restart@.contains(other) == (so_far.contains(
                            other,
                        ) || other == id) by {
                            if so_far.contains(other) {
                                let j = choose|j: int|
                                    0 <= j < so_far.len() && so_far[j] == other;
                                assert(restart@[j] == other);
                            }
                        }
                    }
                } else {
                    let mut text = String::from_str("Component stream not found for retry: ");
                    push_decimal(&mut text, id);
                    proof {
                        let due = due_ids(before, ids@, now);
                        let part = so_far.push(id);
                        assert(part.drop_last() =~= so_far);
                        assert(due.take(part.len() as int) == part);
                        lemma_leading_prefix(due, open, part.len() as int);
                        assert(due.take(so_far.len() as int) =~= so_far);
                        assert(due[so_far.len() as int] == part.last());
                        assert forall|other: u64| part.contains(other) == (so_far.contains(other)
                            || other == id) by {
                            if so_far.contains(other) {
                                let j = choose|j: int|
                                    0 <= j < so_far.len() && so_far[j] == other;
                                assert(part[j] == other);
                            }
                            assert(part[so_far.len() as int] == id);
                        }
                    }
                    return RetryActions { restart, error: Some(Error::internal(text)) };
                }
            }
            k = k + 1;
        }
        proof {
            assert(ids@.take(ids@.len() as int) =~= ids@);
            assert(restart@.take(restart@.len() as int) =~= restart@);
        }
        RetryActions { restart, error: None }
    }
}

/// What is due is among the IDs that were looked at.
proof fn lemma_due_are_among(retries: Map<u64, Backoff>, ids: Seq<u64>, now: u128)
    ensures
        forall|id: u64| #[trigger] due_ids(retries, ids, now).contains(id) ==> ids.contains(id),
    decreases ids.len(),
{
    if ids.len() > 0 {
        let rest = due_ids(retries, ids.drop_last(), now);
        lemma_due_are_among(retries, ids.drop_last(), now);
        assert forall|id: u64| #[trigger] due_ids(retries, ids, now).contains(
            id,
        ) implies ids.contains(id) by {
            let due = due_ids(retries, ids, now);
            let j = choose|j: int| 0 <= j < due.len() && due[j] == id;
            if j < rest.len() {
                assert(rest[j] == id);
                assert(rest.contains(id));
                let i = choose|i: int| 0 <= i < ids.drop_last().len() && ids.drop_last()[i] == id;
                assert(ids[i] == id);
            } else {
                assert(ids[ids.len() - 1] == id);
            }
        }
    }
}

/// What is due among the first IDs comes first among what is due.
proof fn lemma_due_prefix(retries: Map<u64, Backoff>, ids: Seq<u64>, n: int, now: u128)
    requires
        0 <= n <= ids.len(),
    ensures
        due_ids(retries, ids.take(n), now).len() <= due_ids(retries, ids, now).len(),
        due_ids(retries, ids, now).take(due_ids(retries, ids.take(n), now).len() as int)
            == due_ids(retries, ids.take(n), now),
    decreases ids.len() - n,
{
    let part = due_ids(retries, ids.take(n), now);
    let due = due_ids(retries, ids, now);
    if n < ids.len() {
        lemma_due_prefix(retries, ids, n + 1, now);
        assert(ids.take(n + 1).drop_last() =~= ids.take(n));
        let more = due_ids(retries, ids.take(n + 1), now);
        assert(more.take(part.len() as int) =~= part);
        assert(due.take(part.len() as int) =~= due.take(more.len() as int).take(part.len() as int));
    } else {
        assert(ids.take(n) =~= ids);
        assert(due.take(part.len() as int) =~= part);
    }
}

/// Where the first IDs hold one that is not open, the rest does not matter.
proof fn lemma_leading_prefix(ids: Seq<u64>, open: Set<u64>, n: int)
    requires
        0 <= n <= ids.len(),
        leading(ids.take(n), open) < n,
    ensures
        leading(ids, open) == leading(ids.take(n), open),
    decreases ids.len() - n,
{
    if n < ids.len() {
        assert(ids.take(n + 1).drop_last() =~= ids.take(n));
        lemma_leading_prefix(ids, open, n + 1);
    } else {
        assert(ids.take(n) =~= ids);
    }
}

/// Whether `after` is the backoff of a component after another failure: a new
/// one where `before` is none.
pub open spec fn failed<F: Fn(Duration) -> Duration, G: Fn(Duration) -> Duration>(
    before: Option<Backoff>,
    config: BackoffConfig,
    after: Backoff,
    now: u128,
    scale: F,
    vary: G,
) -> bool {
    &&& after.spec_current_delay() matches Some(delay) && (match before {
        Some(known) => after.spec_config() == known.spec_config() && known.follows(scale, delay),
        None => after.spec_config() == config && delay == config.spec_initial(),
    }) && exists|varied: Duration| #[trigger]
        call_ensures(vary, (delay,), varied) && after.spec_deadline() == Some(
            (now + crate::time::duration_nanos(varied)) as u128,
        )
}

/// Handles of the same component share one stream: whatever was open before, a
/// handle that comes after another for the same component is given a receiver
/// of the stream that is open by then.
pub proof fn law_handles_share_a_stream(open: Set<u64>, electrical_component_id: u64)
    ensures
        stream_request(open.insert(electrical_component_id), electrical_component_id)
            == (Request::Subscribe { electrical_component_id }),
{
}

/// A stream that was forgotten is opened anew for the next handle that asks for
/// its component.
pub proof fn law_forgotten_streams_are_opened_anew(open: Set<u64>, electrical_component_id: u64)
    ensures
        stream_request(open.remove(electrical_component_id), electrical_component_id)
            == (Request::OpenStream { electrical_component_id }),
{
}

/// A component whose retry is due is among those that are due, whichever
/// others are.
pub proof fn law_due_retry_is_found(retries: Map<u64, Backoff>, id: u64, now: u128)
    requires
        retries.dom().finite(),
        retries.contains_key(id),
        retries[id].due(now),
    ensures
        due_ids(retries, in_order(retries.dom()), now).contains(id),
{
    crate::ids::lemma_has_order(retries.dom());
    let all = in_order(retries.dom());
    assert(all.to_set().contains(id));
    lemma_due_is_found(retries, all, id, now);
}

proof fn lemma_due_is_found(retries: Map<u64, Backoff>, ids: Seq<u64>, id: u64, now: u128)
    requires
        ids.contains(id),
        retries[id].due(now),
    ensures
        due_ids(retries, ids, now).contains(id),
    decreases ids.len(),
{
    let due = due_ids(retries, ids, now);
    let i = choose|i: int| 0 <= i < ids.len() && ids[i] == id;
    if i == ids.len() - 1 {
        assert(due[due.len() - 1] == id);
    } else {
        let rest = due_ids(retries, ids.drop_last(), now);
        assert(ids.drop_last()[i] == id);
        lemma_due_is_found(retries, ids.drop_last(), id, now);
        let j = choose|j: int| 0 <= j < rest.len() && rest[j] == id;
        assert(due[j] == id);
    }
}

/// What the API answered when asked for components, or why there is no answer.
pub fn list_components_reply(result: Result<Vec<ElectricalComponent>, String>) -> (r: Result<
    Vec<ElectricalComponent>,
    Error,
>)
    ensures
        match result {
            Ok(components) => r == Ok::<Vec<ElectricalComponent>, Error>(components),
            Err(reason) => r matches Err(e) && e.says(
                ErrorKind::ConnectionFailure,
                "list_components failed: "@ + reason@,
            ),
        },
{
    match result {
        Ok(components) => Ok(components),
        Err(reason) => {
            let mut text = String::from_str("list_components failed: ");
            text.append(reason.as_str());
            Err(Error::connection_failure(text))
        },
    }
}

/// What the API answered when asked for connections, or why there is no
/// answer.
pub fn list_connections_reply(
    result: Result<Vec<ElectricalComponentConnection>, String>,
) -> (r: Result<Vec<ElectricalComponentConnection>, Error>)
    ensures
        match result {
            Ok(connections) => r == Ok::<Vec<ElectricalComponentConnection>, Error>(connections),
            Err(reason) => r matches Err(e) && e.says(
                ErrorKind::ConnectionFailure,
                "list_connections failed: "@ + reason@,
            ),
        },
{
    match result {
        Ok(connections) => Ok(connections),
        Err(reason) => {
            let mut text = String::from_str("list_connections failed: ");
            text.append(reason.as_str());
            Err(Error::connection_failure(text))
        },
    }
}

/// Until when added bounds hold, as the API answered, or why there is no
/// answer. An answer without a time, or with one that no calendar shows, gives
/// none.
pub fn augment_bounds_reply(result: Result<Option<Timestamp>, String>) -> (r: Result<
    Option<UtcTime>,
    Error,
>)
    ensures
        match result {
            Ok(valid_until) => r == Ok::<Option<UtcTime>, Error>(
                match valid_until {
                    Some(timestamp) => utc_of(timestamp),
                    None => None,
                },
            ),
            Err(reason) => r matches Err(e) && e.says(
                ErrorKind::APIServerError,
                "augment_electrical_component_bounds failed: "@ + reason@,
            ),
        },
{
    match result {
        Ok(Some(timestamp)) => Ok(to_utc(timestamp)),
        Ok(None) => Ok(None),
        Err(reason) => {
            let mut text = String::from_str("augment_electrical_component_bounds failed: ");
            text.append(reason.as_str());
            Err(Error::api_server_error(text))
        },
    }
}

/// What becomes of an instruction, once its answer was given: it fails where the
/// one who asked no longer waits for the answer.
pub fn instruction_outcome(answer_sent: bool) -> (r: Result<(), Error>)
    ensures
        if answer_sent {
            r is Ok
        } else {
            r matches Err(e) && e.says(ErrorKind::Internal, "failed to send response"@)
        },
{
    if answer_sent {
        Ok(())
    } else {
        Err(Error::internal(String::from_str("failed to send response")))
    }
}

/// What to report once the API was asked for the telemetry stream of a
/// component. The stream is read only where it was opened.
pub fn start_electrical_component_telemetry_stream(
    electrical_component_id: u64,
    opened: bool,
) -> (status: StreamStatus)
    ensures
        status == (if opened {
            StreamStatus::Connected(electrical_component_id)
        } else {
            StreamStatus::Failed(electrical_component_id)
        }),
{
    if opened {
        StreamStatus::Connected(electrical_component_id)
    } else {
        StreamStatus::Failed(electrical_component_id)
    }
}

/// What happens to the task that reads a telemetry stream.
pub enum StreamEvent {
    /// It counted the receivers that listen to the stream.
    Receivers(usize),
    /// A message came with telemetry.
    Telemetry(ElectricalComponentTelemetry),
    /// A message came without telemetry.
    EmptyMessage,
    /// The API reported an error.
    Broken,
    /// The stream came to its end.
    Closed,
}

/// What the task that reads a telemetry stream does next.
pub enum StreamStep {
    /// Wait for the next message.
    Read,
    /// Send the telemetry to the receivers, then count them again.
    Forward(ElectricalComponentTelemetry),
    /// Count the receivers.
    CountReceivers,
    /// Report and stop.
    Finish(StreamStatus),
}

/// The next step of the task that reads the telemetry stream of a component.
///
/// The task stops when nobody listens, and when the stream breaks off or comes
/// to its end; the latter two count as failures. Messages without telemetry are
/// passed over.
pub fn run_electrical_component_telemetry_stream(
    electrical_component_id: u64,
    event: StreamEvent,
) -> (step: StreamStep)
    ensures
        step == (match event {
            StreamEvent::Receivers(count) => if count == 0 {
                StreamStep::Finish(StreamStatus::Ended(electrical_component_id))
            } else {
                StreamStep::Read
            },
            StreamEvent::Telemetry(data) => StreamStep::Forward(data),
            StreamEvent::EmptyMessage => StreamStep::CountReceivers,
            StreamEvent::Broken => StreamStep::Finish(StreamStatus::Failed(electrical_component_id)),
            StreamEvent::Closed => StreamStep::Finish(StreamStatus::Failed(electrical_component_id)),
        }),
{
    match event {
        StreamEvent::Receivers(count) => {
            if count == 0 {
                StreamStep::Finish(StreamStatus::Ended(electrical_component_id))
            } else {
                StreamStep::Read
            }
        },
        StreamEvent::Telemetry(data) => StreamStep::Forward(data),
        StreamEvent::EmptyMessage => StreamStep::CountReceivers,
        StreamEvent::Broken => StreamStep::Finish(StreamStatus::Failed(electrical_component_id)),
        StreamEvent::Closed => StreamStep::Finish(StreamStatus::Failed(electrical_component_id)),
    }
}

/// What is due is what is to be retried and due by now, in ascending order.
pub proof fn law_what_is_due(retries: Map<u64, Backoff>, now: u128, id: u64)
    requires
        retries.dom().finite(),
    ensures
        due_ids(retries, in_order(retries.dom()), now).contains(id) <==> retries.contains_key(id)
            && retries[id].due(now),
        ascending(due_ids(retries, in_order(retries.dom()), now)),
{
    let all = in_order(retries.dom());
    crate::ids::lemma_has_order(retries.dom());
    lemma_due_are_among(retries, all, now);
    lemma_due_in_order(retries, all, now);
    if due_ids(retries, all, now).contains(id) {
        assert(all.to_set().contains(id));
        let due = due_ids(retries, all, now);
        let j = choose|j: int| 0 <= j < due.len() && due[j] == id;
        assert(retries[due[j]].due(now));
    }
    if retries.contains_key(id) && retries[id].due(now) {
        law_due_retry_is_found(retries, id, now);
    }
}

proof fn lemma_due_in_order(retries: Map<u64, Backoff>, ids: Seq<u64>, now: u128)
    requires
        ascending(ids),
    ensures
        ascending(due_ids(retries, ids, now)),
        forall|j: int|
            0 <= j < due_ids(retries, ids, now).len() ==> retries[#[trigger] due_ids(
                retries,
                ids,
                now,
            )[j]].due(now),
    decreases ids.len(),
{
    if ids.len() > 0 {
        let front = ids.drop_last();
        assert forall|i: int, j: int| 0 <= i < j < front.len() implies front[i] < front[j] by {
            assert(ids[i] < ids[j]);
        }
        lemma_due_in_order(retries, front, now);
        lemma_due_are_among(retries, front, now);
        let rest = due_ids(retries, front, now);
        let due = due_ids(retries, ids, now);
        assert forall|i: int, j: int| 0 <= i < j < due.len() implies due[i] < due[j] by {
            if j == rest.len() {
                assert(rest.contains(rest[i]));
                let k = choose|k: int| 0 <= k < front.len() && front[k] == rest[i];
                assert(ids[k] < ids[ids.len() - 1]);
            } else {
                assert(rest[i] < rest[j]);
            }
        }
        assert forall|j: int| 0 <= j < due.len() implies retries[#[trigger] due[j]].due(now) by {
            if j < rest.len() {
                assert(due[j] == rest[j]);
            }
        }
    }
}

/// The leading IDs are open, all of them, up to the first that is not.
pub proof fn law_leading_ids_are_open(ids: Seq<u64>, open: Set<u64>)
    ensures
        leading(ids, open) <= ids.len(),
        forall|i: int| 0 <= i < leading(ids, open) ==> open.contains(#[trigger] ids[i]),
        leading(ids, open) < ids.len() ==> !open.contains(ids[leading(ids, open) as int]),
    decreases ids.len(),
{
    if ids.len() > 0 {
        let front = ids.drop_last();
        law_leading_ids_are_open(front, open);
        assert forall|i: int| 0 <= i < leading(ids, open) implies open.contains(
            #[trigger] ids[i],
        ) by {
            if i < front.len() {
                assert(front[i] == ids[i]);
            }
        }
    }
}

/// A failure counts for the backoff of its component as any failure does; that of
/// a component that has none yet is the first failure of a new backoff.
pub proof fn law_failures_count_for_their_component<
    F: Fn(Duration) -> Duration,
    G: Fn(Duration) -> Duration,
>(
    known: Option<Backoff>,
    config: BackoffConfig,
    start: Backoff,
    after: Backoff,
    now: u128,
    when: u128,
    scale: F,
    vary: G,
)
    requires
        match known {
            Some(backoff) => start == backoff,
            None => start.spec_config() == config && start.spec_current_delay() is None,
        },
        start.fails(after, now, when, scale, vary),
    ensures
        failed(known, config, after, now, scale, vary),
{
    let delay = after.spec_current_delay()->0;
    let varied = choose|varied: Duration| #[trigger]
        call_ensures(vary, (delay,), varied) && when == now + crate::time::duration_nanos(varied);
    assert(call_ensures(vary, (delay,), varied));
}

/// After a failure the component waits for the delay that follows its last one,
/// varied, and is not due before.
pub proof fn law_failed_components_wait<F: Fn(Duration) -> Duration, G: Fn(Duration) -> Duration>(
    known: Option<Backoff>,
    config: BackoffConfig,
    after: Backoff,
    now: u128,
    scale: F,
    vary: G,
    least: nat,
)
    requires
        failed(known, config, after, now, scale, vary),
        forall|delay: Duration, varied: Duration| #[trigger]
            call_ensures(vary, (delay,), varied) ==> least <= crate::time::duration_nanos(varied)
                && now + crate::time::duration_nanos(varied) <= u128::MAX,
    ensures
        forall|t: u128| now <= t < now + least ==> !(#[trigger] after.due(t)),
        after.spec_current_delay() is Some,
        known is None ==> after.spec_current_delay() == Some(config.spec_initial())
            && after.spec_config() == config,
        known matches Some(before) ==> after.spec_config() == before.spec_config(),
{
}

}
