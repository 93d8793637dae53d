//! The decisions of the logical meter actor.
//!
//! Once per resampling interval the actor resamples the telemetry of the
//! components that its formulas read, evaluates the formulas, and sends the
//! values to whoever subscribed. What it keeps is here: the formulas with their
//! subscribers, and the components with their telemetry subscriptions. The
//! resamplers, the channels and the arithmetic are its caller's.
//!
//! Times are nanoseconds since the Unix epoch.

use vstd::prelude::*;

use crate::client::proto::{
    carried, law_first_sample_is_found, sample_of, Coded, ElectricalComponentTelemetry, Metric,
};
use crate::error::{Error, ErrorKind};
use crate::logical_meter::config::LogicalMeterConfig;
use crate::logical_meter::formula::Key;
use crate::logical_meter::key_map::{
    distinct_keys, is_among, lemma_values, values, KeyMap,
};
use crate::single::Single;
use crate::text::{decimal, push_decimal};
use crate::time::{
    debug_text, delta_debug, delta_nanos, is_time, to_utc, total_nanos, utc_of, UtcTime,
};
use crate::wall_clock_timer::{
    follows, law_jump_moves_the_stamp, law_ticks_stay_aligned, NextTick,
};

verus! {

/// No time that a calendar can show is farther from the epoch than this.
pub const TIME_LIMIT: i128 = 10_000_000_000_000_000_000_000;

/// A telemetry subscription of a component's metric.
#[derive(Clone, Copy, Debug, PartialEq, Eq, Structural)]
pub struct ComponentSubscription {
    /// Whether telemetry comes in: not while the subscription is being made.
    pub connected: bool,
    /// Consecutive ticks on which no formula read this component.
    pub idle_ticks: u32,
}

/// A subscription that is being made.
pub open spec fn fresh() -> ComponentSubscription {
    ComponentSubscription { connected: false, idle_ticks: 0 }
}

/// The subscription of a key: the one it has, or else a fresh one.
pub open spec fn kept_or_fresh(
    subscriptions: Map<Key, ComponentSubscription>,
    key: Key,
) -> ComponentSubscription {
    if subscriptions.contains_key(key) {
        subscriptions[key]
    } else {
        fresh()
    }
}

/// One distinct expression, by its text, and everyone listening to it.
pub struct SubscribedFormula {
    pub rendered: String,
    /// The subscribers, by numbers that the caller gives them.
    pub sinks: Vec<u64>,
}

impl View for SubscribedFormula {
    type V = (Seq<char>, Seq<u64>);

    open spec fn view(&self) -> (Seq<char>, Seq<u64>) {
        (self.rendered@, self.sinks@)
    }
}

/// The text and subscribers of each of `formulas`.
pub open spec fn formula_views(formulas: Seq<SubscribedFormula>) -> Seq<(Seq<char>, Seq<u64>)> {
    formulas.map_values(|formula: SubscribedFormula| formula@)
}

/// What became of one formula on a tick.
pub struct FormulaOutcome {
    /// The keys that its evaluation read.
    pub reads: Vec<Key>,
    /// For each of its subscribers, whether the value could be sent.
    pub alive: Vec<bool>,
}

/// What an evaluation gave.
#[derive(Clone, Copy, Debug, PartialEq)]
pub enum Evaluation {
    /// A value, or none where something that it needs is known to be missing.
    Known(Option<Single>),
    /// Something that it needs is not known yet.
    Unknown,
    /// The evaluation failed.
    Failed,
}

/// The value that subscribers are sent: none, where it is not known.
pub open spec fn sent_value(evaluation: Evaluation) -> Option<Single> {
    match evaluation {
        Evaluation::Known(value) => value,
        Evaluation::Unknown => None,
        Evaluation::Failed => None,
    }
}

/// The value that subscribers are sent: none, where it is not known.
pub fn value_to_send(evaluation: Evaluation) -> (r: Option<Single>)
    ensures
        r == sent_value(evaluation),
{
    match evaluation {
        Evaluation::Known(value) => value,
        Evaluation::Unknown => None,
        Evaluation::Failed => None,
    }
}

/// What a tick asks for before the components are resampled.
#[derive(Clone, Copy, Debug, PartialEq, Eq, Structural)]
pub struct TickPlan {
    /// Where the clock jumped: drop what telemetry came in, and start all
    /// resamplers anew at this time.
    pub rebuild_from: Option<i128>,
    /// The time to resample at, and of the values that are sent.
    pub timestamp: i128,
}

impl TickPlan {
    /// Whether this is the plan of a tick that was due at `expected`. Where the
    /// timer was aligned anew and its next tick is due at `next`, the tick is the
    /// one an interval before that, and resamplers start an interval before it.
    pub open spec fn is_for(
        self,
        resynced: bool,
        expected: int,
        next: int,
        interval: int,
    ) -> bool {
        if resynced {
            &&& self.timestamp == next - interval
            &&& self.rebuild_from matches Some(start) && start == next - 2 * interval
        } else {
            &&& self.timestamp == expected
            &&& self.rebuild_from is None
        }
    }
}

/// What to do once a telemetry subscription was made or refused.
#[derive(Clone, Copy, Debug, PartialEq, Eq, Structural)]
pub enum SubscriptionAction {
    /// Keep its receiver.
    Attach,
    /// Let it go: the component was dropped meanwhile.
    Discard,
    /// Forget the component's resampler; it is tried again when read.
    Forget,
}

/// What to do after the formulas of a tick were evaluated.
pub struct SubscriptionChanges {
    /// Make these subscriptions.
    pub started: Vec<Key>,
    /// Drop these subscriptions.
    pub dropped: Vec<Key>,
}

/// What is left of the subscribers, once those that are gone are left out.
pub open spec fn kept_sinks(sinks: Seq<u64>, alive: Seq<bool>) -> Seq<u64>
    decreases sinks.len(),
{
    if sinks.len() == 0 {
        Seq::empty()
    } else {
        let rest = kept_sinks(sinks.drop_last(), alive);
        if alive[sinks.len() - 1] {
            rest.push(sinks.last())
        } else {
            rest
        }
    }
}

/// Whether a formula still has a subscriber after a tick.
pub open spec fn is_heard(outcome: FormulaOutcome) -> bool {
    exists|j: int| 0 <= j < outcome.alive@.len() && #[trigger] outcome.alive@[j]
}

/// The formulas that are left after a tick: those with a subscriber.
pub open spec fn surviving(
    formulas: Seq<(Seq<char>, Seq<u64>)>,
    outcomes: Seq<FormulaOutcome>,
) -> Seq<(Seq<char>, Seq<u64>)>
    decreases formulas.len(),
{
    if formulas.len() == 0 {
        Seq::empty()
    } else {
        let n = formulas.len() - 1;
        let rest = surviving(formulas.drop_last(), outcomes);
        let sinks = kept_sinks(formulas[n].1, outcomes[n].alive@);
        if sinks.len() > 0 {
            rest.push((formulas[n].0, sinks))
        } else {
            rest
        }
    }
}

/// The keys that the formulas that are left have read.
pub open spec fn demand(
    formulas: Seq<(Seq<char>, Seq<u64>)>,
    outcomes: Seq<FormulaOutcome>,
) -> Set<Key>
    decreases formulas.len(),
{
    if formulas.len() == 0 {
        Set::empty()
    } else {
        let n = formulas.len() - 1;
        let rest = demand(formulas.drop_last(), outcomes);
        if kept_sinks(formulas[n].1, outcomes[n].alive@).len() > 0 {
            rest.union(outcomes[n].reads@.to_set())
        } else {
            rest
        }
    }
}

/// The formulas with one more subscriber: of the formula with that text, or of
/// a new one.
pub open spec fn with_sink(
    formulas: Seq<(Seq<char>, Seq<u64>)>,
    rendered: Seq<char>,
    sink: u64,
) -> Seq<(Seq<char>, Seq<u64>)>
    decreases formulas.len(),
{
    if formulas.len() == 0 {
        seq![(rendered, seq![sink])]
    } else if formulas[0].0 == rendered {
        seq![(rendered, formulas[0].1.push(sink))] + formulas.skip(1)
    } else {
        seq![formulas[0]] + with_sink(formulas.skip(1), rendered, sink)
    }
}

/// Whether no two formulas have the same text.
pub open spec fn distinct_texts(formulas: Seq<(Seq<char>, Seq<u64>)>) -> bool {
    forall|i: int, j: int|
        0 <= i < formulas.len() && 0 <= j < formulas.len() && #[trigger] formulas[i].0
            == #[trigger] formulas[j].0 ==> i == j
}

/// A subscription after a tick on which its component was read, or was not:
/// none, where it went unread too often.
pub open spec fn aged(
    subscription: ComponentSubscription,
    read: bool,
    limit: u32,
) -> Option<ComponentSubscription> {
    if read {
        Some(ComponentSubscription { connected: subscription.connected, idle_ticks: 0 })
    } else if subscription.idle_ticks + 1 >= limit {
        None
    } else {
        Some(
            ComponentSubscription {
                connected: subscription.connected,
                idle_ticks: (subscription.idle_ticks + 1) as u32,
            },
        )
    }
}

/// Whether `after` are the subscriptions that follow from `before` and the keys
/// that were read.
pub open spec fn reconciled(
    before: Map<Key, ComponentSubscription>,
    used: Set<Key>,
    limit: u32,
    after: Map<Key, ComponentSubscription>,
) -> bool {
    forall|key: Key| #[trigger]
        after.contains_key(key) == (if before.contains_key(key) {
            aged(before[key], used.contains(key), limit) is Some
        } else {
            used.contains(key)
        }) && (after.contains_key(key) ==> after[key] == (if before.contains_key(key) {
            aged(before[key], used.contains(key), limit)->Some_0
        } else {
            fresh()
        }))
}

/// What is wrong with a configuration, if anything.
pub open spec fn config_fault<F>(config: LogicalMeterConfig<F>) -> Option<Seq<char>> {
    if delta_nanos(config.interval()) <= 0 {
        Some("resampling_interval must be positive, got "@ + delta_debug(config.interval()))
    } else if config.max_age() > i32::MAX {
        Some("max_age_in_intervals must fit in i32, got "@ + decimal(config.max_age() as nat))
    } else {
        None
    }
}

/// Checks that the logical meter can use the configuration.
pub fn check_config<F>(config: &LogicalMeterConfig<F>) -> (r: Result<(), Error>)
    ensures
        match config_fault(*config) {
            Some(reason) => r matches Err(e) && e.says(ErrorKind::InvalidConfig, reason),
            None => r is Ok,
        },
{
    if total_nanos(config.resampling_interval()) <= 0 {
        let mut text = String::from_str("resampling_interval must be positive, got ");
        text.append(debug_text(config.resampling_interval()).as_str());
        return Err(Error::invalid_config(text));
    }
    if config.max_age_in_intervals() > 0x7fff_ffff {
        let mut text = String::from_str("max_age_in_intervals must fit in i32, got ");
        push_decimal(&mut text, config.max_age_in_intervals() as u64);
        return Err(Error::invalid_config(text));
    }
    Ok(())
}

/// The one value that resampling a component must give.
pub open spec fn one_value(values: Seq<Option<Single>>) -> Result<Option<Single>, Seq<char>> {
    if values.len() == 1 {
        Ok(values[0])
    } else {
        Err("Resampling produced "@ + decimal(values.len()) + " values"@)
    }
}

/// The one value that resampling a component must give: any other number of
/// values is an error.
pub fn resampled_value(values: &Vec<Option<Single>>) -> (r: Result<Option<Single>, Error>)
    ensures
        match one_value(values@) {
            Ok(value) => r == Ok::<Option<Single>, Error>(value),
            Err(reason) => r matches Err(e) && e.says(ErrorKind::ConnectionFailure, reason),
        },
{
    if values.len() == 1 {
        return Ok(values[0]);
    }
    let mut text = String::from_str("Resampling produced ");
    push_decimal(&mut text, values.len() as u64);
    text.append(" values");
    Err(Error::connection_failure(text))
}

/// What polling the telemetry of a component gave.
pub enum Polled {
    /// A message.
    Data(ElectricalComponentTelemetry),
    /// Nothing, for now.
    Empty,
    /// Messages were missed. There may be others.
    Lagged,
    /// Nothing, and nothing will come.
    Closed,
}

/// What follows a poll.
pub enum PollStep {
    /// Take the message, and poll for the next.
    Take(ElectricalComponentTelemetry),
    /// Poll again.
    Again,
    /// Stop polling for this tick.
    Done,
}

/// What follows a poll. Telemetry that was missed is lost, but what is behind it
/// is not.
pub fn poll_telemetry(polled: Polled) -> (step: PollStep)
    ensures
        step == (match polled {
            Polled::Data(data) => PollStep::Take(data),
            Polled::Lagged => PollStep::Again,
            Polled::Empty => PollStep::Done,
            Polled::Closed => PollStep::Done,
        }),
{
    match polled {
        Polled::Data(data) => PollStep::Take(data),
        Polled::Lagged => PollStep::Again,
        Polled::Empty => PollStep::Done,
        Polled::Closed => PollStep::Done,
    }
}

/// The one value of each key, by its key.
pub open spec fn taken(results: Seq<(Key, Vec<Option<Single>>)>) -> Map<Key, Option<Single>>
    decreases results.len(),
{
    if results.len() == 0 {
        Map::empty()
    } else {
        taken(results.drop_last()).insert(results.last().0, results.last().1@[0])
    }
}

/// The values that formulas read in a tick, out of what resampling gave for each
/// key. The first key that did not give one value makes the tick fail.
pub fn resample(results: &Vec<(Key, Vec<Option<Single>>)>) -> (r: Result<
    KeyMap<Option<Single>>,
    Error,
>)
    ensures
        match r {
            Ok(snapshot) => snapshot.wf() && snapshot@ == taken(results@) && forall|i: int|
                0 <= i < results@.len() ==> one_value((#[trigger] results@[i]).1@) is Ok,
            Err(e) => exists|i: int|
                0 <= i < results@.len() && (one_value((#[trigger] results@[i]).1@) matches Err(
                    reason,
                ) && e.says(ErrorKind::ConnectionFailure, reason)) && forall|j: int|
                    0 <= j < i ==> one_value((#[trigger] results@[j]).1@) is Ok,
        },
{
    let mut snapshot: KeyMap<Option<Single>> = KeyMap::new();
    let mut i: usize = 0;
    while i < results.len()
        invariant
            i <= results.len(),
            snapshot.wf(),
            snapshot@ == taken(results@.take(i as int)),
            forall|j: int| 0 <= j < i ==> one_value((#[trigger] results@[j]).1@) is Ok,
        decreases results.len() - i,
    {
        assert(results@.take(i + 1).drop_last() =~= results@.take(i as int));
        match resampled_value(&results[i].1) {
            Ok(value) => {
                snapshot.insert(results[i].0, value);
            },
            Err(e) => {
                assert(one_value(results@[i as int].1@) is Err);
                return Err(e);
            },
        }
        i = i + 1;
    }
    assert(results@.take(results@.len() as int) =~= results@);
    Ok(snapshot)
}

/// What reading a key gives.
#[derive(Clone, Copy, Debug, PartialEq)]
pub enum ReadOutcome {
    /// The value of the tick, or that there is none.
    Known(Option<Single>),
    /// The key is not subscribed to yet.
    Unknown,
}

/// Reads a key for a formula, and keeps note that it was read.
pub fn read(snapshot: &KeyMap<Option<Single>>, reads: &mut Vec<Key>, key: Key) -> (r: ReadOutcome)
    requires
        snapshot.wf(),
    ensures
        r == (if snapshot@.contains_key(key) {
            ReadOutcome::Known(snapshot@[key])
        } else {
            ReadOutcome::Unknown
        }),
        final(reads)@ == (if old(reads)@.to_set().contains(key) {
            old(reads)@
        } else {
            old(reads)@.push(key)
        }),
{
    if !is_among(reads, key) {
        reads.push(key);
    }
    match snapshot.get(key) {
        Some(value) => ReadOutcome::Known(value),
        None => ReadOutcome::Unknown,
    }
}

/// The sample of the key's metric in a telemetry message: the value of its
/// first sample, where that has a valid time and a value.
pub open spec fn sample_at(key: Key, data: ElectricalComponentTelemetry) -> Option<
    (UtcTime, Single),
> {
    match sample_of(data.metric_samples@, key.metric) {
        None => None,
        Some(sample) => match (sample.sample_time, carried(sample)) {
            (Some(timestamp), Some(value)) => match utc_of(timestamp) {
                Some(time) => Some((time, value)),
                None => None,
            },
            _ => None,
        },
    }
}

/// Extracts the sample of the key's metric from a telemetry message, to be
/// pushed to the key's resampler.
pub fn sample_to_push(key: Key, data: &ElectricalComponentTelemetry) -> (r: Option<
    (UtcTime, Single),
>)
    ensures
        r == sample_at(key, *data),
{
    let sample = match data.find_sample(key.metric) {
        Some(sample) => sample,
        None => {
            return None;
        },
    };
    let time = match sample.sample_time {
        Some(timestamp) => match to_utc(timestamp) {
            Some(time) => time,
            None => {
                return None;
            },
        },
        None => {
            return None;
        },
    };
    match sample.carried_value() {
        Some(value) => Some((time, value)),
        None => None,
    }
}

/// What the logical meter actor keeps.
pub struct LogicalMeterActor<F> {
    config: LogicalMeterConfig<F>,
    resampler_ts: i128,
    subscriptions: KeyMap<ComponentSubscription>,
    formulas: Vec<SubscribedFormula>,
}

impl<F> LogicalMeterActor<F> {
    /// The configuration.
    pub closed spec fn spec_config(&self) -> LogicalMeterConfig<F> {
        self.config
    }

    /// The time of the last tick; before the first, one interval before it.
    pub closed spec fn spec_timestamp(&self) -> i128 {
        self.resampler_ts
    }

    /// The telemetry subscriptions.
    pub closed spec fn subs(&self) -> Map<Key, ComponentSubscription> {
        self.subscriptions@
    }

    /// The formulas, by their texts, with their subscribers.
    pub closed spec fn spec_formulas(&self) -> Seq<(Seq<char>, Seq<u64>)> {
        formula_views(self.formulas@)
    }

    /// Whether the configuration can be used, every subscription went unread
    /// less often than the limit, and no formula is kept twice.
    pub closed spec fn wf(&self) -> bool {
        &&& self.config.wf()
        &&& config_fault(self.config) is None
        &&& self.subscriptions.wf()
        &&& forall|key: Key| #[trigger]
            self.subscriptions@.contains_key(key) ==> self.subscriptions@[key].idle_ticks
                < self.config.unread_limit()
        &&& distinct_texts(formula_views(self.formulas@))
    }

    /// An actor without formulas, whose first tick is due at `next_tick_time`.
    ///
    /// Resamplers that are made before the first tick start one interval before
    /// it, so that the first tick gives the first resampled value.
    pub fn try_new(config: LogicalMeterConfig<F>, next_tick_time: i128) -> (r: Result<Self, Error>)
        requires
            config.wf(),
            -TIME_LIMIT <= next_tick_time <= TIME_LIMIT,
        ensures
            match config_fault(config) {
                Some(reason) => r matches Err(e) && e.says(ErrorKind::InvalidConfig, reason),
                None => r matches Ok(actor) && actor.wf() && actor.spec_config() == config
                    && actor.spec_timestamp() == next_tick_time - delta_nanos(config.interval())
                    && actor.subs() == Map::<Key, ComponentSubscription>::empty()
                    && actor.spec_formulas() == Seq::<(Seq<char>, Seq<u64>)>::empty(),
            },
    {
        match check_config(&config) {
            Ok(_) => {},
            Err(e) => {
                return Err(e);
            },
        }
        let interval = total_nanos(config.resampling_interval());
        let formulas: Vec<SubscribedFormula> = Vec::new();
        assert(formula_views(formulas@) =~= Seq::<(Seq<char>, Seq<u64>)>::empty());
        Ok(
            LogicalMeterActor {
                config,
                resampler_ts: next_tick_time - interval,
                subscriptions: KeyMap::new(),
                formulas,
            },
        )
    }

    /// The configuration.
    pub fn config(&self) -> (r: &LogicalMeterConfig<F>)
        ensures
            *r == self.spec_config(),
    {
        &self.config
    }

    /// The time of the last tick; before the first, one interval before it.
    pub fn timestamp(&self) -> (r: i128)
        ensures
            r == self.spec_timestamp(),
    {
        self.resampler_ts
    }

    /// The telemetry subscriptions, each key once.
    pub fn subscriptions(&self) -> (r: &Vec<(Key, ComponentSubscription)>)
        requires
            self.wf(),
        ensures
            values(r@) == self.subs(),
            distinct_keys(r@),
    {
        self.subscriptions.entries()
    }

    /// The formulas with their subscribers.
    pub fn formulas(&self) -> (r: &Vec<SubscribedFormula>)
        ensures
            formula_views(r@) == self.spec_formulas(),
    {
        &self.formulas
    }

    /// Takes a tick. `expected` is the time at which it was due. Where the clock
    /// jumped, the timer was aligned anew and its next tick is due at `next`:
    /// the current tick is then the one an interval before that, and the
    /// resamplers start anew an interval before it.
    pub fn tick(&mut self, resynced: bool, expected: i128, next: i128) -> (plan: TickPlan)
        requires
            old(self).wf(),
            -TIME_LIMIT <= next <= TIME_LIMIT,
        ensures
            final(self).wf(),
            final(self).spec_config() == old(self).spec_config(),
            final(self).subs() == old(self).subs(),
            final(self).spec_formulas() == old(self).spec_formulas(),
            final(self).spec_timestamp() == plan.timestamp,
            plan.is_for(
                resynced,
                expected as int,
                next as int,
                delta_nanos(old(self).spec_config().interval()),
            ),
    {
        if resynced {
            let interval = total_nanos(self.config.resampling_interval());
            let realigned = next - interval;
            self.resampler_ts = realigned;
            TickPlan { rebuild_from: Some(realigned - interval), timestamp: realigned }
        } else {
            self.resampler_ts = expected;
            TickPlan { rebuild_from: None, timestamp: expected }
        }
    }

    /// Registers a subscription for every key in `used` that has none, and
    /// tells which they are.
    pub fn start_missing_subscriptions(&mut self, used: &Vec<Key>) -> (started: Vec<Key>)
        requires
            old(self).wf(),
        ensures
            final(self).wf(),
            final(self).spec_config() == old(self).spec_config(),
            final(self).spec_timestamp() == old(self).spec_timestamp(),
            final(self).spec_formulas() == old(self).spec_formulas(),
            started@.no_duplicates(),
            started@.to_set() == used@.to_set().difference(old(self).subs().dom()),
            forall|key: Key| #[trigger]
                final(self).subs().contains_key(key) == (old(self).subs().contains_key(key)
                    || used@.to_set().contains(key)),
            forall|key: Key| #[trigger]
                final(self).subs().contains_key(key) ==> final(self).subs()[key] == kept_or_fresh(
                    old(self).subs(),
                    key,
                ),
    {
        let ghost before = self.subs();
        let mut started: Vec<Key> = Vec::new();
        let mut i: usize = 0;
        while i < used.len()
            invariant
                i <= used.len(),
                self.wf(),
                before == old(self).subs(),
                self.spec_config() == old(self).spec_config(),
                self.spec_timestamp() == old(self).spec_timestamp(),
                self.formulas@ == old(self).formulas@,
                started@.no_duplicates(),
                forall|key: Key| #[trigger]
                    started@.contains(key) ==> !before.contains_key(key) && self.subs().contains_key(
                        key,
                    ) && used@.contains(key),
                forall|k: int|
                    0 <= k < i ==> before.contains_key(#[trigger] used@[k]) || started@.contains(
                        used@[k],
                    ),
                forall|key: Key| #[trigger]
                    self.subs().contains_key(key) == (before.contains_key(key)
                        || started@.contains(key)),
                forall|key: Key| #[trigger]
                    self.subs().contains_key(key) ==> self.subs()[key]
                        == (if before.contains_key(key) {
                        before[key]
                    } else {
                        fresh()
                    }),
            decreases used.len() - i,
        {
            let key = used[i];
            let ghost held = self.subs();
            assert(held.contains_key(key) == (before.contains_key(key) || started@.contains(key)));
            if !self.subscriptions.contains_key(key) {
                let ghost so_far = started@;
                self.subscriptions.insert(
                    key,
                    ComponentSubscription { connected: false, idle_ticks: 0 },
                );
                started.push(key);
                proof {
                    assert forall|other: Key| #[trigger] started@.contains(other) == (
                    so_far.contains(other) || other == key) by {
                        if so_far.contains(other) {
                            let j = choose|j: int| 0 <= j < so_far.len() && so_far[j] == other;
                            assert(started@[j] == other);
                        }
                        assert(started@[so_far.len() as int] == key);
                    }
                    assert(used@.contains(used@[i as int]));
                    assert(self.subs() == held.insert(key, fresh()));
                    assert forall|other: Key| #[trigger] self.subs().contains_key(other) == (
                    before.contains_key(other) || started@.contains(other)) by {
                        assert(held.contains_key(other) == (before.contains_key(other)
                            || so_far.contains(other)));
                    }
                    assert forall|other: Key| #[trigger] self.subs().contains_key(
                        other,
                    ) implies self.subs()[other] == (if before.contains_key(other) {
                        before[other]
                    } else {
                        fresh()
                    }) by {
                        assert(held.contains_key(other) || other == key);
                    }
                    assert forall|k: int| 0 <= k < i + 1 implies before.contains_key(
                        #[trigger] used@[k],
                    ) || started@.contains(used@[k]) by {
                        if k < i {
                            assert(before.contains_key(used@[k]) || so_far.contains(used@[k]));
                        }
                    }
                    assert forall|a: int, b: int|
                        0 <= a < started@.len() && 0 <= b < started@.len() && a
                            != b implies started@[a] != started@[b] by {
                        if a == so_far.len() {
                            assert(so_far.contains(so_far[b]));
                        } else if b == so_far.len() {
                            assert(so_far.contains(so_far[a]));
                        }
                    }
                }
            }
            i = i + 1;
        }
        proof {
            assert forall|key: Key| started@.to_set().contains(key) <==> used@.to_set().difference(
                before.dom(),
            ).contains(key) by {
                if used@.to_set().contains(key) && !before.contains_key(key) {
                    let k = choose|k: int| 0 <= k < used@.len() && used@[k] == key;
                    assert(before.contains_key(used@[k]) || started@.contains(used@[k]));
                }
            }
            assert(started@.to_set() =~= used@.to_set().difference(before.dom()));
            assert forall|key: Key| #[trigger] self.subs().contains_key(key) == (
            before.contains_key(key) || used@.to_set().contains(key)) by {
                assert(started@.to_set().contains(key) == started@.contains(key));
            }
        }
        started
    }

    /// Starts subscriptions for keys that were read but have none, and drops
    /// those that have gone unread for too many ticks.
    pub fn reconcile_subscriptions(&mut self, used: &Vec<Key>) -> (changes: SubscriptionChanges)
        requires
            old(self).wf(),
        ensures
            final(self).wf(),
            final(self).spec_config() == old(self).spec_config(),
            final(self).spec_timestamp() == old(self).spec_timestamp(),
            final(self).spec_formulas() == old(self).spec_formulas(),
            reconciled(
                old(self).subs(),
                used@.to_set(),
                old(self).spec_config().unread_limit(),
                final(self).subs(),
            ),
            changes.started@.no_duplicates(),
            changes.started@.to_set() == used@.to_set().difference(old(self).subs().dom()),
            changes.dropped@.no_duplicates(),
            changes.dropped@.to_set() == old(self).subs().dom().difference(final(self).subs().dom()),
    {
        let ghost before = self.subs();
        let ghost limit = self.config.unread_limit();
        let started = self.start_missing_subscriptions(used);
        let ghost held = self.subs();
        let limit_now = self.config.unsubscribe_after_intervals();
        let mut kept: KeyMap<ComponentSubscription> = KeyMap::new();
        let mut dropped: Vec<Key> = Vec::new();
        let entries = self.subscriptions.entries();
        proof {
            lemma_values(entries@);
        }
        let mut i: usize = 0;
        while i < entries.len()
            invariant
                i <= entries.len(),
                kept.wf(),
                distinct_keys(entries@),
                limit_now == limit,
                held == values(entries@),
                forall|k: int|
                    0 <= k < entries@.len() ==> held.contains_key(#[trigger] entries@[k].0)
                        && held[entries@[k].0] == entries@[k].1,
                forall|key: Key| #[trigger] held.contains_key(key) ==> held[key].idle_ticks < limit,
                forall|key: Key| #[trigger]
                    kept@.contains_key(key) ==> held.contains_key(key) && aged(
                        held[key],
                        used@.to_set().contains(key),
                        limit,
                    ) == Some(kept@[key]),
                forall|key: Key| #[trigger]
                    dropped@.contains(key) ==> held.contains_key(key) && aged(
                        held[key],
                        used@.to_set().contains(key),
                        limit,
                    ) is None,
                forall|k: int|
                    0 <= k < i ==> kept@.contains_key(#[trigger] entries@[k].0)
                        || dropped@.contains(entries@[k].0),
                dropped@.no_duplicates(),
                forall|key: Key| #[trigger]
                    dropped@.contains(key) ==> exists|k: int|
                        0 <= k < i && #[trigger] entries@[k].0 == key,
            decreases entries.len() - i,
        {
            let key = entries[i].0;
            let subscription = entries[i].1;
            let ghost kept_before = kept@;
            let ghost dropped_before = dropped@;
            assert(held.contains_key(entries@[i as int].0));
            if is_among(used, key) {
                kept.insert(
                    key,
                    ComponentSubscription { connected: subscription.connected, idle_ticks: 0 },
                );
            } else if subscription.idle_ticks + 1 >= limit_now {
                assert(!dropped@.contains(key)) by {
                    if dropped@.contains(key) {
                        let k = choose|k: int| 0 <= k < i && #[trigger] entries@[k].0 == key;
                        assert(entries@[k].0 == entries@[i as int].0);
                    }
                }
                dropped.push(key);
                proof {
                    assert(entries@[i as int].0 == key);
                    assert(dropped@[dropped_before.len() as int] == key);
                    assert forall|other: Key| #[trigger] dropped@.contains(other) == (
                    dropped_before.contains(other) || other == key) by {
                        if dropped_before.contains(other) {
                            let j = choose|j: int|
                                0 <= j < dropped_before.len() && dropped_before[j] == other;
                            assert(dropped@[j] == other);
                        }
                    }
                }
            } else {
                kept.insert(
                    key,
                    ComponentSubscription {
                        connected: subscription.connected,
                        idle_ticks: subscription.idle_ticks + 1,
                    },
                );
            }
            proof {
                assert forall|k: int| 0 <= k < i + 1 implies kept@.contains_key(
                    #[trigger] entries@[k].0,
                ) || dropped@.contains(entries@[k].0) by {
                    if k < i {
                        assert(kept_before.contains_key(entries@[k].0) || dropped_before.contains(
                            entries@[k].0,
                        ));
                    }
                }
            }
            i = i + 1;
        }
        proof {
            assert forall|key: Key| #[trigger] held.contains_key(key) implies kept@.contains_key(key)
                || dropped@.contains(key) by {
                let k = choose|k: int| 0 <= k < entries@.len() && #[trigger] entries@[k].0 == key;
                assert(kept@.contains_key(entries@[k].0) || dropped@.contains(entries@[k].0));
            }
        }
        self.subscriptions = kept;
        proof {
            let after = self.subs();
            let used_set = used@.to_set();
            assert forall|key: Key| #[trigger] after.contains_key(key) == (if before.contains_key(
                key,
            ) {
                aged(before[key], used_set.contains(key), limit) is Some
            } else {
                used_set.contains(key)
            }) && (after.contains_key(key) ==> after[key] == (if before.contains_key(key) {
                aged(before[key], used_set.contains(key), limit)->Some_0
            } else {
                fresh()
            })) by {
                assert(held.contains_key(key) == (before.contains_key(key) || used_set.contains(
                    key,
                )));
                if held.contains_key(key) {
                    assert(kept@.contains_key(key) || dropped@.contains(key));
                    assert(held[key] == (if before.contains_key(key) {
                        before[key]
                    } else {
                        fresh()
                    }));
                }
            }
            assert forall|key: Key| dropped@.to_set().contains(key) <==> before.dom().difference(
                after.dom(),
            ).contains(key) by {
                assert(dropped@.to_set().contains(key) == dropped@.contains(key));
                assert(held.contains_key(key) == (before.contains_key(key) || used_set.contains(
                    key,
                )));
                assert(after.contains_key(key) == kept@.contains_key(key));
                if dropped@.contains(key) {
                    assert(held.contains_key(key));
                }
                if before.contains_key(key) && !after.contains_key(key) {
                    assert(held.contains_key(key));
                }
            }
            assert(dropped@.to_set() =~= before.dom().difference(after.dom()));
        }
        SubscriptionChanges { started, dropped }
    }

    /// Takes what became of a telemetry subscription that was being made.
    pub fn subscription_done(&mut self, key: Key, succeeded: bool) -> (action: SubscriptionAction)
        requires
            old(self).wf(),
        ensures
            final(self).wf(),
            final(self).spec_config() == old(self).spec_config(),
            final(self).spec_timestamp() == old(self).spec_timestamp(),
            final(self).spec_formulas() == old(self).spec_formulas(),
            if !succeeded {
                &&& action == SubscriptionAction::Forget
                &&& final(self).subs() == old(self).subs().remove(key)
            } else if old(self).subs().contains_key(key) {
                &&& action == SubscriptionAction::Attach
                &&& final(self).subs() == old(self).subs().insert(
                    key,
                    ComponentSubscription {
                        connected: true,
                        idle_ticks: old(self).subs()[key].idle_ticks,
                    },
                )
            } else {
                action == SubscriptionAction::Discard && final(self).subs() == old(self).subs()
            },
    {
        if !succeeded {
            self.subscriptions.remove(key);
            return SubscriptionAction::Forget;
        }
        match self.subscriptions.get(key) {
            Some(known) => {
                self.subscriptions.insert(
                    key,
                    ComponentSubscription { connected: true, idle_ticks: known.idle_ticks },
                );
                SubscriptionAction::Attach
            },
            None => SubscriptionAction::Discard,
        }
    }

    /// Takes what became of every formula on a tick: subscribers that are gone
    /// are dropped, and formulas without subscribers with them. Gives the keys
    /// that the formulas that are left have read, which is the tick's demand
    /// for components.
    pub fn evaluate_formulas(&mut self, outcomes: &Vec<FormulaOutcome>) -> (used: Vec<Key>)
        requires
            old(self).wf(),
            outcomes@.len() == old(self).spec_formulas().len(),
            forall|i: int|
                0 <= i < outcomes@.len() ==> (#[trigger] outcomes@[i]).alive@.len()
                    == old(self).spec_formulas()[i].1.len(),
        ensures
            final(self).wf(),
            final(self).spec_config() == old(self).spec_config(),
            final(self).spec_timestamp() == old(self).spec_timestamp(),
            final(self).subs() == old(self).subs(),
            final(self).spec_formulas() == surviving(old(self).spec_formulas(), outcomes@),
            used@.to_set() == demand(old(self).spec_formulas(), outcomes@),
            forall|key: Key| #[trigger]
                used@.contains(key) <==> exists|i: int|
                    0 <= i < outcomes@.len() && is_heard(#[trigger] outcomes@[i])
                        && outcomes@[i].reads@.contains(key),
    {
        let ghost before = self.spec_formulas();
        let mut kept: Vec<SubscribedFormula> = Vec::new();
        let mut used: Vec<Key> = Vec::new();
        let mut i: usize = 0;
        assert(formula_views(kept@) =~= Seq::<(Seq<char>, Seq<u64>)>::empty());
        assert(used@.to_set() =~= Set::<Key>::empty());
        while i < self.formulas.len()
            invariant
                i <= self.formulas.len(),
                before == formula_views(self.formulas@),
                outcomes@.len() == before.len(),
                forall|i: int|
                    0 <= i < outcomes@.len() ==> (#[trigger] outcomes@[i]).alive@.len()
                        == before[i].1.len(),
                self.wf(),
                self.subs() == old(self).subs(),
                self.spec_config() == old(self).spec_config(),
                self.spec_timestamp() == old(self).spec_timestamp(),
                formula_views(kept@) == surviving(before.take(i as int), outcomes@),
                used@.to_set() == demand(before.take(i as int), outcomes@),
            decreases self.formulas.len() - i,
        {
            let formula = &self.formulas[i];
            let outcome = &outcomes[i];
            assert(before[i as int] == formula@);
            assert(before.take(i + 1).drop_last() =~= before.take(i as int));
            let sinks = keep_sinks(&formula.sinks, &outcome.alive);
            let ghost kept_before = formula_views(kept@);
            if sinks.len() > 0 {
                let ghost one = (formula.rendered@, sinks@);
                kept.push(SubscribedFormula { rendered: formula.rendered.clone(), sinks });
                extend_keys(&mut used, &outcome.reads);
                assert(formula_views(kept@) =~= kept_before.push(one));
            }
            i = i + 1;
        }
        proof {
            assert(before.take(before.len() as int) =~= before);
            lemma_surviving_texts(before, outcomes@);
            assert forall|key: Key| #[trigger] used@.contains(key) <==> exists|i: int|
                0 <= i < outcomes@.len() && is_heard(#[trigger] outcomes@[i])
                    && outcomes@[i].reads@.contains(key) by {
                assert(used@.to_set().contains(key) == used@.contains(key));
                law_demand_is_what_live_formulas_read(before, outcomes@, key);
            }
        }
        self.formulas = kept;
        used
    }

    /// Registers a subscriber of the formula with the given text: of the one
    /// that is kept, where there is one. Starts the subscriptions of the keys
    /// that an evaluation of it reads and that have none.
    pub fn handle_subscribe_formula(&mut self, rendered: String, sink: u64, reads: &Vec<Key>) -> (
    started: Vec<Key>)
        requires
            old(self).wf(),
        ensures
            final(self).wf(),
            final(self).spec_config() == old(self).spec_config(),
            final(self).spec_timestamp() == old(self).spec_timestamp(),
            final(self).spec_formulas() == with_sink(old(self).spec_formulas(), rendered@, sink),
            started@.no_duplicates(),
            started@.to_set() == reads@.to_set().difference(old(self).subs().dom()),
            forall|key: Key| #[trigger]
                final(self).subs().contains_key(key) == (old(self).subs().contains_key(key)
                    || reads@.to_set().contains(key)),
            forall|key: Key| #[trigger]
                final(self).subs().contains_key(key) ==> final(self).subs()[key] == kept_or_fresh(
                    old(self).subs(),
                    key,
                ),
    {
        let ghost before = self.spec_formulas();
        let ghost text = rendered@;
        let mut i: usize = 0;
        while i < self.formulas.len() && self.formulas[i].rendered != rendered
            invariant
                i <= self.formulas.len(),
                text == rendered@,
                before == formula_views(self.formulas@),
                forall|k: int| 0 <= k < i ==> #[trigger] before[k].0 != text,
            decreases self.formulas.len() - i,
        {
            assert(before[i as int].0 == self.formulas@[i as int].rendered@);
            i = i + 1;
        }
        if i < self.formulas.len() {
            let mut sinks = copy_sinks(&self.formulas[i].sinks);
            sinks.push(sink);
            proof {
                assert(before[i as int].0 == text);
                lemma_sink_added_at(before, text, sink, i as int);
            }
            self.formulas.set(i, SubscribedFormula { rendered, sinks });
            proof {
                assert(formula_views(self.formulas@) =~= before.update(
                    i as int,
                    (text, before[i as int].1.push(sink)),
                ));
            }
        } else {
            let mut sinks: Vec<u64> = Vec::new();
            sinks.push(sink);
            assert(sinks@ =~= seq![sink]);
            self.formulas.push(SubscribedFormula { rendered, sinks });
            assert(formula_views(self.formulas@) =~= before.push((text, seq![sink])));
            proof {
                lemma_sink_added_last(before, text, sink);
            }
        }
        proof {
            lemma_with_sink_is_distinct(before, text, sink);
        }
        self.start_missing_subscriptions(reads)
    }
}

fn keep_sinks(sinks: &Vec<u64>, alive: &Vec<bool>) -> (r: Vec<u64>)
    requires
        alive@.len() == sinks@.len(),
    ensures
        r@ == kept_sinks(sinks@, alive@),
{
    let mut r: Vec<u64> = Vec::new();
    let mut i: usize = 0;
    while i < sinks.len()
        invariant
            i <= sinks.len(),
            alive@.len() == sinks@.len(),
            r@ == kept_sinks(sinks@.take(i as int), alive@),
        decreases sinks.len() - i,
    {
        assert(sinks@.take(i + 1).drop_last() =~= sinks@.take(i as int));
        if alive[i] {
            r.push(sinks[i]);
        }
        i = i + 1;
    }
    assert(sinks@.take(sinks@.len() as int) =~= sinks@);
    r
}

fn copy_sinks(sinks: &Vec<u64>) -> (r: Vec<u64>)
    ensures
        r@ == sinks@,
{
    let mut r: Vec<u64> = Vec::new();
    let mut i: usize = 0;
    while i < sinks.len()
        invariant
            i <= sinks.len(),
            r@ == sinks@.take(i as int),
        decreases sinks.len() - i,
    {
        r.push(sinks[i]);
        assert(r@ =~= sinks@.take(i + 1));
        i = i + 1;
    }
    assert(sinks@.take(sinks@.len() as int) =~= sinks@);
    r
}

/// Adds the keys of `more` to `keys`, each once.
fn extend_keys(keys: &mut Vec<Key>, more: &Vec<Key>)
    ensures
        final(keys)@.to_set() == old(keys)@.to_set().union(more@.to_set()),
{
    let mut i: usize = 0;
    assert(keys@.to_set() =~= old(keys)@.to_set().union(more@.take(0).to_set()));
    while i < more.len()
        invariant
            i <= more.len(),
            keys@.to_set() == old(keys)@.to_set().union(more@.take(i as int).to_set()),
        decreases more.len() - i,
    {
        let ghost before = keys@;
        if !is_among(keys, more[i]) {
            keys.push(more[i]);
        }
        proof {
            let part = more@.take(i as int);
            let longer = more@.take(i + 1);
            assert forall|key: Key| keys@.to_set().contains(key) <==> old(
                keys,
            )@.to_set().union(longer.to_set()).contains(key) by {
                if keys@.contains(key) {
                    let j = choose|j: int| 0 <= j < keys@.len() && keys@[j] == key;
                    if j < before.len() {
                        assert(before.to_set().contains(before[j]));
                        if part.to_set().contains(key) {
                            let k = choose|k: int| 0 <= k < part.len() && part[k] == key;
                            assert(longer[k] == key);
                        }
                    } else {
                        assert(longer[i as int] == key);
                    }
                }
                if before.contains(key) {
                    let j = choose|j: int| 0 <= j < before.len() && before[j] == key;
                    assert(keys@[j] == key);
                }
                if longer.contains(key) {
                    let k = choose|k: int| 0 <= k < longer.len() && longer[k] == key;
                    if k < i {
                        assert(part[k] == key);
                        assert(part.to_set().contains(key));
                        assert(before.to_set().contains(key));
                    } else if before.to_set().contains(key) {
                    } else {
                        assert(keys@[before.len() as int] == key);
                    }
                }
                if old(keys)@.to_set().contains(key) {
                    assert(before.to_set().contains(key));
                }
            }
            assert(keys@.to_set() =~= old(keys)@.to_set().union(longer.to_set()));
        }
        i = i + 1;
    }
    assert(more@.take(more@.len() as int) =~= more@);
}

/// The formulas that are left have texts that the formulas had.
proof fn lemma_surviving_texts(
    formulas: Seq<(Seq<char>, Seq<u64>)>,
    outcomes: Seq<FormulaOutcome>,
)
    requires
        distinct_texts(formulas),
    ensures
        distinct_texts(surviving(formulas, outcomes)),
        forall|i: int|
            0 <= i < surviving(formulas, outcomes).len() ==> exists|j: int|
                0 <= j < formulas.len() && #[trigger] formulas[j].0 == #[trigger] surviving(
                    formulas,
                    outcomes,
                )[i].0,
    decreases formulas.len(),
{
    if formulas.len() > 0 {
        let front = formulas.drop_last();
        let n = formulas.len() - 1;
        assert forall|i: int, j: int|
            0 <= i < front.len() && 0 <= j < front.len() && #[trigger] front[i].0
                == #[trigger] front[j].0 implies i == j by {
            assert(formulas[i].0 == formulas[j].0);
        }
        lemma_surviving_texts(front, outcomes);
        let rest = surviving(front, outcomes);
        let all = surviving(formulas, outcomes);
        assert forall|i: int| 0 <= i < all.len() implies exists|j: int|
            0 <= j < formulas.len() && #[trigger] formulas[j].0 == #[trigger] all[i].0 by {
            if i < rest.len() {
                let j = choose|j: int|
                    0 <= j < front.len() && #[trigger] front[j].0 == rest[i].0;
                assert(formulas[j].0 == all[i].0);
            } else {
                assert(formulas[n].0 == all[i].0);
            }
        }
        assert forall|i: int, j: int|
            0 <= i < all.len() && 0 <= j < all.len() && #[trigger] all[i].0
                == #[trigger] all[j].0 implies i == j by {
            if i < rest.len() && j < rest.len() {
                assert(rest[i].0 == rest[j].0);
            } else if i < rest.len() {
                let k = choose|k: int| 0 <= k < front.len() && #[trigger] front[k].0 == rest[i].0;
                assert(formulas[k].0 == formulas[n].0);
            } else if j < rest.len() {
                let k = choose|k: int| 0 <= k < front.len() && #[trigger] front[k].0 == rest[j].0;
                assert(formulas[k].0 == formulas[n].0);
            }
        }
    }
}

/// Whether none of the first `n` formulas has the text.
spec fn lacks(formulas: Seq<(Seq<char>, Seq<u64>)>, rendered: Seq<char>, n: int) -> bool {
    forall|k: int| 0 <= k < n ==> #[trigger] formulas[k].0 != rendered
}

/// A subscriber is added to the first formula with the text.
proof fn lemma_sink_added_at(
    formulas: Seq<(Seq<char>, Seq<u64>)>,
    rendered: Seq<char>,
    sink: u64,
    at: int,
)
    requires
        0 <= at < formulas.len(),
        formulas[at].0 == rendered,
        lacks(formulas, rendered, at),
    ensures
        with_sink(formulas, rendered, sink) == formulas.update(
            at,
            (rendered, formulas[at].1.push(sink)),
        ),
    decreases formulas.len(),
{
    let rest = formulas.skip(1);
    if at > 0 {
        assert(formulas[0].0 != rendered);
        assert forall|k: int| 0 <= k < at - 1 implies #[trigger] rest[k].0 != rendered by {
            assert(formulas[k + 1].0 != rendered);
        }
        lemma_sink_added_at(rest, rendered, sink, at - 1);
    }
    assert(with_sink(formulas, rendered, sink) =~= formulas.update(
        at,
        (rendered, formulas[at].1.push(sink)),
    ));
}

/// A subscriber of a formula that is new is added at the end.
proof fn lemma_sink_added_last(
    formulas: Seq<(Seq<char>, Seq<u64>)>,
    rendered: Seq<char>,
    sink: u64,
)
    requires
        lacks(formulas, rendered, formulas.len() as int),
    ensures
        with_sink(formulas, rendered, sink) == formulas.push((rendered, seq![sink])),
    decreases formulas.len(),
{
    if formulas.len() > 0 {
        let rest = formulas.skip(1);
        assert(formulas[0].0 != rendered);
        assert forall|k: int| 0 <= k < rest.len() implies #[trigger] rest[k].0 != rendered by {
            assert(formulas[k + 1].0 != rendered);
        }
        lemma_sink_added_last(rest, rendered, sink);
    }
    assert(with_sink(formulas, rendered, sink) =~= formulas.push((rendered, seq![sink])));
}

proof fn lemma_with_sink_is_distinct(
    formulas: Seq<(Seq<char>, Seq<u64>)>,
    rendered: Seq<char>,
    sink: u64,
)
    requires
        distinct_texts(formulas),
    ensures
        distinct_texts(with_sink(formulas, rendered, sink)),
{
    let all = with_sink(formulas, rendered, sink);
    if lacks(formulas, rendered, formulas.len() as int) {
        lemma_sink_added_last(formulas, rendered, sink);
        assert forall|i: int, j: int|
            0 <= i < all.len() && 0 <= j < all.len() && #[trigger] all[i].0
                == #[trigger] all[j].0 implies i == j by {
            if i < formulas.len() {
                assert(formulas[i].0 != rendered);
            }
            if j < formulas.len() {
                assert(formulas[j].0 != rendered);
            }
            if i < formulas.len() && j < formulas.len() {
                assert(formulas[i].0 == formulas[j].0);
            }
        }
    } else {
        let at = choose|k: int| 0 <= k < formulas.len() && #[trigger] formulas[k].0 == rendered;
        assert forall|k: int| 0 <= k < at implies #[trigger] formulas[k].0 != rendered by {
            if formulas[k].0 == rendered {
                assert(formulas[k].0 == formulas[at].0);
            }
        }
        lemma_sink_added_at(formulas, rendered, sink, at);
        assert forall|i: int, j: int|
            0 <= i < all.len() && 0 <= j < all.len() && #[trigger] all[i].0
                == #[trigger] all[j].0 implies i == j by {
            assert(all[i].0 == formulas[i].0);
            assert(all[j].0 == formulas[j].0);
        }
    }
}

/// A subscription after `n` ticks on which its component was not read: none,
/// once it was dropped.
pub open spec fn unread_for(
    subscription: ComponentSubscription,
    n: nat,
    limit: u32,
) -> Option<ComponentSubscription>
    decreases n,
{
    if n == 0 {
        Some(subscription)
    } else {
        match unread_for(subscription, (n - 1) as nat, limit) {
            Some(s) => aged(s, false, limit),
            None => None,
        }
    }
}

/// A subscription survives until it has gone unread for `limit` consecutive
/// ticks, and is dropped then.
pub proof fn law_unread_subscription_is_dropped_at_the_limit(
    subscription: ComponentSubscription,
    limit: u32,
    n: nat,
)
    requires
        limit >= 1,
        subscription.idle_ticks == 0,
    ensures
        n < limit ==> (unread_for(subscription, n, limit) matches Some(s) && s.idle_ticks == n
            && s.connected == subscription.connected),
        n >= limit ==> unread_for(subscription, n, limit) is None,
    decreases n,
{
    if n > 0 {
        law_unread_subscription_is_dropped_at_the_limit(subscription, limit, (n - 1) as nat);
    }
}

/// Reading a component starts its count of unread ticks anew.
pub proof fn law_reading_restarts_the_count(subscription: ComponentSubscription, limit: u32)
    ensures
        aged(subscription, true, limit) matches Some(s) && s.idle_ticks == 0,
{
}

/// Every key that was read has a subscription afterwards.
pub proof fn law_what_is_read_is_subscribed(
    before: Map<Key, ComponentSubscription>,
    used: Set<Key>,
    limit: u32,
    after: Map<Key, ComponentSubscription>,
    key: Key,
)
    requires
        reconciled(before, used, limit, after),
        used.contains(key),
    ensures
        after.contains_key(key),
        after[key].idle_ticks == 0,
{
    assert(after.contains_key(key) == (if before.contains_key(key) {
        aged(before[key], used.contains(key), limit) is Some
    } else {
        used.contains(key)
    }));
}

/// A formula that lost its last subscriber asks for no component: what is asked
/// for, a formula that is left has read.
pub proof fn law_demand_comes_from_surviving_formulas(
    formulas: Seq<(Seq<char>, Seq<u64>)>,
    outcomes: Seq<FormulaOutcome>,
    key: Key,
)
    requires
        demand(formulas, outcomes).contains(key),
    ensures
        exists|i: int|
            0 <= i < formulas.len() && (#[trigger] outcomes[i]).reads@.contains(key) && kept_sinks(
                formulas[i].1,
                outcomes[i].alive@,
            ).len() > 0,
    decreases formulas.len(),
{
    if formulas.len() > 0 {
        let n = formulas.len() - 1;
        let front = formulas.drop_last();
        if kept_sinks(formulas[n].1, outcomes[n].alive@).len() > 0
            && outcomes[n].reads@.to_set().contains(key) {
            assert(outcomes[n].reads@.contains(key));
        } else {
            law_demand_comes_from_surviving_formulas(front, outcomes, key);
            let i = choose|i: int|
                0 <= i < front.len() && (#[trigger] outcomes[i]).reads@.contains(key) && kept_sinks(
                    front[i].1,
                    outcomes[i].alive@,
                ).len() > 0;
            assert(front[i] == formulas[i]);
            assert(outcomes[i].reads@.contains(key));
        }
    }
}

/// Subscribers of formulas with the same text share one evaluation: another
/// subscriber joins the formula that is kept, and adds none.
pub proof fn law_equal_formulas_share_an_evaluation(
    formulas: Seq<(Seq<char>, Seq<u64>)>,
    rendered: Seq<char>,
    first: u64,
    second: u64,
)
    requires
        distinct_texts(formulas),
    ensures
        ({
            let one = with_sink(formulas, rendered, first);
            let two = with_sink(one, rendered, second);
            exists|i: int|
                0 <= i < one.len() && #[trigger] one[i].0 == rendered && two == one.update(
                    i,
                    (rendered, one[i].1.push(second)),
                )
        }),
{
    let one = with_sink(formulas, rendered, first);
    let at = if lacks(formulas, rendered, formulas.len() as int) {
        lemma_sink_added_last(formulas, rendered, first);
        formulas.len() as int
    } else {
        let at = choose|k: int| 0 <= k < formulas.len() && #[trigger] formulas[k].0 == rendered;
        assert forall|k: int| 0 <= k < at implies #[trigger] formulas[k].0 != rendered by {
            if formulas[k].0 == rendered {
                assert(formulas[k].0 == formulas[at].0);
            }
        }
        lemma_sink_added_at(formulas, rendered, first, at);
        at
    };
    assert(one[at].0 == rendered);
    lemma_with_sink_is_distinct(formulas, rendered, first);
    assert forall|k: int| 0 <= k < at implies #[trigger] one[k].0 != rendered by {
        if one[k].0 == rendered {
            assert(one[k].0 == one[at].0);
        }
    }
    lemma_sink_added_at(one, rendered, second, at);
}

/// A subscription that failed is tried again when its component is next read:
/// once it is forgotten, a read key is among those to be started.
pub proof fn law_failed_subscriptions_are_tried_again(
    subscriptions: Map<Key, ComponentSubscription>,
    used: Set<Key>,
    key: Key,
)
    requires
        used.contains(key),
    ensures
        used.difference(subscriptions.remove(key).dom()).contains(key),
{
}

/// A run of ticks, as the timer and the actor see them.
pub struct TickRun {
    /// When each tick was due.
    pub due: Seq<int>,
    /// When each tick came, on the wall clock.
    pub arrivals: Seq<int>,
    /// What the timer made of each tick.
    pub nexts: Seq<NextTick>,
    /// What the actor made of each tick.
    pub plans: Seq<TickPlan>,
    /// By how much the wall clock jumped before each tick.
    pub jumps: Seq<int>,
}

impl TickRun {
    /// Whether the timer and the actor handle each tick, and the next one is due
    /// when the timer says so. The first is due at a multiple of the interval.
    pub open spec fn is_handled(self, interval: int) -> bool {
        &&& self.due.len() == self.arrivals.len() == self.nexts.len() == self.plans.len()
            == self.jumps.len()
        &&& self.due.len() > 0 ==> self.due[0] % interval == 0
        &&& forall|i: int| #![trigger self.nexts[i]]
            0 <= i < self.due.len() ==> follows(
                self.nexts[i],
                self.due[i],
                self.arrivals[i],
                interval,
            ) && self.plans[i].is_for(
                self.nexts[i].resynced,
                self.due[i],
                self.nexts[i].time as int,
                interval,
            )
        &&& forall|i: int| #![trigger self.due[i]]
            0 < i < self.due.len() ==> self.due[i] == self.nexts[i - 1].time
    }

    /// Whether ticks come less than an interval off, but for jumps of the clock by
    /// whole intervals. A tick after a jump comes no sooner than it is due on the
    /// clock as it then is. Going back a single interval shows only where the tick
    /// is not late at all.
    pub open spec fn is_on_time(self, interval: int) -> bool {
        forall|i: int| #![trigger self.jumps[i]]
            0 <= i < self.due.len() ==> {
                let off = self.arrivals[i] - self.due[i] - self.jumps[i];
                if self.jumps[i] == 0 {
                    -interval < off < interval
                } else {
                    &&& self.jumps[i] % interval == 0
                    &&& 0 <= off < interval
                    &&& self.jumps[i] == -interval ==> off == 0
                }
            }
    }
}

/// The ticks of a run are due at multiples of the interval, each an interval after
/// the stamp of the tick before it.
proof fn lemma_aligned(run: TickRun, interval: int, i: int)
    requires
        0 < interval,
        run.is_handled(interval),
        0 <= i < run.due.len(),
    ensures
        run.due[i] % interval == 0,
        run.plans[i].timestamp == run.nexts[i].time - interval,
    decreases i,
{
    assert(follows(run.nexts[i], run.due[i], run.arrivals[i], interval));
    if i > 0 {
        lemma_aligned(run, interval, i - 1);
        assert(run.due[i] == run.nexts[i - 1].time);
        law_ticks_stay_aligned(run.due[i - 1], run.arrivals[i - 1], interval, run.nexts[i - 1]);
        vstd::arithmetic::div_mod::lemma_mod_sub_multiples_vanish(run.due[i], interval);
    }
}

/// The stamps of a run of ticks keep their cadence across jumps of the wall clock:
/// each is one interval after the one before it, and where the clock has jumped by
/// whole intervals, by the jump more. Resamplers start anew where the clock has
/// jumped, one interval before the stamp, and nowhere else.
pub proof fn law_stamps_keep_their_cadence(run: TickRun, interval: int, i: int)
    requires
        0 < interval,
        run.is_handled(interval),
        run.is_on_time(interval),
        0 <= i < run.due.len(),
    ensures
        i > 0 ==> run.plans[i].timestamp == run.plans[i - 1].timestamp + run.jumps[i] + interval,
        i == 0 ==> run.plans[i].timestamp == run.due[0] + run.jumps[0],
        run.plans[i].timestamp as int % interval == 0,
        if run.jumps[i] == 0 {
            run.plans[i].rebuild_from is None
        } else {
            run.plans[i].rebuild_from matches Some(start) && start == run.plans[i].timestamp
                - interval
        },
{
    let jump = run.jumps[i];
    let due = run.due[i];
    lemma_aligned(run, interval, i);
    assert(follows(run.nexts[i], due, run.arrivals[i], interval));
    law_ticks_stay_aligned(due, run.arrivals[i], interval, run.nexts[i]);
    if i > 0 {
        lemma_aligned(run, interval, i - 1);
        assert(run.due[i] == run.nexts[i - 1].time);
    }
    if jump != 0 {
        let late = run.arrivals[i] - due - jump;
        vstd::arithmetic::div_mod::lemma_mod_sub_multiples_vanish(due, interval);
        let n = jump / interval;
        vstd::arithmetic::div_mod::lemma_fundamental_div_mod(jump, interval);
        assert(jump >= interval || jump <= -2 * interval || jump == -interval) by (nonlinear_arith)
            requires
                0 < interval,
                jump == interval * n,
                jump != 0,
        ;
        law_jump_moves_the_stamp(due - interval, jump, late, interval, run.nexts[i]);
    }
}

/// What is left of subscribers goes by its parts: of two lists of subscribers, one
/// after the other, what is left of the one comes before what is left of the
/// other. A subscriber alone stays where it is alive.
pub proof fn law_live_subscribers_stay(
    a: Seq<u64>,
    a_alive: Seq<bool>,
    b: Seq<u64>,
    b_alive: Seq<bool>,
    one: u64,
)
    requires
        a.len() == a_alive.len(),
        b.len() == b_alive.len(),
    ensures
        kept_sinks(a + b, a_alive + b_alive) == kept_sinks(a, a_alive) + kept_sinks(b, b_alive),
        kept_sinks(seq![one], seq![true]) == seq![one],
        kept_sinks(seq![one], seq![false]) == Seq::<u64>::empty(),
        kept_sinks(Seq::empty(), Seq::empty()) == Seq::<u64>::empty(),
    decreases b.len(),
{
    reveal_with_fuel(kept_sinks, 2);
    assert(seq![one].drop_last() =~= Seq::<u64>::empty());
    if b.len() == 0 {
        assert(a + b =~= a);
        assert(a_alive + b_alive =~= a_alive);
        assert(kept_sinks(a, a_alive) + kept_sinks(b, b_alive) =~= kept_sinks(a, a_alive));
    } else {
        let front = b.drop_last();
        let front_alive = b_alive.drop_last();
        law_live_subscribers_stay(a, a_alive, front, front_alive, one);
        assert((a + b).drop_last() =~= a + front);
        assert((a_alive + b_alive).take((a + front).len() as int) =~= a_alive + front_alive);
        assert((a_alive + front_alive).take((a + front).len() as int) =~= a_alive + front_alive);
        lemma_kept_prefix(a + front, a_alive + b_alive, a_alive + front_alive);
        lemma_kept_prefix(front, b_alive, front_alive);
        assert((a + b).last() == b.last());
        assert((a_alive + b_alive)[(a + b).len() - 1] == b_alive[b.len() - 1]);
        if b_alive[b.len() - 1] {
            assert(kept_sinks(a, a_alive) + kept_sinks(front, front_alive).push(b.last())
                =~= (kept_sinks(a, a_alive) + kept_sinks(front, front_alive)).push(b.last()));
        }
    }
}

/// Only as many flags as there are subscribers count.
proof fn lemma_kept_prefix(sinks: Seq<u64>, alive: Seq<bool>, other: Seq<bool>)
    requires
        sinks.len() <= alive.len(),
        sinks.len() <= other.len(),
        forall|j: int| 0 <= j < sinks.len() ==> #[trigger] alive[j] == other[j],
    ensures
        kept_sinks(sinks, alive) == kept_sinks(sinks, other),
    decreases sinks.len(),
{
    if sinks.len() > 0 {
        lemma_kept_prefix(sinks.drop_last(), alive, other);
        assert(alive[sinks.len() - 1] == other[sinks.len() - 1]);
    }
}

/// Somebody is left where somebody is alive, and there alone.
proof fn lemma_some_are_kept(sinks: Seq<u64>, alive: Seq<bool>)
    requires
        sinks.len() <= alive.len(),
    ensures
        kept_sinks(sinks, alive).len() > 0 <==> exists|j: int|
            0 <= j < sinks.len() && #[trigger] alive[j],
    decreases sinks.len(),
{
    if sinks.len() > 0 {
        let n = sinks.len() - 1;
        lemma_some_are_kept(sinks.drop_last(), alive);
        if kept_sinks(sinks.drop_last(), alive).len() > 0 {
            let j = choose|j: int| 0 <= j < n && #[trigger] alive[j];
            assert(alive[j]);
        }
        if alive[n] {
            assert(exists|j: int| 0 <= j < sinks.len() && #[trigger] alive[j]);
        }
        if exists|j: int| 0 <= j < sinks.len() && #[trigger] alive[j] {
            let j = choose|j: int| 0 <= j < sinks.len() && #[trigger] alive[j];
            if j < n {
                assert(alive[j]);
            }
        }
    }
}

/// The demand of a tick is what the formulas that still have a subscriber have
/// read: all of it, of every one of them, and nothing else.
pub proof fn law_demand_is_what_live_formulas_read(
    formulas: Seq<(Seq<char>, Seq<u64>)>,
    outcomes: Seq<FormulaOutcome>,
    key: Key,
)
    requires
        formulas.len() <= outcomes.len(),
        forall|i: int|
            0 <= i < formulas.len() ==> (#[trigger] outcomes[i]).alive@.len()
                == formulas[i].1.len(),
    ensures
        demand(formulas, outcomes).contains(key) <==> exists|i: int|
            0 <= i < formulas.len() && is_heard(#[trigger] outcomes[i])
                && outcomes[i].reads@.contains(key),
    decreases formulas.len(),
{
    if formulas.len() > 0 {
        let n = formulas.len() - 1;
        let front = formulas.drop_last();
        assert forall|i: int| 0 <= i < front.len() implies (#[trigger] outcomes[i]).alive@.len()
            == front[i].1.len() by {
            assert(front[i] == formulas[i]);
        }
        law_demand_is_what_live_formulas_read(front, outcomes, key);
        assert(outcomes[n].alive@.len() == formulas[n].1.len());
        lemma_some_are_kept(formulas[n].1, outcomes[n].alive@);
        assert(kept_sinks(formulas[n].1, outcomes[n].alive@).len() > 0 <==> is_heard(outcomes[n]));
        assert(outcomes[n].reads@.to_set().contains(key) == outcomes[n].reads@.contains(key));
        if demand(front, outcomes).contains(key) {
            let i = choose|i: int|
                0 <= i < front.len() && is_heard(#[trigger] outcomes[i])
                    && outcomes[i].reads@.contains(key);
            assert(is_heard(outcomes[i]));
        }
    }
}

/// What is left of formulas goes by its parts: of two lists of formulas, one after
/// the other, what is left of the one comes before what is left of the other. A
/// formula alone stays, with the subscribers that are alive, where one is.
pub proof fn law_live_formulas_stay(
    a: Seq<(Seq<char>, Seq<u64>)>,
    a_outcomes: Seq<FormulaOutcome>,
    b: Seq<(Seq<char>, Seq<u64>)>,
    b_outcomes: Seq<FormulaOutcome>,
    one: (Seq<char>, Seq<u64>),
    outcome: FormulaOutcome,
)
    requires
        a.len() == a_outcomes.len(),
        b.len() == b_outcomes.len(),
        one.1.len() == outcome.alive@.len(),
    ensures
        surviving(a + b, a_outcomes + b_outcomes) == surviving(a, a_outcomes) + surviving(
            b,
            b_outcomes,
        ),
        surviving(seq![one], seq![outcome]) == (if is_heard(outcome) {
            seq![(one.0, kept_sinks(one.1, outcome.alive@))]
        } else {
            Seq::empty()
        }),
        surviving(Seq::empty(), Seq::empty()) == Seq::<(Seq<char>, Seq<u64>)>::empty(),
    decreases b.len(),
{
    reveal_with_fuel(surviving, 2);
    assert(seq![one].drop_last() =~= Seq::<(Seq<char>, Seq<u64>)>::empty());
    lemma_some_are_kept(one.1, outcome.alive@);
    assert(surviving(seq![one], seq![outcome]) =~= (if is_heard(outcome) {
        seq![(one.0, kept_sinks(one.1, outcome.alive@))]
    } else {
        Seq::empty()
    }));
    if b.len() == 0 {
        assert(a + b =~= a);
        assert(a_outcomes + b_outcomes =~= a_outcomes);
        assert(surviving(a, a_outcomes) + surviving(b, b_outcomes) =~= surviving(a, a_outcomes));
    } else {
        let front = b.drop_last();
        let front_outcomes = b_outcomes.drop_last();
        law_live_formulas_stay(a, a_outcomes, front, front_outcomes, one, outcome);
        assert((a + b).drop_last() =~= a + front);
        lemma_surviving_prefix(a + front, a_outcomes + b_outcomes, a_outcomes + front_outcomes);
        lemma_surviving_prefix(front, b_outcomes, front_outcomes);
        let n = b.len() - 1;
        let m = (a + b).len() - 1;
        assert((a + b)[m] == b[n]);
        assert((a_outcomes + b_outcomes)[m] == b_outcomes[n]);
        let sinks = kept_sinks(b[n].1, b_outcomes[n].alive@);
        if sinks.len() > 0 {
            assert(surviving(a, a_outcomes) + surviving(front, front_outcomes).push(
                (b[n].0, sinks),
            ) =~= (surviving(a, a_outcomes) + surviving(front, front_outcomes)).push(
                (b[n].0, sinks),
            ));
        }
    }
}

/// Only as many outcomes as there are formulas count.
proof fn lemma_surviving_prefix(
    formulas: Seq<(Seq<char>, Seq<u64>)>,
    outcomes: Seq<FormulaOutcome>,
    other: Seq<FormulaOutcome>,
)
    requires
        formulas.len() <= outcomes.len(),
        formulas.len() <= other.len(),
        forall|j: int| 0 <= j < formulas.len() ==> #[trigger] outcomes[j] == other[j],
    ensures
        surviving(formulas, outcomes) == surviving(formulas, other),
    decreases formulas.len(),
{
    if formulas.len() > 0 {
        lemma_surviving_prefix(formulas.drop_last(), outcomes, other);
        assert(outcomes[formulas.len() - 1] == other[formulas.len() - 1]);
    }
}

/// A subscriber joins the formula with its text, and no other formula changes.
/// Where there is no such formula, one with that subscriber alone comes last.
pub proof fn law_a_subscriber_joins_its_formula(
    formulas: Seq<(Seq<char>, Seq<u64>)>,
    rendered: Seq<char>,
    sink: u64,
)
    requires
        distinct_texts(formulas),
    ensures
        ({
            let after = with_sink(formulas, rendered, sink);
            let known = exists|k: int| 0 <= k < formulas.len() && #[trigger] formulas[k].0 == rendered;
            &&& after.len() == formulas.len() + (if known {
                0int
            } else {
                1
            })
            &&& forall|k: int|
                0 <= k < formulas.len() ==> #[trigger] after[k] == (if formulas[k].0 == rendered {
                    (rendered, formulas[k].1.push(sink))
                } else {
                    formulas[k]
                })
            &&& !known ==> after.last() == (rendered, seq![sink])
        }),
{
    let after = with_sink(formulas, rendered, sink);
    if exists|k: int| 0 <= k < formulas.len() && #[trigger] formulas[k].0 == rendered {
        let at = choose|k: int| 0 <= k < formulas.len() && #[trigger] formulas[k].0 == rendered;
        assert forall|k: int| 0 <= k < at implies #[trigger] formulas[k].0 != rendered by {
            if formulas[k].0 == rendered {
                assert(formulas[k].0 == formulas[at].0);
            }
        }
        lemma_sink_added_at(formulas, rendered, sink, at);
        assert forall|k: int| 0 <= k < formulas.len() implies #[trigger] after[k] == (if formulas[k].0
            == rendered {
            (rendered, formulas[k].1.push(sink))
        } else {
            formulas[k]
        }) by {
            if formulas[k].0 == rendered {
                assert(formulas[k].0 == formulas[at].0);
            }
        }
    } else {
        assert(lacks(formulas, rendered, formulas.len() as int));
        lemma_sink_added_last(formulas, rendered, sink);
    }
}

/// Every key that was resampled has its one value in the tick, and no other key
/// has one.
pub proof fn law_every_key_has_its_value(results: Seq<(Key, Vec<Option<Single>>)>, key: Key)
    requires
        forall|i: int, j: int|
            0 <= i < results.len() && 0 <= j < results.len() && (#[trigger] results[i]).0 == (
            #[trigger] results[j]).0 ==> i == j,
    ensures
        taken(results).contains_key(key) <==> exists|i: int|
            0 <= i < results.len() && (#[trigger] results[i]).0 == key,
        forall|i: int|
            0 <= i < results.len() ==> taken(results).contains_key((#[trigger] results[i]).0)
                && taken(results)[results[i].0] == results[i].1@[0],
    decreases results.len(),
{
    if results.len() > 0 {
        let front = results.drop_last();
        assert forall|i: int, j: int|
            0 <= i < front.len() && 0 <= j < front.len() && (#[trigger] front[i]).0 == (
            #[trigger] front[j]).0 implies i == j by {
            assert(results[i].0 == results[j].0);
        }
        law_every_key_has_its_value(front, key);
        let n = results.len() - 1;
        assert forall|i: int| 0 <= i < results.len() implies taken(results).contains_key(
            (#[trigger] results[i]).0,
        ) && taken(results)[results[i].0] == results[i].1@[0] by {
            if i < n {
                assert(front[i] == results[i]);
                if results[i].0 == results[n].0 {
                    assert(i == n);
                }
            }
        }
        if taken(front).contains_key(key) {
            let i = choose|i: int| 0 <= i < front.len() && (#[trigger] front[i]).0 == key;
            assert(results[i].0 == key);
        }
        if exists|i: int| 0 <= i < results.len() && (#[trigger] results[i]).0 == key {
            let i = choose|i: int| 0 <= i < results.len() && (#[trigger] results[i]).0 == key;
            if i < n {
                assert(front[i].0 == key);
            }
        }
    }
}

/// What a tick makes of the subscriptions. A key that was read is subscribed to
/// and its count starts anew; one that was not keeps its subscription, counted
/// once more, until the count reaches the limit. No other is subscribed to. Whether
/// telemetry comes in does not change; it does not for a new subscription.
pub proof fn law_ticks_count_what_is_unread(
    before: Map<Key, ComponentSubscription>,
    used: Set<Key>,
    limit: u32,
    after: Map<Key, ComponentSubscription>,
    key: Key,
)
    requires
        reconciled(before, used, limit, after),
    ensures
        used.contains(key) ==> after.contains_key(key) && after[key].idle_ticks == 0
            && after[key].connected == (before.contains_key(key) && before[key].connected),
        !used.contains(key) && !before.contains_key(key) ==> !after.contains_key(key),
        !used.contains(key) && before.contains_key(key) && before[key].idle_ticks + 1 < limit
            ==> after.contains_key(key) && after[key].idle_ticks == before[key].idle_ticks + 1
            && after[key].connected == before[key].connected,
        !used.contains(key) && before.contains_key(key) && before[key].idle_ticks + 1 >= limit
            ==> !after.contains_key(key),
{
    assert(after.contains_key(key) == (if before.contains_key(key) {
        aged(before[key], used.contains(key), limit) is Some
    } else {
        used.contains(key)
    }));
}

/// The value that is pushed is that of the first sample of the key's metric, at
/// the time of that sample; nothing is pushed where it lacks one of them.
pub proof fn law_the_first_sample_is_pushed(key: Key, data: ElectricalComponentTelemetry, i: int)
    requires
        0 <= i < data.metric_samples@.len(),
        data.metric_samples@[i].metric == Coded::<Metric>::Known(key.metric),
        forall|j: int|
            0 <= j < i ==> (#[trigger] data.metric_samples@[j]).metric != Coded::<Metric>::Known(
                key.metric,
            ),
    ensures
        sample_at(key, data) matches Some((time, value)) ==> {
            &&& data.metric_samples@[i].sample_time matches Some(t) && t.seconds == time.seconds
                && t.nanos == time.nanos
            &&& carried(data.metric_samples@[i]) == Some(value)
        },
        sample_at(key, data) is Some <==> carried(data.metric_samples@[i]) is Some && (
        data.metric_samples@[i].sample_time matches Some(t) && is_time(
            t.seconds as int,
            t.nanos as int,
        )),
{
    law_first_sample_is_found(data.metric_samples@, key.metric, i);
}

/// Subscribers are sent the value where there is one, and nothing else.
pub proof fn law_only_known_values_are_sent(evaluation: Evaluation, value: Single)
    ensures
        sent_value(evaluation) == Some(value) <==> evaluation == Evaluation::Known(Some(value)),
{
}

/// Resampling a component gives a value where it gives just one.
pub proof fn law_one_value_is_taken(values: Seq<Option<Single>>)
    ensures
        one_value(values) is Ok <==> values.len() == 1,
        one_value(values) matches Ok(value) ==> values == seq![value],
{
    if values.len() == 1 {
        assert(values =~= seq![values[0]]);
    }
}

/// A formula is heard where its value could be sent to one of its subscribers.
pub proof fn law_one_live_subscriber_is_enough(outcome: FormulaOutcome)
    ensures
        is_heard(outcome) <==> outcome.alive@.contains(true),
{
}

/// A configuration can be used where its interval is positive and its maximum age
/// fits in 31 bits.
pub proof fn law_what_the_meter_can_use<F>(config: LogicalMeterConfig<F>)
    ensures
        config_fault(config) is None <==> delta_nanos(config.interval()) > 0 && config.max_age()
            <= 2_147_483_647,
{
}

/// A key that is subscribed to keeps its subscription; the subscription of any
/// other key is not connected yet, and has not gone unread.
pub proof fn law_subscriptions_are_kept_or_new(
    subscriptions: Map<Key, ComponentSubscription>,
    key: Key,
)
    ensures
        subscriptions.contains_key(key) ==> kept_or_fresh(subscriptions, key) == subscriptions[key],
        !subscriptions.contains_key(key) ==> !kept_or_fresh(subscriptions, key).connected
            && kept_or_fresh(subscriptions, key).idle_ticks == 0,
{
}

}
