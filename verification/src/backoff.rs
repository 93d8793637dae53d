//! Bounded exponential backoff with jitter for retry loops.
//!
//! - [`BackoffConfig`] is the validated configuration.
//! - [`Backoff::next_retry_time`] records a failure and returns the time at
//!   which the next attempt is due. The deadline is also stored on the
//!   [`Backoff`], to be polled with [`Backoff::take_due`].
//!
//! Times are nanoseconds since a start of the caller's choice. Scaling a delay
//! by a factor is left to the caller, who hands it in.

use std::time::Duration;

use vstd::arithmetic::power2::lemma2_to64;
use vstd::prelude::*;

use crate::logical_meter::exact::{
    law_bits_of_zero_and_one, law_order_is_that_of_the_numbers, number, two_to,
};
use crate::single::{Single, INFINITY_BITS, ONE_BITS};
use crate::time::{
    as_nanos, duration_debug, duration_nanos, duration_text, from_secs, NANOS_PER_SEC,
};

verus! {

/// The bits of 2.0.
pub const TWO_BITS: u32 = 0x4000_0000;

/// The bits of 0.25.
pub const QUARTER_BITS: u32 = 0x3e80_0000;

/// Why a [`BackoffConfig`] is invalid.
#[derive(Clone, Copy, Debug, PartialEq)]
pub enum BackoffConfigError {
    /// `multiplier` was less than 1 or not finite, which would shrink delays.
    InvalidMultiplier(Single),
    /// `jitter` was not between 0 and 1.
    InvalidJitter(Single),
    /// `initial` was greater than `max`.
    InitialExceedsMax { initial: Duration, max: Duration },
    /// `initial` or `max` was zero.
    ZeroDelay,
}

impl BackoffConfigError {
    /// Whether `text` is what is said of the error, where `render` writes
    /// numbers.
    pub open spec fn is_said<R: Fn(Single) -> String>(&self, render: R, text: Seq<char>) -> bool {
        match self {
            BackoffConfigError::InvalidMultiplier(m) => exists|number: String| #[trigger]
                call_ensures(render, (*m,), number) && text
                    == "multiplier must be >= 1.0 and finite, got "@ + number@,
            BackoffConfigError::InvalidJitter(j) => exists|number: String| #[trigger]
                call_ensures(render, (*j,), number) && text
                    == "jitter must be in [0.0, 1.0] and finite, got "@ + number@,
            BackoffConfigError::InitialExceedsMax { initial, max } => text == "initial ("@
                + duration_debug(*initial) + ") exceeds max ("@ + duration_debug(*max) + ")"@,
            BackoffConfigError::ZeroDelay => text == "initial and max must be > 0"@,
        }
    }

    /// What is said of the error. `render` writes numbers.
    pub fn to_text<R: Fn(Single) -> String>(&self, render: &R) -> (text: String)
        requires
            forall|number: Single| #[trigger] call_requires(*render, (number,)),
        ensures
            self.is_said(*render, text@),
    {
        match self {
            BackoffConfigError::InvalidMultiplier(m) => {
                let mut text = String::from_str("multiplier must be >= 1.0 and finite, got ");
                let number = render(*m);
                text.append(number.as_str());
                assert(call_ensures(*render, (*m,), number));
                text
            },
            BackoffConfigError::InvalidJitter(j) => {
                let mut text = String::from_str("jitter must be in [0.0, 1.0] and finite, got ");
                let number = render(*j);
                text.append(number.as_str());
                assert(call_ensures(*render, (*j,), number));
                text
            },
            BackoffConfigError::InitialExceedsMax { initial, max } => {
                let mut text = String::from_str("initial (");
                text.append(duration_text(initial).as_str());
                text.append(") exceeds max (");
                text.append(duration_text(max).as_str());
                text.append(")");
                text
            },
            BackoffConfigError::ZeroDelay => String::from_str("initial and max must be > 0"),
        }
    }
}

/// Configuration for [`Backoff`].
#[derive(Clone, Copy, Debug, PartialEq)]
pub struct BackoffConfig {
    initial: Duration,
    max: Duration,
    multiplier: Single,
    jitter: Single,
}

/// Whether a delay may be multiplied by `multiplier`: it is finite and at
/// least 1.
pub open spec fn is_multiplier(multiplier: Single) -> bool {
    ONE_BITS <= multiplier.bits < INFINITY_BITS
}

/// Whether `jitter` is a number between 0 and 1.
pub open spec fn is_jitter(jitter: Single) -> bool {
    0 <= jitter.rank() <= ONE_BITS
}

/// What is wrong with a configuration, if anything: the first of these that
/// holds.
pub open spec fn config_fault(
    initial: Duration,
    max: Duration,
    multiplier: Single,
    jitter: Single,
) -> Option<BackoffConfigError> {
    if duration_nanos(initial) == 0 || duration_nanos(max) == 0 {
        Some(BackoffConfigError::ZeroDelay)
    } else if duration_nanos(initial) > duration_nanos(max) {
        Some(BackoffConfigError::InitialExceedsMax { initial, max })
    } else if !is_multiplier(multiplier) {
        Some(BackoffConfigError::InvalidMultiplier(multiplier))
    } else if !is_jitter(jitter) {
        Some(BackoffConfigError::InvalidJitter(jitter))
    } else {
        None
    }
}

impl BackoffConfig {
    /// The first delay.
    pub closed spec fn spec_initial(&self) -> Duration {
        self.initial
    }

    /// The longest delay.
    pub closed spec fn spec_max(&self) -> Duration {
        self.max
    }

    /// The factor between one delay and the next.
    pub closed spec fn spec_multiplier(&self) -> Single {
        self.multiplier
    }

    /// The share by which a delay may be shortened or lengthened.
    pub closed spec fn spec_jitter(&self) -> Single {
        self.jitter
    }

    /// Whether the configuration can be used.
    pub open spec fn valid(&self) -> bool {
        &&& 0 < duration_nanos(self.spec_initial()) <= duration_nanos(self.spec_max())
        &&& is_multiplier(self.spec_multiplier())
        &&& is_jitter(self.spec_jitter())
    }

    /// Returns a validated `BackoffConfig`.
    ///
    /// - `initial` and `max` must not be zero, and `initial` at most `max`.
    /// - `multiplier` must be finite and at least 1.
    /// - `jitter` must be between 0 and 1.
    pub fn try_new(initial: Duration, max: Duration, multiplier: Single, jitter: Single) -> (r:
        Result<Self, BackoffConfigError>)
        ensures
            r is Err <==> config_fault(initial, max, multiplier, jitter) is Some,
            r matches Err(fault) ==> config_fault(initial, max, multiplier, jitter) == Some(fault),
            r matches Ok(config) ==> config.valid() && config.spec_initial() == initial
                && config.spec_max() == max && config.spec_multiplier() == multiplier
                && config.spec_jitter() == jitter,
    {
        let initial_nanos = as_nanos(&initial);
        let max_nanos = as_nanos(&max);
        if initial_nanos == 0 || max_nanos == 0 {
            return Err(BackoffConfigError::ZeroDelay);
        }
        if initial_nanos > max_nanos {
            return Err(BackoffConfigError::InitialExceedsMax { initial, max });
        }
        let zero = Single::from_bits(0);
        let one = Single::from_bits(ONE_BITS);
        if !multiplier.is_finite() || multiplier.lt(one) {
            return Err(BackoffConfigError::InvalidMultiplier(multiplier));
        }
        if !zero.le(jitter) || !jitter.le(one) {
            return Err(BackoffConfigError::InvalidJitter(jitter));
        }
        Ok(BackoffConfig { initial, max, multiplier, jitter })
    }

    /// The first delay.
    pub fn initial(&self) -> (r: Duration)
        ensures
            r == self.spec_initial(),
    {
        self.initial
    }

    /// The longest delay.
    pub fn max(&self) -> (r: Duration)
        ensures
            r == self.spec_max(),
    {
        self.max
    }

    /// The factor between one delay and the next.
    pub fn multiplier(&self) -> (r: Single)
        ensures
            r == self.spec_multiplier(),
    {
        self.multiplier
    }

    /// The share by which a delay may be shortened or lengthened.
    pub fn jitter(&self) -> (r: Single)
        ensures
            r == self.spec_jitter(),
    {
        self.jitter
    }
}

impl Default for BackoffConfig {
    /// One second at first, 30 seconds at most, twice as long each time, give
    /// or take a quarter.
    fn default() -> (r: Self)
        ensures
            r.valid(),
            duration_nanos(r.spec_initial()) == NANOS_PER_SEC,
            duration_nanos(r.spec_max()) == 30 * NANOS_PER_SEC,
            r.spec_multiplier().bits == TWO_BITS,
            r.spec_jitter().bits == QUARTER_BITS,
    {
        BackoffConfig {
            initial: from_secs(1),
            max: from_secs(30),
            multiplier: Single::from_bits(TWO_BITS),
            jitter: Single::from_bits(QUARTER_BITS),
        }
    }
}

/// The shorter of two delays; the first where they are equally long.
pub open spec fn shorter(a: Duration, b: Duration) -> Duration {
    if duration_nanos(b) < duration_nanos(a) {
        b
    } else {
        a
    }
}

/// A bounded exponential backoff with jitter.
///
/// - On failure, call [`Self::next_retry_time`] to record the failure and get
///   the time at which the next attempt is due.
/// - On each timer tick, call [`Self::take_due`] to check whether the pending
///   retry is due and consume it.
/// - On success, drop the [`Backoff`], or call [`Self::reset`] to reuse it.
#[derive(Clone, Copy, Debug)]
pub struct Backoff {
    config: BackoffConfig,
    current_delay: Option<Duration>,
    deadline: Option<u128>,
}

impl Backoff {
    /// The configuration.
    pub closed spec fn spec_config(&self) -> BackoffConfig {
        self.config
    }

    /// The delay of the last failure, before jitter.
    pub closed spec fn spec_current_delay(&self) -> Option<Duration> {
        self.current_delay
    }

    /// When the pending retry is due, if one is pending.
    pub closed spec fn spec_deadline(&self) -> Option<u128> {
        self.deadline
    }

    /// A backoff that has seen no failure.
    pub fn new(config: BackoffConfig) -> (r: Self)
        ensures
            r.spec_config() == config,
            r.spec_current_delay() is None,
            r.spec_deadline() is None,
    {
        Backoff { config, current_delay: None, deadline: None }
    }

    /// Whether `delay` can follow the delays so far: the first is the initial
    /// delay, and every other one is the last, scaled, but no longer than the
    /// longest.
    pub open spec fn follows<F: Fn(Duration) -> Duration>(&self, scale: F, delay: Duration) -> bool {
        match self.spec_current_delay() {
            None => delay == self.spec_config().spec_initial(),
            Some(last) => exists|scaled: Duration| #[trigger]
                call_ensures(scale, (last,), scaled) && delay == shorter(
                    scaled,
                    self.spec_config().spec_max(),
                ),
        }
    }

    /// Whether `after` is what a failure at `now` makes of this, and `when` the
    /// time of the next attempt.
    pub open spec fn fails<F: Fn(Duration) -> Duration, G: Fn(Duration) -> Duration>(
        &self,
        after: Self,
        now: u128,
        when: u128,
        scale: F,
        vary: G,
    ) -> bool {
        &&& after.spec_config() == self.spec_config()
        &&& after.spec_deadline() == Some(when)
        &&& after.spec_current_delay() matches Some(delay) && self.follows(scale, delay)
            && exists|varied: Duration| #[trigger]
            call_ensures(vary, (delay,), varied) && when == now + duration_nanos(varied)
    }

    /// Whether `after` is what asking for a due retry at `now` makes of this.
    pub open spec fn polls(&self, after: Self, now: u128) -> bool {
        &&& after.spec_deadline() == (if self.due(now) {
            None
        } else {
            self.spec_deadline()
        })
        &&& after.spec_config() == self.spec_config()
        &&& after.spec_current_delay() == self.spec_current_delay()
    }

    /// Whether `after` is what a reset makes of this.
    pub open spec fn resets(&self, after: Self) -> bool {
        &&& after.spec_deadline() is None
        &&& after.spec_current_delay() is None
        &&& after.spec_config() == self.spec_config()
    }

    /// Records a failure and returns the time at which the next attempt is
    /// due.
    ///
    /// `scale` multiplies a delay by the configured multiplier, `vary` by a
    /// random factor within the configured jitter.
    pub fn next_retry_time<F: Fn(Duration) -> Duration, G: Fn(Duration) -> Duration>(
        &mut self,
        now: u128,
        scale: F,
        vary: G,
    ) -> (when: u128)
        requires
            now <= u64::MAX * NANOS_PER_SEC,
            forall|d: Duration| #[trigger] call_requires(scale, (d,)),
            forall|d: Duration| #[trigger] call_requires(vary, (d,)),
        ensures
            old(self).fails(*final(self), now, when, scale, vary),
    {
        let nominal = match self.current_delay {
            None => self.config.initial,
            Some(last) => {
                let scaled = scale(last);
                if as_nanos(&self.config.max) < as_nanos(&scaled) {
                    self.config.max
                } else {
                    scaled
                }
            },
        };
        self.current_delay = Some(nominal);
        let varied = vary(nominal);
        let when = now + as_nanos(&varied);
        self.deadline = Some(when);
        when
    }

    /// When the pending retry is due, or `None` if no retry is pending: no
    /// failure was recorded, or the pending retry was already consumed by
    /// [`Self::take_due`].
    pub fn deadline(&self) -> (r: Option<u128>)
        ensures
            r == self.spec_deadline(),
    {
        self.deadline
    }

    /// Whether the pending retry is due at or before `now`.
    pub open spec fn due(&self, now: u128) -> bool {
        self.spec_deadline() matches Some(when) && when <= now
    }

    /// If the pending retry is due at or before `now`, consumes it and returns
    /// `true`.
    pub fn take_due(&mut self, now: u128) -> (r: bool)
        ensures
            r == old(self).due(now),
            old(self).polls(*final(self), now),
    {
        match self.deadline {
            Some(when) => {
                if when <= now {
                    self.deadline = None;
                    true
                } else {
                    false
                }
            },
            None => false,
        }
    }

    /// Clears any pending retry and resets the schedule: the next delay is the
    /// initial one.
    pub fn reset(&mut self)
        ensures
            old(self).resets(*final(self)),
    {
        self.current_delay = None;
        self.deadline = None;
    }

    /// Whether the delay of the last failure is within the configured range.
    pub open spec fn in_range(&self) -> bool {
        &&& self.spec_config().valid()
        &&& self.spec_current_delay() matches Some(delay) ==> duration_nanos(
            self.spec_config().spec_initial(),
        ) <= duration_nanos(delay) <= duration_nanos(self.spec_config().spec_max())
    }
}

/// A configuration that can be used is accepted, and only such a one is.
pub proof fn law_valid_configurations_are_accepted(config: BackoffConfig)
    ensures
        config.valid() <==> config_fault(
            config.spec_initial(),
            config.spec_max(),
            config.spec_multiplier(),
            config.spec_jitter(),
        ) is None,
{
}

/// Delays before jitter are bounded and never shrink: where scaling does not
/// shorten a delay, the next one is at least as long as the last, and between
/// the initial and the longest.
pub proof fn law_delays_grow_within_bounds<F: Fn(Duration) -> Duration>(
    backoff: Backoff,
    scale: F,
    delay: Duration,
)
    requires
        backoff.in_range(),
        backoff.follows(scale, delay),
        forall|d: Duration, scaled: Duration| #[trigger]
            call_ensures(scale, (d,), scaled) ==> duration_nanos(d) <= duration_nanos(scaled),
    ensures
        duration_nanos(backoff.spec_config().spec_initial()) <= duration_nanos(delay)
            <= duration_nanos(backoff.spec_config().spec_max()),
        backoff.spec_current_delay() matches Some(last) ==> duration_nanos(last) <= duration_nanos(
            delay,
        ),
{
}

/// Whether `vary` keeps every delay between what `low` and `high` make of it.
pub open spec fn varies_within<G: Fn(Duration) -> Duration>(
    vary: G,
    low: spec_fn(int) -> int,
    high: spec_fn(int) -> int,
) -> bool {
    forall|d: Duration, varied: Duration| #[trigger]
        call_ensures(vary, (d,), varied) ==> low(duration_nanos(d) as int) <= duration_nanos(
            varied,
        ) <= high(duration_nanos(d) as int)
}

/// Deadlines stay in the band of the jitter: where `vary` keeps delays between
/// `low` and `high`, and both grow with the delay, a retry comes no sooner than
/// the shortest initial delay and no later than the longest of all.
pub proof fn law_deadlines_stay_in_the_band<
    F: Fn(Duration) -> Duration,
    G: Fn(Duration) -> Duration,
>(
    backoff: Backoff,
    scale: F,
    vary: G,
    low: spec_fn(int) -> int,
    high: spec_fn(int) -> int,
    delay: Duration,
    varied: Duration,
    now: int,
)
    requires
        backoff.in_range(),
        backoff.follows(scale, delay),
        forall|d: Duration, scaled: Duration| #[trigger]
            call_ensures(scale, (d,), scaled) ==> duration_nanos(d) <= duration_nanos(scaled),
        varies_within(vary, low, high),
        forall|a: int, b: int| a <= b ==> #[trigger] low(a) <= #[trigger] low(b),
        forall|a: int, b: int| a <= b ==> #[trigger] high(a) <= #[trigger] high(b),
        call_ensures(vary, (delay,), varied),
    ensures
        now + low(duration_nanos(delay) as int) <= now + duration_nanos(varied) <= now + high(
            duration_nanos(delay) as int,
        ),
        now + low(duration_nanos(backoff.spec_config().spec_initial()) as int) <= now
            + duration_nanos(varied) <= now + high(
            duration_nanos(backoff.spec_config().spec_max()) as int,
        ),
{
    law_delays_grow_within_bounds(backoff, scale, delay);
}

/// What happens to a backoff.
pub enum BackoffStep {
    /// A failure at `now`; the next attempt is due at `when`.
    Failed { now: u128, when: u128 },
    /// At `now` it was asked whether a retry is due.
    Polled { now: u128 },
    /// The schedule was reset.
    Reset,
}

/// Whether a step takes a backoff from one state to the next.
pub open spec fn steps_to<F: Fn(Duration) -> Duration, G: Fn(Duration) -> Duration>(
    before: Backoff,
    step: BackoffStep,
    after: Backoff,
    scale: F,
    vary: G,
) -> bool {
    match step {
        BackoffStep::Failed { now, when } => before.fails(after, now, when, scale, vary),
        BackoffStep::Polled { now } => before.polls(after, now),
        BackoffStep::Reset => before.resets(after),
    }
}

/// Whether the steps take a new backoff from each of the states to the next.
pub open spec fn is_run<F: Fn(Duration) -> Duration, G: Fn(Duration) -> Duration>(
    states: Seq<Backoff>,
    steps: Seq<BackoffStep>,
    scale: F,
    vary: G,
) -> bool {
    &&& states.len() == steps.len() + 1
    &&& states[0].spec_current_delay() is None
    &&& forall|i: int|
        0 <= i < steps.len() ==> steps_to(states[i], #[trigger] steps[i], states[i + 1], scale, vary)
}

/// How many failures there were since the start or the last reset. Asking whether
/// a retry is due does not count.
pub open spec fn failures(steps: Seq<BackoffStep>) -> nat
    decreases steps.len(),
{
    if steps.len() == 0 {
        0
    } else {
        match steps.last() {
            BackoffStep::Failed { .. } => failures(steps.drop_last()) + 1,
            BackoffStep::Polled { .. } => failures(steps.drop_last()),
            BackoffStep::Reset => 0,
        }
    }
}

/// The delay of the `n`-th failure, before jitter: the first is the initial one,
/// and every other is what `scaled` makes of the one before, but no longer than
/// the longest.
pub open spec fn nominal(
    config: BackoffConfig,
    scaled: spec_fn(Duration) -> Duration,
    n: nat,
) -> Duration
    decreases n,
{
    if n <= 1 {
        config.spec_initial()
    } else {
        shorter(scaled(nominal(config, scaled, (n - 1) as nat)), config.spec_max())
    }
}

/// After `i` steps a backoff holds the delay of the last failure, if there was one.
proof fn lemma_delay_after<F: Fn(Duration) -> Duration, G: Fn(Duration) -> Duration>(
    states: Seq<Backoff>,
    steps: Seq<BackoffStep>,
    scale: F,
    vary: G,
    scaled: spec_fn(Duration) -> Duration,
    i: int,
)
    requires
        is_run(states, steps, scale, vary),
        forall|d: Duration, r: Duration| #[trigger]
            call_ensures(scale, (d,), r) ==> r == scaled(d),
        0 <= i <= steps.len(),
    ensures
        states[i].spec_config() == states[0].spec_config(),
        states[i].spec_current_delay() == (if failures(steps.take(i)) == 0 {
            None
        } else {
            Some(nominal(states[0].spec_config(), scaled, failures(steps.take(i))))
        }),
    decreases i,
{
    if i > 0 {
        lemma_delay_after(states, steps, scale, vary, scaled, i - 1);
        assert(steps.take(i).drop_last() =~= steps.take(i - 1));
        assert(steps.take(i).last() == steps[i - 1]);
        assert(steps_to(states[i - 1], steps[i - 1], states[i], scale, vary));
    }
}

/// The delays of a backoff over any number of failures: the `n`-th failure since
/// the start or the last reset is followed by the initial delay, scaled `n - 1`
/// times and capped at the longest, and the next attempt is due within the band
/// of the jitter round that delay.
///
/// `scaled` is what scaling gives, `low` and `high` the ends of the band. Asking
/// for due retries in between changes nothing.
pub proof fn law_delays_of_repeated_failures<
    F: Fn(Duration) -> Duration,
    G: Fn(Duration) -> Duration,
>(
    states: Seq<Backoff>,
    steps: Seq<BackoffStep>,
    scale: F,
    vary: G,
    scaled: spec_fn(Duration) -> Duration,
    low: spec_fn(int) -> int,
    high: spec_fn(int) -> int,
    i: int,
)
    requires
        is_run(states, steps, scale, vary),
        forall|d: Duration, r: Duration| #[trigger]
            call_ensures(scale, (d,), r) ==> r == scaled(d),
        varies_within(vary, low, high),
        0 <= i < steps.len(),
    ensures
        steps[i] matches BackoffStep::Failed { now, when } ==> ({
            let delay = nominal(states[0].spec_config(), scaled, failures(steps.take(i + 1)));
            &&& failures(steps.take(i + 1)) == failures(steps.take(i)) + 1
            &&& states[i + 1].spec_current_delay() == Some(delay)
            &&& states[i + 1].spec_deadline() == Some(when)
            &&& now + low(duration_nanos(delay) as int) <= when <= now + high(
                duration_nanos(delay) as int,
            )
        }),
        steps[i] is Polled ==> failures(steps.take(i + 1)) == failures(steps.take(i)),
{
    lemma_delay_after(states, steps, scale, vary, scaled, i + 1);
    assert(steps.take(i + 1).drop_last() =~= steps.take(i));
    assert(steps.take(i + 1).last() == steps[i]);
    assert(steps_to(states[i], steps[i], states[i + 1], scale, vary));
}

/// Every delay before jitter is between the initial one and the longest, where
/// scaling does not shorten a delay.
pub proof fn law_every_delay_is_within_bounds(
    config: BackoffConfig,
    scaled: spec_fn(Duration) -> Duration,
    n: nat,
)
    requires
        config.valid(),
        forall|d: Duration| duration_nanos(d) <= duration_nanos(#[trigger] scaled(d)),
    ensures
        duration_nanos(config.spec_initial()) <= duration_nanos(nominal(config, scaled, n))
            <= duration_nanos(config.spec_max()),
        duration_nanos(nominal(config, scaled, n)) <= duration_nanos(
            nominal(config, scaled, n + 1),
        ),
    decreases n,
{
    if n > 1 {
        law_every_delay_is_within_bounds(config, scaled, (n - 1) as nat);
    }
}

/// A configuration is refused exactly where a delay is zero, the first delay is
/// longer than the longest, the multiplier is below one, or the jitter is not
/// between zero and one; a multiplier or jitter that is not finite is refused too.
pub proof fn law_what_can_be_configured(
    initial: Duration,
    max: Duration,
    multiplier: Single,
    jitter: Single,
)
    ensures
        config_fault(initial, max, multiplier, jitter) is None <==> {
            &&& 0 < duration_nanos(initial) <= duration_nanos(max)
            &&& number(multiplier) matches Some(m) && m >= 1 as real
            &&& number(jitter) matches Some(j) && 0 as real <= j <= 1 as real
        },
{
    let one = Single { bits: ONE_BITS };
    let zero = Single { bits: 0 };
    law_bits_of_zero_and_one();
    if number(multiplier) is Some {
        law_order_is_that_of_the_numbers(one, multiplier);
    }
    if number(jitter) is Some {
        law_order_is_that_of_the_numbers(zero, jitter);
        law_order_is_that_of_the_numbers(jitter, one);
    }
}

/// Of several faults the first is told: a delay that is zero before delays that are
/// the wrong way round, these before the multiplier, and the multiplier before the
/// jitter.
pub proof fn law_the_first_fault_is_told(
    initial: Duration,
    max: Duration,
    multiplier: Single,
    jitter: Single,
)
    ensures
        ({
            let fault = config_fault(initial, max, multiplier, jitter);
            let zero = duration_nanos(initial) == 0 || duration_nanos(max) == 0;
            let reversed = duration_nanos(initial) > duration_nanos(max);
            let grows = number(multiplier) matches Some(m) && m >= 1 as real;
            let varies = number(jitter) matches Some(j) && 0 as real <= j <= 1 as real;
            &&& zero ==> fault == Some(BackoffConfigError::ZeroDelay)
            &&& !zero && reversed ==> fault == Some(
                BackoffConfigError::InitialExceedsMax { initial, max },
            )
            &&& !zero && !reversed && !grows ==> fault == Some(
                BackoffConfigError::InvalidMultiplier(multiplier),
            )
            &&& !zero && !reversed && grows && !varies ==> fault == Some(
                BackoffConfigError::InvalidJitter(jitter),
            )
        }),
{
    let one = Single { bits: ONE_BITS };
    let zero = Single { bits: 0 };
    law_bits_of_zero_and_one();
    if number(multiplier) is Some {
        law_order_is_that_of_the_numbers(one, multiplier);
    }
    if number(jitter) is Some {
        law_order_is_that_of_the_numbers(zero, jitter);
        law_order_is_that_of_the_numbers(jitter, one);
    }
}

/// The multiplier that is used where none is given is two, and the jitter a
/// quarter.
pub proof fn law_bits_of_two_and_a_quarter()
    ensures
        number(Single { bits: TWO_BITS }) == Some(2 as real),
        number(Single { bits: QUARTER_BITS }) == Some((1 as real) / (4 as real)),
{
    lemma2_to64();
    assert(two_to(-22) == (1 as real) / (0x40_0000 as real));
    assert((0x80_0000 as real) * ((1 as real) / (0x40_0000 as real)) == 2 as real);
    assert(two_to(-25) == (1 as real) / (0x200_0000 as real));
    assert((0x80_0000 as real) * ((1 as real) / (0x200_0000 as real)) == (1 as real) / (4 as real));
}

/// The first delay is the initial one, and each other is the one before it,
/// scaled, or the longest where that would be longer.
pub proof fn law_delays_are_scaled_up_to_the_longest(
    config: BackoffConfig,
    scaled: spec_fn(Duration) -> Duration,
    n: nat,
)
    requires
        n >= 1,
    ensures
        nominal(config, scaled, 1) == config.spec_initial(),
        ({
            let next = nominal(config, scaled, n + 1);
            let more = scaled(nominal(config, scaled, n));
            &&& duration_nanos(more) <= duration_nanos(config.spec_max()) ==> next == more
            &&& duration_nanos(more) > duration_nanos(config.spec_max()) ==> next
                == config.spec_max()
        }),
{
}

/// A retry is due from its deadline on, and only where one is pending. It is
/// handed out once: after that nothing is due until the next failure.
pub proof fn law_a_retry_is_due_once(backoff: Backoff, after: Backoff, now: u128, later: u128)
    requires
        backoff.polls(after, now),
        now <= later,
    ensures
        backoff.due(now) <==> (backoff.spec_deadline() matches Some(when) && when <= now),
        backoff.due(now) ==> backoff.due(later) && !after.due(later),
        !backoff.due(now) ==> after.due(later) == backoff.due(later),
{
}

/// After a reset nothing is due, and the next failure has the initial delay again.
pub proof fn law_a_reset_starts_over<F: Fn(Duration) -> Duration>(
    backoff: Backoff,
    after: Backoff,
    scale: F,
    delay: Duration,
    now: u128,
)
    requires
        backoff.resets(after),
    ensures
        !after.due(now),
        after.follows(scale, delay) <==> delay == backoff.spec_config().spec_initial(),
{
}

}
