//! When a timer that follows the wall clock ticks.

use vstd::prelude::*;

verus! {

/// What follows a tick.
#[derive(Clone, Copy, Debug, PartialEq, Eq, Structural)]
pub struct NextTick {
    /// Whether the wall clock jumped, and the ticks were aligned anew.
    pub resynced: bool,
    /// When the next tick is due, in nanoseconds since the Unix epoch.
    pub time: i128,
}

/// Whether `time` is the first multiple of `interval` that comes after `now`.
pub open spec fn is_first_after(time: int, now: int, interval: int) -> bool {
    &&& time % interval == 0
    &&& now < time <= now + interval
}

/// The first tick after `now`. Times are in nanoseconds since the Unix epoch,
/// and ticks are at the multiples of the interval.
pub fn first_tick_after(now: i128, interval: i128) -> (time: i128)
    requires
        0 < interval,
        i128::MIN + interval <= now <= i128::MAX - interval,
    ensures
        is_first_after(time as int, now as int, interval as int),
{
    let before: i128 = if now >= 0 {
        now % interval
    } else {
        let short: i128 = (-now) % interval;
        if short == 0 {
            0
        } else {
            interval - short
        }
    };
    proof {
        lemma_rest(now as int, before as int, interval as int);
    }
    now + (interval - before)
}

/// What is left of a number over a multiple leaves a multiple.
proof fn lemma_rest(now: int, before: int, interval: int)
    requires
        0 < interval,
        now >= 0 ==> before == now % interval,
        now < 0 ==> before == (if (-now) % interval == 0 {
            0
        } else {
            interval - (-now) % interval
        }),
    ensures
        0 <= before < interval,
        (now + (interval - before)) % interval == 0,
{
    let size = if now >= 0 {
        now
    } else {
        -now
    };
    let whole = size / interval;
    let up = if now >= 0 {
        whole + 1
    } else if size % interval == 0 {
        1 - whole
    } else {
        -whole
    };
    vstd::arithmetic::div_mod::lemma_fundamental_div_mod(size, interval);
    vstd::arithmetic::div_mod::lemma_mod_bound(size, interval);
    assert(now + (interval - before) == up * interval) by (nonlinear_arith)
        requires
            size == interval * whole + size % interval,
            now >= 0 ==> now == size && before == size % interval && up == whole + 1,
            now < 0 ==> now == -size && (if size % interval == 0 {
                before == 0 && up == 1 - whole
            } else {
                before == interval - size % interval && up == -whole
            }),
    ;
    vstd::arithmetic::div_mod::lemma_mod_multiples_basic(up, interval);
}

/// Whether `next` follows a tick that was due at `expected` and came at `now`: the
/// next tick is due an interval later, unless the wall clock is a whole interval
/// or more off.
pub open spec fn follows(next: NextTick, expected: int, now: int, interval: int) -> bool {
    &&& next.resynced == (now <= expected - interval || now >= expected + interval)
    &&& if next.resynced {
        is_first_after(next.time as int, now, interval)
    } else {
        next.time == expected + interval
    }
}

/// What follows a tick that was due at `expected` and came at `now`. A wall clock
/// that is a whole interval or more off has jumped.
pub fn next_tick(expected: i128, now: i128, interval: i128) -> (next: NextTick)
    requires
        0 < interval,
        i128::MIN / 2 + interval <= expected <= i128::MAX / 2 - interval,
        i128::MIN / 2 + interval <= now <= i128::MAX / 2 - interval,
    ensures
        follows(next, expected as int, now as int, interval as int),
        expected as int % interval as int == 0 ==> next.time as int % interval as int == 0,
{
    let drift = now - expected;
    if -interval < drift && drift < interval {
        proof {
            vstd::arithmetic::div_mod::lemma_mod_add_multiples_vanish(
                expected as int,
                interval as int,
            );
        }
        NextTick { resynced: false, time: expected + interval }
    } else {
        NextTick { resynced: true, time: first_tick_after(now, interval) }
    }
}

/// The cadence of the ticks survives any jump of the wall clock. A tick that was
/// due at `expected`, an aligned time, and came at `now` is stamped one interval
/// before the tick that follows it.
///
/// The stamp is aligned, and the tick came less than an interval off it. A clock
/// that has not jumped leaves the stamp at `expected`.
pub proof fn law_ticks_stay_aligned(expected: int, now: int, interval: int, next: NextTick)
    requires
        0 < interval,
        expected % interval == 0,
        follows(next, expected, now, interval),
    ensures
        (next.time - interval) % interval == 0,
        -interval < now - (next.time - interval) < interval,
        next.resynced ==> next.time - interval <= now,
        !next.resynced ==> next.time - interval == expected,
{
    vstd::arithmetic::div_mod::lemma_mod_sub_multiples_vanish(next.time as int, interval);
    vstd::arithmetic::div_mod::lemma_mod_add_multiples_vanish(expected, interval);
}

/// Whether ticks that come at `arrivals` are due at the times `due`, the first
/// time being that of the first tick.
pub open spec fn is_schedule(due: Seq<int>, arrivals: Seq<int>, interval: int) -> bool {
    &&& due.len() == arrivals.len() + 1
    &&& forall|i: int|
        0 <= i < arrivals.len() ==> exists|next: NextTick|
            next.time == #[trigger] due[i + 1] && #[trigger] follows(
                next,
                due[i],
                arrivals[i],
                interval,
            )
}

/// Without a jump every tick is due one interval after the one before it, however
/// late or early single ticks come.
pub proof fn law_ticks_are_an_interval_apart(
    due: Seq<int>,
    arrivals: Seq<int>,
    interval: int,
    n: int,
)
    requires
        0 < interval,
        is_schedule(due, arrivals, interval),
        forall|i: int| #![trigger arrivals[i]]
            0 <= i < arrivals.len() ==> -interval < arrivals[i] - due[i] < interval,
        0 <= n < due.len(),
    ensures
        due[n] == due[0] + n * interval,
    decreases n,
{
    if n > 0 {
        law_ticks_are_an_interval_apart(due, arrivals, interval, n - 1);
        let i = n - 1;
        let next = choose|next: NextTick|
            next.time == due[i + 1] && #[trigger] follows(next, due[i], arrivals[i], interval);
        assert(-interval < arrivals[i] - due[i] < interval);
        assert(due[n] == due[n - 1] + interval);
        assert((n - 1) * interval + interval == n * interval) by (nonlinear_arith);
    } else {
        assert(0 * interval == 0) by (nonlinear_arith);
    }
}

/// A tick that is due one interval after `last`, and comes less than an interval
/// late on a clock that is seen to have jumped by `jump`, is stamped at the last
/// aligned time that is not after `last + jump + interval + late`. Where the jump
/// is by whole intervals this is `last + jump + interval`.
pub proof fn law_jump_moves_the_stamp(
    last: int,
    jump: int,
    late: int,
    interval: int,
    next: NextTick,
)
    requires
        0 < interval,
        last % interval == 0,
        0 <= late < interval,
        follows(next, last + interval, last + interval + jump + late, interval),
        next.resynced,
    ensures
        (next.time - interval) % interval == 0,
        next.time - interval <= last + jump + interval + late < next.time,
        jump % interval == 0 ==> next.time - interval == last + jump + interval,
{
    vstd::arithmetic::div_mod::lemma_mod_sub_multiples_vanish(next.time as int, interval);
    if jump % interval == 0 {
        let time = next.time as int;
        let a = last / interval;
        let b = jump / interval;
        let c = time / interval;
        vstd::arithmetic::div_mod::lemma_fundamental_div_mod(last, interval);
        vstd::arithmetic::div_mod::lemma_fundamental_div_mod(jump, interval);
        vstd::arithmetic::div_mod::lemma_fundamental_div_mod(time, interval);
        assert(c == a + b + 2) by (nonlinear_arith)
            requires
                0 < interval,
                last == interval * a,
                jump == interval * b,
                time == interval * c,
                time > last + jump + interval,
                time < last + jump + 3 * interval,
        ;
        assert(time == last + jump + interval + interval) by (nonlinear_arith)
            requires
                last == interval * a,
                jump == interval * b,
                time == interval * c,
                c == a + b + 2,
        ;
    }
}

}
