//! Durations and points in time.

use std::time::Duration;

use chrono::{DateTime, TimeDelta};
use vstd::prelude::*;

use crate::client::proto::Timestamp;

verus! {

/// Nanoseconds in a second.
pub const NANOS_PER_SEC: u128 = 1_000_000_000;

/// A signed span of time, from chrono.
#[verifier::external_type_specification]
#[verifier::external_body]
pub struct ExTimeDelta(chrono::TimeDelta);

/// The length of a span in nanoseconds.
pub uninterp spec fn duration_nanos(duration: Duration) -> u128;

/// `Duration::as_nanos`: the total number of nanoseconds.
#[verifier::external_body]
pub(crate) fn as_nanos(duration: &Duration) -> (nanos: u128)
    ensures
        nanos == duration_nanos(*duration),
        nanos <= u64::MAX * NANOS_PER_SEC + 999_999_999,
{
    duration.as_nanos()
}

/// `Duration::from_secs`: the span of that many seconds.
#[verifier::external_body]
pub(crate) fn from_secs(secs: u64) -> (duration: Duration)
    ensures
        duration_nanos(duration) == secs * NANOS_PER_SEC,
{
    Duration::from_secs(secs)
}

/// The text that shows a span to a programmer.
pub uninterp spec fn duration_debug(duration: Duration) -> Seq<char>;

/// The `Debug` of `Duration`.
#[verifier::external_body]
pub(crate) fn duration_text(duration: &Duration) -> (text: String)
    ensures
        text@ == duration_debug(*duration),
{
    format!("{:?}", duration)
}

/// The whole seconds of a signed span, rounded toward zero.
pub uninterp spec fn delta_seconds(delta: TimeDelta) -> i64;

/// The nanoseconds of a signed span beyond its whole seconds.
pub uninterp spec fn delta_subsec_nanos(delta: TimeDelta) -> i32;

/// The text that shows a signed span to a programmer.
pub uninterp spec fn delta_debug(delta: TimeDelta) -> Seq<char>;

/// A signed span in nanoseconds.
pub open spec fn delta_nanos(delta: TimeDelta) -> int {
    delta_seconds(delta) * 1_000_000_000 + delta_subsec_nanos(delta)
}

/// `TimeDelta::num_seconds`: the whole seconds, rounded toward zero. They are
/// at most the seconds of `i64::MAX` milliseconds, with either sign.
#[verifier::external_body]
pub(crate) fn num_seconds(delta: &TimeDelta) -> (seconds: i64)
    ensures
        seconds == delta_seconds(*delta),
        -9_223_372_036_854_775 <= seconds <= 9_223_372_036_854_775,
{
    delta.num_seconds()
}

/// `TimeDelta::subsec_nanos`: the nanoseconds beyond the whole seconds, with
/// the sign of the span.
#[verifier::external_body]
pub(crate) fn subsec_nanos(delta: &TimeDelta) -> (nanos: i32)
    ensures
        nanos == delta_subsec_nanos(*delta),
        -1_000_000_000 < nanos < 1_000_000_000,
        delta_seconds(*delta) > 0 ==> nanos >= 0,
        delta_seconds(*delta) < 0 ==> nanos <= 0,
{
    delta.subsec_nanos()
}

/// The `Debug` of `TimeDelta`.
#[verifier::external_body]
pub(crate) fn debug_text(delta: &TimeDelta) -> (text: String)
    ensures
        text@ == delta_debug(*delta),
{
    format!("{:?}", delta)
}

/// The length of a signed span in nanoseconds.
pub fn total_nanos(delta: &TimeDelta) -> (nanos: i128)
    ensures
        nanos == delta_nanos(*delta),
        -9_223_372_036_854_775_999_999_999 <= nanos <= 9_223_372_036_854_775_999_999_999,
{
    num_seconds(delta) as i128 * 1_000_000_000 + subsec_nanos(delta) as i128
}

/// Whether there is a point in time with these seconds and nanoseconds since
/// the Unix epoch: the year is between -262143 and 262142, and the nanoseconds
/// are below one second, or below two in the last second of a minute.
pub open spec fn is_time(seconds: int, nanos: int) -> bool {
    &&& -8_334_601_228_800 <= seconds <= 8_210_266_876_799
    &&& 0 <= nanos < 2_000_000_000
    &&& nanos < 1_000_000_000 || seconds % 60 == 59
}

/// Calls `DateTime::from_timestamp` and takes the time apart again, by
/// `timestamp` and `timestamp_subsec_nanos`, which give back what went in.
#[verifier::external_body]
fn date_time(seconds: i64, nanos: u32) -> (r: Option<(i64, u32)>)
    ensures
        r == (if is_time(seconds as int, nanos as int) {
            Some((seconds, nanos))
        } else {
            None
        }),
{
    DateTime::from_timestamp(seconds, nanos).map(
        |time| (time.timestamp(), time.timestamp_subsec_nanos()),
    )
}

/// A point in time that a calendar can show, in seconds and nanoseconds since
/// the Unix epoch.
#[derive(Clone, Copy, Debug, PartialEq, Eq, Structural)]
pub struct UtcTime {
    pub seconds: i64,
    pub nanos: u32,
}

/// The point in time of `timestamp`, where there is one.
pub open spec fn utc_of(timestamp: Timestamp) -> Option<UtcTime> {
    if is_time(timestamp.seconds as int, timestamp.nanos as int) {
        Some(UtcTime { seconds: timestamp.seconds, nanos: timestamp.nanos as u32 })
    } else {
        None
    }
}

/// The point in time of `timestamp`, where there is one.
pub fn to_utc(timestamp: Timestamp) -> (r: Option<UtcTime>)
    ensures
        r == utc_of(timestamp),
{
    if timestamp.nanos < 0 {
        return None;
    }
    match date_time(timestamp.seconds, timestamp.nanos as u32) {
        Some((seconds, nanos)) => Some(UtcTime { seconds, nanos }),
        None => None,
    }
}

/// A signed span is its whole seconds and what is left of it.
pub proof fn law_spans_are_seconds_and_a_rest(delta: TimeDelta)
    ensures
        delta_nanos(delta) - delta_seconds(delta) * 1_000_000_000 == delta_subsec_nanos(delta),
{
}

/// A timestamp keeps its seconds and nanoseconds. Those of the years 1 to 9999 all
/// have a point in time where their nanoseconds are of one second, and none has
/// one whose nanoseconds are negative.
pub proof fn law_timestamps_keep_their_time(timestamp: Timestamp)
    ensures
        utc_of(timestamp) matches Some(time) ==> time.seconds == timestamp.seconds && time.nanos
            == timestamp.nanos,
        -62_135_596_800 <= timestamp.seconds <= 253_402_300_799 && 0 <= timestamp.nanos
            < 1_000_000_000 ==> utc_of(timestamp) is Some,
        timestamp.nanos < 0 ==> utc_of(timestamp) is None,
{
}

}
