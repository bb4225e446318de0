//! Reading the time and waiting for an instant.

use vstd::prelude::*;

verus! {

/// Reads the time and waits. The only way to real time.
pub trait Clock {
    /// The time now, in milliseconds since the epoch.
    fn now_ms(&self) -> i64;

    /// Blocks until `deadline_ms`; returns at once where that has passed.
    fn sleep_until(&self, deadline_ms: i64);
}

/// `v`, brought within the range of an instant.
pub open spec fn clamped(v: int) -> int {
    if v > i64::MAX {
        i64::MAX as int
    } else if v < i64::MIN {
        i64::MIN as int
    } else {
        v
    }
}

/// The instant `ms` milliseconds after `t`, at most the last instant there is and at least the first.
pub fn later(t: i64, ms: i64) -> (r: i64)
    ensures
        r == clamped(t + ms),
{
    let sum: i128 = t as i128 + ms as i128;
    if sum > i64::MAX as i128 {
        i64::MAX
    } else if sum < i64::MIN as i128 {
        i64::MIN
    } else {
        sum as i64
    }
}

/// The instant a count of milliseconds after the epoch, at most the last instant there is.
pub fn instant_of(millis: u128) -> (r: i64)
    ensures
        r == clamped(millis as int),
{
    if millis > i64::MAX as u128 {
        i64::MAX
    } else {
        millis as i64
    }
}

/// How long to sleep at `now_ms` to reach `deadline_ms`; zero where that has passed.
pub fn wait_ms(deadline_ms: i64, now_ms: i64) -> (r: u64)
    ensures
        r == (if deadline_ms > now_ms {
            deadline_ms - now_ms
        } else {
            0
        }),
{
    if deadline_ms > now_ms {
        (deadline_ms as i128 - now_ms as i128) as u64
    } else {
        0
    }
}

/// An instant out of range is brought to the nearer end of the range, and any other left alone.
pub proof fn law_instants_are_clamped(v: int)
    ensures
        i64::MIN <= clamped(v) <= i64::MAX,
        i64::MIN <= v <= i64::MAX ==> clamped(v) == v,
        v > i64::MAX ==> clamped(v) == i64::MAX,
        v < i64::MIN ==> clamped(v) == i64::MIN,
{
}

} // verus!
