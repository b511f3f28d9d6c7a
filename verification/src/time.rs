//! Timestamps for snapshots and alerts, held as seconds since the Unix epoch.

use vstd::prelude::*;

verus! {

/// A point in time, in whole seconds since the Unix epoch.
#[derive(Debug, Clone, Copy, PartialEq, Eq, Structural)]
pub struct TimeStamp {
    pub secs: i64,
}

impl TimeStamp {
    /// A timestamp at the given number of seconds since the epoch.
    pub fn new(secs: i64) -> (r: TimeStamp)
        ensures
            r.secs == secs,
    {
        TimeStamp { secs }
    }

    /// The current UTC time. The value depends on the system clock, so
    /// nothing is promised of it.
    pub fn now() -> TimeStamp {
        TimeStamp { secs: now_secs() }
    }

    /// The inner seconds-since-epoch value.
    pub fn inner(&self) -> (r: i64)
        ensures
            r == self.secs,
    {
        self.secs
    }

}

/// Relies on chrono's `Utc::now` to read the system clock; the result
/// depends on the clock, so nothing is promised of it.
#[verifier::external_body]
fn now_secs() -> i64 {
    chrono::Utc::now().timestamp()
}

/// Whole seconds from `earlier` to `later`: zero when `later` is not after
/// `earlier`, and capped at `i64::MAX` when the true difference does not fit.
pub fn seconds_between(later: TimeStamp, earlier: TimeStamp) -> (r: i64)
    ensures
        later.secs <= earlier.secs ==> r == 0,
        later.secs > earlier.secs ==> r == if later.secs - earlier.secs <= i64::MAX {
            later.secs - earlier.secs
        } else {
            i64::MAX as int
        },
{
    if later.secs <= earlier.secs {
        0
    } else {
        match later.secs.checked_sub(earlier.secs) {
            Some(d) => d,
            None => i64::MAX,
        }
    }
}

/// Seconds elapsed since `t` on the system clock; never negative.
pub fn duration_since(t: TimeStamp) -> (r: i64)
    ensures
        r >= 0,
{
    let now = TimeStamp::now();
    seconds_between(now, t)
}

} // verus!
