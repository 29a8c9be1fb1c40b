//! The dispatch policy: how one event relates to the current time, and when
//! the next day's run begins.

use vstd::prelude::*;
use crate::timeofday::MINUTES_PER_DAY;

verus! {

/// What the dispatch loop does with an event, given the current time.
#[derive(Clone, Copy, PartialEq, Eq, Debug)]
pub enum Disposition {
    /// The event's instant lies further in the past than the missed
    /// threshold: skip it without notifying.
    Missed,
    /// The event's instant is past or now, but within the threshold:
    /// dispatch immediately.
    DueNow,
    /// The event's instant lies this many minutes ahead: suspend until then,
    /// then dispatch.
    Wait(u64),
}

/// Classifies one event against the current time. `instant` and `now` are
/// minutes on the day's timeline (an Upcoming instant may be negative);
/// `missed_threshold` is the grace period in minutes.
pub fn classify(instant: i64, now: i64, missed_threshold: i64) -> (d: Disposition)
    requires
        missed_threshold >= 0,
        i64::MIN <= instant - now <= i64::MAX,
    ensures
        d == Disposition::Missed <==> instant - now < -missed_threshold,
        d == Disposition::DueNow <==> -missed_threshold <= instant - now <= 0,
        d is Wait <==> instant - now > 0,
        d matches Disposition::Wait(w) ==> w == instant - now,
{
    let diff = instant - now;
    if diff < -missed_threshold {
        Disposition::Missed
    } else if diff <= 0 {
        Disposition::DueNow
    } else {
        Disposition::Wait(diff as u64)
    }
}

/// Minutes from `now` (a minute of the current day) until the next day's
/// reset point at `reset_minute` of the following day.
pub fn minutes_until_next_reset(now: u32, reset_minute: u32) -> (r: u32)
    requires
        now < MINUTES_PER_DAY,
        reset_minute < MINUTES_PER_DAY,
    ensures
        r == MINUTES_PER_DAY - now + reset_minute,
{
    MINUTES_PER_DAY - now + reset_minute
}

} // verus!
