//! The cleanup schedule: the time of day a run is set for, which day it
//! falls on and how long to wait for it. Turning local dates and times into
//! instants, and finding weekdays, is the caller's: those follow the
//! machine's time-zone rules.
use vstd::prelude::*;
use crate::clock::Instant;
use crate::snapstore::{instant_lt, SECS_PER_DAY};

verus! {

/// Nanoseconds in a second.
pub const NANOS_PER_SEC: i128 = 1_000_000_000;

/// The latest instant `chrono` can represent (December 31, 262142,
/// 23:59:59), in seconds since the Unix epoch.
pub const MAX_TIMESTAMP: i64 = 8210266876799;

/// The shortest wait before a run, in seconds.
pub const MIN_WAIT_SECS: u64 = 60;

/// The time of day a run is set for: the hour capped at 23, the minute at
/// 59.
pub fn schedule_time(hour: u32, minute: u32) -> (r: (u32, u32))
    ensures
        r.0 == (if hour > 23 { 23 } else { hour }),
        r.1 == (if minute > 59 { 59 } else { minute }),
{
    (if hour > 23 { 23 } else { hour }, if minute > 59 { 59 } else { minute })
}

/// Nanoseconds from `now` to `target`.
pub open spec fn delta_nanos(target: Instant, now: Instant) -> int {
    (target.0 - now.0) * NANOS_PER_SEC + (target.1 - now.1)
}

/// Whole seconds in `d` nanoseconds, rounded toward zero.
pub open spec fn whole_secs(d: int) -> int {
    if d >= 0 {
        d / (NANOS_PER_SEC as int)
    } else {
        -((-d) / (NANOS_PER_SEC as int))
    }
}

/// The wait before a run at `target`: the whole seconds from `now`, and
/// never less than a minute.
pub open spec fn spec_wait_secs(target: Instant, now: Instant) -> int {
    let s = whole_secs(delta_nanos(target, now));
    if s < MIN_WAIT_SECS {
        MIN_WAIT_SECS as int
    } else {
        s
    }
}

/// Seconds to wait at `now` for a run at `target`.
pub fn wait_secs(target: Instant, now: Instant) -> (r: u64)
    requires
        spec_wait_secs(target, now) <= u64::MAX,
    ensures
        r == spec_wait_secs(target, now),
{
    let secs: i128 = target.0 as i128 - now.0 as i128;
    let nanos: i128 = target.1 as i128 - now.1 as i128;
    assert(-0x1_0000_0000_0000_0000 <= secs <= 0x1_0000_0000_0000_0000);
    let d: i128 = secs * NANOS_PER_SEC + nanos;
    let s: i128 = if d >= 0 {
        d / NANOS_PER_SEC
    } else {
        -((-d) / NANOS_PER_SEC)
    };
    if s < MIN_WAIT_SECS as i128 {
        MIN_WAIT_SECS
    } else {
        s as u64
    }
}


/// `t` moved on by `days` whole days.
pub open spec fn later_by_days(t: Instant, days: int) -> Instant {
    ((t.0 + days * SECS_PER_DAY) as i64, t.1)
}

/// Today's run: the set time today (`today`, when that local time exists
/// unambiguously) if it is still ahead of `now`; `None` when the run is
/// tomorrow.
pub fn run_today(now: Instant, today: Option<Instant>) -> (r: Option<Instant>)
    ensures
        r == (match today {
            Some(t) => if instant_lt(now, t) {
                Some(t)
            } else {
                None
            },
            None => None,
        }),
{
    match today {
        Some(t) => if now.0 < t.0 || (now.0 == t.0 && now.1 < t.1) {
            Some(t)
        } else {
            None
        },
        None => None,
    }
}

/// Tomorrow's run: the set time tomorrow (`tomorrow`, when that local time
/// exists unambiguously), else a day after `now`.
pub fn run_tomorrow(now: Instant, tomorrow: Option<Instant>) -> (r: Instant)
    requires
        now.0 + SECS_PER_DAY <= MAX_TIMESTAMP,
    ensures
        r == (match tomorrow {
            Some(t) => t,
            None => later_by_days(now, 1),
        }),
{
    match tomorrow {
        Some(t) => t,
        None => (now.0 + SECS_PER_DAY, now.1),
    }
}

/// A weekly run: `target` moved on by `shift` days (to fall on today's
/// weekday), and a week later still when that is not ahead of `now`.
pub fn weekly_run(target: Instant, shift: u32, now: Instant) -> (r: Instant)
    requires
        target.0 + shift * SECS_PER_DAY <= MAX_TIMESTAMP,
        instant_lt(now, later_by_days(target, shift as int)) || target.0 + (shift + 7) * SECS_PER_DAY
            <= MAX_TIMESTAMP,
    ensures
        r == (if instant_lt(now, later_by_days(target, shift as int)) {
            later_by_days(target, shift as int)
        } else {
            later_by_days(later_by_days(target, shift as int), 7)
        }),
{
    let moved: Instant = (target.0 + (shift as i64) * SECS_PER_DAY, target.1);
    if now.0 < moved.0 || (now.0 == moved.0 && now.1 < moved.1) {
        moved
    } else {
        (moved.0 + 7 * SECS_PER_DAY, moved.1)
    }
}

} // verus!
