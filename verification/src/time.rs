//! Points in time as the library reads them.

use vstd::prelude::*;

verus! {

/// A UTC instant: whole seconds since the Unix epoch and the nanoseconds
/// into that second (at or above one billion during a leap second).
#[derive(Clone, Copy, PartialEq, Eq, Debug, Structural)]
pub struct UtcTime {
    pub secs: i64,
    pub nanos: u32,
}

/// `a` comes strictly before `b`.
pub open spec fn time_lt(a: UtcTime, b: UtcTime) -> bool {
    a.secs < b.secs || (a.secs == b.secs && a.nanos < b.nanos)
}

/// `a` comes at or before `b`.
pub open spec fn time_le(a: UtcTime, b: UtcTime) -> bool {
    time_lt(a, b) || a == b
}

impl UtcTime {
    /// `self` is at or after `other`.
    pub fn at_or_after(&self, other: &UtcTime) -> (r: bool)
        ensures
            r == time_le(*other, *self),
    {
        other.secs < self.secs || (other.secs == self.secs && other.nanos <= self.nanos)
    }

    /// `self` is strictly before `other`.
    pub fn before(&self, other: &UtcTime) -> (r: bool)
        ensures
            r == time_lt(*self, *other),
    {
        self.secs < other.secs || (self.secs == other.secs && self.nanos < other.nanos)
    }
}

/// Whole seconds since the epoch within chrono's range of dates (the years
/// -262143 to 262142 lie within 2^43 seconds of 1970), and nanoseconds below
/// two billion (a leap second counts up to that).
pub open spec fn clock_reading_ok(t: UtcTime) -> bool {
    -0x800_0000_0000 < t.secs < 0x800_0000_0000 && t.nanos < 2_000_000_000
}

/// `chrono::Utc::now()`, as its whole seconds since the epoch
/// (`timestamp`) and the nanoseconds into the second
/// (`timestamp_subsec_nanos`).  Only the range of chrono's dates is
/// promised: the reading comes from the system clock.
#[verifier::external_body]
fn wall_clock_parts() -> (r: (i64, u32))
    ensures
        clock_reading_ok(UtcTime { secs: r.0, nanos: r.1 }),
{
    let t = chrono::Utc::now();
    (t.timestamp(), t.timestamp_subsec_nanos())
}

/// The current UTC time, read from the system clock.
pub fn now() -> (r: UtcTime)
    ensures
        clock_reading_ok(r),
{
    let (secs, nanos) = wall_clock_parts();
    UtcTime { secs, nanos }
}

/// Milliseconds since the epoch of a time: the seconds times 1000 plus the
/// whole milliseconds into the second.
pub open spec fn time_millis_of(t: UtcTime) -> int {
    t.secs * 1000 + t.nanos / 1_000_000
}

/// Milliseconds since the epoch, as chrono's `timestamp_millis` counts
/// them: the seconds times 1000 plus the whole milliseconds into the second.
pub fn millis_of(t: UtcTime) -> (r: i64)
    requires
        clock_reading_ok(t),
    ensures
        r == t.secs * 1000 + t.nanos / 1_000_000,
{
    t.secs * 1000 + (t.nanos / 1_000_000) as i64
}

/// Milliseconds since the Unix epoch of the current wall-clock time:
/// `millis_of` a reading of the clock.
pub fn now_millis() -> (r: i64)
    ensures
        exists|t: UtcTime| clock_reading_ok(t) && r == #[trigger] time_millis_of(t),
{
    let t = now();
    let r = millis_of(t);
    proof {
        assert(r == time_millis_of(t));
    }
    r
}

/// Nanoseconds since the epoch as chrono's `timestamp_nanos_opt` computes
/// them: for a time before the epoch the second is moved into the
/// nanoseconds first; `None` where a step leaves `i64`.
pub open spec fn chrono_nanos(t: UtcTime) -> Option<int> {
    let ts: int = if t.secs < 0 { t.secs + 1 } else { t.secs as int };
    let ns: int = if t.secs < 0 { t.nanos - 1_000_000_000 } else { t.nanos as int };
    let m = ts * 1_000_000_000;
    if m < i64::MIN || m > i64::MAX || m + ns < i64::MIN || m + ns > i64::MAX {
        None
    } else {
        Some(m + ns)
    }
}

/// `chrono_nanos` of a time.
pub fn timestamp_nanos(t: UtcTime) -> (r: Option<i64>)
    ensures
        match r {
            Some(n) => chrono_nanos(t) == Some(n as int),
            None => chrono_nanos(t) is None,
        },
{
    let mut ts: i64 = t.secs;
    let mut ns: i64 = t.nanos as i64;
    if ts < 0 {
        ns = ns - 1_000_000_000;
        ts = ts + 1;
    }
    match ts.checked_mul(1_000_000_000) {
        None => None,
        Some(m) => m.checked_add(ns),
    }
}

/// The nanoseconds `chrono_nanos` gives for a time, or 0 where it gives
/// none.
pub open spec fn nanos_or_zero(t: UtcTime) -> int {
    match chrono_nanos(t) {
        Some(n) => n,
        None => 0,
    }
}

/// Nanoseconds since the Unix epoch of the current time
/// (`timestamp_nanos_opt().unwrap_or(0)` of a reading of the clock), or 0
/// outside the range of an `i64`.
pub fn now_nanos() -> (r: i64)
    ensures
        exists|t: UtcTime| clock_reading_ok(t) && r == #[trigger] nanos_or_zero(t),
{
    let t = now();
    let r = match timestamp_nanos(t) {
        Some(n) => n,
        None => 0,
    };
    proof {
        assert(r == nanos_or_zero(t));
    }
    r
}

/// Nanoseconds in a day.
pub open spec fn day_nanos() -> int {
    86_400_000_000_000
}

/// Whole days from `from` to `to`, truncated toward zero.
pub open spec fn whole_days(from: UtcTime, to: UtcTime) -> int {
    let d = (to.secs - from.secs) * 1_000_000_000 + (to.nanos - from.nanos);
    if d >= 0 {
        d / day_nanos()
    } else {
        -((-d) / day_nanos())
    }
}

/// Whole days from `from` to `to`, truncated toward zero (what chrono's
/// `Duration::num_days` counts).
pub fn whole_days_between(from: UtcTime, to: UtcTime) -> (r: i64)
    ensures
        r == whole_days(from, to),
{
    let secs: i128 = to.secs as i128 - from.secs as i128;
    let nanos: i128 = to.nanos as i128 - from.nanos as i128;
    assert(-0x1_0000_0000_0000_0000 <= secs <= 0x1_0000_0000_0000_0000);
    assert(secs * 1_000_000_000 <= 0x1_0000_0000_0000_0000 * 1_000_000_000) by (nonlinear_arith)
        requires secs <= 0x1_0000_0000_0000_0000;
    assert(secs * 1_000_000_000 >= -0x1_0000_0000_0000_0000 * 1_000_000_000) by (nonlinear_arith)
        requires secs >= -0x1_0000_0000_0000_0000;
    let d: i128 = secs * 1_000_000_000 + nanos;
    let day: i128 = 86_400_000_000_000;
    if d >= 0 {
        assert(d / day <= 0x1_0000_0000_0000_0000 * 1_000_000_000 / 86_400_000_000_000 + 1) by (nonlinear_arith)
            requires 0 <= d <= 0x1_0000_0000_0000_0000 * 1_000_000_000 + 0x1_0000_0000, day == 86_400_000_000_000;
        (d / day) as i64
    } else {
        let m: i128 = 0 - d;
        assert(m / day <= 0x1_0000_0000_0000_0000 * 1_000_000_000 / 86_400_000_000_000 + 1) by (nonlinear_arith)
            requires 0 <= m <= 0x1_0000_0000_0000_0000 * 1_000_000_000 + 0x1_0000_0000, day == 86_400_000_000_000;
        (0 - m / day) as i64
    }
}

} // verus!
