use vstd::prelude::*;
use std::time::{Duration, Instant};

verus! {

#[verifier::external_type_specification]
#[verifier::external_body]
pub struct ExInstant(Instant);


/// The whole seconds of a `Duration`.
pub uninterp spec fn duration_secs(d: Duration) -> u64;

/// The nanoseconds of a `Duration` beyond its whole seconds.
pub uninterp spec fn duration_nanos(d: Duration) -> u32;

/// Calls `Duration::as_secs`, which the standard library documents as the
/// number of whole seconds in the duration.
#[verifier::external_body]
pub(crate) fn duration_as_secs(d: &Duration) -> (r: u64)
    ensures
        r == duration_secs(*d),
{
    d.as_secs()
}

/// Calls `Duration::subsec_nanos`, which the standard library documents as the
/// fractional part in nanoseconds, always below one billion.
#[verifier::external_body]
pub(crate) fn duration_subsec_nanos(d: &Duration) -> (r: u32)
    ensures
        r == duration_nanos(*d),
        r < 1_000_000_000,
{
    d.subsec_nanos()
}

/// Calls `Instant::now`; nothing is promised of the clock.
#[verifier::external_body]
pub(crate) fn instant_now() -> Instant {
    Instant::now()
}

/// Calls `Instant::elapsed`; what time has passed is not stated, only that,
/// as of every `Duration`, its nanoseconds beyond the whole seconds stay
/// below one billion.
#[verifier::external_body]
pub(crate) fn instant_elapsed(i: &Instant) -> (r: Duration)
    ensures
        duration_nanos(r) < 1_000_000_000,
{
    i.elapsed()
}

/// The length of a duration in nanoseconds.
pub open spec fn total_nanos(d: Duration) -> int {
    duration_secs(d) * 1_000_000_000 + duration_nanos(d)
}

/// Calls `Duration::checked_add`, which adds two durations and answers
/// `None` when the whole seconds overflow a `u64`; as of every `Duration`,
/// the sum's nanoseconds beyond its whole seconds stay below one billion.
#[verifier::external_body]
pub(crate) fn duration_checked_add(a: Duration, b: Duration) -> (r: Option<Duration>)
    ensures
        match r {
            Some(d) => total_nanos(d) == total_nanos(a) + total_nanos(b) && duration_nanos(d) < 1_000_000_000,
            None => total_nanos(a) + total_nanos(b) >= (u64::MAX + 1) * 1_000_000_000,
        },
{
    a.checked_add(b)
}

/// Calls `Duration::from_millis`: `ms` milliseconds.
#[verifier::external_body]
pub(crate) fn duration_from_millis(ms: u64) -> (r: Duration)
    ensures
        duration_secs(r) == ms / 1000,
        duration_nanos(r) == (ms % 1000) * 1_000_000,
{
    Duration::from_millis(ms)
}

/// Calls `Duration::checked_sub`, which answers `None` when `b` is longer
/// than `a` and the difference otherwise.
#[verifier::external_body]
pub(crate) fn duration_checked_sub(a: Duration, b: Duration) -> (r: Option<Duration>)
    ensures
        match r {
            Some(d) => total_nanos(d) == total_nanos(a) - total_nanos(b),
            None => total_nanos(a) < total_nanos(b),
        },
{
    a.checked_sub(b)
}

/// Calls `Duration::is_zero`: whether the duration is empty.
#[verifier::external_body]
pub(crate) fn duration_is_zero(d: &Duration) -> (r: bool)
    ensures
        r == (total_nanos(*d) == 0),
{
    d.is_zero()
}

pub const NANOS_PER_MILLI: u32 = 1_000_000;
pub const MILLIS_PER_SEC: u64 = 1_000;

/// Milliseconds in `secs` seconds and `nanos` nanoseconds, rounding the
/// nanoseconds up and saturating at the largest `u64`.
pub open spec fn millis_spec(secs: u64, nanos: u32) -> u64 {
    let m = secs * 1000 + (nanos + 999_999) / 1_000_000;
    if m > u64::MAX {
        u64::MAX
    } else {
        m as u64
    }
}

/// The duration in whole milliseconds, rounded up, saturating.
pub fn millis(duration: Duration) -> (r: u64)
    ensures
        r == millis_spec(duration_secs(duration), duration_nanos(duration)),
{
    let nanos = duration_subsec_nanos(&duration);
    let millis = (nanos + NANOS_PER_MILLI - 1) / NANOS_PER_MILLI;
    let secs = duration_as_secs(&duration);
    let secs_ms = match secs.checked_mul(MILLIS_PER_SEC) {
        Some(v) => v,
        None => u64::MAX,
    };
    secs_ms.saturating_add(millis as u64)
}

} // verus!
