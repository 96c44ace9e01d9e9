//! Monotonic time as whole nanoseconds, and the sub-second part of the wall clock.

use std::time::{Duration, Instant, SystemTime, UNIX_EPOCH};
use vstd::prelude::*;

verus! {

/// A point on the monotonic clock.
#[verifier::external_type_specification]
#[verifier::external_body]
pub struct ExInstant(Instant);

/// The largest number of nanoseconds a `Duration` can hold: `u64::MAX` seconds
/// and 999 999 999 nanoseconds.
pub open spec fn max_duration_nanos() -> u128 {
    18446744073709551615999999999u128
}

/// Total nanoseconds held by a `Duration`.
pub uninterp spec fn duration_total_nanos(d: Duration) -> u128;

/// `Duration::as_nanos`: the total number of nanoseconds in `d`, which is at most
/// `max_duration_nanos()` since a `Duration` holds at most `u64::MAX` seconds.
#[verifier::external_body]
pub(crate) fn duration_as_nanos(d: Duration) -> (n: u128)
    ensures
        n == duration_total_nanos(d),
        n <= max_duration_nanos(),
{
    d.as_nanos()
}

/// `Instant::now`: the current point on the monotonic clock. Nothing is stated of
/// which point that is.
#[verifier::external_body]
pub(crate) fn instant_now() -> Instant {
    Instant::now()
}

/// `Instant::elapsed`: the time since `start`. The result depends on the clock and
/// nothing is stated of it.
#[verifier::external_body]
pub(crate) fn instant_elapsed(start: &Instant) -> Duration {
    start.elapsed()
}

/// A point on the wall clock.
#[verifier::external_type_specification]
#[verifier::external_body]
pub struct ExSystemTime(SystemTime);

/// `SystemTime::now`: the current wall-clock time. Nothing is stated of it.
#[verifier::external_body]
pub(crate) fn system_now() -> SystemTime {
    SystemTime::now()
}

/// `SystemTime::duration_since(UNIX_EPOCH)`: the time since the Unix epoch, `None`
/// when `t` lies before it. Nothing is stated of the value, which the clock decides.
#[verifier::external_body]
pub(crate) fn since_unix_epoch(t: SystemTime) -> Option<Duration> {
    t.duration_since(UNIX_EPOCH).ok()
}

/// `Duration::subsec_nanos`: the fractional part of `d` in nanoseconds, that is its
/// total nanoseconds modulo one billion.
#[verifier::external_body]
pub(crate) fn duration_subsec_nanos(d: Duration) -> (n: u32)
    ensures
        n as u128 == duration_total_nanos(d) % 1_000_000_000,
{
    d.subsec_nanos()
}

/// The sub-second nanoseconds of the wall clock now; zero when the clock reads a time
/// before the Unix epoch.
pub fn wall_clock_subsec_nanos() -> (n: u32)
    ensures
        n < 1_000_000_000,
{
    match since_unix_epoch(system_now()) {
        Some(d) => duration_subsec_nanos(d),
        None => 0,
    }
}

/// Nanoseconds elapsed since `start` on the monotonic clock.
pub fn nanos_since(start: &Instant) -> (n: u128)
    ensures
        n <= max_duration_nanos(),
{
    duration_as_nanos(instant_elapsed(start))
}

} // verus!
