//! Clock access and time spans measured in nanoseconds.

use std::time::{Duration, Instant};
use vstd::prelude::*;

verus! {

#[verifier::external_type_specification]
#[verifier::external_body]
pub struct ExInstant(Instant);

/// Largest span a `Duration` holds, in nanoseconds.
pub open spec fn max_span_nanos() -> int {
    18446744073709551615int * 1000000000int + 999999999int
}

/// The present instant of the monotonic clock.
///
/// Calls `Instant::now`; nothing is stated of the value, which is the time.
#[verifier::external_body]
pub(crate) fn instant_now() -> Instant {
    Instant::now()
}

/// Time passed since `start`.
///
/// Calls `Instant::elapsed`; nothing is stated of the value, which depends on the clock.
#[verifier::external_body]
pub(crate) fn instant_elapsed(start: &Instant) -> Duration {
    start.elapsed()
}

/// The total number of whole nanoseconds `d` spans.
pub uninterp spec fn span_nanos(d: Duration) -> u128;

/// Length of `d` in whole nanoseconds.
///
/// Calls `Duration::as_nanos`: the total number of whole nanoseconds, a
/// function of the duration named `span_nanos`, at most `max_span_nanos`
/// (a `Duration` holds at most `u64::MAX` seconds and 999,999,999 nanoseconds).
#[verifier::external_body]
pub(crate) fn duration_nanos(d: &Duration) -> (n: u128)
    ensures
        n == span_nanos(*d),
        n <= max_span_nanos(),
{
    d.as_nanos()
}

/// A span of `total` nanoseconds divided by `n` the way `Duration / u32`
/// divides: whole seconds first, their remainder carried into nanoseconds.
pub open spec fn span_div(total: int, n: int) -> int {
    let secs = total / 1_000_000_000;
    let nanos = total % 1_000_000_000;
    let q = secs / n;
    let carry = secs - q * n;
    q * 1_000_000_000 + nanos / n + carry * 1_000_000_000 / n
}

/// Divide a span by a count, as `Duration / u32` does.
pub fn span_divide(total: u128, n: u32) -> (r: u128)
    requires
        n > 0,
        total <= max_span_nanos(),
    ensures
        r == span_div(total as int, n as int),
{
    let secs = total / 1_000_000_000;
    let nanos = total % 1_000_000_000;
    let d = n as u128;
    let q = secs / d;
    proof {
        assert(secs <= 0xffff_ffff_ffff_ffff);
        assert(q <= secs);
        assert(q * d <= secs) by (nonlinear_arith)
            requires
                q == secs / d,
                d > 0,
        ;
        assert(q * 1_000_000_000 <= 0xffff_ffff_ffff_ffff * 1_000_000_000) by (nonlinear_arith)
            requires
                q <= 0xffff_ffff_ffff_ffff,
        ;
    }
    let carry = secs - q * d;
    proof {
        assert(carry < d) by (nonlinear_arith)
            requires
                q == secs / d,
                d > 0,
                carry == secs - q * d,
        ;
        assert(carry * 1_000_000_000 < 0x1_0000_0000 * 1_000_000_000) by (nonlinear_arith)
            requires
                carry < d,
                d <= 0xffff_ffff,
        ;
    }
    q * 1_000_000_000 + nanos / d + carry * 1_000_000_000 / d
}

/// Seconds since the Unix epoch, per the system clock.
///
/// Calls `SystemTime::now` and `duration_since(UNIX_EPOCH)`; nothing is
/// stated of the value, which is the time. A clock set before the epoch
/// reads as `None`.
#[verifier::external_body]
pub(crate) fn unix_seconds() -> Option<u64> {
    match std::time::SystemTime::now().duration_since(std::time::UNIX_EPOCH) {
        Ok(d) => Some(d.as_secs()),
        Err(_) => None,
    }
}

/// Milliseconds since the Unix epoch, per the system clock.
///
/// Calls `SystemTime::now` and `duration_since(UNIX_EPOCH)`; nothing is
/// stated of the value, which is the time. A clock set before the epoch
/// reads as `None`.
#[verifier::external_body]
pub(crate) fn unix_millis() -> Option<u128> {
    match std::time::SystemTime::now().duration_since(std::time::UNIX_EPOCH) {
        Ok(d) => Some(d.as_millis()),
        Err(_) => None,
    }
}

} // verus!
