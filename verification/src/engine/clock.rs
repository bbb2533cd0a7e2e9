//! Wall-clock readings, the only source of time of the engine.
use vstd::prelude::*;
use std::time::{Duration, Instant, SystemTime, UNIX_EPOCH};

verus! {

#[verifier::external_type_specification]
#[verifier::external_body]
pub struct ExInstant(Instant);

#[verifier::external_type_specification]
#[verifier::external_body]
pub struct ExSystemTime(SystemTime);

/// The current instant.
///
/// Trusted: `Instant::now`; the result depends on the clock, so nothing is claimed.
#[verifier::external_body]
pub(crate) fn now() -> Instant {
    Instant::now()
}

/// Time elapsed since `start`.
///
/// Trusted: `Instant::elapsed`; the result depends on the clock, so nothing is claimed.
#[verifier::external_body]
pub(crate) fn elapsed(start: &Instant) -> Duration {
    start.elapsed()
}

/// The whole milliseconds in `d`.
///
/// Trusted: `Duration::as_millis`; `Duration` is opaque here, so nothing is claimed.
#[verifier::external_body]
fn as_millis(d: &Duration) -> u128 {
    d.as_millis()
}

/// The current system time.
///
/// Trusted: `SystemTime::now`; the result depends on the clock, so nothing is claimed.
#[verifier::external_body]
fn system_now() -> SystemTime {
    SystemTime::now()
}

/// The time from the Unix epoch to `t`, or `None` when `t` lies before it.
///
/// Trusted: `SystemTime::duration_since(UNIX_EPOCH)`, its error dropped; `SystemTime`
/// is opaque here, so nothing is claimed.
#[verifier::external_body]
fn since_epoch(t: &SystemTime) -> Option<Duration> {
    t.duration_since(UNIX_EPOCH).ok()
}

/// The fractional part of `d` in nanoseconds.
///
/// Trusted: `Duration::subsec_nanos`, documented to be below one billion.
#[verifier::external_body]
fn subsec_nanos(d: &Duration) -> (r: u32)
    ensures
        r < 1_000_000_000,
{
    d.subsec_nanos()
}

/// The whole seconds in `d`.
///
/// Trusted: `Duration::as_secs`; `Duration` is opaque here, so nothing is claimed.
#[verifier::external_body]
fn as_secs(d: &Duration) -> u64 {
    d.as_secs()
}

/// Whole milliseconds elapsed since `start`, saturated to `u64`.
pub(crate) fn elapsed_ms(start: &Instant) -> u64 {
    let ms = as_millis(&elapsed(start));
    if ms > 0xffff_ffff_ffff_ffffu128 {
        u64::MAX
    } else {
        ms as u64
    }
}

/// The seed that the system clock gives: the sub-second nanoseconds XOR the seconds
/// shifted left by 17, or `0xdeadbeef` when the clock is before the Unix epoch.
pub open spec fn seed_of(since: Option<(u32, u64)>) -> u64 {
    match since {
        Some((nanos, secs)) => (nanos as u64) ^ (secs << 17u64),
        None => 0xdeadbeefu64,
    }
}

/// A seed taken from the system clock, as `seed_of` says of the time since the epoch.
pub(crate) fn clock_seed() -> (r: u64)
    ensures
        exists|since: Option<(u32, u64)>| r == seed_of(since),
{
    let t = system_now();
    match since_epoch(&t) {
        Some(d) => {
            let nanos = subsec_nanos(&d);
            let secs = as_secs(&d);
            let r = (nanos as u64) ^ (secs << 17u64);
            assert(r == seed_of(Some((nanos, secs))));
            r
        },
        None => {
            assert(0xdeadbeefu64 == seed_of(None));
            0xdeadbeef
        },
    }
}

} // verus!
