//! The system clock, read as whole seconds since the Unix epoch.

use vstd::prelude::*;

verus! {

/// A reading of the system clock, carried through unchanged.
#[verifier::external_type_specification]
#[verifier::external_body]
pub struct ExSystemTime(std::time::SystemTime);

/// How far a clock reading lies before the epoch it was measured from.
#[verifier::external_type_specification]
#[verifier::external_body]
pub struct ExSystemTimeError(std::time::SystemTimeError);

/// `SystemTime::now`: the current reading of the system clock. The clock
/// decides it; nothing is claimed of it.
#[verifier::external_body]
fn system_now() -> std::time::SystemTime {
    std::time::SystemTime::now()
}

/// `SystemTime::duration_since` against `UNIX_EPOCH`: `Ok` with the span
/// since the epoch, `Err` when the reading lies before it. Which one
/// comes back depends on the reading and is not claimed here.
#[verifier::external_body]
fn since_epoch(t: &std::time::SystemTime) -> Result<std::time::Duration, std::time::SystemTimeError> {
    t.duration_since(std::time::UNIX_EPOCH)
}

/// `SystemTimeError::duration`: how far before the epoch the reading lay.
#[verifier::external_body]
fn before_epoch(e: &std::time::SystemTimeError) -> std::time::Duration {
    e.duration()
}

/// `Duration::as_secs`: the whole seconds of a span. Nothing is claimed
/// of the value beyond its type.
#[verifier::external_body]
fn whole_seconds(d: &std::time::Duration) -> u64 {
    d.as_secs()
}

/// The widest instant, in seconds either side of the epoch, that an
/// ontology timestamp holds: under 2^43 seconds, the span of years
/// chrono represents (about 262,000 either way).
pub const CLOCK_LIMIT: i64 = 0x7ff_ffff_ffff;

/// Seconds within the clock limit.
pub open spec fn clamped(s: u64) -> i64 {
    if s > CLOCK_LIMIT as u64 {
        CLOCK_LIMIT
    } else {
        s as i64
    }
}

fn clamp_seconds(s: u64) -> (r: i64)
    ensures
        r == clamped(s),
        0 <= r <= CLOCK_LIMIT,
{
    if s > CLOCK_LIMIT as u64 {
        CLOCK_LIMIT
    } else {
        s as i64
    }
}

/// The system clock as whole seconds since the Unix epoch: negative for
/// a clock set before the epoch, and held within [`CLOCK_LIMIT`] either
/// way. The clock decides the value; it never fails.
pub fn now_epoch_seconds() -> (r: i64)
    ensures
        -CLOCK_LIMIT <= r <= CLOCK_LIMIT,
{
    let t = system_now();
    match since_epoch(&t) {
        Ok(d) => clamp_seconds(whole_seconds(&d)),
        Err(e) => {
            let back = before_epoch(&e);
            -clamp_seconds(whole_seconds(&back))
        },
    }
}

} // verus!
