//! Wall-clock time for search statistics. Nothing is known of what a clock
//! returns, so the contracts of the searches say nothing of the times they
//! report.

use std::time::Duration;
use std::time::Instant;
use vstd::prelude::*;

verus! {

#[verifier::external_type_specification]
#[verifier::external_body]
pub struct ExInstant(Instant);

/// `Instant::now`: the current moment.
#[verifier::external_body]
pub(crate) fn instant_now() -> Instant {
    Instant::now()
}

/// `Instant::elapsed`: the time since that moment.
#[verifier::external_body]
pub(crate) fn instant_elapsed(since: &Instant) -> Duration {
    since.elapsed()
}

/// `Duration::as_micros`: the whole microseconds of a duration.
#[verifier::external_body]
pub(crate) fn duration_as_micros(d: &Duration) -> u128 {
    d.as_micros()
}

/// `Duration::as_millis`: the whole milliseconds of a duration.
#[verifier::external_body]
pub(crate) fn duration_as_millis(d: &Duration) -> u128 {
    d.as_millis()
}

/// A count cut to 64 bits.
pub open spec fn saturated(n: u128) -> u64 {
    if n > u64::MAX {
        u64::MAX
    } else {
        n as u64
    }
}

/// Cuts a count to 64 bits: what does not fit becomes the largest value.
pub fn saturate(n: u128) -> (r: u64)
    ensures
        r == saturated(n),
{
    if n > u64::MAX as u128 {
        u64::MAX
    } else {
        n as u64
    }
}

/// The microseconds since `since`.
pub(crate) fn micros_since(since: &Instant) -> u64 {
    let d = instant_elapsed(since);
    saturate(duration_as_micros(&d))
}

/// The milliseconds since `since`.
pub(crate) fn millis_since(since: &Instant) -> u64 {
    let d = instant_elapsed(since);
    saturate(duration_as_millis(&d))
}

} // verus!
