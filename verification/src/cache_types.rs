//! How long fetched metadata stays good.

use std::time::Duration;
use std::time::SystemTime;
use vstd::prelude::*;

verus! {

/// Fetched metadata stays good for ninety days.
pub const CACHE_TTL_SECONDS: i64 = 7_776_000;

#[verifier::external_type_specification]
#[verifier::external_body]
pub struct ExSystemTime(SystemTime);

/// `SystemTime::now`: the current moment.
#[verifier::external_body]
fn system_now() -> SystemTime {
    SystemTime::now()
}

/// `SystemTime::duration_since` the Unix epoch: the time from the epoch to
/// the moment, and nothing where the moment lies before the epoch.
#[verifier::external_body]
fn since_epoch(moment: &SystemTime) -> Option<Duration> {
    match moment.duration_since(SystemTime::UNIX_EPOCH) {
        Ok(d) => Some(d),
        Err(_) => None,
    }
}

/// `Duration::as_secs`: the whole seconds of a duration.
#[verifier::external_body]
fn duration_as_secs(d: &Duration) -> u64 {
    d.as_secs()
}

/// The seconds from the Unix epoch to now; zero where the clock stands
/// before the epoch.
fn seconds_since_epoch() -> u64 {
    let now = system_now();
    match since_epoch(&now) {
        Some(d) => duration_as_secs(&d),
        None => 0,
    }
}

/// Seconds as a signed number; the largest where they do not fit.
pub open spec fn signed_seconds(s: u64) -> i64 {
    if s > i64::MAX {
        i64::MAX
    } else {
        s as i64
    }
}

/// Makes seconds a signed number.
pub fn to_signed_seconds(s: u64) -> (r: i64)
    ensures
        r == signed_seconds(s),
{
    if s > i64::MAX as u64 {
        i64::MAX
    } else {
        s as i64
    }
}

/// The seconds since the Unix epoch.
pub fn current_timestamp() -> (r: i64)
    ensures
        r >= 0,
{
    to_signed_seconds(seconds_since_epoch())
}

/// Whether what was fetched at `last_fetched` is still good at `now`: fewer
/// seconds have passed than metadata stays good for.
pub open spec fn valid_at(now: i64, last_fetched: i64) -> bool {
    now - last_fetched < CACHE_TTL_SECONDS
}

/// Whether what was fetched at `last_fetched` is still good at `now`.
pub fn is_cache_valid_at(now: i64, last_fetched: i64) -> (r: bool)
    ensures
        r == valid_at(now, last_fetched),
{
    (now as i128) - (last_fetched as i128) < CACHE_TTL_SECONDS as i128
}

/// Whether what was fetched at `last_fetched` is still good now. Whatever
/// the clock says, what was fetched in the future is good, and what was
/// fetched before the epoch by more than the time it stays good is not.
pub fn is_cache_valid(last_fetched: i64) -> (r: bool)
    ensures
        last_fetched > i64::MAX - CACHE_TTL_SECONDS ==> r,
        last_fetched <= -CACHE_TTL_SECONDS ==> !r,
{
    let current_time = current_timestamp();
    is_cache_valid_at(current_time, last_fetched)
}

/// The artist that kept data belongs to.
#[derive(Debug, Clone)]
pub struct CacheKey {
    pub artist_id: u128,
    pub artist_name: String,
    pub artist_url: String,
}

} // verus!
