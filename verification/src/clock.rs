//! The wall clock, for access times.
use vstd::prelude::*;

verus! {

/// Calls `SystemTime::now()` and its `duration_since(UNIX_EPOCH)`: the whole seconds
/// since the epoch, or `None` when the clock is set before it. Nothing is stated of
/// the result: it is the time.
#[verifier::external_body]
fn seconds_since_epoch() -> (r: Option<u64>) {
    match std::time::SystemTime::now().duration_since(std::time::UNIX_EPOCH) {
        Ok(d) => Some(d.as_secs()),
        Err(_) => None,
    }
}

/// The seconds since the epoch given the clock's reading `since`: those seconds, or
/// 0 for a clock set before the epoch.
pub(crate) fn secs_or_zero(since: Option<u64>) -> (r: u64)
    ensures
        r == match since {
            Some(s) => s,
            None => 0,
        },
{
    match since {
        Some(s) => s,
        None => 0,
    }
}

/// The current time in whole seconds since the epoch; 0 for a clock set before it.
pub(crate) fn unix_time_secs() -> (r: u64) {
    secs_or_zero(seconds_since_epoch())
}

/// Seconds since the epoch as a signed number, wrapping as a cast does.
pub(crate) fn secs_as_i64(secs: u64) -> (r: i64)
    ensures
        r == secs as i64,
{
    secs as i64
}

} // verus!
