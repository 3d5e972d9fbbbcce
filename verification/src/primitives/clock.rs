//! The system clock.
use vstd::prelude::*;

verus! {

/// Reads the system clock (`SystemTime::now`) as nanoseconds since the Unix
/// epoch; 0 when the clock reads earlier than the epoch. Nothing is promised
/// of the value.
#[verifier::external_body]
pub(crate) fn unix_time_nanos() -> (r: u128)
{
    match std::time::SystemTime::now().duration_since(std::time::UNIX_EPOCH) {
        Ok(d) => d.as_nanos(),
        Err(_) => 0,
    }
}

/// Reads the system clock (`SystemTime::now`) as whole seconds since the
/// Unix epoch; 0 when the clock reads earlier than the epoch. Nothing is
/// promised of the value.
#[verifier::external_body]
pub(crate) fn unix_time_secs() -> (r: u64)
{
    match std::time::SystemTime::now().duration_since(std::time::UNIX_EPOCH) {
        Ok(d) => d.as_secs(),
        Err(_) => 0,
    }
}

} // verus!
