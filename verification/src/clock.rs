//! The system's wall clock, read where a value has to differ from run to
//! run.

use vstd::prelude::*;

verus! {

/// `std::time::SystemTimeError`, the error of a clock that stands before
/// the time it is compared with. Nothing is known of its contents.
#[verifier::external_type_specification]
#[verifier::external_body]
pub struct ExSystemTimeError(std::time::SystemTimeError);

/// `Duration::as_nanos`: the whole duration in nanoseconds. Nothing is
/// claimed of the number.
pub assume_specification[ core::time::Duration::as_nanos ](d: &core::time::Duration) -> (n: u128)
;

/// Calls `SystemTime::elapsed` on `UNIX_EPOCH`: the time that the system's
/// clock shows, counted from the start of 1970, or the error that std gives
/// where the clock stands before that. Nothing is claimed of the result.
#[verifier::external_body]
fn time_since_epoch() -> (elapsed: Result<core::time::Duration, std::time::SystemTimeError>) {
    std::time::UNIX_EPOCH.elapsed()
}

/// Nanoseconds since the start of 1970 by the system's clock, or 0 where the
/// clock stands before that.
pub fn wall_clock_nanos() -> u128 {
    match time_since_epoch() {
        Ok(elapsed) => elapsed.as_nanos(),
        Err(_) => 0,
    }
}

} // verus!
