use vstd::prelude::*;

verus! {

/// Trusted: `std::time::SystemTime::elapsed` on `UNIX_EPOCH`, read in whole
/// seconds; 0 where the clock stands before the epoch. Nothing is claimed
/// of the value.
#[verifier::external_body]
pub(crate) fn current_time_seconds() -> u128 {
    match std::time::UNIX_EPOCH.elapsed() {
        Ok(elapsed) => u128::from(elapsed.as_secs()),
        Err(_) => 0,
    }
}

} // verus!
