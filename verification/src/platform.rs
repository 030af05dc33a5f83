//! Clock and randomness, taken from the platform through trusted wrappers.
//! Nothing is promised of a clock reading or of a random draw beyond its
//! range: the callers state what holds of every outcome.

use vstd::prelude::*;

verus! {

/// Relies on `std::time::SystemTime::now` and
/// `SystemTime::duration_since(UNIX_EPOCH)`: seconds since the Unix epoch.
/// Nothing is promised of the value; a clock before the epoch reads as 0.
#[verifier::external_body]
pub fn now_secs() -> u64 {
    match std::time::SystemTime::now().duration_since(std::time::UNIX_EPOCH) {
        Ok(d) => d.as_secs(),
        Err(_) => 0,
    }
}

/// Relies on `rand::random::<u64>`: a fresh draw from the thread-local
/// generator. Nothing is promised of the value.
#[verifier::external_body]
pub fn random_u64() -> u64 {
    rand::random::<u64>()
}

/// Relies on `rand::Rng::gen_range` on `rand::thread_rng`: a draw that is
/// uniform over `0..bound`. It panics only on an empty range, which the
/// `requires` excludes.
#[verifier::external_body]
pub fn random_below(bound: u64) -> (r: u64)
    requires
        bound > 0,
    ensures
        r < bound,
{
    rand::Rng::gen_range(&mut rand::thread_rng(), 0..bound)
}

} // verus!
