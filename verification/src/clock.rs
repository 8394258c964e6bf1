//! The time of day.

use vstd::prelude::*;

verus! {

/// Calls `SystemTime::now` and gives the whole seconds since 1970, or nothing
/// where the clock stands before. Nothing is known of the result: it is the
/// time.
#[verifier::external_body]
fn system_seconds() -> (r: Option<u64>) {
    std::time::SystemTime::now().duration_since(std::time::UNIX_EPOCH).ok().map(|d| d.as_secs())
}

/// A clock before 1970 counts as 1970.
pub fn epoch_of(seconds: Option<u64>) -> (r: u64)
    ensures
        r == (match seconds {
            Some(s) => s,
            None => 0,
        }),
{
    match seconds {
        Some(s) => s,
        None => 0,
    }
}

/// The time in seconds since 1970, as the system's clock has it.
pub fn epoch_now() -> u64 {
    epoch_of(system_seconds())
}

} // verus!
