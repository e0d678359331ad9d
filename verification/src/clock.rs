//! Wall-clock source.
//!
//! The only source of timestamps: milliseconds since the Unix epoch. What
//! the clock reads depends on the machine, so callers learn only that the
//! result is nonnegative.

use vstd::prelude::*;

verus! {

/// Relies on std's `SystemTime::now` and `duration_since(UNIX_EPOCH)`:
/// milliseconds since the epoch, zero when the clock sits before the epoch
/// or the count does not fit.
#[verifier::external_body]
pub fn now_unix_ms() -> (r: i64)
    ensures
        r >= 0,
{
    match std::time::SystemTime::now().duration_since(std::time::UNIX_EPOCH) {
        Ok(d) => i64::try_from(d.as_millis()).unwrap_or(0),
        Err(_) => 0,
    }
}

} // verus!
