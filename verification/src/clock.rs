//! The time of day.

use vstd::prelude::*;

verus! {

/// Reads `std::time::SystemTime::now` as milliseconds since the Unix epoch; `None` where the clock
/// stands before it. Nothing is claimed of the result.
#[verifier::external_body]
fn since_epoch() -> (r: Option<u128>) {
    match std::time::SystemTime::now().duration_since(std::time::UNIX_EPOCH) {
        Ok(d) => Some(d.as_millis()),
        Err(_) => None,
    }
}

/// Milliseconds since the Unix epoch, as the clock says. Nothing can be said of when that is; how a
/// reading becomes the result is the contract of [`ms_of_reading`].
pub(crate) fn now_ms() -> (r: u64) {
    ms_of_reading(since_epoch())
}

/// The milliseconds that a reading of the clock stands for: the lowest 64 bits of them; 0 where the
/// clock stands before the Unix epoch.
pub open spec fn reading_ms(reading: Option<u128>) -> int {
    match reading {
        Some(ms) => ms as int % 0x1_0000_0000_0000_0000,
        None => 0,
    }
}

/// See [`reading_ms`].
pub fn ms_of_reading(reading: Option<u128>) -> (r: u64)
    ensures
        r == reading_ms(reading),
{
    match reading {
        Some(ms) => {
            assert(ms as u64 == ms % 0x1_0000_0000_0000_0000u128) by (bit_vector);
            #[verifier::truncate]
            (ms as u64)
        },
        None => 0,
    }
}

/// A reading that fits is the number of milliseconds it says; without a reading it is none.
pub proof fn readings_that_fit_are_kept(ms: u128)
    ensures
        ms <= u64::MAX ==> reading_ms(Some(ms)) == ms,
        reading_ms(None) == 0,
{
}

} // verus!
