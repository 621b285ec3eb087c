//! The trusted boundary to the host: the clock and the random source.
//!
//! Nothing is assumed of what these return; every caller in the library
//! handles any value. The generator's layout and ordering guarantees are
//! proved in `oid` and `monotonic` over the values these hand back.

use vstd::prelude::*;

verus! {

/// Milliseconds since the Unix epoch, read from the system clock.
///
/// Relies on std::time::SystemTime: one `now` reading, converted to
/// milliseconds; a clock before the epoch reads as zero. Nothing is
/// promised of the value — callers check the range themselves.
#[verifier::external_body]
pub(crate) fn unix_epoch_millis() -> u64 {
    match std::time::SystemTime::now().duration_since(std::time::SystemTime::UNIX_EPOCH) {
        Ok(elapsed) => elapsed.as_millis() as u64,
        Err(_) => 0,
    }
}

/// Sixteen uniformly random bits.
///
/// Relies on rand::random; nothing is promised of the value.
#[verifier::external_body]
pub(crate) fn random_u16() -> u16 {
    rand::random()
}

/// Sixty-four uniformly random bits.
///
/// Relies on rand::random; nothing is promised of the value.
#[verifier::external_body]
pub(crate) fn random_u64() -> u64 {
    rand::random()
}

} // verus!
