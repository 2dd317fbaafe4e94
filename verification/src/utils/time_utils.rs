//! The wall clock, as plain integers. Nothing can be promised about
//! what the clock reads; callers state what holds of every outcome.

use vstd::prelude::*;

verus! {

/// Relies on std::time::SystemTime::duration_since(UNIX_EPOCH): the
/// microseconds since the Unix epoch, or zero before it.
#[verifier::external_body]
pub fn now() -> usize {
    std::time::SystemTime::now().duration_since(std::time::UNIX_EPOCH).map(
        |d| d.as_micros() as usize,
    ).unwrap_or(0)
}

/// Relies on std::time::SystemTime::duration_since(UNIX_EPOCH): the
/// nanoseconds since the Unix epoch, or zero before it.
#[verifier::external_body]
pub fn now_as_nano() -> usize {
    std::time::SystemTime::now().duration_since(std::time::UNIX_EPOCH).map(
        |d| d.as_nanos() as usize,
    ).unwrap_or(0)
}

} // verus!
