//! The monotonic clock. What it returns depends on when it is asked, so
//! nothing is claimed of a reading; the rest of the library is proved for
//! every value that a reading may have.

use std::time::Duration;
use std::time::Instant;
use vstd::prelude::*;

verus! {

/// `std::time::Instant`: a point on the monotonic clock, carried as it is.
#[verifier::external_type_specification]
#[verifier::external_body]
pub struct ExInstant(std::time::Instant);

/// `Instant::now` reads the clock. The reading is taken as it comes.
pub assume_specification[ Instant::now ]() -> (r: Instant);

/// `Instant::elapsed` measures the time since the instant was taken. It does
/// not fail: std gives zero where the clock went backwards.
pub assume_specification[ Instant::elapsed ](start: &Instant) -> (r: Duration);

/// `Duration::as_nanos` gives a duration as whole nanoseconds.
pub assume_specification[ Duration::as_nanos ](d: &Duration) -> (r: u128);

/// Cuts a count of nanoseconds down to what 64 bits hold.
pub open spec fn capped(nanos: u128) -> u64 {
    if nanos > u64::MAX {
        u64::MAX
    } else {
        nanos as u64
    }
}

/// A count of nanoseconds in 64 bits; one that does not fit (more than 584
/// years) is held at the largest value.
pub fn cap_nanos(nanos: u128) -> (r: u64)
    ensures
        r == capped(nanos),
{
    if nanos > u64::MAX as u128 {
        u64::MAX
    } else {
        nanos as u64
    }
}

/// Nanoseconds that have passed since `start`.
pub fn nanos_since(start: &Instant) -> u64 {
    let passed = start.elapsed();
    cap_nanos(passed.as_nanos())
}

} // verus!
