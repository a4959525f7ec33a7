//! The monotonic clock.
use vstd::prelude::*;

use std::time::Instant;

verus! {

#[verifier::external_type_specification]
#[verifier::external_body]
pub struct ExInstant(Instant);

/// `std::time::Instant::now`: the current instant of the monotonic
/// clock. Nothing is claimed of it: it depends on the time of the call.
#[verifier::external_body]
pub(crate) fn now() -> Instant {
    Instant::now()
}

/// `std::time::Instant::elapsed` of `since`, read as whole nanoseconds
/// with `Duration::as_nanos`. Nothing is claimed of it: it depends on
/// the time of the call.
#[verifier::external_body]
pub(crate) fn nanos_since(since: &Instant) -> u128 {
    since.elapsed().as_nanos()
}

} // verus!
