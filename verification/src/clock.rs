//! Measuring how long an operation takes.

use std::time::Instant;
use vstd::prelude::*;

verus! {

/// A point in time of the standard library.
#[verifier::external_type_specification]
#[verifier::external_body]
pub struct ExInstant(std::time::Instant);

/// `Instant::now`.  Nothing is claimed of it.
#[verifier::external_body]
pub(crate) fn now() -> Instant {
    Instant::now()
}

/// `Instant::elapsed`, in whole milliseconds.  Nothing is claimed of it.
#[verifier::external_body]
pub(crate) fn elapsed_ms(start: &Instant) -> u64 {
    start.elapsed().as_millis() as u64
}

} // verus!
