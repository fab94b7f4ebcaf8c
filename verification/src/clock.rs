//! The clock of the timed games. Nothing here is proved: each function
//! hands a call on to the standard library, and what it returns depends on
//! the moment of the call.

use std::time::Instant;
use vstd::prelude::*;

verus! {

/// `std::time::Instant`, a moment on the clock. It is hidden from the proofs.
#[verifier::external_type_specification]
#[verifier::external_body]
pub struct ExInstant(std::time::Instant);

/// `Instant::now`: the present moment.
#[verifier::external_body]
pub(crate) fn now() -> Instant {
    Instant::now()
}

/// `Instant::elapsed`, in nanoseconds: the time that has passed since
/// `start`. It may be any.
#[verifier::external_body]
pub(crate) fn nanos_since(start: &Instant) -> u128 {
    start.elapsed().as_nanos()
}

} // verus!
