//! Monotonic time, read as nanoseconds elapsed since a reference instant.
//!
//! What the clock reads is not predictable: the wrappers below claim nothing
//! of their results, and the verified logic takes the reading as an argument.
use std::time::{Duration, Instant};
use vstd::prelude::*;

verus! {

#[verifier::external_type_specification]
#[verifier::external_body]
pub struct ExInstant(Instant);

/// `Instant::now`: the current instant; nothing is claimed of it.
#[verifier::external_body]
pub(crate) fn instant_now() -> Instant {
    Instant::now()
}

/// `Instant::elapsed`: the time since `origin`; nothing is claimed of it.
#[verifier::external_body]
pub(crate) fn instant_elapsed(origin: &Instant) -> Duration {
    origin.elapsed()
}

/// `Duration::as_nanos`: the whole nanoseconds of `d`. Not stated: a
/// `Duration` is opaque here, and the only one converted is a clock reading.
#[verifier::external_body]
pub(crate) fn duration_nanos(d: &Duration) -> u128 {
    d.as_nanos()
}

/// Nanoseconds elapsed since `origin`.
pub(crate) fn nanos_since(origin: &Instant) -> u128 {
    let d = instant_elapsed(origin);
    duration_nanos(&d)
}

} // verus!
