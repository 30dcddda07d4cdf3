//! The monotonic clock that expiry is measured by.

use vstd::prelude::*;

verus! {

/// A reading of tokio's monotonic clock, carried as it is.
#[verifier::external_type_specification]
#[verifier::external_body]
pub struct ExInstant(tokio::time::Instant);

/// Reads the clock with `tokio::time::Instant::now`. Nothing is claimed of
/// the reading.
#[verifier::external_body]
pub(crate) fn read_instant() -> tokio::time::Instant {
    tokio::time::Instant::now()
}

/// The nanoseconds that have passed since `origin` was read, by
/// `tokio::time::Instant::elapsed` and `Duration::as_nanos`. Nothing is
/// claimed of the number: it depends on when the call is made.
#[verifier::external_body]
pub(crate) fn nanos_since(origin: &tokio::time::Instant) -> u128 {
    origin.elapsed().as_nanos()
}

} // verus!
