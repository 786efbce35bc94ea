//! The wall clock, for the time budget of a generation.

use std::time::Duration;
use std::time::Instant;
use vstd::prelude::*;

verus! {

/// The instant `std::time::Instant`; nothing of it is visible to the
/// proofs.
#[verifier::external_type_specification]
#[verifier::external_body]
pub struct ExInstant(std::time::Instant);

/// The current instant, from `Instant::now`.
#[verifier::external_body]
pub(crate) fn now() -> Instant {
    Instant::now()
}

/// The time that has passed since `start`, from `Instant::elapsed`. It
/// depends on the clock; nothing is claimed of it.
#[verifier::external_body]
pub(crate) fn elapsed_since(start: &Instant) -> Duration {
    start.elapsed()
}

/// Whether the duration `spent` is at least the duration `limit`: the
/// answer of `>=` on `Duration`.
pub uninterp spec fn duration_reaches(spent: Duration, limit: Duration) -> bool;

/// Whether `spent` is at least `limit`, by `>=` on `Duration`, which
/// compares the two lengths of time.
#[verifier::external_body]
pub(crate) fn reaches(spent: &Duration, limit: &Duration) -> (b: bool)
    ensures
        b == duration_reaches(*spent, *limit),
{
    spent >= limit
}

/// The duration of `ms` milliseconds: the value of `Duration::from_millis`.
pub uninterp spec fn duration_of_millis(ms: u64) -> Duration;

/// The duration of `ms` milliseconds, from `Duration::from_millis`.
#[verifier::external_body]
pub(crate) fn milliseconds(ms: u64) -> (d: Duration)
    ensures
        d == duration_of_millis(ms),
{
    Duration::from_millis(ms)
}

} // verus!
