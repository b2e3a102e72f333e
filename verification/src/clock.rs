use vstd::prelude::*;

verus! {

/// Declares `std::time::Instant` so that a moment read from the clock
/// can be carried through signatures; values of it stay opaque.
#[verifier::external_type_specification]
#[verifier::external_body]
pub struct ExInstant(std::time::Instant);

/// Relies on `std::time::Instant::now` for a moment to measure the time
/// budget from. Nothing can be promised of a clock reading.
#[verifier::external_body]
pub(crate) fn instant_now() -> (t: std::time::Instant) {
    std::time::Instant::now()
}

/// Relies on `std::time::Instant::elapsed` and the ordering of
/// `std::time::Duration`: whether more than `timeout_ms` milliseconds have
/// passed since `start`. The answer depends on the clock, so nothing is
/// promised of it; callers must be correct for either outcome.
#[verifier::external_body]
pub(crate) fn timed_out(start: &std::time::Instant, timeout_ms: u64) -> bool {
    start.elapsed() > std::time::Duration::from_millis(timeout_ms)
}

} // verus!
