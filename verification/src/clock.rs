//! The monotonic clock that stamps orders and trades.

use vstd::prelude::*;

verus! {

/// `std::time::Instant`, carried through as an opaque value.
#[verifier::external_type_specification]
#[verifier::external_body]
pub struct ExInstant(std::time::Instant);

/// `Instant::now` reads the clock; nothing is claimed of the instant.
pub assume_specification[ std::time::Instant::now ]() -> (now: std::time::Instant);

/// `Instant::elapsed` measures against the clock; nothing is claimed of the
/// duration.
pub assume_specification[ std::time::Instant::elapsed ](start: &std::time::Instant) -> (d:
    std::time::Duration);

/// `Duration::as_secs` gives the whole seconds of a duration, which is opaque
/// here; nothing is claimed of the number.
pub assume_specification[ std::time::Duration::as_secs ](d: &std::time::Duration) -> (secs: u64);

/// The whole seconds that have passed on the monotonic clock since the call
/// began: the stamp given to new orders and trades.
pub(crate) fn timestamp() -> (secs: u64) {
    let start = std::time::Instant::now();
    let passed = start.elapsed();
    passed.as_secs()
}

} // verus!
