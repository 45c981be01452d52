//! The monotonic clock.
use vstd::prelude::*;

verus! {

/// `std::time::Instant`, a moment of the monotonic clock.
#[verifier::external_type_specification]
#[verifier::external_body]
pub struct ExInstant(std::time::Instant);

/// `std::time::Instant::now`. Nothing is known of the moment.
#[verifier::external_body]
fn moment() -> (r: std::time::Instant) {
    std::time::Instant::now()
}

/// `std::time::Instant::elapsed` in nanoseconds. Nothing is known of how much
/// time has passed.
#[verifier::external_body]
fn nanos_since(start: &std::time::Instant) -> (r: u128) {
    start.elapsed().as_nanos()
}

/// A clock that counts nanoseconds from when it was started.
#[derive(Debug)]
pub struct Clock {
    start: std::time::Instant,
}

impl Clock {
    pub fn start() -> (r: Clock) {
        Clock { start: moment() }
    }

    /// The nanoseconds that have passed.
    pub fn now(&self) -> (r: u128) {
        nanos_since(&self.start)
    }
}

} // verus!
