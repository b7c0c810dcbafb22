//! A monotonic clock.
use vstd::prelude::*;

verus! {

/// The instant of the `tokio` crate.
#[verifier::external_type_specification]
#[verifier::external_body]
pub struct ExInstant(tokio::time::Instant);

/// [`tokio::time::Instant::now`]: the current instant. Nothing is claimed of it.
#[verifier::external_body]
fn current_instant() -> tokio::time::Instant {
    tokio::time::Instant::now()
}

/// [`tokio::time::Instant::elapsed`]: the time since an instant, in nanoseconds. Nothing is
/// claimed of it.
#[verifier::external_body]
fn elapsed_nanos(start: &tokio::time::Instant) -> u64 {
    start.elapsed().as_nanos() as u64
}

/// Counts the nanoseconds since its creation.
pub struct Clock {
    start: tokio::time::Instant,
}

impl Clock {
    /// A clock that starts now.
    pub fn new() -> Clock {
        Clock { start: current_instant() }
    }

    /// Nanoseconds since the creation of the clock. Any value may come back.
    pub fn now(&self) -> u64 {
        elapsed_nanos(&self.start)
    }
}

} // verus!
