//! A monotonic clock whose readings are plain nanosecond counts.

use vstd::prelude::*;

use std::time::{Duration, Instant};

verus! {

/// std's monotonic instant, carried opaquely as a clock's origin.
#[verifier::external_type_specification]
#[verifier::external_body]
pub struct ExInstant(Instant);

/// Relies on std::time::Instant::now: a reading of the monotonic clock.
#[verifier::external_body]
fn instant_now() -> Instant {
    Instant::now()
}

/// Relies on std::time::Instant::elapsed: time passed since `origin`.
#[verifier::external_body]
fn instant_elapsed(origin: &Instant) -> Duration {
    origin.elapsed()
}

/// Relies on std::time::Duration::as_nanos: a duration in whole nanoseconds.
#[verifier::external_body]
fn duration_nanos(d: &Duration) -> u128 {
    d.as_nanos()
}

/// Monotonic clock; a reading is the number of nanoseconds since the clock
/// was started.
pub struct Clock {
    origin: Instant,
}

impl Clock {
    /// Starts a clock at the current instant.
    pub fn new() -> (r: Self) {
        Clock { origin: instant_now() }
    }

    /// Nanoseconds since the clock was started, saturating at `u64::MAX`.
    pub fn now_nanos(&self) -> (r: u64) {
        let d = instant_elapsed(&self.origin);
        let n = duration_nanos(&d);
        if n > u64::MAX as u128 {
            u64::MAX
        } else {
            n as u64
        }
    }
}

} // verus!
