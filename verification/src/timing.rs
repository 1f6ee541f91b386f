//! Wall-clock measurement for the statistics counters. Reading a clock is
//! inherently outside what can be reasoned about, so the single read goes
//! through a trusted wrapper and nothing is promised of its value.
use vstd::prelude::*;

verus! {

/// Relies on std::time::SystemTime::now and Duration::as_nanos: reads the
/// wall clock as nanoseconds since the UNIX epoch, zero if the clock sits
/// before the epoch. Nothing is promised of the value: it depends on time.
#[verifier::external_body]
fn now_nanos() -> u64 {
    std::time::SystemTime::now().duration_since(std::time::SystemTime::UNIX_EPOCH).map(|d|
        d.as_nanos() as u64
    ).unwrap_or(0)
}

/// A stopwatch over the wall clock.
pub struct Timer {
    start_ns: u64,
}

impl Timer {
    /// Start measuring now.
    pub fn new() -> Timer {
        Timer { start_ns: now_nanos() }
    }

    /// Nanoseconds elapsed since the start (zero if the clock went back).
    pub fn elapsed(&self) -> u64 {
        let now = now_nanos();
        if now >= self.start_ns {
            now - self.start_ns
        } else {
            0
        }
    }

    /// Restart the stopwatch.
    pub fn reset(&mut self) {
        self.start_ns = now_nanos();
    }
}

} // verus!
