//! Reading the clock.
use vstd::prelude::*;

use std::time::Instant;

verus! {

/// `Instant::now`: the current time. Nothing is claimed about it.
#[verifier::external_body]
fn instant_now() -> Instant {
    Instant::now()
}

/// A reading of the clock: the instant it showed when it was read. Only
/// `read_clock` makes one, so the instant a reading holds is a time the
/// clock showed while the program ran, taken when `read_clock` was called.
pub struct ClockReading {
    instant: Instant,
}

impl ClockReading {
    /// The instant the clock showed.
    pub closed spec fn time(self) -> Instant {
        self.instant
    }

    /// The instant the clock showed.
    pub fn instant(&self) -> (t: Instant)
        ensures
            t == self.time(),
    {
        self.instant
    }
}

/// Reads the clock.
pub fn read_clock() -> ClockReading {
    ClockReading { instant: instant_now() }
}

} // verus!
