//! Readings of the system clock. Only `read_clock` makes a reading, so a
//! contract that speaks of a reading speaks of one the clock gave during
//! the call, not of an instant chosen by the code.
use vstd::prelude::*;
use crate::logging::{epoch_distance, system_now};

verus! {

/// One reading of the system clock: its distance from the Unix epoch, in
/// whole seconds and nanoseconds, and on which side of it the reading lies.
pub struct ClockReading {
    after: bool,
    secs: u64,
    nanos: u32,
}

impl ClockReading {
    /// Whether the reading lies at or after the epoch.
    pub closed spec fn after(&self) -> bool {
        self.after
    }

    /// The whole seconds between the reading and the epoch.
    pub closed spec fn secs(&self) -> nat {
        self.secs as nat
    }

    /// The nanoseconds beyond the whole seconds.
    pub closed spec fn nanos(&self) -> nat {
        self.nanos as nat
    }

    pub fn is_after(&self) -> (r: bool)
        ensures
            r == self.after(),
    {
        self.after
    }

    pub fn seconds(&self) -> (r: u64)
        ensures
            r as nat == self.secs(),
    {
        self.secs
    }

    pub fn nanoseconds(&self) -> (r: u32)
        ensures
            r as nat == self.nanos(),
    {
        self.nanos
    }
}

/// Reads the clock.
pub fn read_clock() -> (r: ClockReading)
    ensures
        r.nanos() < 1000000000,
{
    let now = system_now();
    let (after, secs, nanos) = epoch_distance(&now);
    ClockReading { after, secs, nanos }
}

} // verus!
