//! Instants, dates and waits as plain numbers.
//!
//! An instant is a count of seconds since the Unix epoch with a count of
//! nanoseconds beside it; a date is a count of days. Nothing here reads a
//! clock: the present instant is always an argument.

use vstd::prelude::*;

verus! {

/// Nanoseconds in one second.
pub const NANOS_PER_SECOND: u32 = 1_000_000_000;

/// Seconds in one day.
pub const SECONDS_PER_DAY: i64 = 86_400;

/// The day count, from the first day of year 1, of the first of January 1970.
pub const EPOCH_DAYS_FROM_CE: i32 = 719_163;

/// An instant: whole seconds since the Unix epoch, and the nanoseconds past
/// that second.
#[derive(Debug, Clone, Copy, PartialEq, Eq, Structural)]
pub struct Timestamp {
    pub seconds: i64,
    pub nanos: u32,
}

/// A calendar day, counted in days from the first day of year 1, which is
/// day 1.
#[derive(Debug, Clone, Copy, PartialEq, Eq, Structural)]
pub struct Date {
    pub days_from_ce: i32,
}

/// A span of time that is never negative.
#[derive(Debug, Clone, Copy, PartialEq, Eq, Structural)]
pub struct Wait {
    pub seconds: u64,
    pub nanos: u32,
}

impl Timestamp {
    /// The instant as one count of nanoseconds since the epoch.
    pub open spec fn total_nanos(self) -> int {
        self.seconds * 1_000_000_000 + self.nanos
    }

    /// Whether the nanoseconds stay within their second.
    pub open spec fn well_formed(self) -> bool {
        self.nanos < NANOS_PER_SECOND
    }

    /// Whether `self` is strictly later than `other`: by the seconds, then
    /// by the nanoseconds.
    pub open spec fn later_than(self, other: Timestamp) -> bool {
        self.seconds > other.seconds || (self.seconds == other.seconds && self.nanos
            > other.nanos)
    }

    /// Whether this instant is strictly later than the other.
    pub fn is_after(&self, other: &Timestamp) -> (r: bool)
        ensures
            r == self.later_than(*other),
    {
        self.seconds > other.seconds || (self.seconds == other.seconds && self.nanos > other.nanos)
    }
}

impl Wait {
    /// The span as one count of nanoseconds.
    pub open spec fn total_nanos(self) -> int {
        self.seconds * 1_000_000_000 + self.nanos
    }

    /// Whether the nanoseconds stay within their second.
    pub open spec fn well_formed(self) -> bool {
        self.nanos < NANOS_PER_SECOND
    }

    /// A span of whole seconds.
    pub fn from_secs(seconds: u64) -> (w: Wait)
        ensures
            w == (Wait { seconds, nanos: 0 }),
            w.well_formed(),
    {
        Wait { seconds, nanos: 0 }
    }
}

impl Date {
    /// The seconds since the epoch at which this day begins.
    pub open spec fn midnight_seconds(self) -> int {
        (self.days_from_ce - EPOCH_DAYS_FROM_CE) * SECONDS_PER_DAY
    }

    /// The first instant of this day.
    pub fn at_midnight(&self) -> (t: Timestamp)
        ensures
            t.seconds == self.midnight_seconds(),
            t.nanos == 0,
    {
        let days: i64 = self.days_from_ce as i64 - EPOCH_DAYS_FROM_CE as i64;
        Timestamp { seconds: days * SECONDS_PER_DAY, nanos: 0 }
    }
}

/// Among well-formed instants, later by seconds and nanoseconds is the same
/// as a larger count of nanoseconds.
pub proof fn lemma_later_is_more_nanos(a: Timestamp, b: Timestamp)
    requires
        a.well_formed(),
        b.well_formed(),
    ensures
        a.later_than(b) <==> a.total_nanos() > b.total_nanos(),
{
}

} // verus!
