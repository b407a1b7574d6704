//! Spans of time, and the clock.

use chrono::Utc;
use std::time::Instant;
use vstd::prelude::*;

verus! {

/// A span of time in whole seconds and the nanoseconds beyond them.
#[derive(Clone, Copy, Debug, PartialEq, Eq, Structural)]
pub struct Span {
    pub secs: u64,
    pub nanos: u32,
}

impl Span {
    /// The number of whole milliseconds in the span.
    pub open spec fn millis(self) -> int {
        self.secs * 1000 + (self.nanos / 1_000_000) as int
    }

    /// The number of whole microseconds in the span.
    pub open spec fn micros(self) -> int {
        self.secs * 1_000_000 + (self.nanos / 1000) as int
    }

    /// A span of whole seconds.
    pub fn from_secs(secs: u64) -> (r: Span)
        ensures
            r == (Span { secs, nanos: 0 }),
            r.millis() == secs * 1000,
    {
        Span { secs, nanos: 0 }
    }

    /// A span of whole milliseconds.
    pub fn from_millis(millis: u64) -> (r: Span)
        ensures
            r.secs == millis / 1000,
            r.nanos == (millis % 1000) * 1_000_000,
            r.millis() == millis,
    {
        Span { secs: millis / 1000, nanos: (millis % 1000) as u32 * 1_000_000 }
    }

    /// The number of whole milliseconds in the span.
    pub fn as_millis(self) -> (r: u128)
        ensures
            r == self.millis(),
    {
        self.secs as u128 * 1000 + (self.nanos / 1_000_000) as u128
    }

    /// The number of whole microseconds in the span.
    pub fn as_micros(self) -> (r: u128)
        ensures
            r == self.micros(),
    {
        self.secs as u128 * 1_000_000 + (self.nanos / 1000) as u128
    }
}

impl Span {
    /// The whole milliseconds, as far as 64 bits hold them.
    pub fn whole_millis(self) -> (r: u64)
        ensures
            r == self.millis() % 0x1_0000_0000_0000_0000,
    {
        (self.as_millis() % 0x1_0000_0000_0000_0000) as u64
    }

    /// The whole microseconds, as far as 64 bits hold them.
    pub fn whole_micros(self) -> (r: u64)
        ensures
            r == self.micros() % 0x1_0000_0000_0000_0000,
    {
        (self.as_micros() % 0x1_0000_0000_0000_0000) as u64
    }
}

/// `std::time::Instant`, a reading of the clock that cannot be looked into.
#[verifier::external_type_specification]
#[verifier::external_body]
pub struct ExInstant(Instant);

/// `Instant::now`: the current reading of the clock, of which nothing is
/// known.
#[verifier::external_body]
pub(crate) fn now() -> Instant {
    Instant::now()
}

/// `Instant::elapsed`: the time since a reading of the clock. It depends on
/// when it is asked; of its parts only that the nanoseconds stay below a
/// second is known.
#[verifier::external_body]
pub(crate) fn elapsed(since: &Instant) -> (r: Span)
    ensures
        r.nanos < 1_000_000_000,
{
    let span = since.elapsed();
    Span { secs: span.as_secs(), nanos: span.subsec_nanos() }
}

/// A point in time: seconds since the start of 1970 in UTC, and the
/// nanoseconds beyond them.
#[derive(Clone, Copy, Debug, PartialEq, Eq, Structural)]
pub struct Moment {
    pub secs: i64,
    pub nanos: u32,
}

impl Moment {
    /// Whether the point lies in the years that a date can have.
    pub open spec fn is_date(self) -> bool {
        0 <= self.secs < 10_000_000_000_000 && self.nanos < 1_000_000_000
    }

    /// Milliseconds since the start of 1970.
    pub fn timestamp_millis(self) -> (r: i64)
        requires
            self.is_date(),
        ensures
            r == self.secs * 1000 + (self.nanos / 1_000_000) as int,
    {
        self.secs * 1000 + (self.nanos / 1_000_000) as i64
    }
}

/// `chrono::Utc::now`: the current date and time, taken apart. It depends on
/// when it is asked; it is not before 1970, not after the years that
/// `chrono::DateTime` holds, and its nanoseconds stay below a second.
#[verifier::external_body]
pub(crate) fn utc_now() -> (r: Moment)
    ensures
        r.is_date(),
{
    let date = Utc::now();
    Moment { secs: date.timestamp(), nanos: date.timestamp_subsec_nanos() }
}

/// `chrono::DateTime::to_rfc3339` of the current date and time: a text that
/// depends on when it is asked, and of which nothing is known.
#[verifier::external_body]
pub(crate) fn rfc3339_now() -> String {
    Utc::now().to_rfc3339()
}

} // verus!
