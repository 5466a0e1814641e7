//! Durations and instants.
use vstd::prelude::*;

verus! {

/// Nanoseconds in a second.
pub const NANOS: u32 = 1_000_000_000;

/// The first instant a timestamp can hold, in nanoseconds from the Unix epoch.
pub const EARLIEST: i128 = -8_334_601_228_800_000_000_000;

/// The last instant a timestamp can hold, in nanoseconds from the Unix epoch.
pub const LATEST: i128 = 8_210_266_876_799_999_999_999;

/// The longest span that can be added to an instant, in nanoseconds:
/// `i64::MAX` milliseconds.
pub const LONGEST: u128 = 9_223_372_036_854_775_807_000_000;

/// A span of time.
#[derive(Debug, Clone, Copy, PartialEq, Eq, Structural)]
pub struct Duration {
    pub secs: u64,
    /// Nanoseconds below a second.
    pub nanos: u32,
}

impl Duration {
    /// The parts below a second stay below a second.
    pub open spec fn valid(self) -> bool {
        self.nanos < NANOS
    }

    /// The whole span in nanoseconds.
    pub open spec fn total(self) -> nat {
        (self.secs * NANOS + self.nanos) as nat
    }

    /// A span of whole seconds.
    pub fn from_secs(secs: u64) -> (r: Duration)
        ensures
            r == (Duration { secs, nanos: 0 }),
            r.valid(),
    {
        Duration { secs, nanos: 0 }
    }

    /// A span of milliseconds.
    pub fn from_millis(millis: u64) -> (r: Duration)
        ensures
            r.valid(),
            r.total() == millis * 1_000_000,
    {
        Duration { secs: millis / 1000, nanos: ((millis % 1000) * 1_000_000) as u32 }
    }

    /// Tells whether the span is empty.
    pub fn is_zero(&self) -> (r: bool)
        ensures
            r == (self.total() == 0),
    {
        self.secs == 0 && self.nanos == 0
    }

    /// The span in nanoseconds.
    pub fn as_nanos(&self) -> (r: u128)
        ensures
            r == self.total(),
    {
        self.secs as u128 * 1_000_000_000 + self.nanos as u128
    }

    /// Tells the shorter of two spans.
    pub fn shorter(&self, other: &Duration) -> (r: bool)
        ensures
            r == (self.total() < other.total()),
    {
        self.as_nanos() < other.as_nanos()
    }
}

/// An instant, in nanoseconds from the Unix epoch. A leap second counts as the
/// second that follows it.
#[derive(Debug, Clone, Copy, PartialEq, Eq, Structural)]
pub struct Timestamp {
    pub nanos: i128,
}

impl Timestamp {
    /// The instant lies within the years the calendar knows.
    pub open spec fn valid(self) -> bool {
        EARLIEST <= self.nanos <= LATEST
    }

    /// The span from `from` to `to`, empty when `to` is no later.
    pub open spec fn span(from: Timestamp, to: Timestamp) -> nat {
        if to.nanos <= from.nanos {
            0
        } else {
            (to.nanos - from.nanos) as nat
        }
    }

    /// The span from `from` to `to`, empty when `to` is no later.
    pub fn until(from: Timestamp, to: Timestamp) -> (r: Duration)
        requires
            from.valid(),
            to.valid(),
        ensures
            r.valid(),
            r.total() == Timestamp::span(from, to),
    {
        if to.nanos <= from.nanos {
            return Duration { secs: 0, nanos: 0 };
        }
        let gap: u128 = (to.nanos - from.nanos) as u128;
        let secs: u64 = (gap / 1_000_000_000) as u64;
        let nanos: u32 = (gap % 1_000_000_000) as u32;
        Duration { secs, nanos }
    }

    /// The instant a span later.
    pub fn later(&self, d: &Duration) -> (r: Timestamp)
        requires
            self.valid(),
            self.nanos + d.total() <= LATEST,
        ensures
            r.valid(),
            r.nanos == self.nanos + d.total(),
    {
        Timestamp { nanos: self.nanos + d.as_nanos() as i128 }
    }

    /// The instant a number of seconds and nanoseconds after the Unix epoch.
    pub fn from_unix(secs: i64, nanos: u32) -> (r: Timestamp)
        ensures
            r.nanos == secs * 1_000_000_000 + nanos,
    {
        Timestamp { nanos: secs as i128 * 1_000_000_000 + nanos as i128 }
    }
}

/// The span between two instants is what separates them, and nothing where the
/// second is not later: it grows with the second and adds up.
pub proof fn law_spans_add_up(a: Timestamp, b: Timestamp, c: Timestamp)
    requires
        a.nanos <= b.nanos <= c.nanos,
    ensures
        a.nanos + Timestamp::span(a, b) == b.nanos,
        Timestamp::span(a, b) + Timestamp::span(b, c) == Timestamp::span(a, c),
        Timestamp::span(c, a) == 0,
{
}

/// A span of seconds and nanoseconds counts a thousand million of the latter for
/// each of the former.
pub proof fn law_seconds_are_a_thousand_million(secs: u64, nanos: u32)
    ensures
        (Duration { secs, nanos }).total() == secs * 1_000_000_000 + nanos,
        (Duration { secs, nanos }).valid() <==> nanos < 1_000_000_000,
{
}

} // verus!
