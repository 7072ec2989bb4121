//! Spans of time, and the clocks of the host.

use std::time::{Instant, SystemTime};

use vstd::prelude::*;

verus! {

/// A moment of the host's calendar clock, carried through as it is.
#[verifier::external_type_specification]
#[verifier::external_body]
pub struct ExSystemTime(SystemTime);

/// A moment of the host's steady clock, carried through as it is.
#[verifier::external_type_specification]
#[verifier::external_body]
pub struct ExInstant(Instant);

/// `SystemTime::now`. Nothing is claimed of the moment.
pub assume_specification[ SystemTime::now ]() -> SystemTime;

/// `Instant::now`. Nothing is claimed of the moment.
pub assume_specification[ Instant::now ]() -> Instant;

/// `SystemTime::duration_since` the start of 1970, in whole seconds, or
/// nothing where the moment lies before it. Nothing is claimed of the number.
#[verifier::external_body]
pub(crate) fn seconds_since_1970(moment: &SystemTime) -> Option<u64> {
    moment.duration_since(SystemTime::UNIX_EPOCH).ok().map(|span| span.as_secs())
}

/// `Instant::elapsed`, in nanoseconds. Nothing is claimed of the number.
#[verifier::external_body]
pub(crate) fn nanos_since(moment: &Instant) -> u128 {
    moment.elapsed().as_nanos()
}

/// A span of time in nanoseconds.
#[derive(Debug, Clone, Copy, PartialEq, Eq, Structural)]
pub struct Span {
    pub nanos: u128,
}

impl Span {
    /// The empty span.
    pub fn zero() -> (span: Span)
        ensures
            span.nanos == 0,
    {
        Span { nanos: 0 }
    }

    /// A span of so many nanoseconds.
    pub fn from_nanos(nanos: u64) -> (span: Span)
        ensures
            span.nanos == nanos,
    {
        Span { nanos: nanos as u128 }
    }

    /// A span of so many milliseconds.
    pub fn from_millis(millis: u64) -> (span: Span)
        ensures
            span.nanos == 1_000_000 * millis,
    {
        Span { nanos: 1_000_000 * (millis as u128) }
    }

    /// The span in nanoseconds.
    pub fn as_nanos(&self) -> (nanos: u128)
        ensures
            nanos == self.nanos,
    {
        self.nanos
    }

    /// The whole microseconds of the span.
    pub fn as_micros(&self) -> (micros: u128)
        ensures
            micros == self.nanos / 1000,
    {
        self.nanos / 1000
    }

    /// Whether the span is longer than another.
    pub fn exceeds(&self, other: &Span) -> (longer: bool)
        ensures
            longer == (self.nanos > other.nanos),
    {
        self.nanos > other.nanos
    }

    /// The time that has passed since a moment.
    pub fn since(moment: &Instant) -> Span {
        Span { nanos: nanos_since(moment) }
    }
}

/// A span is told in whole microseconds, and what is left over is less than one.
pub proof fn law_microseconds_are_whole(span: Span, micros: u128)
    requires
        call_ensures(Span::as_micros, (&span,), micros),
    ensures
        1000 * micros <= span.nanos < 1000 * micros + 1000,
{
}

/// A millisecond is a million nanoseconds, and of two spans at most one is longer.
pub proof fn law_spans_are_compared(
    a: Span,
    b: Span,
    longer: bool,
    shorter: bool,
    millis: u64,
    made: Span,
)
    requires
        call_ensures(Span::exceeds, (&a, &b), longer),
        call_ensures(Span::exceeds, (&b, &a), shorter),
        call_ensures(Span::from_millis, (millis,), made),
    ensures
        !(longer && shorter),
        !longer && !shorter <==> a == b,
        longer ==> a.nanos > b.nanos,
        made.nanos == millis * 1_000_000,
{
}

} // verus!
