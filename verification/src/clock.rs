//! Spans of time, as `std::time::Duration` makes them from a count.
use vstd::prelude::*;
use std::time::Duration;

verus! {

/// The span `Duration::from_micros` makes of a count of microseconds.
pub uninterp spec fn micros_span(micros: u64) -> Duration;

/// The span `Duration::from_millis` makes of a count of milliseconds.
pub uninterp spec fn millis_span(millis: u64) -> Duration;

/// `Duration::from_micros`; claims only that the span it makes depends on
/// the count alone.
#[verifier::external_body]
pub(crate) fn from_micros(micros: u64) -> (r: Duration)
    ensures
        r == micros_span(micros),
{
    Duration::from_micros(micros)
}

/// `Duration::from_millis`; claims only that the span it makes depends on
/// the count alone.
#[verifier::external_body]
pub(crate) fn from_millis(millis: u64) -> (r: Duration)
    ensures
        r == millis_span(millis),
{
    Duration::from_millis(millis)
}

} // verus!
