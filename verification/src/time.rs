//! Spans of time.

use std::time::Duration;
use vstd::prelude::*;

verus! {

/// The length of a span in nanoseconds, as `Duration::as_nanos` gives it.
pub uninterp spec fn span_nanos(d: Duration) -> nat;

/// `Duration::from_secs` gives a span of that many seconds.
pub assume_specification[ Duration::from_secs ](secs: u64) -> (r: Duration)
    ensures
        span_nanos(r) == secs * 1_000_000_000,
;

/// `Duration::from_millis` gives a span of that many milliseconds.
pub assume_specification[ Duration::from_millis ](millis: u64) -> (r: Duration)
    ensures
        span_nanos(r) == millis * 1_000_000,
;

/// `Duration::from_micros` gives a span of that many microseconds.
pub assume_specification[ Duration::from_micros ](micros: u64) -> (r: Duration)
    ensures
        span_nanos(r) == micros * 1000,
;

/// `Duration::from_nanos` gives a span of that many nanoseconds.
pub assume_specification[ Duration::from_nanos ](nanos: u64) -> (r: Duration)
    ensures
        span_nanos(r) == nanos,
;

} // verus!
