//! Deadlines that a client sets by the `grpc-timeout` header.
//!
//! The header says how long a call may take at most. [`DeadlineInterceptor`] reads it and says
//! what to do: hand the call on, or race its handler against a timer and end the call by what
//! comes first.

use crate::metadata::first_text;
use crate::rpc::{error_trailers, RequestHeaders, Trailers};
use crate::status::{StatusCodeError, StatusError};
use crate::text::{decimal, law_decimal_reads_back, lemma_encode_joined, parse_u64, unsigned_value};
use crate::time::span_nanos;
use std::time::Duration;
use vstd::prelude::*;
use vstd::utf8::encode_utf8;

verus! {

/// The nanoseconds of `v` units: `H` hours, `M` minutes, `S` seconds, `m` milliseconds,
/// `u` microseconds, `n` nanoseconds.
pub open spec fn nanos_of(v: nat, unit: u8) -> Option<nat> {
    if unit == 72 {
        Some(v * 3_600_000_000_000)
    } else if unit == 77 {
        Some(v * 60_000_000_000)
    } else if unit == 83 {
        Some(v * 1_000_000_000)
    } else if unit == 109 {
        Some(v * 1_000_000)
    } else if unit == 117 {
        Some(v * 1000)
    } else if unit == 110 {
        Some(v)
    } else {
        None
    }
}

/// The span of a timeout in nanoseconds, where its text is one: a number that fits in 64 bits,
/// and a unit.
pub open spec fn timeout_nanos(s: Seq<u8>) -> Option<nat> {
    if s.len() == 0 {
        None
    } else {
        match unsigned_value(s.drop_last()) {
            Some(v) => if v <= u64::MAX {
                nanos_of(v, s.last())
            } else {
                None
            },
            None => None,
        }
    }
}

/// Whether the seconds of the span that the text says, if it says one, fit in 64 bits.
pub open spec fn is_in_range(s: Seq<u8>) -> bool {
    timeout_nanos(s) matches Some(n) ==> n <= u64::MAX * 1_000_000_000
}

/// Whether [`parse_grpc_timeout`] can be asked for a text.
pub fn is_timeout_in_range(s: &str) -> (r: bool)
    ensures
        r == is_in_range(encode_utf8(s@)),
{
    let b: &[u8] = s.as_bytes();
    if b.len() == 0 {
        return true;
    }
    let unit: u8 = b[b.len() - 1];
    let (digits, _) = b.split_at(b.len() - 1);
    assert(digits@ =~= b@.drop_last());
    match parse_u64(digits) {
        Some(val) => if unit == 72 {
            val <= u64::MAX / 3600
        } else if unit == 77 {
            val <= u64::MAX / 60
        } else {
            true
        },
        None => true,
    }
}

/// Reads a timeout: a number and a unit, without anything between them.
///
/// The unit is one of `H` (hours), `M` (minutes), `S` (seconds), `m` (milliseconds),
/// `u` (microseconds) and `n` (nanoseconds): `"100m"` are 100 milliseconds, `"2S"` two seconds.
/// Any other text is no timeout.
pub fn parse_grpc_timeout(s: &str) -> (r: Option<Duration>)
    requires
        is_in_range(encode_utf8(s@)),
    ensures
        r is Some <==> timeout_nanos(encode_utf8(s@)) is Some,
        r matches Some(d) ==> span_nanos(d) == timeout_nanos(encode_utf8(s@))->Some_0,
{
    let b: &[u8] = s.as_bytes();
    if b.len() == 0 {
        return None;
    }
    let unit: u8 = b[b.len() - 1];
    let (digits, _) = b.split_at(b.len() - 1);
    assert(digits@ =~= b@.drop_last());
    match parse_u64(digits) {
        Some(val) => {
            if unit == 72 {
                Some(Duration::from_secs(val * 3600))
            } else if unit == 77 {
                Some(Duration::from_secs(val * 60))
            } else if unit == 83 {
                Some(Duration::from_secs(val))
            } else if unit == 109 {
                Some(Duration::from_millis(val))
            } else if unit == 117 {
                Some(Duration::from_micros(val))
            } else if unit == 110 {
                Some(Duration::from_nanos(val))
            } else {
                None
            }
        },
        None => None,
    }
}

/// How a call is to be run.
pub enum DeadlinePlan {
    /// The call is handed on as it is.
    PassThrough,
    /// The handler is raced against a timer of this length.
    Race(Duration),
}

/// What came first in a race.
pub enum DeadlineEvent {
    /// The handler was done.
    HandlerDone(Trailers),
    /// The timer fired.
    TimerFired,
}

/// The timeout that the metadata of a request sets, in nanoseconds, where it sets one.
pub open spec fn requested_nanos(headers: crate::rpc::RequestHeadersView) -> Option<nat> {
    match first_text(headers.metadata, "grpc-timeout"@) {
        Some(s) => timeout_nanos(encode_utf8(s)),
        None => None,
    }
}

/// An interceptor that enforces the deadlines that clients set by the `grpc-timeout` header.
///
/// With the header, the handler is raced against a timer. If the timer fires first, the handler
/// is dropped and the call ends with `DEADLINE_EXCEEDED`. Without the header, the request is
/// handed on unchanged.
#[derive(Debug)]
pub struct DeadlineInterceptor<R> {
    runtime: R,
}

impl<R> DeadlineInterceptor<R> {
    /// The runtime whose timers are used.
    pub closed spec fn spec_runtime(&self) -> R {
        self.runtime
    }

    /// An interceptor that uses the timers of `runtime`.
    pub fn new(runtime: R) -> (r: Self)
        ensures
            r.spec_runtime() == runtime,
    {
        DeadlineInterceptor { runtime }
    }

    /// The runtime whose timers are used.
    pub fn runtime(&self) -> (r: &R)
        ensures
            *r == self.spec_runtime(),
    {
        &self.runtime
    }

    /// Says how a call with these headers is to be run.
    pub fn plan(&self, headers: &RequestHeaders) -> (r: DeadlinePlan)
        requires
            first_text(headers@.metadata, "grpc-timeout"@) matches Some(s) ==> is_in_range(
                encode_utf8(s),
            ),
        ensures
            r is PassThrough <==> requested_nanos(headers@) is None,
            r matches DeadlinePlan::Race(d) ==> span_nanos(d) == requested_nanos(headers@)->Some_0,
    {
        match headers.metadata().get("grpc-timeout") {
            Some(s) => match parse_grpc_timeout(s) {
                Some(d) => DeadlinePlan::Race(d),
                None => DeadlinePlan::PassThrough,
            },
            None => DeadlinePlan::PassThrough,
        }
    }

    /// The trailers of a call whose handler was raced against a timer.
    pub fn finish(&self, event: DeadlineEvent) -> (r: Trailers)
        ensures
            event matches DeadlineEvent::HandlerDone(t) ==> r == t,
            event is TimerFired ==> r@ == error_trailers(
                StatusCodeError::DeadlineExceeded,
                "context deadline exceeded"@,
            ),
    {
        match event {
            DeadlineEvent::HandlerDone(t) => t,
            DeadlineEvent::TimerFired => Trailers::new(
                Err(
                    StatusError::new(
                        StatusCodeError::DeadlineExceeded,
                        "context deadline exceeded",
                    ),
                ),
            ),
        }
    }
}

/// The nanoseconds of one unit, as the letters of `grpc-timeout` have it.
pub open spec fn is_unit(unit: char, nanos: nat) -> bool {
    ||| unit == 'H' && nanos == 3600 * 1_000_000_000
    ||| unit == 'M' && nanos == 60 * 1_000_000_000
    ||| unit == 'S' && nanos == 1_000_000_000
    ||| unit == 'm' && nanos == 1_000_000
    ||| unit == 'u' && nanos == 1_000
    ||| unit == 'n' && nanos == 1
}

/// A text and an ASCII character behind it, as bytes.
proof fn lemma_last_ascii(s: Seq<char>, c: char)
    requires
        (c as u32) < 128,
    ensures
        encode_utf8(s.push(c)) == encode_utf8(s).push(c as u8),
{
    let one = seq![c];
    assert(s.push(c) =~= s + one);
    lemma_encode_joined(s, one);
    assert(vstd::utf8::is_ascii_chars(one));
    vstd::utf8::is_ascii_chars_encode_utf8(one);
    assert(encode_utf8(one) =~= seq![c as u8]);
    assert(encode_utf8(s) + seq![c as u8] =~= encode_utf8(s).push(c as u8));
}

/// Every timeout that a client can set is enforced: where the first `grpc-timeout` of a request is
/// a number that fits in 64 bits and one of the six units, the handler is raced against that many
/// of these units. This holds for the number in its decimal form, and for whatever else is read as
/// that number.
pub proof fn law_every_timeout_is_enforced(
    request: crate::rpc::RequestHeadersView,
    number: Seq<char>,
    v: nat,
    unit: char,
    nanos: nat,
)
    requires
        first_text(request.metadata, "grpc-timeout"@) == Some(number.push(unit)),
        number == decimal(v) || unsigned_value(encode_utf8(number)) == Some(v),
        v <= u64::MAX,
        is_unit(unit, nanos),
    ensures
        requested_nanos(request) == Some(v * nanos),
        timeout_nanos(encode_utf8(number.push(unit))) == Some(v * nanos),
{
    lemma_last_ascii(number, unit);
    law_decimal_reads_back(v);
    let b = encode_utf8(number.push(unit));
    assert(b.drop_last() =~= encode_utf8(number));
}

/// A call runs without a deadline only where the request has no timeout: no text under
/// `grpc-timeout`, or one that does not end with a unit or has no number that fits in front of it.
pub proof fn law_only_timeouts_are_enforced(request: crate::rpc::RequestHeadersView)
    requires
        requested_nanos(request) is Some,
    ensures
        ({
            let text = first_text(request.metadata, "grpc-timeout"@);
            &&& text is Some
            &&& encode_utf8(text->Some_0).len() > 0
            &&& unsigned_value(encode_utf8(text->Some_0).drop_last()) is Some
            &&& unsigned_value(encode_utf8(text->Some_0).drop_last())->Some_0 <= u64::MAX
            &&& exists|unit: char, nanos: nat|
                #[trigger] is_unit(unit, nanos) && encode_utf8(text->Some_0).last() == unit as u8
        }),
{
    let last = encode_utf8(first_text(request.metadata, "grpc-timeout"@)->Some_0).last();
    assert(is_unit('H', 3600 * 1_000_000_000));
    assert(is_unit('M', 60 * 1_000_000_000));
    assert(is_unit('S', 1_000_000_000));
    assert(is_unit('m', 1_000_000));
    assert(is_unit('u', 1_000));
    assert(is_unit('n', 1));
    assert('H' as u8 == 72 && 'M' as u8 == 77 && 'S' as u8 == 83 && 'm' as u8 == 109 && 'u' as u8
        == 117 && 'n' as u8 == 110);
}

/// A timeout is out of range only where its seconds do not fit in 64 bits, which only hours and
/// minutes can bring about.
pub proof fn law_most_timeouts_are_in_range(number: Seq<char>, v: nat, unit: char, nanos: nat)
    requires
        unsigned_value(encode_utf8(number)) == Some(v),
        v <= u64::MAX,
        is_unit(unit, nanos),
    ensures
        is_in_range(encode_utf8(number.push(unit))) <==> v * nanos <= u64::MAX * 1_000_000_000,
        unit != 'H' && unit != 'M' ==> is_in_range(encode_utf8(number.push(unit))),
{
    lemma_last_ascii(number, unit);
    let b = encode_utf8(number.push(unit));
    assert(b.drop_last() =~= encode_utf8(number));
}

} // verus!
