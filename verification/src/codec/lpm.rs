//! Length-Prefixed Messages, the frames of a gRPC body: a flag byte that tells whether the
//! payload is compressed, the payload's length as four bytes with the highest first, and the
//! payload.

use vstd::prelude::*;

verus! {

/// Size of the header: one byte for the compressed flag and four bytes for the length.
pub const LPM_HEADER_SIZE: usize = 5;

/// A message taken out of its frame.
pub struct LpmMessage {
    /// Whether the payload is compressed.
    pub compressed: bool,
    /// The payload.
    pub payload: Seq<u8>,
}

/// How a sequence of frames comes to its end.
pub enum LpmEnd {
    /// The bytes end with the last frame.
    Clean,
    /// The bytes end inside a frame.
    Truncated,
    /// A header announces a payload over the limit.
    TooLarge,
}

/// The frames of a sequence of bytes.
pub struct Deframed {
    /// The messages of the complete frames, in order.
    pub messages: Seq<LpmMessage>,
    /// What follows the last of them.
    pub end: LpmEnd,
}

/// The number that four bytes stand for, the highest byte first.
#[verifier::opaque]
pub open spec fn number_of(b: Seq<u8>) -> nat
    recommends
        b.len() == 4,
{
    (b[0] as nat) * 16777216 + (b[1] as nat) * 65536 + (b[2] as nat) * 256 + (b[3] as nat)
}

/// The four bytes of a number below 2^32, the highest byte first.
#[verifier::opaque]
pub open spec fn four_bytes(n: nat) -> Seq<u8>
    recommends
        n < 0x1_0000_0000,
{
    seq![
        (n / 16777216) as u8,
        ((n / 65536) % 256) as u8,
        ((n / 256) % 256) as u8,
        (n % 256) as u8,
    ]
}

/// The header of a frame. Of a length over 32 bits, the low 32 are kept.
pub open spec fn header_of(compressed: bool, len: nat) -> Seq<u8> {
    seq![
        if compressed {
            1u8
        } else {
            0u8
        },
    ] + four_bytes(len % 0x1_0000_0000)
}

/// The frame of a payload.
pub open spec fn frame_of(compressed: bool, payload: Seq<u8>) -> Seq<u8> {
    header_of(compressed, payload.len()) + payload
}

/// The length that a header announces.
pub open spec fn announced_len(bytes: Seq<u8>) -> nat
    recommends
        bytes.len() >= 5,
{
    number_of(bytes.subrange(1, 5))
}

/// Whether the bytes start with a complete frame.
pub open spec fn has_frame(bytes: Seq<u8>) -> bool {
    bytes.len() >= 5 && bytes.len() >= 5 + announced_len(bytes)
}

/// The message of the frame at the front.
pub open spec fn first_message(bytes: Seq<u8>) -> LpmMessage
    recommends
        has_frame(bytes),
{
    LpmMessage {
        compressed: bytes[0] != 0,
        payload: bytes.subrange(5, 5 + announced_len(bytes) as int),
    }
}

/// What follows the frame at the front.
pub open spec fn after_first(bytes: Seq<u8>) -> Seq<u8>
    recommends
        has_frame(bytes),
{
    bytes.skip(5 + announced_len(bytes) as int)
}

/// The messages of a sequence of frames whose payloads hold at most `max` bytes.
pub open spec fn deframe(bytes: Seq<u8>, max: nat) -> Deframed
    decreases bytes.len(),
{
    if bytes.len() == 0 {
        Deframed { messages: Seq::empty(), end: LpmEnd::Clean }
    } else if bytes.len() < 5 {
        Deframed { messages: Seq::empty(), end: LpmEnd::Truncated }
    } else if announced_len(bytes) > max {
        Deframed { messages: Seq::empty(), end: LpmEnd::TooLarge }
    } else if !has_frame(bytes) {
        Deframed { messages: Seq::empty(), end: LpmEnd::Truncated }
    } else {
        let rest = deframe(after_first(bytes), max);
        Deframed { messages: seq![first_message(bytes)] + rest.messages, end: rest.end }
    }
}

/// The frames of a list of messages, one behind the other.
pub open spec fn frames_of(messages: Seq<LpmMessage>) -> Seq<u8>
    decreases messages.len(),
{
    if messages.len() == 0 {
        Seq::empty()
    } else {
        frame_of(messages[0].compressed, messages[0].payload) + frames_of(messages.skip(1))
    }
}

/// A number below 2^32 is read back from its four bytes.
pub proof fn lemma_number_round_trip(n: nat)
    requires
        n < 0x1_0000_0000,
    ensures
        four_bytes(n).len() == 4,
        number_of(four_bytes(n)) == n,
{
    reveal(four_bytes);
    reveal(number_of);
    let a = n / 256;
    let b = a / 256;
    let c = b / 256;
    assert(n == 256 * a + n % 256);
    assert(a == 256 * b + a % 256);
    assert(b == 256 * c + b % 256);
    assert(n / 65536 == b);
    assert(n / 16777216 == c);
    assert(c < 256);
}

/// Four bytes are those of the number that they stand for.
pub proof fn lemma_four_bytes(b: Seq<u8>)
    requires
        b.len() == 4,
    ensures
        four_bytes(number_of(b)) == b,
{
    reveal(four_bytes);
    reveal(number_of);
    let n = number_of(b);
    let (b0, b1, b2, b3) = (b[0] as nat, b[1] as nat, b[2] as nat, b[3] as nat);
    assert(n == 256 * (65536 * b0 + 256 * b1 + b2) + b3);
    assert(n / 256 == 65536 * b0 + 256 * b1 + b2);
    assert(n / 65536 == 256 * b0 + b1);
    assert(n / 16777216 == b0);
    assert(four_bytes(n) =~= b);
}

/// A frame at the front is taken out as it was put in, and what stands behind it is left.
pub proof fn lemma_frame_round_trip(compressed: bool, payload: Seq<u8>, rest: Seq<u8>)
    requires
        payload.len() < 0x1_0000_0000,
    ensures
        has_frame(frame_of(compressed, payload) + rest),
        announced_len(frame_of(compressed, payload) + rest) == payload.len(),
        first_message(frame_of(compressed, payload) + rest) == (LpmMessage { compressed, payload }),
        after_first(frame_of(compressed, payload) + rest) == rest,
{
    let bytes = frame_of(compressed, payload) + rest;
    lemma_number_round_trip(payload.len());
    assert(header_of(compressed, payload.len()).len() == 5);
    assert(bytes.subrange(1, 5) =~= four_bytes(payload.len()));
    assert(bytes.subrange(5, 5 + payload.len() as int) =~= payload);
    assert(bytes.skip(5 + payload.len() as int) =~= rest);
}

/// Framing and deframing are inverse: the frames of a list of messages, none of them over the
/// limit, hold those messages and end cleanly.
pub proof fn law_deframe_of_frames(messages: Seq<LpmMessage>, max: nat)
    requires
        forall|i: int|
            0 <= i < messages.len() ==> (#[trigger] messages[i]).payload.len() <= max
                && messages[i].payload.len() < 0x1_0000_0000,
    ensures
        deframe(frames_of(messages), max) == (Deframed { messages, end: LpmEnd::Clean }),
    decreases messages.len(),
{
    if messages.len() == 0 {
        assert(messages =~= Seq::empty());
    } else {
        let m = messages[0];
        let rest = messages.skip(1);
        assert forall|i: int| 0 <= i < rest.len() implies (#[trigger] rest[i]).payload.len() <= max
            && rest[i].payload.len() < 0x1_0000_0000 by {
            assert(rest[i] == messages[i + 1]);
        }
        law_deframe_of_frames(rest, max);
        lemma_frame_round_trip(m.compressed, m.payload, frames_of(rest));
        assert(seq![m] + rest =~= messages);
    }
}

/// Complete frames at the front are taken out whatever follows them: the bytes of a list of
/// messages with more behind them give those messages and then the messages of the rest.
pub proof fn law_deframe_prefix(messages: Seq<LpmMessage>, rest: Seq<u8>, max: nat)
    requires
        forall|i: int|
            0 <= i < messages.len() ==> (#[trigger] messages[i]).payload.len() <= max
                && messages[i].payload.len() < 0x1_0000_0000,
    ensures
        deframe(frames_of(messages) + rest, max).messages == messages + deframe(rest, max).messages,
        deframe(frames_of(messages) + rest, max).end == deframe(rest, max).end,
    decreases messages.len(),
{
    if messages.len() == 0 {
        assert(frames_of(messages) + rest =~= rest);
        assert(messages + deframe(rest, max).messages =~= deframe(rest, max).messages);
    } else {
        let m = messages[0];
        let tail = messages.skip(1);
        assert forall|i: int| 0 <= i < tail.len() implies (#[trigger] tail[i]).payload.len() <= max
            && tail[i].payload.len() < 0x1_0000_0000 by {
            assert(tail[i] == messages[i + 1]);
        }
        law_deframe_prefix(tail, rest, max);
        lemma_frame_round_trip(m.compressed, m.payload, frames_of(tail) + rest);
        assert(frames_of(messages) + rest =~= frame_of(m.compressed, m.payload) + (frames_of(tail)
            + rest));
        assert(messages + deframe(rest, max).messages =~= seq![m] + (tail + deframe(
            rest,
            max,
        ).messages));
    }
}

/// The header of a frame with a payload of `len` bytes.
pub(crate) fn encode_header(compressed: bool, len: usize) -> (r: [u8; 5])
    ensures
        r@ == header_of(compressed, len as nat),
{
    proof {
        reveal(four_bytes);
    }
    let n: u32 = (len as u64 % 0x1_0000_0000) as u32;
    let flag: u8 = if compressed {
        1
    } else {
        0
    };
    let r: [u8; 5] = [
        flag,
        (n / 16777216) as u8,
        ((n / 65536) % 256) as u8,
        ((n / 256) % 256) as u8,
        (n % 256) as u8,
    ];
    assert(r@ =~= header_of(compressed, len as nat));
    r
}

/// The length that four bytes announce.
pub(crate) fn decode_length(b0: u8, b1: u8, b2: u8, b3: u8) -> (r: usize)
    ensures
        r == number_of(seq![b0, b1, b2, b3]),
        r < 0x1_0000_0000,
{
    proof {
        reveal(number_of);
    }
    let n: u32 = (b0 as u32) * 16777216 + (b1 as u32) * 65536 + (b2 as u32) * 256 + (b3 as u32);
    n as usize
}


/// The layout of a frame: a flag, which is 1 for a compressed payload and 0 for another, the length
/// of the payload in four bytes, of which the first counts most, and the payload.
pub proof fn law_frame_layout(compressed: bool, payload: Seq<u8>)
    requires
        payload.len() < 0x1_0000_0000,
    ensures
        ({
            let frame = frame_of(compressed, payload);
            &&& frame.len() == 5 + payload.len()
            &&& frame[0] == 1 <==> compressed
            &&& frame[0] == 0 <==> !compressed
            &&& ((frame[1] * 256 + frame[2]) * 256 + frame[3]) * 256 + frame[4] == payload.len()
            &&& frame.skip(5) == payload
        }),
{
    let frame = frame_of(compressed, payload);
    lemma_number_round_trip(payload.len());
    assert(frame.subrange(1, 5) =~= four_bytes(payload.len()));
    reveal(number_of);
    assert(frame[1] == frame.subrange(1, 5)[0]);
    assert(frame[2] == frame.subrange(1, 5)[1]);
    assert(frame[3] == frame.subrange(1, 5)[2]);
    assert(frame[4] == frame.subrange(1, 5)[3]);
    assert(frame.skip(5) =~= payload);
}

/// How a frame at the front is read: the length is that of the four bytes behind the flag, of which
/// the first counts most; any flag but 0 says that the payload is compressed; and the payload is
/// that many bytes behind the header.
pub proof fn law_frame_is_read(bytes: Seq<u8>, payload: Seq<u8>, rest: Seq<u8>)
    requires
        bytes.len() == 5,
        ((bytes[1] * 256 + bytes[2]) * 256 + bytes[3]) * 256 + bytes[4] == payload.len(),
    ensures
        has_frame(bytes + payload + rest),
        first_message(bytes + payload + rest).compressed <==> bytes[0] != 0,
        first_message(bytes + payload + rest).payload == payload,
        after_first(bytes + payload + rest) == rest,
{
    let all = bytes + payload + rest;
    reveal(number_of);
    let four = all.subrange(1, 5);
    assert(four[0] == bytes[1] && four[1] == bytes[2] && four[2] == bytes[3] && four[3]
        == bytes[4]);
    assert(announced_len(all) == payload.len());
    assert(all.subrange(5, 5 + payload.len() as int) =~= payload);
    assert(all.skip(5 + payload.len() as int) =~= rest);
}

/// Where frames end: behind complete ones within the limit, bytes that are no complete frame, or a
/// header that announces more than the limit, give no message and no clean end. The limit itself is
/// still within the limit.
pub proof fn law_what_follows_frames(messages: Seq<LpmMessage>, rest: Seq<u8>, max: nat)
    requires
        forall|i: int|
            0 <= i < messages.len() ==> (#[trigger] messages[i]).payload.len() <= max
                && messages[i].payload.len() < 0x1_0000_0000,
        rest.len() > 0,
        !has_frame(rest) || announced_len(rest) > max,
    ensures
        ({
            let d = deframe(frames_of(messages) + rest, max);
            &&& d.messages == messages
            &&& !(d.end is Clean)
            &&& d.end is TooLarge <==> rest.len() >= 5 && announced_len(rest) > max
        }),
{
    law_deframe_prefix(messages, rest, max);
    let d = deframe(frames_of(messages) + rest, max);
    assert(deframe(rest, max).messages.len() == 0);
    assert(d.messages =~= messages);
}

} // verus!
