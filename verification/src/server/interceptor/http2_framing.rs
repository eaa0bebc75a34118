//! The layer between raw HTTP bodies and gRPC messages: it frames outgoing messages and takes
//! incoming ones out of their frames.

use crate::buf::{
    contents, copy_into, joined, lemma_cut, lemma_filled_twice, lemma_joined_first,
    lemma_joined_push, Buf,
};
use crate::client::CallOptions;
use crate::codec::lpm::{
    announced_len, decode_length, deframe, encode_header, first_message, four_bytes, frame_of,
    frames_of, has_frame, header_of, law_deframe_of_frames, lemma_four_bytes,
    lemma_number_round_trip, LpmMessage,
    LPM_HEADER_SIZE,
};
use crate::codec::message::ChunkedBuf;
use crate::rpc::{
    item_view, received, ItemView, RecvItem, RecvMessage, RequestHeaders, SendMessage,
    ServerResponseStreamItem, Trailers,
};
use crate::server::interceptor::Intercept;
use crate::server::{
    was_received, Call, Handle, Input, Layer, RecvStream, SendOptions, SendStream, Sent,
};
use bytes::Bytes;
use std::collections::VecDeque;
use vstd::prelude::*;

pub use crate::codec::message::ExtractedPayload;

verus! {

/// The limit on a message's payload where none is set: 4 MB.
pub const DEFAULT_MAX_MESSAGE_SIZE: usize = 4194304;

/// Configuration of the deframing layer.
#[derive(Debug, Clone, Copy, PartialEq, Eq, Structural)]
pub struct DeframeConfig {
    /// The largest payload that is accepted, in bytes.
    pub max_message_size: usize,
}

impl Default for DeframeConfig {
    fn default() -> (r: Self)
        ensures
            r.max_message_size == DEFAULT_MAX_MESSAGE_SIZE,
    {
        DeframeConfig { max_message_size: DEFAULT_MAX_MESSAGE_SIZE }
    }
}

/// The header of a frame.
#[derive(Debug, Clone, Copy, PartialEq, Eq, Structural)]
pub struct LpmHeader {
    /// Whether the payload is compressed.
    pub compressed: bool,
    /// The length of the payload in bytes.
    pub length: usize,
}

/// The header that the first five bytes stand for.
pub open spec fn header_at(bytes: Seq<u8>) -> LpmHeader
    recommends
        bytes.len() >= 5,
{
    LpmHeader { compressed: bytes[0] != 0, length: announced_len(bytes) as usize }
}

impl LpmHeader {
    /// Reads a header from its five bytes.
    pub fn from_bytes(hdr: &[u8; 5]) -> (r: Self)
        ensures
            r == header_at(hdr@),
            r.length == announced_len(hdr@),
            r.length < 0x1_0000_0000,
    {
        assert(hdr@.subrange(1, 5) =~= seq![hdr[1], hdr[2], hdr[3], hdr[4]]);
        LpmHeader {
            compressed: hdr[0] != 0,
            length: decode_length(hdr[1], hdr[2], hdr[3], hdr[4]),
        }
    }
}

/// A [`RecvMessage`] that keeps the bytes it is given.
pub struct BytesContainer {
    bytes: Option<Bytes>,
}

impl BytesContainer {
    /// The bytes that were kept, if any.
    pub closed spec fn captured(&self) -> Option<Seq<u8>> {
        match self.bytes {
            Some(b) => Some(contents(b)),
            None => None,
        }
    }

    /// A container that holds nothing.
    pub fn new() -> (r: Self)
        ensures
            r.captured() is None,
    {
        BytesContainer { bytes: None }
    }

    /// Takes the bytes out. It is an error if there are none.
    pub fn take(&mut self) -> (r: Result<Bytes, ()>)
        ensures
            r is Ok <==> old(self).captured() is Some,
            r matches Ok(b) ==> contents(b) == old(self).captured()->Some_0,
            final(self).captured() is None,
    {
        match self.bytes.take() {
            Some(b) => Ok(b),
            None => Err(()),
        }
    }
}

impl RecvMessage for BytesContainer {
    open spec fn flagged(self, compressed: bool) -> Self {
        self
    }

    open spec fn decoded(pre: Self, bytes: Seq<u8>, post: Self, ok: bool) -> bool {
        ok && post.captured() == Some(bytes)
    }

    fn set_compressed(&mut self, compressed: bool) {
    }

    fn decode<B: Buf>(&mut self, data: &mut B) -> (r: Result<(), String>) {
        let ghost all = data.bytes();
        let len: usize = data.remaining();
        self.bytes = Some(data.copy_to_bytes(len));
        assert(all.take(len as int) =~= all);
        Ok(())
    }
}

/// Gathers chunks and takes the parts of frames from them.
///
/// What lies within a single chunk is taken without copying.
pub struct DeframeBuf {
    chunks: VecDeque<Bytes>,
    // Counted in 128 bits, so that no chunk makes the sum overflow.
    total: u128,
}

impl DeframeBuf {
    /// The bytes that were pushed and not yet taken.
    pub closed spec fn bytes(&self) -> Seq<u8> {
        joined(self.chunks@)
    }

    /// No chunk is empty, and the total is right.
    pub closed spec fn inv(&self) -> bool {
        &&& self.total == joined(self.chunks@).len()
        &&& forall|i: int|
            0 <= i < self.chunks@.len() ==> contents(#[trigger] self.chunks@[i]).len() > 0
    }

    /// The number of bytes in the first chunk.
    pub closed spec fn first_chunk_len(&self) -> nat {
        if self.chunks@.len() == 0 {
            0
        } else {
            contents(self.chunks@[0]).len()
        }
    }

    /// A buffer without bytes.
    pub fn new() -> (r: Self)
        ensures
            r.inv(),
            r.bytes() == Seq::<u8>::empty(),
    {
        DeframeBuf { chunks: VecDeque::new(), total: 0 }
    }

    /// The number of bytes in all chunks.
    pub fn remaining(&self) -> (r: u128)
        requires
            self.inv(),
        ensures
            r == self.bytes().len(),
    {
        self.total
    }

    /// Whether there are no bytes.
    pub fn is_empty(&self) -> (r: bool)
        requires
            self.inv(),
        ensures
            r == (self.bytes().len() == 0),
    {
        self.total == 0
    }

    /// Adds a chunk. An empty chunk is skipped.
    pub fn push(&mut self, chunk: Bytes)
        requires
            old(self).inv(),
            old(self).bytes().len() + contents(chunk).len() <= u128::MAX,
        ensures
            final(self).inv(),
            final(self).bytes() == old(self).bytes() + contents(chunk),
    {
        let ghost before = self.chunks@;
        proof {
            lemma_joined_push(before, chunk);
        }
        if !chunk.is_empty() {
            self.total = self.total + chunk.len() as u128;
            self.chunks.push_back(chunk);
        } else {
            assert(joined(before) + contents(chunk) =~= joined(before));
        }
    }

    /// Takes the first `n` bytes out of the first chunk, and the chunk itself when it becomes
    /// empty.
    fn take_from_first(&mut self, n: usize) -> (r: Bytes)
        requires
            old(self).inv(),
            n <= old(self).first_chunk_len(),
            old(self).bytes().len() > 0,
        ensures
            final(self).inv(),
            contents(r) == old(self).bytes().take(n as int),
            contents(r).len() == n,
            final(self).bytes() == old(self).bytes().skip(n as int),
            n < old(self).first_chunk_len() ==> final(self).first_chunk_len()
                == old(self).first_chunk_len() - n,
    {
        let ghost before = self.chunks@;
        let ghost all = joined(before);
        assert(before.len() > 0) by {
            if before.len() == 0 {
                assert(joined(before).len() == 0);
            }
        }
        let popped = self.chunks.pop_front();
        proof {
            lemma_joined_first(before);
            assert(self.chunks@ =~= before.skip(1));
            assert(all.skip(0) =~= all);
            lemma_cut(all, 0, contents(before[0]), joined(before.skip(1)), n as int);
            assert(all.take(0) + contents(before[0]).take(n as int) =~= contents(before[0]).take(
                n as int,
            ));
        }
        let mut front = match popped {
            Some(b) => b,
            None => Bytes::new(),
        };
        let part = front.split_to(n);
        self.total = self.total - n as u128;
        if !front.is_empty() {
            self.chunks.push_front(front);
            proof {
                lemma_joined_first(self.chunks@);
                assert(self.chunks@.skip(1) =~= before.skip(1));
                assert forall|i: int| 0 <= i < self.chunks@.len() implies contents(
                    #[trigger] self.chunks@[i],
                ).len() > 0 by {
                    if i > 0 {
                        assert(self.chunks@[i] == before[i]);
                    }
                }
            }
        } else {
            assert(contents(before[0]).skip(n as int) + joined(before.skip(1)) =~= joined(
                before.skip(1),
            ));
        }
        part
    }

    /// Reads a header from the front, where five bytes are there, and takes these bytes out.
    pub fn try_read_header(&mut self) -> (r: Option<LpmHeader>)
        requires
            old(self).inv(),
        ensures
            final(self).inv(),
            r is Some <==> old(self).bytes().len() >= 5,
            r matches Some(h) ==> {
                &&& h == header_at(old(self).bytes())
                &&& h.length == announced_len(old(self).bytes())
                &&& h.length < 0x1_0000_0000
                &&& final(self).bytes() == old(self).bytes().skip(5)
            },
            r is None ==> *final(self) == *old(self),
    {
        if self.total < LPM_HEADER_SIZE as u128 {
            return None;
        }
        assert(self.chunks@.len() > 0) by {
            if self.chunks@.len() == 0 {
                assert(joined(self.chunks@).len() == 0);
            }
        }
        if self.chunks[0].len() >= LPM_HEADER_SIZE {
            Some(self.read_header_fast())
        } else {
            Some(self.read_header_slow())
        }
    }

    /// Reads a header that lies within the first chunk.
    fn read_header_fast(&mut self) -> (r: LpmHeader)
        requires
            old(self).inv(),
            old(self).first_chunk_len() >= 5,
        ensures
            final(self).inv(),
            old(self).bytes().len() >= 5,
            r == header_at(old(self).bytes()),
            r.length == announced_len(old(self).bytes()),
            r.length < 0x1_0000_0000,
            final(self).bytes() == old(self).bytes().skip(5),
    {
        let ghost all = self.bytes();
        proof {
            lemma_joined_first(self.chunks@);
        }
        let hdr_bytes = self.take_from_first(LPM_HEADER_SIZE);
        let s: &[u8] = hdr_bytes.chunk();
        let hdr: [u8; 5] = [s[0], s[1], s[2], s[3], s[4]];
        assert(hdr@ =~= all.take(5));
        assert(hdr@.subrange(1, 5) =~= all.subrange(1, 5));
        LpmHeader::from_bytes(&hdr)
    }

    /// Reads a header that spans several chunks.
    fn read_header_slow(&mut self) -> (r: LpmHeader)
        requires
            old(self).inv(),
            old(self).bytes().len() >= 5,
        ensures
            final(self).inv(),
            r == header_at(old(self).bytes()),
            r.length == announced_len(old(self).bytes()),
            r.length < 0x1_0000_0000,
            final(self).bytes() == old(self).bytes().skip(5),
    {
        let ghost all = self.bytes();
        let mut hdr: [u8; 5] = [0u8; 5];
        let mut offset: usize = 0;
        assert(self.bytes() =~= all.skip(0));
        while offset < LPM_HEADER_SIZE
            invariant
                self.inv(),
                all.len() >= 5,
                offset <= 5,
                self.bytes() == all.skip(offset as int),
                forall|j: int| 0 <= j < offset ==> #[trigger] hdr@[j] == all[j],
            decreases 5 - offset,
        {
            assert(self.chunks@.len() > 0) by {
                if self.chunks@.len() == 0 {
                    assert(joined(self.chunks@).len() == 0);
                }
            }
            let available: usize = self.chunks[0].len();
            let take: usize = if available < LPM_HEADER_SIZE - offset {
                available
            } else {
                LPM_HEADER_SIZE - offset
            };
            assert(contents(self.chunks@[0]).len() > 0);
            let ghost here = self.bytes();
            let part = self.take_from_first(take);
            let s: &[u8] = part.chunk();
            let mut i: usize = 0;
            while i < take
                invariant
                    all.len() >= 5,
                    i <= take,
                    offset + take <= 5,
                    s@.len() == take,
                    here == all.skip(offset as int),
                    s@ == here.take(take as int),
                    forall|j: int| 0 <= j < offset + i ==> #[trigger] hdr@[j] == all[j],
                decreases take - i,
            {
                assert(s@[i as int] == all[offset + i]);
                hdr[offset + i] = s[i];
                i += 1;
            }
            offset = offset + take;
            assert(self.bytes() =~= all.skip(offset as int));
        }
        assert(hdr@ =~= all.take(5));
        assert(hdr@.subrange(1, 5) =~= all.subrange(1, 5));
        LpmHeader::from_bytes(&hdr)
    }

    /// Takes exactly `len` bytes from the front, where they are there.
    ///
    /// A payload without bytes is always there. One that lies within the first chunk comes in one
    /// piece, another in several.
    pub fn take_payload(&mut self, len: usize) -> (r: Option<ExtractedPayload>)
        requires
            old(self).inv(),
        ensures
            final(self).inv(),
            r is Some <==> len <= old(self).bytes().len(),
            r matches Some(p) ==> {
                &&& p.inv()
                &&& p.bytes() == old(self).bytes().take(len as int)
                &&& p is Single <==> len <= old(self).first_chunk_len()
                &&& final(self).bytes() == old(self).bytes().skip(len as int)
            },
            r is None ==> *final(self) == *old(self),
    {
        if len == 0 {
            let none = Bytes::new();
            assert(contents(none) =~= self.bytes().take(0));
            assert(self.bytes() =~= self.bytes().skip(0));
            return Some(ExtractedPayload::Single(none));
        }
        if self.total < len as u128 {
            return None;
        }
        assert(self.chunks@.len() > 0) by {
            if self.chunks@.len() == 0 {
                assert(joined(self.chunks@).len() == 0);
            }
        }
        if self.chunks[0].len() >= len {
            let payload = self.take_from_first(len);
            Some(ExtractedPayload::Single(payload))
        } else {
            Some(self.take_payload_multi(len))
        }
    }

    /// Takes a payload that spans several chunks, without copying.
    fn take_payload_multi(&mut self, len: usize) -> (r: ExtractedPayload)
        requires
            old(self).inv(),
            len <= old(self).bytes().len(),
        ensures
            final(self).inv(),
            r is Multi,
            r.inv(),
            r.bytes() == old(self).bytes().take(len as int),
            final(self).bytes() == old(self).bytes().skip(len as int),
    {
        let ghost all = self.bytes();
        let mut remaining: usize = len;
        let mut collected: VecDeque<Bytes> = VecDeque::new();
        proof {
            assert(joined(collected@) =~= all.take(0));
            assert(self.bytes() =~= all.skip(0));
        }
        while remaining > 0
            invariant
                self.inv(),
                remaining <= len <= all.len(),
                joined(collected@) == all.take(len - remaining),
                self.bytes() == all.skip(len - remaining),
                forall|i: int|
                    0 <= i < collected@.len() ==> (#[trigger] collected@[i]).bytes().len() > 0,
            decreases remaining,
        {
            let ghost here = self.bytes();
            let ghost before = collected@;
            assert(self.chunks@.len() > 0) by {
                if self.chunks@.len() == 0 {
                    assert(joined(self.chunks@).len() == 0);
                }
            }
            assert(contents(self.chunks@[0]).len() > 0);
            let available: usize = self.chunks[0].len();
            let n: usize = if available <= remaining {
                available
            } else {
                remaining
            };
            let chunk = self.take_from_first(n);
            proof {
                lemma_joined_push(before, chunk);
            }
            collected.push_back(chunk);
            remaining = remaining - n;
            proof {
                assert(all.take(len - remaining) =~= all.take(len - remaining - n) + here.take(
                    n as int,
                ));
                assert(self.bytes() =~= all.skip(len - remaining));
            }
        }
        assert(all.take(len as int).len() == len);
        ExtractedPayload::Multi(ChunkedBuf { chunks: collected })
    }
}

/// What a deframing stream waits for.
#[derive(Debug, Clone, Copy, PartialEq, Eq, Structural)]
pub enum DeframeState {
    /// The five bytes of a header.
    ReadingHeader,
    /// The payload that a header announced.
    ReadingPayload(LpmHeader),
}

/// The bytes of all messages, one behind the other.
pub open spec fn bytes_of(messages: Seq<RecvItem>) -> Seq<u8>
    decreases messages.len(),
{
    if messages.len() == 0 {
        Seq::empty()
    } else {
        messages[0].bytes + bytes_of(messages.skip(1))
    }
}

/// A message taken out of its frame, as a stream gives it.
pub open spec fn deframed_item(m: LpmMessage) -> RecvItem {
    RecvItem { compressed: Some(m.compressed), bytes: m.payload }
}

/// What comes out of frames that stand in `bytes`, where the bytes' own stream fails at its end
/// or does not.
pub open spec fn deframed_bytes(bytes: Seq<u8>, fails: bool, max: nat) -> Input {
    let d = deframe(bytes, max);
    Input {
        messages: d.messages.map_values(|m: LpmMessage| deframed_item(m)),
        fails: fails || !(d.end is Clean),
    }
}

/// What comes out of a stream of chunks: the messages of its frames, wherever the chunks are cut.
pub open spec fn deframed(input: Input, max: nat) -> Input {
    deframed_bytes(bytes_of(input.messages), input.fails, max)
}

/// The number of bytes that must be there before it is known what comes next: those of the header
/// and, where it announces a payload within the limit, those of the payload.
pub open spec fn bytes_needed(bytes: Seq<u8>, max: nat) -> nat {
    if bytes.len() < 5 || announced_len(bytes) > max {
        5
    } else {
        5 + announced_len(bytes)
    }
}

/// The number of chunks that are read until there are `n` bytes, where `have` are there.
pub open spec fn chunks_until(have: nat, messages: Seq<RecvItem>, n: nat) -> nat
    decreases messages.len(),
{
    if have >= n || messages.len() == 0 {
        0
    } else {
        1 + chunks_until(have + messages[0].bytes.len(), messages.skip(1), n)
    }
}

/// What is left of the chunks after the next message was received or refused.
pub open spec fn chunks_after(pending: Seq<u8>, messages: Seq<RecvItem>, max: nat) -> Seq<
    RecvItem,
> {
    messages.skip(
        chunks_until(
            pending.len(),
            messages,
            bytes_needed(pending + bytes_of(messages), max),
        ) as int,
    )
}

/// Whether bytes are the same but for how the flag of the first header says that the payload is
/// compressed, which any number but 0 does.
pub open spec fn same_but_flag(a: Seq<u8>, b: Seq<u8>) -> bool {
    &&& a.len() == b.len()
    &&& a.skip(1) == b.skip(1)
    &&& a.len() > 0 ==> (a[0] != 0) == (b[0] != 0)
}

/// Only the length that is announced, the flag and what follows matter of a header.
proof fn lemma_deframe_header(a: Seq<u8>, b: Seq<u8>, max: nat)
    requires
        a.len() >= 5,
        b.len() >= 5,
        announced_len(a) == announced_len(b),
        (a[0] != 0) == (b[0] != 0),
        a.skip(5) == b.skip(5),
    ensures
        deframe(a, max) == deframe(b, max),
{
    assert(a.len() == a.skip(5).len() + 5);
    assert(b.len() == b.skip(5).len() + 5);
    if has_frame(a) {
        let n = announced_len(a) as int;
        assert(a.subrange(5, 5 + n) =~= a.skip(5).take(n));
        assert(b.subrange(5, 5 + n) =~= b.skip(5).take(n));
        assert(a.skip(5 + n) =~= a.skip(5).skip(n));
        assert(b.skip(5 + n) =~= b.skip(5).skip(n));
    }
}

/// Wraps a stream of raw chunks and gives the messages of the frames in it.
pub struct DeframingRecvStream<R> {
    inner: R,
    buf: DeframeBuf,
    state: DeframeState,
    config: DeframeConfig,
    over: Ghost<bool>,
}

impl<R: RecvStream> DeframingRecvStream<R> {
    /// The bytes that were received and not yet handed out, with the header that is being waited
    /// on.
    pub closed spec fn pending(&self) -> Seq<u8> {
        match self.state {
            DeframeState::ReadingHeader => self.buf.bytes(),
            DeframeState::ReadingPayload(h) => header_of(h.compressed, h.length as nat)
                + self.buf.bytes(),
        }
    }

    /// What the stream of chunks still has to give.
    pub closed spec fn chunks(&self) -> Input {
        self.inner.input()
    }

    /// The largest payload that is accepted.
    pub closed spec fn limit(&self) -> nat {
        self.config.max_message_size as nat
    }

    /// Puts the deframing layer on a stream of chunks.
    pub fn new(inner: R, config: DeframeConfig) -> (r: Self)
        requires
            inner.inv(),
            !inner.ended(),
        ensures
            r.inv(),
            !r.ended(),
            r.input() == deframed(inner.input(), config.max_message_size as nat),
            r.pending() == Seq::<u8>::empty(),
            r.chunks() == inner.input(),
            r.limit() == config.max_message_size,
    {
        let r = DeframingRecvStream {
            inner,
            buf: DeframeBuf::new(),
            state: DeframeState::ReadingHeader,
            config,
            over: Ghost(false),
        };
        assert(r.pending() + bytes_of(inner.input().messages) =~= bytes_of(
            inner.input().messages,
        ));
        r
    }

    /// What the stream still has to give is what comes out of the bytes that are there, with those
    /// of the chunks that are left behind them.
    pub proof fn law_input_of_chunks(&self)
        ensures
            self.input() == deframed_bytes(
                self.pending() + bytes_of(self.chunks().messages),
                self.chunks().fails,
                self.limit(),
            ),
    {
    }

    /// Reads one chunk into the buffer. Returns `Ok(true)` if there was one, `Ok(false)` if the
    /// stream has ended, and `Err(())` if it failed.
    fn read_more(&mut self) -> (r: Result<bool, ()>)
        requires
            old(self).inv(),
            !old(self).over@,
            old(self).buf.bytes().len() < 0x1_0000_0000,
        ensures
            old(self).inner.input().messages.len() > 0 ==> {
                &&& r matches Ok(true)
                &&& final(self).inv()
                &&& final(self).inner.input().messages == old(self).inner.input().messages.skip(1)
                &&& final(self).inner.input().fails == old(self).inner.input().fails
                &&& final(self).pending() == old(self).pending()
                    + old(self).inner.input().messages[0].bytes
                &&& final(self).input() == old(self).input()
            },
            old(self).inner.input().messages.len() == 0 ==> {
                &&& if old(self).inner.input().fails {
                    r is Err
                } else {
                    r matches Ok(false)
                }
                &&& final(self).inner.inv()
                &&& final(self).buf == old(self).buf
            },
            final(self).over == old(self).over,
            final(self).state == old(self).state,
            final(self).config == old(self).config,
    {
        let ghost rest = self.inner.input().messages;
        let mut container = BytesContainer::new();
        match self.inner.next(&mut container) {
            Some(Ok(())) => {
                match container.take() {
                    Ok(bytes) => {
                        let ghost before = self.buf.bytes();
                        let ghost pending = self.pending();
                        let _ = bytes.len();
                        self.buf.push(bytes);
                        proof {
                            assert(contents(bytes) == rest[0].bytes);
                            assert(self.pending() =~= pending + contents(bytes));
                            assert(self.pending() + bytes_of(rest.skip(1)) =~= pending + bytes_of(
                                rest,
                            ));
                        }
                        Ok(true)
                    },
                    Err(()) => Err(()),
                }
            },
            Some(Err(())) => Err(()),
            None => Ok(false),
        }
    }

    /// Goes on from waiting for a header to waiting for its payload, where the header is there.
    ///
    /// Returns `Some(Err(()))` if the header announces a payload over the limit, and `None`
    /// otherwise.
    fn try_advance_header(&mut self) -> (r: Option<Result<(), ()>>)
        requires
            old(self).inv(),
            !old(self).over@,
            old(self).state is ReadingHeader,
        ensures
            final(self).inner == old(self).inner,
            final(self).over == old(self).over,
            final(self).config == old(self).config,
            final(self).buf.inv(),
            r is Some ==> final(self).state is ReadingHeader,
            r is Some ==> {
                &&& r matches Some(Err(_))
                &&& final(self).pending() == old(self).pending().skip(5)
                &&& old(self).input().messages.len() == 0
                &&& old(self).input().fails
                &&& old(self).pending().len() >= 5
                &&& announced_len(old(self).pending()) > old(self).limit()
            },
            r is None ==> {
                &&& final(self).inv()
                &&& final(self).input() == old(self).input()
                &&& same_but_flag(final(self).pending(), old(self).pending())
                &&& final(self).state is ReadingPayload ==> final(self).pending().len() >= 5
                    && announced_len(final(self).pending()) == announced_len(old(self).pending())
                &&& final(self).state is ReadingHeader ==> final(self).buf == old(self).buf
                    && final(self).buf.bytes().len() < 5
            },
    {
        let ghost before = self.buf.bytes();
        let ghost rest = bytes_of(self.inner.input().messages);
        match self.buf.try_read_header() {
            Some(header) => {
                proof {
                    assert((before + rest).subrange(1, 5) =~= before.subrange(1, 5));
                }
                if header.length > self.config.max_message_size {
                    assert(deframe(before + rest, self.config.max_message_size as nat).messages
                        =~= Seq::empty());
                    return Some(Err(()));
                }
                self.state = DeframeState::ReadingPayload(header);
                proof {
                    let a = before + rest;
                    let b = self.pending() + rest;
                    lemma_number_round_trip(header.length as nat);
                    assert(b.subrange(1, 5) =~= four_bytes(header.length as nat));
                    assert(self.pending().subrange(1, 5) =~= four_bytes(header.length as nat));
                    assert(a.skip(5) =~= before.skip(5) + rest);
                    assert(b.skip(5) =~= before.skip(5) + rest);
                    lemma_deframe_header(a, b, self.config.max_message_size as nat);
                    let (old_head, new_head) = (before.subrange(1, 5), b.subrange(1, 5));
                    lemma_four_bytes(old_head);
                    assert(old_head =~= new_head);
                    assert forall|i: int| 0 <= i < before.len() - 1 implies before.skip(1)[i]
                        == self.pending().skip(1)[i] by {
                        if i < 4 {
                            assert(old_head[i] == new_head[i]);
                        } else {
                            assert(before.skip(5)[i - 4] == before[i + 1]);
                        }
                    }
                    assert(before.skip(1) =~= self.pending().skip(1));
                }
            },
            None => {},
        }
        None
    }

    /// Takes the payload out and reads it into `msg`, where all of it is there.
    fn try_extract_payload<M: RecvMessage>(&mut self, header: LpmHeader, msg: &mut M) -> (r: Option<
        Result<(), ()>,
    >)
        requires
            old(self).inv(),
            !old(self).over@,
            old(self).state == DeframeState::ReadingPayload(header),
        ensures
            final(self).inv(),
            final(self).inner == old(self).inner,
            final(self).over == old(self).over,
            final(self).config == old(self).config,
            old(self).pending().len() == 5 + old(self).buf.bytes().len(),
            announced_len(old(self).pending()) == header.length,
            header.length <= old(self).limit(),
            r is Some ==> {
                &&& old(self).buf.bytes().len() >= header.length
                &&& old(self).input().messages.len() > 0
                &&& received(
                    *old(msg),
                    old(self).input().messages[0],
                    *final(msg),
                    was_received(r),
                )
                &&& final(self).input() == (Input {
                    messages: old(self).input().messages.skip(1),
                    fails: old(self).input().fails,
                })
                &&& final(self).pending() == old(self).pending().skip(5 + header.length)
            },
            r is None ==> {
                &&& *final(self) == *old(self)
                &&& *final(msg) == *old(msg)
                &&& old(self).buf.bytes().len() < header.length
            },
    {
        let ghost before = self.buf.bytes();
        let ghost rest = bytes_of(self.inner.input().messages);
        let ghost all = self.pending() + rest;
        let ghost max = self.config.max_message_size as nat;
        proof {
            lemma_number_round_trip(header.length as nat);
            assert(self.pending().subrange(1, 5) =~= four_bytes(header.length as nat));
        }
        match self.buf.take_payload(header.length) {
            Some(payload) => {
                let mut payload = payload;
                proof {
                    let n = header.length as int;
                    lemma_number_round_trip(header.length as nat);
                    assert(all.subrange(1, 5) =~= four_bytes(header.length as nat));
                    assert(all.subrange(5, 5 + n) =~= before.take(n));
                    assert(all.skip(5 + n) =~= before.skip(n) + rest);
                    let d = deframe(all, max);
                    let tail = deframe(before.skip(n) + rest, max);
                    assert(d.messages == seq![first_message(all)] + tail.messages);
                    let shown = |m: LpmMessage| deframed_item(m);
                    assert(d.messages.map_values(shown).skip(1) =~= tail.messages.map_values(
                        shown,
                    ));
                }
                msg.set_compressed(header.compressed);
                self.state = DeframeState::ReadingHeader;
                match msg.decode(&mut payload) {
                    Ok(()) => Some(Ok(())),
                    Err(_) => Some(Err(())),
                }
            },
            None => None,
        }
    }
}

impl<R: RecvStream> RecvStream for DeframingRecvStream<R> {
    closed spec fn inv(&self) -> bool {
        &&& self.inner.inv()
        &&& self.buf.inv()
        &&& self.state matches DeframeState::ReadingPayload(h) ==> h.length < 0x1_0000_0000
            && h.length <= self.config.max_message_size
        &&& !self.over@ ==> !self.inner.ended()
    }

    closed spec fn input(&self) -> Input {
        deframed_bytes(
            self.pending() + bytes_of(self.inner.input().messages),
            self.inner.input().fails,
            self.config.max_message_size as nat,
        )
    }

    closed spec fn ended(&self) -> bool {
        self.over@
    }

    /// No chunk is read that is not needed: where a complete frame is there, or a header that
    /// announces a payload over the limit, the chunks behind those that hold it are left. Behind the
    /// frame or the header, all bytes stay. Where there is neither, the bytes that came stay.
    fn next<M: RecvMessage>(&mut self, msg: &mut M) -> (r: Option<Result<(), ()>>)
        ensures
            ({
                let all = old(self).pending() + bytes_of(old(self).chunks().messages);
                all.len() >= bytes_needed(all, old(self).limit()) ==> final(self).chunks() == (
                Input {
                    messages: chunks_after(
                        old(self).pending(),
                        old(self).chunks().messages,
                        old(self).limit(),
                    ),
                    fails: old(self).chunks().fails,
                }) && final(self).pending() + bytes_of(final(self).chunks().messages) == all.skip(
                    bytes_needed(all, old(self).limit()) as int,
                )
            }),
            ({
                let all = old(self).pending() + bytes_of(old(self).chunks().messages);
                all.len() < bytes_needed(all, old(self).limit()) ==> same_but_flag(
                    final(self).pending(),
                    all,
                )
            }),
            final(self).limit() == old(self).limit(),
    {
        let ghost first = self.inner.input().messages;
        let ghost max = self.limit();
        let ghost all = self.pending() + bytes_of(first);
        let ghost need = bytes_needed(all, max);
        let ghost count = chunks_until(self.pending().len(), first, need);
        let ghost mut done: nat = 0;
        assert(first.skip(0) =~= first);
        loop
            invariant
                self.inv(),
                !self.over@,
                self.input() == old(self).input(),
                *msg == *old(msg),
                max == self.limit() == old(self).limit(),
                first == old(self).chunks().messages,
                all == old(self).pending() + bytes_of(first),
                need == bytes_needed(all, max),
                count == chunks_until(old(self).pending().len(), first, need),
                self.inner.input().fails == old(self).chunks().fails,
                done <= first.len(),
                self.inner.input().messages == first.skip(done as int),
                done + chunks_until(self.pending().len(), self.inner.input().messages, need)
                    == count,
                same_but_flag(self.pending() + bytes_of(self.inner.input().messages), all),
                bytes_needed(self.pending() + bytes_of(self.inner.input().messages), max) == need,
            decreases
                    self.inner.input().messages.len(),
                    (if self.state is ReadingHeader {
                        1int
                    } else {
                        0int
                    }),
        {
            let ghost rest = self.inner.input().messages;
            let ghost had = self.pending();
            let ghost tail = bytes_of(rest);
            match self.state {
                DeframeState::ReadingHeader => {
                    if let Some(result) = self.try_advance_header() {
                        proof {
                            assert((had + tail).subrange(1, 5) =~= had.subrange(1, 5));
                            lemma_left_behind(had, tail, all, 5);
                            self.over@ = true;
                        }
                        return Some(Err(()));
                    }
                    proof {
                        lemma_same_behind(self.pending(), had, tail, all);
                        if had.len() >= 5 {
                            assert((had + tail).subrange(1, 5) =~= had.subrange(1, 5));
                            assert((self.pending() + tail).subrange(1, 5)
                                =~= self.pending().subrange(1, 5));
                        }
                    }
                    if let DeframeState::ReadingPayload(_) = self.state {
                        continue;
                    }
                    let ghost pending = self.pending();
                    match self.read_more() {
                        Ok(true) => {
                            proof {
                                lemma_one_chunk(pending, rest);
                                assert(first.skip(done as int).skip(1) =~= first.skip(done as int + 1));
                                done = done + 1;
                            }
                        },
                        Ok(false) => {
                            proof {
                                self.over@ = true;
                                assert(pending + Seq::<u8>::empty() =~= pending);
                                assert(deframe(pending, max).messages =~= Seq::empty());
                            }
                            if self.buf.is_empty() {
                                return None;
                            } else {
                                return Some(Err(()));
                            }
                        },
                        Err(()) => {
                            proof {
                                self.over@ = true;
                                assert(pending + Seq::<u8>::empty() =~= pending);
                                assert(deframe(pending, max).messages =~= Seq::empty());
                            }
                            return Some(Err(()));
                        },
                    }
                },
                DeframeState::ReadingPayload(header) => {
                    proof {
                        lemma_number_round_trip(header.length as nat);
                        assert(had.subrange(1, 5) =~= four_bytes(header.length as nat));
                        assert((had + tail).subrange(1, 5) =~= had.subrange(1, 5));
                    }
                    if let Some(result) = self.try_extract_payload(header, msg) {
                        proof {
                            lemma_left_behind(had, tail, all, 5 + header.length);
                        }
                        match result {
                            Ok(()) => {
                                return Some(Ok(()));
                            },
                            Err(()) => {
                                proof {
                                    self.over@ = true;
                                }
                                return Some(Err(()));
                            },
                        }
                    }
                    let ghost pending = self.pending();
                    proof {
                        lemma_number_round_trip(header.length as nat);
                        assert(pending.subrange(1, 5) =~= four_bytes(header.length as nat));
                    }
                    match self.read_more() {
                        Ok(true) => {
                            proof {
                                lemma_one_chunk(pending, rest);
                                assert(first.skip(done as int).skip(1) =~= first.skip(done as int + 1));
                                done = done + 1;
                            }
                        },
                        Ok(false) | Err(()) => {
                            proof {
                                self.over@ = true;
                                assert(pending + Seq::<u8>::empty() =~= pending);
                                assert(deframe(pending, max).messages =~= Seq::empty());
                            }
                            return Some(Err(()));
                        },
                    }
                },
            }
        }
    }
}

/// Bytes that are the same but for the flag stay so with others behind them.
proof fn lemma_same_behind(a: Seq<u8>, b: Seq<u8>, tail: Seq<u8>, all: Seq<u8>)
    requires
        same_but_flag(a, b),
        same_but_flag(b + tail, all),
    ensures
        same_but_flag(a + tail, all),
{
    if a.len() > 0 {
        assert((a + tail).skip(1) =~= a.skip(1) + tail);
        assert((b + tail).skip(1) =~= b.skip(1) + tail);
    } else {
        assert(a + tail =~= b + tail);
    }
}

/// What stands behind `n` bytes, of which some are there and others follow.
proof fn lemma_left_behind(had: Seq<u8>, tail: Seq<u8>, all: Seq<u8>, n: int)
    requires
        same_but_flag(had + tail, all),
        1 <= n <= had.len(),
    ensures
        had.skip(n) + tail == all.skip(n),
{
    assert(had.skip(n) + tail =~= (had + tail).skip(1).skip(n - 1));
    assert(all.skip(n) =~= all.skip(1).skip(n - 1));
}

/// A chunk that is read changes only where its bytes stand.
proof fn lemma_one_chunk(pending: Seq<u8>, messages: Seq<RecvItem>)
    requires
        messages.len() > 0,
    ensures
        (pending + messages[0].bytes) + bytes_of(messages.skip(1)) == pending + bytes_of(messages),
{
    assert((pending + messages[0].bytes) + bytes_of(messages.skip(1)) =~= pending + bytes_of(
        messages,
    ));
}

/// The messages of a call do not depend on where the chunks are cut: two streams with the same
/// bytes, of which both fail or neither does, give the same messages and end alike.
pub proof fn law_chunking_is_irrelevant(a: Input, b: Input, max: nat)
    requires
        bytes_of(a.messages) == bytes_of(b.messages),
        a.fails == b.fails,
    ensures
        deframed(a, max) == deframed(b, max),
{
}

/// What was framed is deframed again: a stream whose chunks hold the frames of `messages`, cut
/// anywhere, gives exactly these messages and then ends, where none is over the limit.
pub proof fn law_deframing_undoes_framing(input: Input, messages: Seq<LpmMessage>, max: nat)
    requires
        bytes_of(input.messages) == frames_of(messages),
        forall|i: int|
            0 <= i < messages.len() ==> (#[trigger] messages[i]).payload.len() <= max
                && messages[i].payload.len() < 0x1_0000_0000,
    ensures
        deframed(input, max) == (Input {
            messages: messages.map_values(|m: LpmMessage| deframed_item(m)),
            fails: input.fails,
        }),
{
    law_deframe_of_frames(messages, max);
}

/// A frame that is read as a buffer: the five bytes of the header and the payload.
pub struct LpmFrame<P> {
    header: [u8; 5],
    header_pos: usize,
    payload: P,
}

impl<P: Buf> LpmFrame<P> {
    /// What is left of the header.
    pub closed spec fn spec_header(&self) -> Seq<u8> {
        self.header@.skip(self.header_pos as int)
    }

    /// The payload.
    pub closed spec fn spec_payload(&self) -> P {
        self.payload
    }

    /// The frame of a payload.
    pub fn new(compressed: bool, payload: P) -> (r: Self)
        requires
            payload.inv(),
        ensures
            r.bytes() == frame_of(compressed, payload.bytes()),
            r.spec_header() == header_of(compressed, payload.bytes().len()),
            r.spec_payload() == payload,
            r.inv() <==> 5 + payload.bytes().len() <= usize::MAX,
    {
        let len: usize = payload.remaining();
        let header: [u8; 5] = encode_header(compressed, len);
        let r = LpmFrame { header, header_pos: 0, payload };
        assert(header@.skip(0) =~= header@);
        r
    }
}

impl<P: Buf> Buf for LpmFrame<P> {
    closed spec fn inv(&self) -> bool {
        &&& self.payload.inv()
        &&& self.header_pos <= 5
        &&& 5 + self.payload.bytes().len() <= usize::MAX
    }

    open spec fn bytes(&self) -> Seq<u8> {
        self.spec_header() + self.spec_payload().bytes()
    }

    open spec fn front(&self) -> Seq<u8> {
        if self.spec_header().len() > 0 {
            self.spec_header()
        } else {
            self.spec_payload().front()
        }
    }

    fn remaining(&self) -> (r: usize) {
        (LPM_HEADER_SIZE - self.header_pos) + self.payload.remaining()
    }

    fn chunk(&self) -> (r: &[u8]) {
        let tail = self.payload.chunk();
        if self.header_pos < LPM_HEADER_SIZE {
            let whole: &[u8] = self.header.as_slice();
            let (_, r) = whole.split_at(self.header_pos);
            assert(r@ =~= self.header@.skip(self.header_pos as int));
            assert(self.front() =~= self.bytes().take(self.front().len() as int));
            r
        } else {
            assert(self.spec_header() =~= Seq::empty());
            assert(self.bytes() =~= self.payload.bytes());
            tail
        }
    }

    fn advance(&mut self, cnt: usize)
        ensures
            final(self).spec_header() == if cnt <= old(self).spec_header().len() {
                old(self).spec_header().skip(cnt as int)
            } else {
                Seq::empty()
            },
            cnt < old(self).spec_header().len() ==> final(self).spec_payload() == old(
                self,
            ).spec_payload(),
    {
        let ghost before = self.bytes();
        let ghost header = self.spec_header();
        let header_remaining: usize = LPM_HEADER_SIZE - self.header_pos;
        if cnt <= header_remaining {
            self.header_pos = self.header_pos + cnt;
        } else {
            self.header_pos = LPM_HEADER_SIZE;
            self.payload.advance(cnt - header_remaining);
        }
        assert(self.spec_header() =~= if cnt <= header.len() {
            header.skip(cnt as int)
        } else {
            Seq::empty()
        });
        assert(self.bytes() =~= before.skip(cnt as int));
    }

    fn peek_into(&self, dst: &mut [u8], at: usize) -> (r: usize) {
        let whole: &[u8] = self.header.as_slice();
        let (_, header) = whole.split_at(self.header_pos);
        assert(header@ =~= self.spec_header());
        proof {
            lemma_filled_twice(dst@, at as int, header@, self.payload.bytes());
        }
        let total: usize = dst.len();
        let n: usize = copy_into(header, dst, at);
        assert(at + n <= total);
        if n < header.len() {
            n
        } else {
            n + self.payload.peek_into(dst, at + n)
        }
    }
}

/// A message that is framed when it is encoded.
pub struct LpmFrameMessage<'a, M> {
    /// Whether the payload is compressed.
    pub compressed: bool,
    /// The message.
    pub inner: &'a M,
}

/// The bytes of a message in its frame. A frame that would not fit in memory is an error.
pub open spec fn framed_encoding(
    compressed: bool,
    encoding: Result<Seq<u8>, Seq<char>>,
) -> Result<Seq<u8>, Seq<char>> {
    match encoding {
        Ok(payload) => if 5 + payload.len() <= usize::MAX {
            Ok(frame_of(compressed, payload))
        } else {
            Err("message does not fit in a frame"@)
        },
        Err(e) => Err(e),
    }
}

impl<'a, M: SendMessage> SendMessage for LpmFrameMessage<'a, M> {
    type Encoded = LpmFrame<M::Encoded>;

    open spec fn inv(&self) -> bool {
        self.inner.inv()
    }

    open spec fn encoding(&self) -> Result<Seq<u8>, Seq<char>> {
        framed_encoding(self.compressed, self.inner.encoding())
    }

    fn encode(&self) -> (r: Result<LpmFrame<M::Encoded>, String>) {
        match self.inner.encode() {
            Ok(payload) => {
                if payload.remaining() > usize::MAX - LPM_HEADER_SIZE {
                    Err(String::from_str("message does not fit in a frame"))
                } else {
                    Ok(LpmFrame::new(self.compressed, payload))
                }
            },
            Err(e) => Err(e),
        }
    }
}

/// A send as it reaches the stream below the framing layer: headers as they are, a message in a
/// frame that says it is not compressed.
pub open spec fn framed_send(s: Sent) -> Sent {
    match s.item {
        ItemView::Headers(_) => s,
        ItemView::Message(encoding) => Sent {
            item: ItemView::Message(framed_encoding(false, encoding)),
            options: s.options,
            ok: s.ok,
        },
    }
}

/// Sends as they reach the stream below the framing layer.
pub open spec fn framed_sends(sends: Seq<Sent>) -> Seq<Sent> {
    sends.map_values(|s: Sent| framed_send(s))
}

/// The framing layer on a stream on which this had been sent.
pub open spec fn framing_layer(below: Seq<Sent>) -> Layer {
    Layer { below, settings: Seq::empty() }
}

/// Wraps a sending stream and puts each outgoing message into a frame. Headers pass unchanged.
///
/// The frames always say that the payload is not compressed, for nothing is compressed here.
pub struct FramingSendStream<S> {
    inner: S,
    base: Ghost<Seq<Sent>>,
    log: Ghost<Seq<Sent>>,
}

impl<S: SendStream> FramingSendStream<S> {
    /// The stream below.
    pub closed spec fn spec_inner(&self) -> S {
        self.inner
    }

    /// Puts the framing layer on a stream.
    pub fn new(inner: S) -> (r: Self)
        requires
            inner.inv(),
        ensures
            r.inv(),
            r.sent() == Seq::<Sent>::empty(),
            r.origin() == inner.origin().push(framing_layer(inner.sent())),
            r.spec_inner() == inner,
    {
        let r = FramingSendStream {
            inner,
            base: Ghost(inner.sent()),
            log: Ghost(Seq::empty()),
        };
        assert(framed_sends(r.log@) =~= Seq::empty());
        assert(r.base@ + framed_sends(r.log@) =~= inner.sent());
        r
    }

    /// Takes the layer off.
    pub fn into_inner(self) -> (r: S)
        requires
            self.inv(),
        ensures
            r == self.spec_inner(),
            r.inv(),
            r.origin() == self.origin().drop_last(),
            r.sent() == self.origin().last().below + framed_sends(self.sent()),
    {
        assert(self.inner.origin().push(framing_layer(self.base@)).drop_last() =~= self.inner.origin());
        self.inner
    }
}

impl<S: SendStream> SendStream for FramingSendStream<S> {
    closed spec fn inv(&self) -> bool {
        &&& self.inner.inv()
        &&& self.inner.sent() == self.base@ + framed_sends(self.log@)
    }

    closed spec fn sent(&self) -> Seq<Sent> {
        self.log@
    }

    closed spec fn origin(&self) -> Seq<Layer> {
        self.inner.origin().push(framing_layer(self.base@))
    }

    fn send<M: SendMessage>(
        &mut self,
        item: ServerResponseStreamItem<'_, M>,
        options: SendOptions,
    ) -> (r: Result<(), ()>) {
        let ghost view = item_view(item);
        let r = match item {
            ServerResponseStreamItem::Headers(h) => {
                self.inner.send(ServerResponseStreamItem::<M>::Headers(h), options)
            },
            ServerResponseStreamItem::Message(msg) => {
                let framed = LpmFrameMessage { compressed: false, inner: msg };
                self.inner.send(ServerResponseStreamItem::Message(&framed), options)
            },
        };
        proof {
            let entry = Sent { item: view, options, ok: r is Ok };
            self.log@ = self.log@.push(entry);
            assert(framed_sends(self.log@) =~= framed_sends(old(self).log@).push(
                framed_send(entry),
            ));
            assert(self.inner.sent() =~= self.base@ + framed_sends(self.log@));
        }
        r
    }
}

/// An interceptor that frames outgoing messages and takes incoming ones out of their frames.
///
/// It is meant to stand outermost, next to the transport.
#[derive(Debug, Clone, Copy)]
pub struct GrpcFramingInterceptor {
    config: DeframeConfig,
}

impl GrpcFramingInterceptor {
    /// The configuration.
    pub closed spec fn spec_config(&self) -> DeframeConfig {
        self.config
    }

    /// An interceptor with the given configuration.
    pub fn new(config: DeframeConfig) -> (r: Self)
        ensures
            r.spec_config() == config,
    {
        GrpcFramingInterceptor { config }
    }
}

impl Intercept for GrpcFramingInterceptor {
    open spec fn inv(&self) -> bool {
        true
    }

    open spec fn intercepted(&self, next: spec_fn(Call) -> bool, call: Call) -> bool {
        exists|output: Seq<Sent>|
            {
                &&& call.output == #[trigger] framed_sends(output)
                &&& next(
                    Call {
                        input: deframed(
                            call.input,
                            self.spec_config().max_message_size as nat,
                        ),
                        output,
                        ..call
                    },
                )
            }
    }

    fn intercept<Tx: SendStream, Rx: RecvStream, H: Handle>(
        &self,
        headers: RequestHeaders,
        options: CallOptions,
        tx: Tx,
        rx: Rx,
        next: &H,
    ) -> (r: (Trailers, Tx)) {
        let framing_tx = FramingSendStream::new(tx);
        let deframing_rx = DeframingRecvStream::new(rx, self.config);
        let (trailers, framing_tx) = next.handle(headers, options, framing_tx, deframing_rx);
        let ghost output = framing_tx.sent();
        let ghost stack = framing_tx.origin();
        let tx_back = framing_tx.into_inner();
        proof {
            assert(stack == tx.origin().push(framing_layer(tx.sent())));
            assert(stack.drop_last() =~= tx.origin());
            assert(output.skip(0) =~= output);
            assert(tx_back.sent() == tx.sent() + framed_sends(output));
            assert(tx_back.sent().skip(tx.sent().len() as int) =~= framed_sends(output));
        }
        (trailers, tx_back)
    }
}


/// Every send reaches the stream below in its place, under its own options and with its own
/// answer: headers as they are, a message as one frame, which holds exactly the message and says
/// that it is not compressed, and a message without bytes as one without bytes.
pub proof fn law_sends_are_framed(sends: Seq<Sent>, i: int)
    requires
        0 <= i < sends.len(),
    ensures
        framed_sends(sends).len() == sends.len(),
        ({
            let below = framed_sends(sends)[i];
            &&& below.ok == sends[i].ok
            &&& below.options == sends[i].options
            &&& sends[i].item matches ItemView::Headers(h) ==> below.item == ItemView::Headers(h)
            &&& sends[i].item matches ItemView::Message(Err(e)) ==> below.item
                == ItemView::Message(Err(e))
            &&& sends[i].item matches ItemView::Message(Ok(payload)) ==> (payload.len()
                < 0x1_0000_0000 && 5 + payload.len() <= usize::MAX ==> {
                &&& below.item is Message
                &&& below.item->Message_0 is Ok
                &&& has_frame(below.item->Message_0->Ok_0)
                &&& first_message(below.item->Message_0->Ok_0).payload == payload
                &&& !first_message(below.item->Message_0->Ok_0).compressed
                &&& below.item->Message_0->Ok_0.len() == 5 + payload.len()
            })
        }),
{
    if let ItemView::Message(Ok(payload)) = sends[i].item {
        if payload.len() < 0x1_0000_0000 && 5 + payload.len() <= usize::MAX {
            crate::codec::lpm::lemma_frame_round_trip(false, payload, Seq::empty());
            crate::codec::lpm::law_frame_layout(false, payload);
            assert(frame_of(false, payload) + Seq::empty() =~= frame_of(false, payload));
        }
    }
}

/// The framing layer hands every call on: the handler behind it sees the headers and the options
/// of the call, the messages that the client framed and nothing else, and its trailers are those
/// of the call; what it sends is what goes out, framed.
pub proof fn law_framing_hands_calls_on(
    framing: GrpcFramingInterceptor,
    next: spec_fn(Call) -> bool,
    call: Call,
    messages: Seq<LpmMessage>,
) -> (seen: Call)
    requires
        framing.intercepted(next, call),
        bytes_of(call.input.messages) == frames_of(messages),
        !call.input.fails,
        forall|i: int|
            0 <= i < messages.len() ==> (#[trigger] messages[i]).payload.len()
                <= framing.spec_config().max_message_size && messages[i].payload.len()
                < 0x1_0000_0000,
    ensures
        next(seen),
        seen.headers == call.headers,
        seen.options == call.options,
        seen.trailers == call.trailers,
        !seen.input.fails,
        seen.input.messages.len() == messages.len(),
        forall|i: int|
            0 <= i < messages.len() ==> (#[trigger] seen.input.messages[i]).bytes
                == messages[i].payload && seen.input.messages[i].compressed == Some(
                messages[i].compressed,
            ),
        call.output == framed_sends(seen.output),
{
    let max = framing.spec_config().max_message_size as nat;
    let output = choose|output: Seq<Sent>|
        {
            &&& call.output == #[trigger] framed_sends(output)
            &&& next(Call { input: deframed(call.input, max), output, ..call })
        };
    law_deframing_undoes_framing(call.input, messages, max);
    Call { input: deframed(call.input, max), output, ..call }
}

/// A client that stops in the middle of a frame, or announces a message over the limit, is not
/// mistaken for one that is done: the messages before it are there, and then the stream fails, as
/// it does where the chunks themselves fail.
pub proof fn law_broken_frames_fail(
    input: Input,
    messages: Seq<LpmMessage>,
    rest: Seq<u8>,
    max: nat,
)
    requires
        bytes_of(input.messages) == frames_of(messages) + rest,
        forall|i: int|
            0 <= i < messages.len() ==> (#[trigger] messages[i]).payload.len() <= max
                && messages[i].payload.len() < 0x1_0000_0000,
        rest.len() == 0 || !has_frame(rest) || announced_len(rest) > max,
    ensures
        deframed(input, max).fails <==> input.fails || rest.len() > 0,
        deframed(input, max).messages.len() == messages.len(),
        forall|i: int|
            0 <= i < messages.len() ==> (#[trigger] deframed(input, max).messages[i]).bytes
                == messages[i].payload && deframed(input, max).messages[i].compressed == Some(
                messages[i].compressed,
            ),
{
    if rest.len() == 0 {
        assert(frames_of(messages) + rest =~= frames_of(messages));
        law_deframe_of_frames(messages, max);
    } else {
        crate::codec::lpm::law_what_follows_frames(messages, rest, max);
    }
}


/// A container of bytes keeps exactly what it is given, whatever it held before and whatever is
/// said of the compression.
pub proof fn law_container_keeps_bytes(
    pre: BytesContainer,
    item: RecvItem,
    post: BytesContainer,
    ok: bool,
)
    requires
        received(pre, item, post, ok),
    ensures
        ok,
        post.captured() == Some(item.bytes),
{
}

} // verus!
