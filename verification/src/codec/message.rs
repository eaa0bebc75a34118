//! Raw messages: bytes that were received or are to be sent, in one piece or in several.

use crate::buf::{
    contents, first_front, joined, lemma_cut, lemma_joined_first, lemma_joined_monotone,
    lemma_joined_push, list_chunk, list_peek, Buf,
};
use crate::rpc::{received, RecvItem, RecvMessage, SendMessage};
use bytes::Bytes;
use std::collections::VecDeque;
use vstd::prelude::*;

verus! {

/// An incoming raw message: its payload, and whether it is compressed.
pub struct IncomingRawMessage {
    buf: Bytes,
    compressed: bool,
}

impl IncomingRawMessage {
    /// The payload.
    pub closed spec fn payload(&self) -> Seq<u8> {
        contents(self.buf)
    }

    /// Whether the payload is compressed.
    pub closed spec fn compressed(&self) -> bool {
        self.compressed
    }

    /// A message with an empty payload that is not compressed.
    pub fn new() -> (r: Self)
        ensures
            r.payload() == Seq::<u8>::empty(),
            !r.compressed(),
    {
        IncomingRawMessage { buf: Bytes::new(), compressed: false }
    }

    /// The payload and the compression flag.
    pub fn into_parts(self) -> (r: (Bytes, bool))
        ensures
            contents(r.0) == self.payload(),
            r.1 == self.compressed(),
    {
        (self.buf, self.compressed)
    }
}

impl Default for IncomingRawMessage {
    fn default() -> (r: Self)
        ensures
            r.payload() == Seq::<u8>::empty(),
            !r.compressed(),
    {
        IncomingRawMessage::new()
    }
}

impl RecvMessage for IncomingRawMessage {
    closed spec fn flagged(self, compressed: bool) -> Self {
        IncomingRawMessage { buf: self.buf, compressed }
    }

    open spec fn decoded(pre: Self, bytes: Seq<u8>, post: Self, ok: bool) -> bool {
        ok && post.payload() == bytes && post.compressed() == pre.compressed()
    }

    fn set_compressed(&mut self, compressed: bool) {
        self.compressed = compressed;
    }

    fn decode<B: Buf>(&mut self, data: &mut B) -> (r: Result<(), String>) {
        let ghost all = data.bytes();
        let len: usize = data.remaining();
        self.buf = data.copy_to_bytes(len);
        assert(all.take(len as int) =~= all);
        Ok(())
    }
}

/// A flag is kept with the message.
pub proof fn law_flag_is_kept(msg: IncomingRawMessage, compressed: bool)
    ensures
        msg.flagged(compressed).compressed() == compressed,
        msg.flagged(compressed).payload() == msg.payload(),
{
}

/// A buffer that goes through a list of chunks one by one.
pub struct ChunkedBuf {
    /// The chunks, in order.
    pub chunks: VecDeque<Bytes>,
}

impl ChunkedBuf {
    /// Drops the first `cnt` bytes, or all of them where there are no more.
    pub fn advance_up_to(&mut self, cnt: usize)
        ensures
            joined(final(self).chunks@) == if cnt <= joined(old(self).chunks@).len() {
                joined(old(self).chunks@).skip(cnt as int)
            } else {
                Seq::empty()
            },
            old(self).inv() ==> final(self).inv(),
    {
        let ghost all = joined(self.chunks@);
        let mut left: usize = cnt;
        assert(joined(self.chunks@) =~= all.skip(0));
        while left > 0 && self.chunks.len() > 0
            invariant
                left <= cnt,
                cnt - left <= all.len(),
                joined(self.chunks@) == all.skip(cnt - left),
            decreases left, self.chunks@.len(),
        {
            let ghost before = self.chunks@;
            proof {
                lemma_joined_first(before);
            }
            let popped = self.chunks.pop_front();
            proof {
                assert(self.chunks@ =~= before.skip(1));
                let first = before[0].bytes();
                let n = if first.len() <= left {
                    first.len() as int
                } else {
                    left as int
                };
                lemma_cut(all, cnt - left, first, joined(before.skip(1)), n);
            }
            if let Some(mut front) = popped {
                let len: usize = front.len();
                if left >= len {
                    left = left - len;
                    proof {
                        assert(joined(self.chunks@) =~= all.skip(cnt - left));
                    }
                } else {
                    front.advance(left);
                    self.chunks.push_front(front);
                    proof {
                        lemma_joined_first(self.chunks@);
                        assert(self.chunks@.skip(1) =~= before.skip(1));
                        assert(joined(self.chunks@) =~= all.skip(cnt as int));
                    }
                    left = 0;
                }
            }
        }
        proof {
            if left > 0 {
                assert(self.chunks@ =~= Seq::empty());
                assert(joined(self.chunks@) =~= Seq::empty());
                assert(all.skip(cnt - left).len() == all.len() - (cnt - left));
            }
        }
    }
}

impl Buf for ChunkedBuf {
    open spec fn inv(&self) -> bool {
        joined(self.chunks@).len() <= usize::MAX
    }

    open spec fn bytes(&self) -> Seq<u8> {
        joined(self.chunks@)
    }

    open spec fn front(&self) -> Seq<u8> {
        first_front(self.chunks@)
    }

    fn remaining(&self) -> (r: usize) {
        let mut sum: usize = 0;
        let mut i: usize = 0;
        assert(self.chunks@.take(0) =~= Seq::empty());
        while i < self.chunks.len()
            invariant
                self.inv(),
                i <= self.chunks@.len(),
                sum == joined(self.chunks@.take(i as int)).len(),
            decreases self.chunks@.len() - i,
        {
            proof {
                lemma_joined_push(self.chunks@.take(i as int), self.chunks@[i as int]);
                assert(self.chunks@.take(i as int).push(self.chunks@[i as int])
                    =~= self.chunks@.take(i + 1));
                lemma_joined_monotone(self.chunks@, i + 1);
            }
            sum = sum + self.chunks[i].len();
            i += 1;
        }
        assert(self.chunks@.take(i as int) =~= self.chunks@);
        sum
    }

    fn chunk(&self) -> (r: &[u8]) {
        let r = list_chunk(&self.chunks);
        assert(self.front() == r@);
        assert(self.bytes() == joined(self.chunks@));
        r
    }

    fn advance(&mut self, cnt: usize) {
        self.advance_up_to(cnt);
    }

    fn peek_into(&self, dst: &mut [u8], at: usize) -> (r: usize) {
        list_peek(&self.chunks, dst, at)
    }
}

/// A payload in one piece or in several. It is read in the same way whichever it is.
pub enum ExtractedPayload {
    /// The payload lay in a single chunk.
    Single(Bytes),
    /// The payload spanned several chunks.
    Multi(ChunkedBuf),
}

impl Buf for ExtractedPayload {
    open spec fn inv(&self) -> bool {
        match self {
            ExtractedPayload::Single(b) => b.inv(),
            ExtractedPayload::Multi(c) => c.inv(),
        }
    }

    open spec fn bytes(&self) -> Seq<u8> {
        match self {
            ExtractedPayload::Single(b) => b.bytes(),
            ExtractedPayload::Multi(c) => c.bytes(),
        }
    }

    open spec fn front(&self) -> Seq<u8> {
        match self {
            ExtractedPayload::Single(b) => b.front(),
            ExtractedPayload::Multi(c) => c.front(),
        }
    }

    fn remaining(&self) -> (r: usize) {
        match self {
            ExtractedPayload::Single(b) => b.remaining(),
            ExtractedPayload::Multi(c) => c.remaining(),
        }
    }

    fn chunk(&self) -> (r: &[u8]) {
        match self {
            ExtractedPayload::Single(b) => {
                assert(self.front() == b.front() && self.bytes() == b.bytes());
                b.chunk()
            },
            ExtractedPayload::Multi(c) => {
                assert(self.front() == c.front() && self.bytes() == c.bytes());
                c.chunk()
            },
        }
    }

    fn advance(&mut self, cnt: usize) {
        match self {
            ExtractedPayload::Single(b) => b.advance(cnt),
            ExtractedPayload::Multi(c) => c.advance(cnt),
        }
    }

    fn peek_into(&self, dst: &mut [u8], at: usize) -> (r: usize) {
        match self {
            ExtractedPayload::Single(b) => b.peek_into(dst, at),
            ExtractedPayload::Multi(c) => c.peek_into(dst, at),
        }
    }
}

/// A raw outgoing message. A message in one piece is kept without a list of chunks.
pub enum RawMessage {
    /// All bytes in one piece.
    Contiguous(Bytes),
    /// The bytes in several pieces.
    Chunks(ChunkedBuf),
}

impl RawMessage {
    /// The bytes of the message.
    pub open spec fn bytes(&self) -> Seq<u8> {
        match self {
            RawMessage::Contiguous(b) => contents(*b),
            RawMessage::Chunks(c) => c.bytes(),
        }
    }

    /// The message with the bytes of a buffer, in the pieces in which the buffer holds them.
    pub fn from_buf<B: Buf>(buf: B) -> (r: Self)
        requires
            buf.inv(),
        ensures
            r.inv(),
            r.bytes() == buf.bytes(),
            r is Contiguous <==> buf.front().len() == buf.bytes().len(),
    {
        let mut buf = buf;
        let ghost all = buf.bytes();
        let remaining: usize = buf.remaining();
        if buf.chunk().len() == remaining {
            let bytes = buf.copy_to_bytes(remaining);
            assert(all.take(remaining as int) =~= all);
            RawMessage::Contiguous(bytes)
        } else {
            let mut chunks: VecDeque<Bytes> = VecDeque::new();
            assert(joined(chunks@) + buf.bytes() =~= all);
            while buf.has_remaining()
                invariant
                    buf.inv(),
                    joined(chunks@) + buf.bytes() == all,
                    forall|i: int|
                        0 <= i < chunks@.len() ==> (#[trigger] chunks@[i]).bytes().len() > 0,
                decreases buf.bytes().len(),
            {
                let ghost rest = buf.bytes();
                let ghost before = chunks@;
                let chunk_len: usize = buf.chunk().len();
                let piece = buf.copy_to_bytes(chunk_len);
                proof {
                    lemma_joined_push(before, piece);
                    assert(rest.take(chunk_len as int) + rest.skip(chunk_len as int) =~= rest);
                }
                chunks.push_back(piece);
                assert(joined(chunks@) + buf.bytes() =~= all);
            }
            assert(joined(chunks@) =~= all);
            RawMessage::Chunks(ChunkedBuf { chunks })
        }
    }
}

/// A list of handles to the same bytes.
fn clone_chunks(chunks: &VecDeque<Bytes>) -> (r: VecDeque<Bytes>)
    ensures
        r@.len() == chunks@.len(),
        forall|i: int|
            0 <= i < r@.len() ==> contents(#[trigger] r@[i]) == contents(chunks@[i]),
        joined(r@) == joined(chunks@),
{
    let mut r: VecDeque<Bytes> = VecDeque::new();
    let mut i: usize = 0;
    assert(joined(r@) =~= joined(chunks@.take(0)));
    while i < chunks.len()
        invariant
            i <= chunks@.len(),
            r@.len() == i,
            forall|j: int| 0 <= j < i ==> contents(#[trigger] r@[j]) == contents(chunks@[j]),
            joined(r@) == joined(chunks@.take(i as int)),
        decreases chunks@.len() - i,
    {
        let b = chunks[i].clone();
        proof {
            lemma_joined_push(r@, b);
            lemma_joined_push(chunks@.take(i as int), chunks@[i as int]);
            assert(chunks@.take(i as int).push(chunks@[i as int]) =~= chunks@.take(i + 1));
        }
        r.push_back(b);
        i += 1;
    }
    assert(chunks@.take(i as int) =~= chunks@);
    r
}

impl SendMessage for RawMessage {
    type Encoded = ExtractedPayload;

    open spec fn inv(&self) -> bool {
        match self {
            RawMessage::Contiguous(_) => true,
            RawMessage::Chunks(c) => c.inv(),
        }
    }

    open spec fn encoding(&self) -> Result<Seq<u8>, Seq<char>> {
        Ok(self.bytes())
    }

    fn encode(&self) -> (r: Result<ExtractedPayload, String>) {
        match self {
            RawMessage::Contiguous(bytes) => Ok(ExtractedPayload::Single(bytes.clone())),
            RawMessage::Chunks(c) => {
                let chunks = clone_chunks(&c.chunks);
                Ok(ExtractedPayload::Multi(ChunkedBuf { chunks }))
            },
        }
    }
}


/// A raw message is received as it is: its payload is the bytes that came, and it keeps the flag
/// that came with them. It is sent as its bytes, whatever the pieces in which they are held.
pub proof fn law_raw_messages_are_kept(
    pre: IncomingRawMessage,
    item: RecvItem,
    post: IncomingRawMessage,
    ok: bool,
    msg: RawMessage,
)
    requires
        received(pre, item, post, ok),
    ensures
        ok,
        post.payload() == item.bytes,
        item.compressed matches Some(c) ==> post.compressed() == c,
        item.compressed is None ==> post.compressed() == pre.compressed(),
        msg.encoding() is Ok,
        msg matches RawMessage::Contiguous(b) ==> msg.encoding()->Ok_0 == contents(b),
        msg matches RawMessage::Chunks(c) ==> msg.encoding()->Ok_0 == joined(c.chunks@),
{
}

} // verus!
