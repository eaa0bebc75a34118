//! Buffers for message bodies: a framed message that is yielded as one buffer, and a list of
//! chunks that is read as one buffer.

use crate::buf::{
    contents, copy_into, first_front, joined, lemma_cut, lemma_filled_twice, lemma_joined_first,
    lemma_joined_monotone, lemma_joined_push, list_chunk, list_peek, Buf,
};
use bytes::Bytes;
use std::collections::VecDeque;
use vstd::prelude::*;

verus! {

/// A `Buf` that chains a five-byte gRPC header with a body.
///
/// The header (compression flag and length) and the payload are read as one buffer without
/// copying the payload behind the header.
pub struct GrpcLengthEncodedBuf<B> {
    header: [u8; 5],
    header_pos: usize,
    body: B,
}

impl<B: Buf> GrpcLengthEncodedBuf<B> {
    /// What is left of the header.
    pub closed spec fn spec_header(&self) -> Seq<u8> {
        self.header@.skip(self.header_pos as int)
    }

    /// The body.
    pub closed spec fn spec_body(&self) -> B {
        self.body
    }

    /// Creates a new `GrpcLengthEncodedBuf`.
    pub fn new(header: [u8; 5], body: B) -> (r: Self)
        ensures
            r.spec_header() == header@,
            r.spec_body() == body,
            body.inv() && 5 + body.bytes().len() <= usize::MAX ==> r.inv(),
    {
        let r = GrpcLengthEncodedBuf { header, header_pos: 0, body };
        assert(header@.skip(0) =~= header@);
        r
    }
}

impl<B: Buf> Buf for GrpcLengthEncodedBuf<B> {
    closed spec fn inv(&self) -> bool {
        &&& self.body.inv()
        &&& self.header_pos <= 5
        &&& 5 + self.body.bytes().len() <= usize::MAX
    }

    open spec fn bytes(&self) -> Seq<u8> {
        self.spec_header() + self.spec_body().bytes()
    }

    open spec fn front(&self) -> Seq<u8> {
        if self.spec_header().len() > 0 {
            self.spec_header()
        } else {
            self.spec_body().front()
        }
    }

    fn remaining(&self) -> (r: usize) {
        (5 - self.header_pos) + self.body.remaining()
    }

    fn chunk(&self) -> (r: &[u8]) {
        let tail = self.body.chunk();
        if self.header_pos < 5 {
            let whole: &[u8] = self.header.as_slice();
            let (_, r) = whole.split_at(self.header_pos);
            assert(r@ =~= self.header@.skip(self.header_pos as int));
            assert(self.front() =~= self.bytes().take(self.front().len() as int));
            r
        } else {
            assert(self.spec_header() =~= Seq::empty());
            assert(self.bytes() =~= self.body.bytes());
            tail
        }
    }

    fn advance(&mut self, cnt: usize)
        ensures
            final(self).spec_header() == if cnt <= old(self).spec_header().len() {
                old(self).spec_header().skip(cnt as int)
            } else {
                Seq::empty()
            },
            cnt < old(self).spec_header().len() ==> final(self).spec_body() == old(
                self,
            ).spec_body(),
    {
        let ghost before = self.bytes();
        let ghost header = self.spec_header();
        let header_remaining: usize = 5 - self.header_pos;
        if cnt < header_remaining {
            self.header_pos = self.header_pos + cnt;
        } else {
            self.header_pos = 5;
            self.body.advance(cnt - header_remaining);
        }
        assert(self.spec_header() =~= if cnt <= header.len() {
            header.skip(cnt as int)
        } else {
            Seq::empty()
        });
        assert(self.bytes() =~= before.skip(cnt as int));
    }

    fn peek_into(&self, dst: &mut [u8], at: usize) -> (r: usize) {
        let whole: &[u8] = self.header.as_slice();
        let (_, header) = whole.split_at(self.header_pos);
        assert(header@ =~= self.spec_header());
        proof {
            lemma_filled_twice(dst@, at as int, header@, self.body.bytes());
        }
        let total: usize = dst.len();
        let n: usize = copy_into(header, dst, at);
        assert(at + n <= total);
        if n < header.len() {
            n
        } else {
            n + self.body.peek_into(dst, at + n)
        }
    }
}

/// What went wrong in an operation on a buffer.
#[derive(Debug, Clone, Copy, PartialEq, Eq, Structural)]
pub enum ErrorKind {
    /// More bytes were asked for than the buffer holds.
    UnexpectedEof,
}

/// The error of an operation on a buffer.
#[derive(Debug, Clone, Copy, PartialEq, Eq, Structural)]
pub struct BufError {
    kind: ErrorKind,
}

impl BufError {
    /// What went wrong.
    pub closed spec fn spec_kind(&self) -> ErrorKind {
        self.kind
    }

    /// What went wrong.
    pub fn kind(&self) -> (r: ErrorKind)
        ensures
            r == self.spec_kind(),
    {
        self.kind
    }
}

/// Whether dropping the first `cnt` bytes of a list of buffers may leave `rest`: buffers in front
/// are dropped as a whole, and the one behind them is advanced.
pub open spec fn advanced<B: Buf>(chunks: Seq<B>, cnt: nat, rest: Seq<B>) -> bool
    decreases chunks.len(),
{
    if cnt == 0 {
        rest == chunks
    } else if chunks.len() == 0 {
        false
    } else if chunks[0].bytes().len() <= cnt {
        advanced(chunks.skip(1), (cnt - chunks[0].bytes().len()) as nat, rest)
    } else {
        &&& rest.len() == chunks.len()
        &&& rest.skip(1) == chunks.skip(1)
        &&& rest[0].bytes() == chunks[0].bytes().skip(cnt as int)
    }
}

/// A buffer that can be non-contiguous.
///
/// `BufList` collects chunks and is read as a single buffer. It supports appending (`push`),
/// looking ahead without advancing (`peek_copy_to`) and splitting without copying (`split_to`,
/// for `Bytes`).
pub struct BufList<B> {
    chunks: VecDeque<B>,
    remaining: usize,
}

impl<B: Buf> BufList<B> {
    /// The chunks, in order.
    pub closed spec fn spec_chunks(&self) -> Seq<B> {
        self.chunks@
    }

    /// The chunks are usable and their lengths add up to what is recorded.
    pub closed spec fn wf(&self) -> bool {
        &&& forall|i: int| 0 <= i < self.chunks@.len() ==> (#[trigger] self.chunks@[i]).inv()
        &&& self.remaining == joined(self.chunks@).len()
    }

    /// Creates a new `BufList` from a list of chunks.
    pub fn new(chunks: VecDeque<B>) -> (r: Self)
        requires
            forall|i: int| 0 <= i < chunks@.len() ==> (#[trigger] chunks@[i]).inv(),
            joined(chunks@).len() <= usize::MAX,
        ensures
            r.wf(),
            r.spec_chunks() == chunks@,
    {
        let mut remaining: usize = 0;
        let mut i: usize = 0;
        while i < chunks.len()
            invariant
                forall|j: int| 0 <= j < chunks@.len() ==> (#[trigger] chunks@[j]).inv(),
                joined(chunks@).len() <= usize::MAX,
                i <= chunks@.len(),
                remaining == joined(chunks@.take(i as int)).len(),
            decreases chunks@.len() - i,
        {
            proof {
                lemma_joined_push(chunks@.take(i as int), chunks@[i as int]);
                assert(chunks@.take(i as int).push(chunks@[i as int]) =~= chunks@.take(i + 1));
                lemma_joined_monotone(chunks@, i + 1);
            }
            remaining = remaining + chunks[i].remaining();
            i += 1;
        }
        assert(chunks@.take(i as int) =~= chunks@);
        BufList { chunks, remaining }
    }

    /// Creates an empty `BufList`.
    pub fn empty() -> (r: Self)
        ensures
            r.wf(),
            r.spec_chunks() == Seq::<B>::empty(),
            r.bytes() == Seq::<u8>::empty(),
    {
        BufList { chunks: VecDeque::new(), remaining: 0 }
    }

    /// Pushes a chunk to the end of the buffer. An empty chunk is dropped.
    pub fn push(&mut self, chunk: B)
        requires
            old(self).wf(),
            chunk.inv(),
            old(self).bytes().len() + chunk.bytes().len() <= usize::MAX,
        ensures
            final(self).wf(),
            final(self).spec_chunks() == if chunk.bytes().len() == 0 {
                old(self).spec_chunks()
            } else {
                old(self).spec_chunks().push(chunk)
            },
            final(self).bytes() == old(self).bytes() + chunk.bytes(),
    {
        let ghost before = self.chunks@;
        proof {
            lemma_joined_push(before, chunk);
        }
        if chunk.has_remaining() {
            self.remaining = self.remaining + chunk.remaining();
            self.chunks.push_back(chunk);
        } else {
            assert(joined(before) + chunk.bytes() =~= joined(before));
        }
    }

    /// Copies bytes from the front into `dst` without advancing, until `dst` is full or the
    /// buffer runs out of data, and returns how many bytes were copied.
    pub fn peek_copy_to(&self, dst: &mut [u8]) -> (r: usize)
        requires
            self.wf(),
        ensures
            r == if old(dst)@.len() <= self.bytes().len() {
                old(dst)@.len()
            } else {
                self.bytes().len()
            },
            final(dst)@ == self.bytes().take(r as int) + old(dst)@.skip(r as int),
    {
        let ghost before = dst@;
        let r: usize = list_peek(&self.chunks, dst, 0);
        assert(dst@ =~= self.bytes().take(r as int) + before.skip(r as int));
        r
    }
}

impl BufList<Bytes> {
    /// Splits the buffer in two at the given index.
    ///
    /// Returns a new `BufList` with the first `at` bytes and advances this buffer by `at`
    /// bytes, without copying. Where fewer than `at` bytes are left the buffer stays as it is.
    pub fn split_to(&mut self, at: usize) -> (r: Result<Self, BufError>)
        requires
            old(self).wf(),
        ensures
            final(self).wf(),
            at > old(self).bytes().len() ==> r is Err && r->Err_0.spec_kind()
                == ErrorKind::UnexpectedEof && *final(self) == *old(self),
            at <= old(self).bytes().len() ==> {
                &&& r is Ok
                &&& r->Ok_0.wf()
                &&& r->Ok_0.bytes() == old(self).bytes().take(at as int)
                &&& final(self).bytes() == old(self).bytes().skip(at as int)
            },
    {
        if at > self.remaining {
            return Err(BufError { kind: ErrorKind::UnexpectedEof });
        }
        let ghost all = joined(self.chunks@);
        let mut split_chunks: VecDeque<Bytes> = VecDeque::new();
        self.remaining = self.remaining - at;
        let mut left: usize = at;
        proof {
            assert(joined(split_chunks@) =~= all.take(0));
            assert(joined(self.chunks@) =~= all.skip(0));
        }
        while left > 0
            invariant
                left <= at <= all.len(),
                self.remaining == all.len() - at,
                joined(split_chunks@) == all.take(at - left),
                joined(self.chunks@) == all.skip(at - left),
            decreases left, self.chunks@.len(),
        {
            let ghost before = self.chunks@;
            let ghost taken = split_chunks@;
            assert(before.len() > 0) by {
                if before.len() == 0 {
                    assert(joined(before).len() == 0);
                }
            }
            let popped = self.chunks.pop_front();
            let mut first = match popped {
                Some(b) => b,
                None => Bytes::new(),
            };
            proof {
                lemma_joined_first(before);
                assert(self.chunks@ =~= before.skip(1));
                assert(first == before[0]);
                let n = if contents(first).len() <= left {
                    contents(first).len() as int
                } else {
                    left as int
                };
                lemma_cut(all, at - left, contents(first), joined(before.skip(1)), n);
                assert(contents(first).take(contents(first).len() as int) =~= contents(first));
            }
            if first.len() <= left {
                left = left - first.len();
                proof {
                    lemma_joined_push(taken, first);
                }
                split_chunks.push_back(first);
                proof {
                    assert(joined(split_chunks@) =~= all.take(at - left));
                    assert(joined(self.chunks@) =~= all.skip(at - left));
                }
            } else {
                let ghost whole = contents(first);
                let split_part = first.split_to(left);
                proof {
                    lemma_joined_push(taken, split_part);
                }
                split_chunks.push_back(split_part);
                self.chunks.push_front(first);
                proof {
                    lemma_joined_first(self.chunks@);
                    assert(self.chunks@.skip(1) =~= before.skip(1));
                    assert(joined(split_chunks@) =~= all.take(at as int));
                    assert(joined(self.chunks@) =~= all.skip(at as int));
                }
                left = 0;
            }
        }
        assert(all.take(at as int).len() == at);
        Ok(BufList::new(split_chunks))
    }
}

impl<B: Buf> Default for BufList<B> {
    fn default() -> (r: Self)
        ensures
            r.inv(),
            r.bytes() == Seq::<u8>::empty(),
    {
        BufList::empty()
    }
}

impl<B: Buf> Buf for BufList<B> {
    open spec fn inv(&self) -> bool {
        self.wf()
    }

    open spec fn bytes(&self) -> Seq<u8> {
        joined(self.spec_chunks())
    }

    open spec fn front(&self) -> Seq<u8> {
        first_front(self.spec_chunks())
    }

    fn remaining(&self) -> (r: usize) {
        self.remaining
    }

    fn chunk(&self) -> (r: &[u8]) {
        let r = list_chunk(&self.chunks);
        assert(self.front() == r@);
        assert(self.bytes() == joined(self.chunks@));
        r
    }

    fn peek_into(&self, dst: &mut [u8], at: usize) -> (r: usize) {
        list_peek(&self.chunks, dst, at)
    }

    fn advance(&mut self, cnt: usize)
        ensures
            advanced(old(self).spec_chunks(), cnt as nat, final(self).spec_chunks()),
    {
        let ghost all = joined(self.chunks@);
        let ghost chunks = self.chunks@;
        self.remaining = self.remaining - cnt;
        let mut left: usize = cnt;
        assert(joined(self.chunks@) =~= all.skip(0));
        while left > 0
            invariant
                left <= cnt <= all.len(),
                self.remaining == all.len() - cnt,
                joined(self.chunks@) == all.skip(cnt - left),
                forall|i: int| 0 <= i < self.chunks@.len() ==> (#[trigger] self.chunks@[i]).inv(),
                forall|rest: Seq<B>| #[trigger]
                    advanced(self.chunks@, left as nat, rest) ==> advanced(
                        chunks,
                        cnt as nat,
                        rest,
                    ),
            decreases left, self.chunks@.len(),
        {
            let ghost before = self.chunks@;
            let ghost todo = left as nat;
            assert(before.len() > 0) by {
                if before.len() == 0 {
                    assert(joined(before).len() == 0);
                }
            }
            proof {
                lemma_joined_first(before);
            }
            let popped = self.chunks.pop_front();
            proof {
                assert(self.chunks@ =~= before.skip(1));
                let first = before[0].bytes();
                let n = if first.len() <= left {
                    first.len() as int
                } else {
                    left as int
                };
                lemma_cut(all, cnt - left, first, joined(before.skip(1)), n);
            }
            if let Some(mut first) = popped {
                let front_rem: usize = first.remaining();
                if front_rem > left {
                    first.advance(left);
                    self.chunks.push_front(first);
                    proof {
                        lemma_joined_first(self.chunks@);
                        assert(self.chunks@.skip(1) =~= before.skip(1));
                        assert(joined(self.chunks@) =~= all.skip(cnt as int));
                        assert forall|i: int| 0 <= i < self.chunks@.len() implies (
                        #[trigger] self.chunks@[i]).inv() by {
                            if i > 0 {
                                assert(self.chunks@[i] == before[i]);
                            }
                        }
                        assert(advanced(before, todo, self.chunks@));
                        assert(advanced(chunks, cnt as nat, self.chunks@));
                    }
                    left = 0;
                } else {
                    left = left - front_rem;
                    proof {
                        assert(joined(self.chunks@) =~= all.skip(cnt - left));
                        assert forall|rest: Seq<B>| #[trigger]
                            advanced(self.chunks@, left as nat, rest) implies advanced(
                            chunks,
                            cnt as nat,
                            rest,
                        ) by {
                            assert(advanced(before, todo, rest));
                        }
                    }
                }
            }
        }
        assert(advanced(self.chunks@, 0, self.chunks@));
    }
}


/// What is left of a list of buffers whose first bytes were dropped is the bytes behind them, and
/// buffers behind the dropped bytes are left as they are.
pub proof fn law_advanced_leaves_the_rest<B: Buf>(chunks: Seq<B>, cnt: nat, rest: Seq<B>)
    requires
        advanced(chunks, cnt, rest),
    ensures
        cnt <= joined(chunks).len(),
        joined(rest) == joined(chunks).skip(cnt as int),
        rest.len() <= chunks.len(),
    decreases chunks.len(),
{
    if cnt == 0 {
        assert(joined(chunks).skip(0) =~= joined(chunks));
    } else {
        lemma_joined_first(chunks);
        let n = chunks[0].bytes().len();
        if n <= cnt {
            law_advanced_leaves_the_rest(chunks.skip(1), (cnt - n) as nat, rest);
            assert(joined(chunks).skip(cnt as int) =~= joined(chunks.skip(1)).skip(cnt - n));
        } else {
            lemma_joined_first(rest);
            assert(joined(rest) =~= joined(chunks).skip(cnt as int));
        }
    }
}

} // verus!
