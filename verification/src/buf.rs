//! Byte buffers: the shared handle `bytes::Bytes` and the [`Buf`] trait through which every
//! buffer of the library is read.

use bytes::Bytes;
use std::collections::VecDeque;
use vstd::prelude::*;

verus! {

/// The outside type `bytes::Bytes`, a cheaply cloneable slice of memory.
#[verifier::external_type_specification]
#[verifier::external_body]
pub struct ExBytes(bytes::Bytes);

/// The bytes that a `Bytes` handle shows.
pub uninterp spec fn contents(b: Bytes) -> Seq<u8>;

/// `Bytes::new` gives an empty handle.
pub assume_specification[ Bytes::new ]() -> (r: Bytes)
    ensures
        contents(r) == Seq::<u8>::empty(),
;

/// `Bytes::len` is the number of bytes shown.
pub assume_specification[ Bytes::len ](b: &Bytes) -> (r: usize)
    ensures
        r == contents(*b).len(),
;

/// `Bytes::is_empty` tells whether no byte is shown.
pub assume_specification[ Bytes::is_empty ](b: &Bytes) -> (r: bool)
    ensures
        r == (contents(*b).len() == 0),
;

/// `Bytes::split_to` cuts the first `at` bytes off and returns them. It panics where `at` is
/// past the end.
pub assume_specification[ Bytes::split_to ](b: &mut Bytes, at: usize) -> (r: Bytes)
    requires
        at <= contents(*old(b)).len(),
    ensures
        contents(r) == contents(*old(b)).take(at as int),
        contents(*final(b)) == contents(*old(b)).skip(at as int),
;

/// `Bytes::clone` gives another handle that shows the same bytes.
pub assume_specification[ <Bytes as Clone>::clone ](b: &Bytes) -> (r: Bytes)
    ensures
        contents(r) == contents(*b),
;

/// `Bytes::deref` gives the bytes shown as a slice.
pub assume_specification[ <Bytes as core::ops::Deref>::deref ](b: &Bytes) -> (r: &[u8])
    ensures
        r@ == contents(*b),
;

/// `<Bytes as From<Vec<u8>>>::from` gives a handle that shows the bytes of the vector.
#[verifier::external_body]
pub(crate) fn bytes_from_vec(v: Vec<u8>) -> (r: Bytes)
    ensures
        contents(r) == v@,
{
    Bytes::from(v)
}

/// `<Bytes as bytes::Buf>::advance` drops the first `cnt` bytes. It panics where `cnt` is past
/// the end.
#[verifier::external_body]
pub(crate) fn bytes_advance(b: &mut Bytes, cnt: usize)
    requires
        cnt <= contents(*old(b)).len(),
    ensures
        contents(*final(b)) == contents(*old(b)).skip(cnt as int),
{
    bytes::Buf::advance(b, cnt)
}

/// The number of bytes of `src` that find room in `dst` from index `at` on.
pub open spec fn fitting(dst: Seq<u8>, at: int, src: Seq<u8>) -> int {
    if src.len() <= dst.len() - at {
        src.len() as int
    } else {
        dst.len() - at
    }
}

/// `dst` after the bytes of `src` were copied into it from index `at` on, as far as there is room.
pub open spec fn filled(dst: Seq<u8>, at: int, src: Seq<u8>) -> Seq<u8> {
    let n = fitting(dst, at, src);
    dst.take(at) + src.take(n) + dst.skip(at + n)
}

/// Copying two sequences, one behind the other, is copying both at once.
pub proof fn lemma_filled_twice(dst: Seq<u8>, at: int, a: Seq<u8>, b: Seq<u8>)
    requires
        0 <= at <= dst.len(),
    ensures
        filled(dst, at, a).len() == dst.len(),
        at + fitting(dst, at, a) + fitting(
            filled(dst, at, a),
            at + fitting(dst, at, a),
            b,
        ) == at + fitting(dst, at, a + b) || fitting(dst, at, a) < a.len(),
        fitting(dst, at, a) == a.len() ==> filled(filled(dst, at, a), at + a.len(), b) == filled(
            dst,
            at,
            a + b,
        ),
        at + fitting(dst, at, a) == dst.len() ==> filled(dst, at, a) == filled(dst, at, a + b)
            && fitting(dst, at, a) == fitting(dst, at, a + b),
{
    let n = fitting(dst, at, a);
    let once = filled(dst, at, a);
    if n == a.len() {
        assert(filled(once, at + n, b) =~= filled(dst, at, a + b));
    }
    if at + n == dst.len() {
        assert(once =~= filled(dst, at, a + b));
    }
}

/// Copies the bytes of `src` into `dst` from index `at` on, as far as there is room, and returns
/// how many were copied.
pub(crate) fn copy_into(src: &[u8], dst: &mut [u8], at: usize) -> (r: usize)
    requires
        at <= old(dst)@.len(),
    ensures
        r == fitting(old(dst)@, at as int, src@),
        final(dst)@ == filled(old(dst)@, at as int, src@),
{
    let room: usize = dst.len() - at;
    let n: usize = if src.len() <= room {
        src.len()
    } else {
        room
    };
    let ghost before = dst@;
    let mut i: usize = 0;
    assert(dst@ =~= before.take(at as int) + src@.take(0) + before.skip(at as int));
    while i < n
        invariant
            i <= n <= src@.len(),
            at + n <= before.len() <= usize::MAX,
            dst@.len() == before.len(),
            dst@ == before.take(at as int) + src@.take(i as int) + before.skip(at + i),
        decreases n - i,
    {
        let ghost prior = dst@;
        dst[at + i] = src[i];
        i += 1;
        assert(dst@ =~= before.take(at as int) + src@.take(i as int) + before.skip(at + i)) by {
            assert(dst@ =~= prior.update(at + i - 1, src@[i - 1]));
        }
    }
    n
}

/// A source of bytes that is read from the front, possibly in several pieces.
pub trait Buf: Sized {
    /// Whether the buffer is in a usable state.
    open spec fn inv(&self) -> bool {
        true
    }

    /// The bytes still to be read.
    open spec fn bytes(&self) -> Seq<u8> {
        arbitrary()
    }

    /// The piece at the front that lies in one slice.
    open spec fn front(&self) -> Seq<u8> {
        arbitrary()
    }

    /// The number of bytes still to be read.
    fn remaining(&self) -> (r: usize)
        requires
            self.inv(),
        ensures
            r == self.bytes().len(),
    ;

    /// The piece at the front that lies in one slice. It is empty only where nothing is left.
    fn chunk(&self) -> (r: &[u8])
        requires
            self.inv(),
        ensures
            r@ == self.front(),
            self.front().len() <= self.bytes().len(),
            self.front() == self.bytes().take(self.front().len() as int),
            self.front().len() == 0 ==> self.bytes().len() == 0,
    ;

    /// Drops the first `cnt` bytes.
    fn advance(&mut self, cnt: usize)
        requires
            old(self).inv(),
            cnt <= old(self).bytes().len(),
        ensures
            final(self).inv(),
            final(self).bytes() == old(self).bytes().skip(cnt as int),
    ;

    /// Copies the first bytes into `dst` from index `at` on, without dropping them, until `dst` is
    /// full or no byte is left, and returns how many were copied.
    fn peek_into(&self, dst: &mut [u8], at: usize) -> (r: usize)
        requires
            self.inv(),
            at <= old(dst)@.len(),
        ensures
            r == fitting(old(dst)@, at as int, self.bytes()),
            final(dst)@ == filled(old(dst)@, at as int, self.bytes()),
    ;

    /// Whether any byte is left.
    fn has_remaining(&self) -> (r: bool)
        requires
            self.inv(),
        ensures
            r == (self.bytes().len() > 0),
    {
        self.remaining() > 0
    }

    /// Takes the first `len` bytes as one handle.
    fn copy_to_bytes(&mut self, len: usize) -> (r: Bytes)
        requires
            old(self).inv(),
            len <= old(self).bytes().len(),
        ensures
            final(self).inv(),
            contents(r) == old(self).bytes().take(len as int),
            final(self).bytes() == old(self).bytes().skip(len as int),
    {
        let ghost all = self.bytes();
        let mut out: Vec<u8> = Vec::new();
        let mut left: usize = len;
        proof {
            assert(out@ =~= all.take(0));
            assert(self.bytes() =~= all.skip(0));
        }
        while left > 0
            invariant
                self.inv(),
                left <= len <= all.len(),
                out@ == all.take(len - left),
                self.bytes() == all.skip(len - left),
            decreases left,
        {
            let piece = self.chunk();
            let step: usize = if piece.len() < left {
                piece.len()
            } else {
                left
            };
            let mut i: usize = 0;
            while i < step
                invariant
                    i <= step <= left <= len <= all.len(),
                    step <= piece@.len() <= self.bytes().len(),
                    piece@ == self.bytes().take(piece@.len() as int),
                    self.bytes() == all.skip(len - left),
                    out@ == all.take(len - left + i),
                decreases step - i,
            {
                assert(piece@[i as int] == self.bytes()[i as int]);
                out.push(piece[i]);
                i += 1;
                assert(out@ =~= all.take(len - left + i));
            }
            self.advance(step);
            left -= step;
            assert(self.bytes() =~= all.skip(len - left));
        }
        bytes_from_vec(out)
    }

    /// Fills `dst` with the first bytes.
    fn copy_to_slice(&mut self, dst: &mut [u8])
        requires
            old(self).inv(),
            old(dst)@.len() <= old(self).bytes().len(),
        ensures
            final(self).inv(),
            final(dst)@ == old(self).bytes().take(old(dst)@.len() as int),
            final(self).bytes() == old(self).bytes().skip(old(dst)@.len() as int),
    {
        let len: usize = dst.len();
        let taken = self.copy_to_bytes(len);
        let piece: &[u8] = core::ops::Deref::deref(&taken);
        let mut i: usize = 0;
        while i < len
            invariant
                i <= len,
                dst@.len() == len == piece@.len(),
                forall|j: int| 0 <= j < i ==> #[trigger] dst@[j] == piece@[j],
            decreases len - i,
        {
            dst[i] = piece[i];
            i += 1;
        }
        assert(dst@ =~= piece@);
    }
}

impl Buf for Bytes {
    open spec fn inv(&self) -> bool {
        true
    }

    open spec fn bytes(&self) -> Seq<u8> {
        contents(*self)
    }

    open spec fn front(&self) -> Seq<u8> {
        contents(*self)
    }

    fn remaining(&self) -> (r: usize) {
        self.len()
    }

    fn chunk(&self) -> (r: &[u8]) {
        assert(contents(*self) =~= contents(*self).take(contents(*self).len() as int));
        core::ops::Deref::deref(self)
    }

    fn advance(&mut self, cnt: usize) {
        bytes_advance(self, cnt)
    }

    fn peek_into(&self, dst: &mut [u8], at: usize) -> (r: usize) {
        copy_into(core::ops::Deref::deref(self), dst, at)
    }

    fn copy_to_bytes(&mut self, len: usize) -> (r: Bytes) {
        self.split_to(len)
    }
}

impl<'a> Buf for &'a [u8] {
    open spec fn inv(&self) -> bool {
        true
    }

    open spec fn bytes(&self) -> Seq<u8> {
        (*self)@
    }

    open spec fn front(&self) -> Seq<u8> {
        (*self)@
    }

    fn remaining(&self) -> (r: usize) {
        self.len()
    }

    fn chunk(&self) -> (r: &[u8]) {
        let whole: &'a [u8] = *self;
        assert(whole@ =~= whole@.take(whole@.len() as int));
        assert(self.bytes() == whole@);
        assert(self.front() == whole@);
        whole
    }

    fn advance(&mut self, cnt: usize) {
        let whole: &'a [u8] = *self;
        let (_, rest) = whole.split_at(cnt);
        assert(rest@ =~= whole@.skip(cnt as int));
        *self = rest;
    }

    fn peek_into(&self, dst: &mut [u8], at: usize) -> (r: usize) {
        copy_into(*self, dst, at)
    }
}

/// The bytes of a list of buffers, in order.
pub open spec fn joined<B: Buf>(chunks: Seq<B>) -> Seq<u8>
    decreases chunks.len(),
{
    if chunks.len() == 0 {
        Seq::empty()
    } else {
        joined(chunks.drop_last()) + chunks.last().bytes()
    }
}

/// The piece at the front of a list of buffers: that of the first buffer that is not empty.
pub open spec fn first_front<B: Buf>(chunks: Seq<B>) -> Seq<u8>
    decreases chunks.len(),
{
    if chunks.len() == 0 {
        Seq::empty()
    } else if chunks[0].bytes().len() == 0 {
        first_front(chunks.skip(1))
    } else {
        chunks[0].front()
    }
}

/// The piece at the front of a list of buffers.
pub(crate) fn list_chunk<B: Buf>(chunks: &VecDeque<B>) -> (r: &[u8])
    requires
        forall|i: int| 0 <= i < chunks@.len() ==> (#[trigger] chunks@[i]).inv(),
    ensures
        r@ == first_front(chunks@),
        r@.len() <= joined(chunks@).len(),
        r@ == joined(chunks@).take(r@.len() as int),
        r@.len() == 0 ==> joined(chunks@).len() == 0,
{
    let mut i: usize = 0;
    assert(chunks@.skip(0) =~= chunks@);
    while i < chunks.len()
        invariant
            i <= chunks@.len(),
            forall|j: int| 0 <= j < chunks@.len() ==> (#[trigger] chunks@[j]).inv(),
            first_front(chunks@) == first_front(chunks@.skip(i as int)),
            joined(chunks@) == joined(chunks@.skip(i as int)),
        decreases chunks@.len() - i,
    {
        let ghost left = chunks@.skip(i as int);
        proof {
            lemma_joined_first(left);
            assert(left[0] == chunks@[i as int]);
            assert(left.skip(1) =~= chunks@.skip(i + 1));
        }
        if chunks[i].has_remaining() {
            let r = chunks[i].chunk();
            assert(r@ =~= joined(chunks@).take(r@.len() as int));
            return r;
        }
        assert(joined(left) =~= joined(left.skip(1)));
        i += 1;
    }
    let none: &[u8] = &[];
    assert(none@ =~= first_front(chunks@));
    assert(none@ =~= joined(chunks@).take(0));
    none
}

/// Copies the first bytes of a list of buffers into `dst` from index `at` on, without dropping
/// them, and returns how many were copied.
pub(crate) fn list_peek<B: Buf>(chunks: &VecDeque<B>, dst: &mut [u8], at: usize) -> (r: usize)
    requires
        forall|i: int| 0 <= i < chunks@.len() ==> (#[trigger] chunks@[i]).inv(),
        at <= old(dst)@.len(),
    ensures
        r == fitting(old(dst)@, at as int, joined(chunks@)),
        final(dst)@ == filled(old(dst)@, at as int, joined(chunks@)),
{
    let ghost before = dst@;
    let room: usize = dst.len() - at;
    let mut done: usize = 0;
    let mut i: usize = 0;
    proof {
        assert(chunks@.take(0) =~= Seq::empty());
        assert(dst@ =~= filled(before, at as int, joined(chunks@.take(0))));
    }
    while i < chunks.len()
        invariant
            i <= chunks@.len(),
            forall|j: int| 0 <= j < chunks@.len() ==> (#[trigger] chunks@[j]).inv(),
            at + room == before.len(),
            before.len() <= usize::MAX,
            done == fitting(before, at as int, joined(chunks@.take(i as int))),
            done <= room,
            dst@.len() == before.len(),
            dst@ == filled(before, at as int, joined(chunks@.take(i as int))),
        decreases chunks@.len() - i,
    {
        let ghost a = joined(chunks@.take(i as int));
        let ghost b = chunks@[i as int].bytes();
        proof {
            lemma_joined_push(chunks@.take(i as int), chunks@[i as int]);
            assert(chunks@.take(i as int).push(chunks@[i as int]) =~= chunks@.take(i + 1));
            lemma_filled_twice(before, at as int, a, b);
        }
        let n: usize = chunks[i].peek_into(dst, at + done);
        proof {
            if done < a.len() {
                assert(at + done == before.len());
                assert(dst@ =~= filled(before, at as int, a));
            }
        }
        done = done + n;
        i += 1;
    }
    assert(chunks@.take(i as int) =~= chunks@);
    done
}

/// A buffer pushed at the end adds its bytes at the end.
pub proof fn lemma_joined_push<B: Buf>(chunks: Seq<B>, b: B)
    ensures
        joined(chunks.push(b)) == joined(chunks) + b.bytes(),
{
    assert(chunks.push(b).drop_last() =~= chunks);
}

/// The bytes of two lists, one after the other.
pub proof fn lemma_joined_concat<B: Buf>(a: Seq<B>, b: Seq<B>)
    ensures
        joined(a + b) == joined(a) + joined(b),
    decreases b.len(),
{
    if b.len() == 0 {
        assert(a + b =~= a);
        assert(joined(a) + joined(b) =~= joined(a));
    } else {
        assert((a + b).drop_last() =~= a + b.drop_last());
        lemma_joined_concat(a, b.drop_last());
        assert(joined(a + b) =~= joined(a) + joined(b));
    }
}

/// The first buffer of a list holds its first bytes.
pub proof fn lemma_joined_first<B: Buf>(chunks: Seq<B>)
    requires
        chunks.len() > 0,
    ensures
        joined(chunks) == chunks[0].bytes() + joined(chunks.skip(1)),
{
    let one = seq![chunks[0]];
    assert(chunks =~= one + chunks.skip(1));
    lemma_joined_concat(one, chunks.skip(1));
    assert(one.drop_last() =~= Seq::<B>::empty());
    assert(joined(one.drop_last()) + one.last().bytes() =~= one.last().bytes());
}

/// The bytes of the first `i` buffers are among those of the whole list.
pub proof fn lemma_joined_monotone<B: Buf>(chunks: Seq<B>, i: int)
    requires
        0 <= i <= chunks.len(),
    ensures
        joined(chunks.take(i)).len() <= joined(chunks).len(),
{
    assert(chunks =~= chunks.take(i) + chunks.skip(i));
    lemma_joined_concat(chunks.take(i), chunks.skip(i));
}

/// Where a sequence goes on with `a` and then `rest` behind index `k`, its first `k + n` items
/// end with the first `n` of `a`, and the others are the rest of `a` and `rest`.
pub(crate) proof fn lemma_cut<T>(all: Seq<T>, k: int, a: Seq<T>, rest: Seq<T>, n: int)
    requires
        0 <= k <= all.len(),
        all.skip(k) == a + rest,
        0 <= n <= a.len(),
    ensures
        k + a.len() + rest.len() == all.len(),
        all.take(k) + a.take(n) == all.take(k + n),
        a.skip(n) + rest == all.skip(k + n),
{
    assert(all.skip(k).len() == all.len() - k);
    assert forall|i: int| k <= i < all.len() implies all[i] == (a + rest)[i - k] by {
        assert(all.skip(k)[i - k] == all[i]);
    }
    assert(all.take(k) + a.take(n) =~= all.take(k + n));
    assert(a.skip(n) + rest =~= all.skip(k + n));
}


/// What was copied stands where it was copied to, and the rest is as it was; nothing is written
/// over the end.
pub proof fn law_copied_bytes(dst: Seq<u8>, at: int, src: Seq<u8>, i: int)
    requires
        0 <= at <= dst.len(),
        0 <= i < dst.len(),
    ensures
        filled(dst, at, src).len() == dst.len(),
        at <= i < at + src.len() ==> filled(dst, at, src)[i] == src[i - at],
        i < at || i >= at + src.len() ==> filled(dst, at, src)[i] == dst[i],
        fitting(dst, at, src) <= src.len() && fitting(dst, at, src) <= dst.len() - at,
        fitting(dst, at, src) == src.len() || fitting(dst, at, src) == dst.len() - at,
{
}

} // verus!
