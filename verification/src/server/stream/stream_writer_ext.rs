//! Mapping the items that are written to a stream.

use crate::server::stream::{consumed_all, MapItem, PushStreamConsumer, PushStreamWriter, Write};
use crate::status::Status;
use std::marker::PhantomData;
use vstd::prelude::*;

verus! {

/// Mapping the items that are written to a stream.
pub trait PushStreamWriterExt<T>: Sized {
    /// A writer that maps each item by `f` before it writes it to this one.
    fn map_items<U, F: MapItem<U, T>>(self, f: F) -> (r: PushStreamWriter<
        U,
        ThenConsumer<Self, U, F>,
    >) where ThenConsumer<Self, U, F>: PushStreamConsumer<U>
        ensures
            r.spec_consumer().spec_inner() == self,
            r.spec_consumer().spec_f() == f,
    ;
}

impl<T, C: PushStreamConsumer<T>> PushStreamWriterExt<T> for PushStreamWriter<T, C> {
    fn map_items<U, F: MapItem<U, T>>(self, f: F) -> (r: PushStreamWriter<
        U,
        ThenConsumer<Self, U, F>,
    >) where ThenConsumer<Self, U, F>: PushStreamConsumer<U> {
        PushStreamWriter::new(ThenConsumer::new(self, f))
    }
}

/// A consumer that maps the items before it writes them on.
pub struct ThenConsumer<W, U, F> {
    inner: W,
    f: F,
    _phantom: PhantomData<U>,
}

impl<W, U, F> ThenConsumer<W, U, F> {
    /// What the mapped items are written to.
    pub closed spec fn spec_inner(&self) -> W {
        self.inner
    }

    /// What maps the items.
    pub closed spec fn spec_f(&self) -> F {
        self.f
    }

    /// A consumer that maps items by `f` and writes them to `inner`.
    pub fn new(inner: W, f: F) -> (r: Self)
        ensures
            r.spec_inner() == inner,
            r.spec_f() == f,
    {
        ThenConsumer { inner, f, _phantom: PhantomData }
    }

    /// What the mapped items are written to.
    pub fn into_inner(self) -> (r: W)
        ensures
            r == self.spec_inner(),
    {
        self.inner
    }
}

impl<T, C: PushStreamConsumer<T>, U, F: MapItem<U, T>> PushStreamConsumer<U> for ThenConsumer<
    PushStreamWriter<T, C>,
    U,
    F,
> {
    open spec fn inv(&self) -> bool {
        self.spec_inner().spec_consumer().inv()
    }

    open spec fn admits(&self, item: U) -> bool {
        &&& self.spec_f().admits(item)
        &&& forall|t: T| #[trigger]
            self.spec_f().mapped(item, Ok::<T, Status>(t))
                ==> self.spec_inner().spec_consumer().admits(t)
    }

    open spec fn consumed(pre: Self, item: U, post: Self, r: Result<(), Status>) -> bool {
        &&& post.spec_f() == pre.spec_f()
        &&& exists|m: Result<T, Status>|
            {
                &&& #[trigger] pre.spec_f().mapped(item, m)
                &&& match m {
                    Ok(t) => C::consumed(
                        pre.spec_inner().spec_consumer(),
                        t,
                        post.spec_inner().spec_consumer(),
                        r,
                    ),
                    Err(e) => r == Err::<(), Status>(e) && post.spec_inner() == pre.spec_inner(),
                }
            }
    }

    fn write(&mut self, item: U) -> (r: Result<(), Status>) {
        let m = self.f.map_item(item);
        let ghost shown = m;
        let r = match m {
            Ok(t) => self.inner.write(t),
            Err(e) => Err(e),
        };
        proof {
            assert(old(self).spec_f().mapped(item, shown));
            assert forall|x: U| old(self).admits(x) implies #[trigger] self.admits(x) by {
                assert forall|t: T| #[trigger] self.spec_f().mapped(
                    x,
                    Ok::<T, Status>(t),
                ) implies self.spec_inner().spec_consumer().admits(t) by {
                    assert(old(self).spec_f().mapped(x, Ok::<T, Status>(t)));
                    assert(old(self).spec_inner().spec_consumer().admits(t));
                }
            }
            assert(Self::consumed(*old(self), item, *self, r));
        }
        r
    }
}

/// Whether `after` are the writes that come of `before` when each item is mapped: an item that
/// could not be mapped is not written, and its write is answered by the error.
pub open spec fn mapped_writes<U, T, F: MapItem<U, T>>(
    f: F,
    before: Seq<Write<U>>,
    after: Seq<Write<T>>,
) -> bool
    decreases before.len(),
{
    if before.len() == 0 {
        after.len() == 0
    } else {
        exists|m: Result<T, Status>|
            {
                &&& #[trigger] f.mapped(before.last().0, m)
                &&& match m {
                    Ok(t) => {
                        &&& after.len() > 0
                        &&& after.last() == (t, before.last().1)
                        &&& mapped_writes(f, before.drop_last(), after.drop_last())
                    },
                    Err(e) => before.last().1 == Err::<(), Status>(e) && mapped_writes(
                        f,
                        before.drop_last(),
                        after,
                    ),
                }
            }
    }
}

/// What a mapping consumer is written comes to the consumer behind it as mapped writes.
pub(crate) proof fn lemma_mapped<T, C: PushStreamConsumer<T>, U, F: MapItem<U, T>>(
    pre: ThenConsumer<PushStreamWriter<T, C>, U, F>,
    writes: Seq<Write<U>>,
    post: ThenConsumer<PushStreamWriter<T, C>, U, F>,
) -> (after: Seq<Write<T>>)
    requires
        consumed_all(pre, writes, post),
    ensures
        post.spec_f() == pre.spec_f(),
        mapped_writes(pre.spec_f(), writes, after),
        consumed_all(
            pre.spec_inner().spec_consumer(),
            after,
            post.spec_inner().spec_consumer(),
        ),
    decreases writes.len(),
{
    if writes.len() == 0 {
        Seq::empty()
    } else {
        let init = writes.drop_last();
        let (item, r) = writes.last();
        let mid = choose|mid: ThenConsumer<PushStreamWriter<T, C>, U, F>|
            consumed_all(pre, init, mid) && #[trigger] PushStreamConsumer::consumed(
                mid,
                item,
                post,
                r,
            );
        let before = lemma_mapped(pre, init, mid);
        let f = pre.spec_f();
        let m = choose|m: Result<T, Status>|
            {
                &&& #[trigger] mid.spec_f().mapped(item, m)
                &&& match m {
                    Ok(t) => C::consumed(
                        mid.spec_inner().spec_consumer(),
                        t,
                        post.spec_inner().spec_consumer(),
                        r,
                    ),
                    Err(e) => r == Err::<(), Status>(e) && post.spec_inner() == mid.spec_inner(),
                }
            };
        assert(f.mapped(item, m));
        match m {
            Ok(t) => {
                let after = before.push((t, r));
                assert(after.drop_last() =~= before);
                assert(C::consumed(
                    mid.spec_inner().spec_consumer(),
                    after.last().0,
                    post.spec_inner().spec_consumer(),
                    after.last().1,
                ));
                after
            },
            Err(e) => before,
        }
    }
}


/// Every item of a stream is mapped, in its place, and the answer to what it was mapped to is the
/// answer to it.
pub proof fn law_items_are_mapped<U, T, F: MapItem<U, T>>(
    f: F,
    before: Seq<Write<U>>,
    after: Seq<Write<T>>,
    made: spec_fn(U) -> T,
)
    requires
        mapped_writes(f, before, after),
        forall|u: U, m: Result<T, Status>| #[trigger]
            f.mapped(u, m) ==> m == Ok::<T, Status>(made(u)),
    ensures
        after.len() == before.len(),
        forall|i: int|
            0 <= i < before.len() ==> (#[trigger] after[i]).0 == made(before[i].0) && after[i].1
                == before[i].1,
    decreases before.len(),
{
    if before.len() > 0 {
        law_items_are_mapped(f, before.drop_last(), after.drop_last(), made);
        assert forall|i: int| 0 <= i < before.len() implies (#[trigger] after[i]).0 == made(
            before[i].0,
        ) && after[i].1 == before[i].1 by {
            if i < before.len() - 1 {
                assert(after[i] == after.drop_last()[i]);
                assert(before[i] == before.drop_last()[i]);
            } else {
                assert(after[i] == after.last());
            }
        }
    }
}

/// Items that cannot be mapped are not written on: each is refused for the reason that the mapping
/// gives.
pub proof fn law_unmapped_items_are_refused<U, T, F: MapItem<U, T>>(
    f: F,
    before: Seq<Write<U>>,
    after: Seq<Write<T>>,
    reason: spec_fn(U) -> Status,
)
    requires
        mapped_writes(f, before, after),
        forall|u: U, m: Result<T, Status>| #[trigger]
            f.mapped(u, m) ==> m == Err::<T, Status>(reason(u)),
    ensures
        after.len() == 0,
        forall|i: int|
            0 <= i < before.len() ==> (#[trigger] before[i]).1 == Err::<(), Status>(
                reason(before[i].0),
            ),
    decreases before.len(),
{
    if before.len() > 0 {
        let init = before.drop_last();
        law_unmapped_items_are_refused(f, init, after, reason);
        assert forall|i: int| 0 <= i < before.len() implies (#[trigger] before[i]).1 == Err::<
            (),
            Status,
        >(reason(before[i].0)) by {
            if i < before.len() - 1 {
                assert(before[i] == init[i]);
            } else {
                assert(before[i] == before.last());
            }
        }
    }
}

} // verus!
