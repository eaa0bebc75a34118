//! Streams that are pushed: a producer writes its items to a consumer.

pub mod stream_writer_ext;

use crate::server::stream::stream_writer_ext::{
    law_items_are_mapped, lemma_mapped, mapped_writes, ThenConsumer,
};
use crate::status::Status;
use std::marker::PhantomData;
use vstd::prelude::*;

verus! {

/// One write: the item, and how the consumer answered.
pub type Write<T> = (T, Result<(), Status>);

/// What the items of a stream are written to.
///
/// A consumer is described by how a write may change it and what it may answer.
pub trait PushStreamConsumer<T>: Sized {
    /// Whether the consumer is in a usable state.
    open spec fn inv(&self) -> bool {
        true
    }

    /// Whether the consumer can be written this item.
    open spec fn admits(&self, item: T) -> bool {
        true
    }

    /// Whether writing `item` may turn `pre` into `post` and be answered by `r`.
    open spec fn consumed(pre: Self, item: T, post: Self, r: Result<(), Status>) -> bool {
        true
    }

    /// Writes an item. What could be written before can be written still.
    fn write(&mut self, item: T) -> (r: Result<(), Status>)
        requires
            old(self).inv(),
            old(self).admits(item),
        ensures
            final(self).inv(),
            forall|x: T| old(self).admits(x) ==> #[trigger] final(self).admits(x),
            Self::consumed(*old(self), item, *final(self), r),
    ;
}

/// Whether a list of writes may turn `pre` into `post`.
pub open spec fn consumed_all<T, C: PushStreamConsumer<T>>(
    pre: C,
    writes: Seq<Write<T>>,
    post: C,
) -> bool
    decreases writes.len(),
{
    if writes.len() == 0 {
        pre == post
    } else {
        exists|mid: C|
            consumed_all(pre, writes.drop_last(), mid) && #[trigger] C::consumed(
                mid,
                writes.last().0,
                post,
                writes.last().1,
            )
    }
}

/// A writer of items to a consumer.
pub struct PushStreamWriter<T, C> {
    consumer: C,
    _phantom: PhantomData<T>,
}

impl<T, C: PushStreamConsumer<T>> PushStreamWriter<T, C> {
    /// The consumer.
    pub closed spec fn spec_consumer(&self) -> C {
        self.consumer
    }

    /// A writer to `consumer`.
    pub fn new(consumer: C) -> (r: Self)
        ensures
            r.spec_consumer() == consumer,
    {
        PushStreamWriter { consumer, _phantom: PhantomData }
    }

    /// Writes an item.
    pub fn write(&mut self, item: T) -> (r: Result<(), Status>)
        requires
            old(self).spec_consumer().inv(),
            old(self).spec_consumer().admits(item),
        ensures
            final(self).spec_consumer().inv(),
            forall|x: T|
                old(self).spec_consumer().admits(x) ==> #[trigger]
                    final(self).spec_consumer().admits(x),
            C::consumed(old(self).spec_consumer(), item, final(self).spec_consumer(), r),
    {
        self.consumer.write(item)
    }

    /// The consumer.
    pub fn into_consumer(self) -> (r: C)
        ensures
            r == self.spec_consumer(),
    {
        self.consumer
    }
}

/// What writes the items of a stream.
///
/// A producer is described by the writes that it may make, given how they are answered.
pub trait PushStreamProducer<T>: Sized {
    /// Whether the producer is in a usable state.
    open spec fn inv(&self) -> bool {
        true
    }

    /// Whether the producer may write this item.
    open spec fn can_yield(&self, item: T) -> bool {
        true
    }

    /// Whether the producer may make these writes, which are answered in this way, and end with
    /// this result.
    open spec fn produces(self, writes: Seq<Write<T>>, r: Result<(), Status>) -> bool {
        true
    }

    /// Writes all items. The writer is given back.
    fn produce<C: PushStreamConsumer<T>>(self, writer: PushStreamWriter<T, C>) -> (r: (
        Result<(), Status>,
        PushStreamWriter<T, C>,
    ))
        requires
            self.inv(),
            writer.spec_consumer().inv(),
            forall|item: T| #[trigger]
                self.can_yield(item) ==> writer.spec_consumer().admits(item),
        ensures
            r.1.spec_consumer().inv(),
            exists|writes: Seq<Write<T>>| #[trigger]
                self.produces(writes, r.0) && consumed_all(
                    writer.spec_consumer(),
                    writes,
                    r.1.spec_consumer(),
                ),
    ;
}

/// Whether a producer may turn the consumer `pre` into `post` and end with this result.
pub open spec fn ran<T, P: PushStreamProducer<T>, C: PushStreamConsumer<T>>(
    producer: P,
    pre: C,
    r: Result<(), Status>,
    post: C,
) -> bool {
    exists|writes: Seq<Write<T>>| #[trigger]
        producer.produces(writes, r) && consumed_all(pre, writes, post)
}

/// A stream of items.
pub struct PushStream<T, P> {
    producer: P,
    _phantom: PhantomData<T>,
}

impl<T, P: PushStreamProducer<T>> PushStream<T, P> {
    /// The producer.
    pub closed spec fn spec_producer(&self) -> P {
        self.producer
    }

    /// The stream of a producer.
    pub fn new(producer: P) -> (r: Self)
        ensures
            r.spec_producer() == producer,
    {
        PushStream { producer, _phantom: PhantomData }
    }

    /// The producer.
    pub fn into_inner(self) -> (r: P)
        ensures
            r == self.spec_producer(),
    {
        self.producer
    }

    /// Writes all items to a consumer.
    pub fn run<C: PushStreamConsumer<T>>(self, writer: PushStreamWriter<T, C>) -> (r: (
        Result<(), Status>,
        PushStreamWriter<T, C>,
    ))
        requires
            self.spec_producer().inv(),
            writer.spec_consumer().inv(),
            forall|item: T| #[trigger]
                self.spec_producer().can_yield(item) ==> writer.spec_consumer().admits(item),
        ensures
            r.1.spec_consumer().inv(),
            ran(self.spec_producer(), writer.spec_consumer(), r.0, r.1.spec_consumer()),
    {
        self.producer.produce(writer)
    }

    /// The stream of the items that `f` makes of this stream's items.
    pub fn map_items<U, F: MapItem<T, U>>(self, f: F) -> (r: PushStream<U, ThenProducer<P, T, F>>)
        ensures
            r.spec_producer().spec_inner() == self.spec_producer(),
            r.spec_producer().spec_f() == f,
    {
        PushStream {
            producer: ThenProducer { inner: self.producer, f, _phantom: PhantomData },
            _phantom: PhantomData,
        }
    }
}

/// What makes an item of another, or fails to.
pub trait MapItem<U, T>: Sized {
    /// Whether the item can be mapped.
    spec fn admits(&self, item: U) -> bool;

    /// Whether this may come of `item`.
    spec fn mapped(&self, item: U, r: Result<T, Status>) -> bool;

    /// Maps an item.
    fn map_item(&self, item: U) -> (r: Result<T, Status>)
        requires
            self.admits(item),
        ensures
            self.mapped(item, r),
    ;
}

impl<U, T, F: Fn(U) -> Result<T, Status>> MapItem<U, T> for F {
    open spec fn admits(&self, item: U) -> bool {
        call_requires(*self, (item,))
    }

    open spec fn mapped(&self, item: U, r: Result<T, Status>) -> bool {
        call_ensures(*self, (item,), r)
    }

    fn map_item(&self, item: U) -> (r: Result<T, Status>) {
        self(item)
    }
}

/// A producer of the items that `f` makes of another producer's items.
pub struct ThenProducer<P, U, F> {
    inner: P,
    f: F,
    _phantom: PhantomData<U>,
}

impl<P, U, F> ThenProducer<P, U, F> {
    /// The producer of the items that are mapped.
    pub closed spec fn spec_inner(&self) -> P {
        self.inner
    }

    /// What maps the items.
    pub closed spec fn spec_f(&self) -> F {
        self.f
    }
}

impl<U, T, P: PushStreamProducer<U>, F: MapItem<U, T>> PushStreamProducer<T> for ThenProducer<
    P,
    U,
    F,
> {
    open spec fn inv(&self) -> bool {
        &&& self.spec_inner().inv()
        &&& forall|u: U| #[trigger] self.spec_inner().can_yield(u) ==> self.spec_f().admits(u)
    }

    open spec fn can_yield(&self, item: T) -> bool {
        exists|u: U|
            self.spec_inner().can_yield(u) && #[trigger] self.spec_f().mapped(
                u,
                Ok::<T, Status>(item),
            )
    }

    open spec fn produces(self, writes: Seq<Write<T>>, r: Result<(), Status>) -> bool {
        exists|before: Seq<Write<U>>| #[trigger]
            self.spec_inner().produces(before, r) && mapped_writes(self.spec_f(), before, writes)
    }

    fn produce<C: PushStreamConsumer<T>>(self, writer: PushStreamWriter<T, C>) -> (r: (
        Result<(), Status>,
        PushStreamWriter<T, C>,
    )) {
        let ghost this = self;
        let mapping: ThenConsumer<PushStreamWriter<T, C>, U, F> = ThenConsumer::new(writer, self.f);
        let start = PushStreamWriter::new(mapping);
        proof {
            assert forall|u: U| #[trigger] this.inner.can_yield(u) implies mapping.admits(u) by {
                assert forall|t: T| #[trigger] this.f.mapped(
                    u,
                    Ok::<T, Status>(t),
                ) implies writer.spec_consumer().admits(t) by {
                    assert(this.spec_f().mapped(u, Ok::<T, Status>(t)));
                    assert(this.can_yield(t));
                }
            }
        }
        let (r, done) = self.inner.produce(start);
        let ghost end = done;
        let mapped = done.into_consumer();
        let back = mapped.into_inner();
        proof {
            let before = choose|before: Seq<Write<U>>| #[trigger]
                this.inner.produces(before, r) && consumed_all(
                    start.spec_consumer(),
                    before,
                    end.spec_consumer(),
                );
            assert(this.spec_inner().produces(before, r));
            let after = lemma_mapped(mapping, before, mapped);
            let res = (r, back);
            assert(this.produces(after, res.0));
            assert(exists|writes: Seq<Write<T>>| #[trigger]
                this.produces(writes, res.0) && consumed_all(
                    writer.spec_consumer(),
                    writes,
                    res.1.spec_consumer(),
                ));
        }
        (r, back)
    }
}


/// A mapped stream is the stream that it was made of, item by item: where every item is mapped, the
/// producer below made as many writes, in the same order, with the same answers, and ended with the
/// same result.
pub proof fn law_stream_is_mapped<U, T, P: PushStreamProducer<U>, F: MapItem<U, T>>(
    producer: ThenProducer<P, U, F>,
    writes: Seq<Write<T>>,
    r: Result<(), Status>,
    made: spec_fn(U) -> T,
) -> (below: Seq<Write<U>>)
    requires
        <ThenProducer<P, U, F> as PushStreamProducer<T>>::produces(producer, writes, r),
        forall|u: U, m: Result<T, Status>| #[trigger]
            producer.spec_f().mapped(u, m) ==> m == Ok::<T, Status>(made(u)),
    ensures
        producer.spec_inner().produces(below, r),
        below.len() == writes.len(),
        forall|i: int|
            0 <= i < writes.len() ==> (#[trigger] writes[i]).0 == made(below[i].0) && writes[i].1
                == below[i].1,
{
    let below = choose|before: Seq<Write<U>>| #[trigger]
        producer.spec_inner().produces(before, r) && mapped_writes(
            producer.spec_f(),
            before,
            writes,
        );
    law_items_are_mapped(producer.spec_f(), below, writes, made);
    below
}

} // verus!
