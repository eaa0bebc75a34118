//! Mapping what is written in a response.

use crate::server::call::metadata::Metadata;
use crate::server::call::streaming_response_writer::{
    NotSent, StreamingResponseBodyWriter, StreamingResponseWriter,
};
use crate::server::stream::MapItem;
use crate::status::Status;
use std::marker::PhantomData;
use vstd::prelude::*;

verus! {

/// Mapping what is written in a response.
pub trait StreamingResponseWriterExt<T>: Sized {
    /// A writer that maps each message before it writes it to this one.
    fn map_message<U, F: MapItem<U, T>>(self, f: F) -> (r: MapMessageStreamingResponseWriter<
        Self,
        F,
        T,
    >)
        ensures
            r.spec_inner() == self,
            r.spec_f() == f,
    ;

    /// A writer that maps the initial metadata before it sends it by this one.
    fn map_initial_metadata<F: MapItem<Metadata, Metadata>>(self, f: F) -> (r: MapInitialMetadata<
        Self,
        F,
    >)
        ensures
            r.spec_inner() == self,
            r.spec_f() == f,
    ;

    /// A writer that maps the trailing metadata before it sends it by this one.
    fn map_trailing_metadata<F: MapItem<Metadata, Metadata>>(self, f: F) -> (r: MapTrailingMetadata<
        Self,
        F,
    >)
        ensures
            r.spec_inner() == self,
            r.spec_f() == f,
    ;
}

impl<T, W: StreamingResponseWriter<T>> StreamingResponseWriterExt<T> for W {
    fn map_message<U, F: MapItem<U, T>>(self, f: F) -> (r: MapMessageStreamingResponseWriter<
        Self,
        F,
        T,
    >) {
        MapMessageStreamingResponseWriter { inner: self, f, _phantom: PhantomData }
    }

    fn map_initial_metadata<F: MapItem<Metadata, Metadata>>(self, f: F) -> (r: MapInitialMetadata<
        Self,
        F,
    >) {
        MapInitialMetadata { inner: self, f }
    }

    fn map_trailing_metadata<F: MapItem<Metadata, Metadata>>(self, f: F) -> (r: MapTrailingMetadata<
        Self,
        F,
    >) {
        MapTrailingMetadata { inner: self, f }
    }
}

/// A writer that maps each message before it writes it on.
pub struct MapMessageStreamingResponseWriter<W, F, T> {
    inner: W,
    f: F,
    _phantom: PhantomData<T>,
}

impl<W, F, T> MapMessageStreamingResponseWriter<W, F, T> {
    /// The writer of the mapped messages.
    pub closed spec fn spec_inner(&self) -> W {
        self.inner
    }

    /// What maps the messages.
    pub closed spec fn spec_f(&self) -> F {
        self.f
    }

    /// The writer that was not used, without the mapping.
    pub open spec fn below(e: NotSent<Self>) -> NotSent<W> {
        NotSent {
            status: e.status,
            writer: match e.writer {
                Some(w) => Some(w.spec_inner()),
                None => None,
            },
        }
    }

    /// Takes the mapping off.
    pub fn into_inner(self) -> (r: W)
        ensures
            r == self.spec_inner(),
    {
        self.inner
    }
}

impl<T, U, W: StreamingResponseWriter<T>, F: MapItem<U, T>> StreamingResponseWriter<
    U,
> for MapMessageStreamingResponseWriter<W, F, T> {
    type BodyWriter = MapMessageStreamingResponseBodyWriter<W::BodyWriter, F, T>;

    open spec fn inv(&self) -> bool {
        self.spec_inner().inv() && forall|u: U| self.spec_f().admits(u)
    }

    open spec fn initiated(
        self,
        metadata: Metadata,
        r: Result<Self::BodyWriter, NotSent<Self>>,
    ) -> bool {
        match r {
            Ok(w) => self.spec_inner().initiated(metadata, Ok(w.spec_inner())) && w.spec_f()
                == self.spec_f(),
            Err(e) => {
                &&& self.spec_inner().initiated(metadata, Err(Self::below(e)))
                &&& e.writer matches Some(w) ==> w.spec_f() == self.spec_f()
            },
        }
    }

    fn send_initial_metadata(self, metadata: Metadata) -> (r: Result<
        Self::BodyWriter,
        NotSent<Self>,
    >) {
        let f = self.f;
        match self.inner.send_initial_metadata(metadata) {
            Ok(inner) => Ok(
                MapMessageStreamingResponseBodyWriter { inner, f, _phantom: PhantomData },
            ),
            Err(e) => {
                let ghost below = e;
                let r = NotSent {
                    status: e.status,
                    writer: match e.writer {
                        Some(inner) => Some(
                            MapMessageStreamingResponseWriter { inner, f, _phantom: PhantomData },
                        ),
                        None => None,
                    },
                };
                assert(Self::below(r) == below);
                Err(r)
            },
        }
    }
}

/// A body writer that maps each message before it writes it on.
pub struct MapMessageStreamingResponseBodyWriter<W, F, T> {
    inner: W,
    f: F,
    _phantom: PhantomData<T>,
}

impl<W, F, T> MapMessageStreamingResponseBodyWriter<W, F, T> {
    /// The writer of the mapped messages.
    pub closed spec fn spec_inner(&self) -> W {
        self.inner
    }

    /// What maps the messages.
    pub closed spec fn spec_f(&self) -> F {
        self.f
    }

    /// The writer that was not used, without the mapping.
    pub open spec fn below(e: NotSent<Self>) -> NotSent<W> {
        NotSent {
            status: e.status,
            writer: match e.writer {
                Some(w) => Some(w.spec_inner()),
                None => None,
            },
        }
    }

    /// Takes the mapping off.
    pub fn into_inner(self) -> (r: W)
        ensures
            r == self.spec_inner(),
    {
        self.inner
    }
}

impl<T, U, W: StreamingResponseBodyWriter<T>, F: MapItem<U, T>> StreamingResponseBodyWriter<
    U,
> for MapMessageStreamingResponseBodyWriter<W, F, T> {
    open spec fn inv(&self) -> bool {
        self.spec_inner().inv() && forall|u: U| self.spec_f().admits(u)
    }

    open spec fn written(pre: Self, item: U, post: Self, r: Result<(), Status>) -> bool {
        &&& post.spec_f() == pre.spec_f()
        &&& exists|m: Result<T, Status>|
            {
                &&& #[trigger] pre.spec_f().mapped(item, m)
                &&& match m {
                    Ok(t) => W::written(pre.spec_inner(), t, post.spec_inner(), r),
                    Err(e) => r == Err::<(), Status>(e) && post.spec_inner() == pre.spec_inner(),
                }
            }
    }

    open spec fn trailed(self, trailers: Metadata, r: Result<(), NotSent<Self>>) -> bool {
        match r {
            Ok(_) => self.spec_inner().trailed(trailers, Ok(())),
            Err(e) => {
                &&& self.spec_inner().trailed(trailers, Err(Self::below(e)))
                &&& e.writer matches Some(w) ==> w.spec_f() == self.spec_f()
            },
        }
    }

    fn write(&mut self, item: U) -> (r: Result<(), Status>) {
        assert(self.spec_f().admits(item));
        let m = self.f.map_item(item);
        let ghost shown = m;
        let r = match m {
            Ok(t) => self.inner.write(t),
            Err(e) => Err(e),
        };
        proof {
            assert(old(self).spec_f().mapped(item, shown));
            assert(<Self as StreamingResponseBodyWriter<U>>::written(*old(self), item, *self, r));
        }
        r
    }

    fn send_trailing_metadata(self, trailers: Metadata) -> (r: Result<(), NotSent<Self>>) {
        let f = self.f;
        let sent = self.inner.send_trailing_metadata(trailers);
        assert(sent matches Ok(u) ==> u == ());
        match sent {
            Ok(()) => Ok(()),
            Err(e) => {
                let ghost below = e;
                let r = NotSent {
                    status: e.status,
                    writer: match e.writer {
                        Some(inner) => Some(
                            MapMessageStreamingResponseBodyWriter {
                                inner,
                                f,
                                _phantom: PhantomData,
                            },
                        ),
                        None => None,
                    },
                };
                assert(Self::below(r) == below);
                Err(r)
            },
        }
    }
}

/// A writer that maps the initial metadata.
pub struct MapInitialMetadata<W, F> {
    inner: W,
    f: F,
}

impl<W, F> MapInitialMetadata<W, F> {
    /// The writer by which the mapped metadata is sent.
    pub closed spec fn spec_inner(&self) -> W {
        self.inner
    }

    /// What maps the metadata.
    pub closed spec fn spec_f(&self) -> F {
        self.f
    }

    /// The writer that was not used, without the mapping.
    pub open spec fn below(e: NotSent<Self>) -> NotSent<W> {
        NotSent {
            status: e.status,
            writer: match e.writer {
                Some(w) => Some(w.spec_inner()),
                None => None,
            },
        }
    }

    /// Takes the mapping off.
    pub fn into_inner(self) -> (r: W)
        ensures
            r == self.spec_inner(),
    {
        self.inner
    }
}

impl<T, W: StreamingResponseWriter<T>, F: MapItem<Metadata, Metadata>> StreamingResponseWriter<
    T,
> for MapInitialMetadata<W, F> {
    type BodyWriter = W::BodyWriter;

    open spec fn inv(&self) -> bool {
        self.spec_inner().inv() && forall|m: Metadata| self.spec_f().admits(m)
    }

    open spec fn initiated(
        self,
        metadata: Metadata,
        r: Result<W::BodyWriter, NotSent<Self>>,
    ) -> bool {
        exists|m: Result<Metadata, Status>|
            {
                &&& #[trigger] self.spec_f().mapped(metadata, m)
                &&& match m {
                    Ok(mapped) => match r {
                        Ok(w) => self.spec_inner().initiated(mapped, Ok(w)),
                        Err(e) => {
                            &&& self.spec_inner().initiated(mapped, Err(Self::below(e)))
                            &&& e.writer matches Some(w) ==> w.spec_f() == self.spec_f()
                        },
                    },
                    Err(e) => r == Err::<W::BodyWriter, NotSent<Self>>(
                        NotSent { status: e, writer: Some(self) },
                    ),
                }
            }
    }

    fn send_initial_metadata(self, metadata: Metadata) -> (r: Result<
        W::BodyWriter,
        NotSent<Self>,
    >) {
        let ghost this = self;
        let m = self.f.map_item(metadata);
        assert(this.spec_f().mapped(metadata, m));
        match m {
            Ok(mapped) => {
                let f = self.f;
                match self.inner.send_initial_metadata(mapped) {
                    Ok(w) => Ok(w),
                    Err(e) => {
                        let ghost below = e;
                        let r = NotSent {
                            status: e.status,
                            writer: match e.writer {
                                Some(inner) => Some(MapInitialMetadata { inner, f }),
                                None => None,
                            },
                        };
                        assert(Self::below(r) == below);
                        Err(r)
                    },
                }
            },
            Err(e) => Err(NotSent { status: e, writer: Some(self) }),
        }
    }
}

/// A writer that maps the trailing metadata.
pub struct MapTrailingMetadata<W, F> {
    inner: W,
    f: F,
}

impl<W, F> MapTrailingMetadata<W, F> {
    /// The writer by which the mapped metadata is sent.
    pub closed spec fn spec_inner(&self) -> W {
        self.inner
    }

    /// What maps the metadata.
    pub closed spec fn spec_f(&self) -> F {
        self.f
    }

    /// The writer that was not used, without the mapping.
    pub open spec fn below(e: NotSent<Self>) -> NotSent<W> {
        NotSent {
            status: e.status,
            writer: match e.writer {
                Some(w) => Some(w.spec_inner()),
                None => None,
            },
        }
    }

    /// Takes the mapping off.
    pub fn into_inner(self) -> (r: W)
        ensures
            r == self.spec_inner(),
    {
        self.inner
    }
}

impl<T, W: StreamingResponseWriter<T>, F: MapItem<Metadata, Metadata>> StreamingResponseWriter<
    T,
> for MapTrailingMetadata<W, F> {
    type BodyWriter = MapTrailingMetadataBodyWriter<W::BodyWriter, F>;

    open spec fn inv(&self) -> bool {
        self.spec_inner().inv() && forall|m: Metadata| self.spec_f().admits(m)
    }

    open spec fn initiated(
        self,
        metadata: Metadata,
        r: Result<Self::BodyWriter, NotSent<Self>>,
    ) -> bool {
        match r {
            Ok(w) => self.spec_inner().initiated(metadata, Ok(w.spec_inner())) && w.spec_f()
                == self.spec_f(),
            Err(e) => {
                &&& self.spec_inner().initiated(metadata, Err(Self::below(e)))
                &&& e.writer matches Some(w) ==> w.spec_f() == self.spec_f()
            },
        }
    }

    fn send_initial_metadata(self, metadata: Metadata) -> (r: Result<
        Self::BodyWriter,
        NotSent<Self>,
    >) {
        let f = self.f;
        match self.inner.send_initial_metadata(metadata) {
            Ok(inner) => Ok(MapTrailingMetadataBodyWriter { inner, f }),
            Err(e) => {
                let ghost below = e;
                let r = NotSent {
                    status: e.status,
                    writer: match e.writer {
                        Some(inner) => Some(MapTrailingMetadata { inner, f }),
                        None => None,
                    },
                };
                assert(Self::below(r) == below);
                Err(r)
            },
        }
    }
}

/// A body writer that maps the trailing metadata.
pub struct MapTrailingMetadataBodyWriter<W, F> {
    inner: W,
    f: F,
}

impl<W, F> MapTrailingMetadataBodyWriter<W, F> {
    /// The writer by which the mapped metadata is sent.
    pub closed spec fn spec_inner(&self) -> W {
        self.inner
    }

    /// What maps the metadata.
    pub closed spec fn spec_f(&self) -> F {
        self.f
    }

    /// The writer that was not used, without the mapping.
    pub open spec fn below(e: NotSent<Self>) -> NotSent<W> {
        NotSent {
            status: e.status,
            writer: match e.writer {
                Some(w) => Some(w.spec_inner()),
                None => None,
            },
        }
    }

    /// Takes the mapping off.
    pub fn into_inner(self) -> (r: W)
        ensures
            r == self.spec_inner(),
    {
        self.inner
    }
}

impl<
    T,
    W: StreamingResponseBodyWriter<T>,
    F: MapItem<Metadata, Metadata>,
> StreamingResponseBodyWriter<T> for MapTrailingMetadataBodyWriter<W, F> {
    open spec fn inv(&self) -> bool {
        self.spec_inner().inv() && forall|m: Metadata| self.spec_f().admits(m)
    }

    open spec fn written(pre: Self, item: T, post: Self, r: Result<(), Status>) -> bool {
        W::written(pre.spec_inner(), item, post.spec_inner(), r) && post.spec_f() == pre.spec_f()
    }

    open spec fn trailed(self, trailers: Metadata, r: Result<(), NotSent<Self>>) -> bool {
        exists|m: Result<Metadata, Status>|
            {
                &&& #[trigger] self.spec_f().mapped(trailers, m)
                &&& match m {
                    Ok(mapped) => match r {
                        Ok(_) => self.spec_inner().trailed(mapped, Ok(())),
                        Err(e) => {
                            &&& self.spec_inner().trailed(mapped, Err(Self::below(e)))
                            &&& e.writer matches Some(w) ==> w.spec_f() == self.spec_f()
                        },
                    },
                    Err(e) => r == Err::<(), NotSent<Self>>(
                        NotSent { status: e, writer: Some(self) },
                    ),
                }
            }
    }

    fn write(&mut self, item: T) -> (r: Result<(), Status>) {
        let r = self.inner.write(item);
        assert forall|m: Metadata| self.spec_f().admits(m) by {
            assert(old(self).spec_f().admits(m));
        }
        r
    }

    fn send_trailing_metadata(self, trailers: Metadata) -> (r: Result<(), NotSent<Self>>) {
        let ghost this = self;
        let m = self.f.map_item(trailers);
        assert(this.spec_f().mapped(trailers, m));
        match m {
            Ok(mapped) => {
                let f = self.f;
                let sent = self.inner.send_trailing_metadata(mapped);
                assert(sent matches Ok(u) ==> u == ());
                match sent {
                    Ok(()) => Ok(()),
                    Err(e) => {
                        let ghost below = e;
                        let r = NotSent {
                            status: e.status,
                            writer: match e.writer {
                                Some(inner) => Some(MapTrailingMetadataBodyWriter { inner, f }),
                                None => None,
                            },
                        };
                        assert(Self::below(r) == below);
                        Err(r)
                    },
                }
            },
            Err(e) => Err(NotSent { status: e, writer: Some(self) }),
        }
    }
}


/// Each message is written as what it is mapped to, and the answer is that of the writer below; a
/// message that cannot be mapped is refused for the reason that the mapping gives, and nothing is
/// written.
pub proof fn law_messages_are_mapped<
    T,
    U,
    W: StreamingResponseBodyWriter<T>,
    F: MapItem<U, T>,
>(
    pre: MapMessageStreamingResponseBodyWriter<W, F, T>,
    item: U,
    post: MapMessageStreamingResponseBodyWriter<W, F, T>,
    r: Result<(), Status>,
    made: Result<T, Status>,
)
    requires
        <MapMessageStreamingResponseBodyWriter<
            W,
            F,
            T,
        > as StreamingResponseBodyWriter<U>>::written(pre, item, post, r),
        forall|m: Result<T, Status>| #[trigger] pre.spec_f().mapped(item, m) ==> m == made,
    ensures
        post.spec_f() == pre.spec_f(),
        made matches Ok(t) ==> W::written(pre.spec_inner(), t, post.spec_inner(), r),
        made matches Err(e) ==> r == Err::<(), Status>(e) && post.spec_inner() == pre.spec_inner(),
{
}

/// The mapping of messages leaves the metadata alone, on both ends.
pub proof fn law_mapping_messages_keeps_metadata<
    T,
    U,
    W: StreamingResponseWriter<T>,
    F: MapItem<U, T>,
>(
    writer: MapMessageStreamingResponseWriter<W, F, T>,
    body: MapMessageStreamingResponseBodyWriter<W::BodyWriter, F, T>,
    metadata: Metadata,
    trailers: Metadata,
)
    requires
        <MapMessageStreamingResponseWriter<W, F, T> as StreamingResponseWriter<U>>::initiated(
            writer,
            metadata,
            Ok(body),
        ),
        <MapMessageStreamingResponseBodyWriter<
            W::BodyWriter,
            F,
            T,
        > as StreamingResponseBodyWriter<U>>::trailed(body, trailers, Ok(())),
    ensures
        writer.spec_inner().initiated(metadata, Ok(body.spec_inner())),
        body.spec_f() == writer.spec_f(),
        body.spec_inner().trailed(trailers, Ok(())),
{
}

/// Initial metadata is sent as what it is mapped to; where it cannot be mapped nothing is sent, and
/// the writer comes back with the reason.
pub proof fn law_initial_metadata_is_mapped<
    T,
    W: StreamingResponseWriter<T>,
    F: MapItem<Metadata, Metadata>,
>(
    writer: MapInitialMetadata<W, F>,
    metadata: Metadata,
    r: Result<W::BodyWriter, NotSent<MapInitialMetadata<W, F>>>,
    made: Result<Metadata, Status>,
)
    requires
        <MapInitialMetadata<W, F> as StreamingResponseWriter<T>>::initiated(writer, metadata, r),
        forall|m: Result<Metadata, Status>| #[trigger]
            writer.spec_f().mapped(metadata, m) ==> m == made,
    ensures
        made matches Ok(md) ==> (r matches Ok(body) ==> writer.spec_inner().initiated(
            md,
            Ok(body),
        )),
        made matches Ok(md) ==> (r matches Err(e) ==> writer.spec_inner().initiated(
            md,
            Err(MapInitialMetadata::<W, F>::below(e)),
        )),
        made matches Err(e) ==> r is Err && r->Err_0.status == e && r->Err_0.writer == Some(writer),
{
}

/// Trailing metadata is sent as what it is mapped to, and messages and initial metadata as they
/// are; where trailing metadata cannot be mapped nothing is sent, and the writer comes back with
/// the reason.
pub proof fn law_trailing_metadata_is_mapped<
    T,
    W: StreamingResponseWriter<T>,
    F: MapItem<Metadata, Metadata>,
>(
    writer: MapTrailingMetadata<W, F>,
    metadata: Metadata,
    body: MapTrailingMetadataBodyWriter<W::BodyWriter, F>,
    trailers: Metadata,
    r: Result<(), NotSent<MapTrailingMetadataBodyWriter<W::BodyWriter, F>>>,
    made: Result<Metadata, Status>,
)
    requires
        <MapTrailingMetadata<W, F> as StreamingResponseWriter<T>>::initiated(
            writer,
            metadata,
            Ok(body),
        ),
        <MapTrailingMetadataBodyWriter<W::BodyWriter, F> as StreamingResponseBodyWriter<
            T,
        >>::trailed(body, trailers, r),
        forall|m: Result<Metadata, Status>| #[trigger]
            body.spec_f().mapped(trailers, m) ==> m == made,
    ensures
        writer.spec_inner().initiated(metadata, Ok(body.spec_inner())),
        body.spec_f() == writer.spec_f(),
        made matches Ok(md) ==> (r is Ok ==> body.spec_inner().trailed(md, Ok(()))),
        made matches Err(e) ==> r is Err && r->Err_0.status == e && r->Err_0.writer == Some(body),
{
}


/// Mapping trailing metadata leaves messages alone, and goes on after each of them; a writer that
/// was not used comes back with its mapping.
pub proof fn law_mapping_trailing_metadata_keeps_messages<
    T,
    W: StreamingResponseBodyWriter<T>,
    F: MapItem<Metadata, Metadata>,
>(
    pre: MapTrailingMetadataBodyWriter<W, F>,
    item: T,
    post: MapTrailingMetadataBodyWriter<W, F>,
    r: Result<(), Status>,
    trailers: Metadata,
    end: Result<(), NotSent<MapTrailingMetadataBodyWriter<W, F>>>,
)
    requires
        <MapTrailingMetadataBodyWriter<W, F> as StreamingResponseBodyWriter<T>>::written(
            pre,
            item,
            post,
            r,
        ),
        <MapTrailingMetadataBodyWriter<W, F> as StreamingResponseBodyWriter<T>>::trailed(
            post,
            trailers,
            end,
        ),
    ensures
        W::written(pre.spec_inner(), item, post.spec_inner(), r),
        post.spec_f() == pre.spec_f(),
        end matches Err(e) ==> (e.writer matches Some(w) ==> w.spec_f() == pre.spec_f()),
{
}

} // verus!
