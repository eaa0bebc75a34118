//! Interceptors of metadata.

use crate::buf::Buf;
use crate::server::call::message_wrapper::Incoming;
use crate::server::call::metadata::Metadata;
use crate::server::call::request::{HandlerCallOptions, StreamingRequest};
use crate::server::call::streaming_response_writer::{
    failed, Left, NotSent, Outcome, StreamingResponseBodyWriter, StreamingResponseWriter,
};
use crate::server::interceptor::definition::ByteStreamInterceptor;
use crate::server::method_handler::GenericByteStreamMethodHandler;
use crate::server::stream::PushStreamProducer;
use crate::status::Status;
use vstd::prelude::*;

verus! {

/// What comes of intercepting the metadata of a request.
pub struct InterceptionResult<S> {
    /// The metadata with which the request goes on.
    pub metadata: Metadata,
    /// What handles the metadata of the response.
    pub server_metadata_handler: S,
}

/// An interceptor of the metadata of requests.
pub trait MetadataInterceptor {
    /// What handles the metadata of responses.
    type Handler: ServerMetadataHandler;

    /// Whether this may come of intercepting metadata.
    open spec fn intercepted(
        &self,
        metadata: Metadata,
        r: Result<InterceptionResult<Self::Handler>, Status>,
    ) -> bool {
        true
    }

    /// Intercepts the metadata of a request.
    fn intercept(&self, metadata: Metadata) -> (r: Result<
        InterceptionResult<Self::Handler>,
        Status,
    >)
        ensures
            self.intercepted(metadata, r),
    ;
}

/// A handler of the metadata of a response.
pub trait ServerMetadataHandler: Sized {
    /// Whether handling initial metadata may turn `pre` into `post` and give this.
    open spec fn initial(
        pre: Self,
        metadata: Metadata,
        post: Self,
        r: Result<Metadata, Status>,
    ) -> bool {
        true
    }

    /// Whether handling trailing metadata may turn `pre` into `post` and give this.
    open spec fn trailing(
        pre: Self,
        metadata: Metadata,
        post: Self,
        r: Result<Metadata, Status>,
    ) -> bool {
        true
    }

    /// Handles the initial metadata.
    fn on_initial_metadata(&mut self, metadata: Metadata) -> (r: Result<Metadata, Status>)
        ensures
            Self::initial(*old(self), metadata, *final(self), r),
    ;

    /// Handles the trailing metadata.
    fn on_trailing_metadata(&mut self, metadata: Metadata) -> (r: Result<Metadata, Status>)
        ensures
            Self::trailing(*old(self), metadata, *final(self), r),
    ;
}

/// The interceptor that leaves metadata as it is.
#[derive(Debug, Clone, Copy)]
pub struct NoopInterceptor {}

impl MetadataInterceptor for NoopInterceptor {
    type Handler = NoopHandler;

    open spec fn intercepted(
        &self,
        metadata: Metadata,
        r: Result<InterceptionResult<NoopHandler>, Status>,
    ) -> bool {
        r matches Ok(res) && res.metadata == metadata
    }

    fn intercept(&self, metadata: Metadata) -> (r: Result<
        InterceptionResult<NoopHandler>,
        Status,
    >) {
        Ok(InterceptionResult { metadata, server_metadata_handler: NoopHandler {  } })
    }
}

/// The handler that leaves metadata as it is.
#[derive(Debug, Clone, Copy)]
pub struct NoopHandler {}

impl ServerMetadataHandler for NoopHandler {
    open spec fn initial(
        pre: Self,
        metadata: Metadata,
        post: Self,
        r: Result<Metadata, Status>,
    ) -> bool {
        r == Ok::<Metadata, Status>(metadata)
    }

    open spec fn trailing(
        pre: Self,
        metadata: Metadata,
        post: Self,
        r: Result<Metadata, Status>,
    ) -> bool {
        r == Ok::<Metadata, Status>(metadata)
    }

    fn on_initial_metadata(&mut self, metadata: Metadata) -> (r: Result<Metadata, Status>) {
        Ok(metadata)
    }

    fn on_trailing_metadata(&mut self, metadata: Metadata) -> (r: Result<Metadata, Status>) {
        Ok(metadata)
    }
}

/// Two interceptors of metadata. The request's metadata goes through the first and then through
/// the second.
#[derive(Debug)]
pub struct Chain<A, B> {
    inner_a: A,
    inner_b: B,
}

impl<A, B> Chain<A, B> {
    /// The first interceptor.
    pub closed spec fn spec_a(&self) -> A {
        self.inner_a
    }

    /// The second interceptor.
    pub closed spec fn spec_b(&self) -> B {
        self.inner_b
    }

    /// Puts `inner_a` in front of `inner_b`.
    pub fn new(inner_a: A, inner_b: B) -> (r: Self)
        ensures
            r.spec_a() == inner_a,
            r.spec_b() == inner_b,
    {
        Chain { inner_a, inner_b }
    }
}

impl<A: MetadataInterceptor, B: MetadataInterceptor> MetadataInterceptor for Chain<A, B> {
    type Handler = ChainHandler<A::Handler, B::Handler>;

    open spec fn intercepted(
        &self,
        metadata: Metadata,
        r: Result<InterceptionResult<ChainHandler<A::Handler, B::Handler>>, Status>,
    ) -> bool {
        exists|ra: Result<InterceptionResult<A::Handler>, Status>|
            {
                &&& #[trigger] self.spec_a().intercepted(metadata, ra)
                &&& match ra {
                    Err(e) => r == Err::<
                        InterceptionResult<ChainHandler<A::Handler, B::Handler>>,
                        Status,
                    >(e),
                    Ok(a) => exists|rb: Result<InterceptionResult<B::Handler>, Status>|
                        {
                            &&& #[trigger] self.spec_b().intercepted(a.metadata, rb)
                            &&& match rb {
                                Err(e) => r == Err::<
                                    InterceptionResult<ChainHandler<A::Handler, B::Handler>>,
                                    Status,
                                >(e),
                                Ok(b) => {
                                    &&& r is Ok
                                    &&& r->Ok_0.metadata == b.metadata
                                    &&& r->Ok_0.server_metadata_handler.spec_a()
                                        == a.server_metadata_handler
                                    &&& r->Ok_0.server_metadata_handler.spec_b()
                                        == b.server_metadata_handler
                                },
                            }
                        },
                }
            }
    }

    fn intercept(&self, metadata: Metadata) -> (r: Result<
        InterceptionResult<ChainHandler<A::Handler, B::Handler>>,
        Status,
    >) {
        let ra = self.inner_a.intercept(metadata);
        assert(self.spec_a().intercepted(metadata, ra));
        let res_a = match ra {
            Ok(a) => a,
            Err(e) => {
                return Err(e);
            },
        };
        let ghost between = res_a.metadata;
        let rb = self.inner_b.intercept(res_a.metadata);
        assert(self.spec_b().intercepted(between, rb));
        match rb {
            Ok(res_b) => Ok(
                InterceptionResult {
                    metadata: res_b.metadata,
                    server_metadata_handler: ChainHandler {
                        handler_a: res_a.server_metadata_handler,
                        handler_b: res_b.server_metadata_handler,
                    },
                },
            ),
            Err(e) => Err(e),
        }
    }
}

/// Two handlers of metadata. The response's metadata goes through the second and then through the
/// first.
pub struct ChainHandler<A, B> {
    handler_a: A,
    handler_b: B,
}

impl<A, B> ChainHandler<A, B> {
    /// The first handler.
    pub closed spec fn spec_a(&self) -> A {
        self.handler_a
    }

    /// The second handler.
    pub closed spec fn spec_b(&self) -> B {
        self.handler_b
    }
}

impl<A: ServerMetadataHandler, B: ServerMetadataHandler> ServerMetadataHandler for ChainHandler<
    A,
    B,
> {
    open spec fn initial(
        pre: Self,
        metadata: Metadata,
        post: Self,
        r: Result<Metadata, Status>,
    ) -> bool {
        exists|rb: Result<Metadata, Status>|
            {
                &&& #[trigger] B::initial(pre.spec_b(), metadata, post.spec_b(), rb)
                &&& match rb {
                    Ok(md) => A::initial(pre.spec_a(), md, post.spec_a(), r),
                    Err(e) => r == Err::<Metadata, Status>(e) && post.spec_a() == pre.spec_a(),
                }
            }
    }

    open spec fn trailing(
        pre: Self,
        metadata: Metadata,
        post: Self,
        r: Result<Metadata, Status>,
    ) -> bool {
        exists|rb: Result<Metadata, Status>|
            {
                &&& #[trigger] B::trailing(pre.spec_b(), metadata, post.spec_b(), rb)
                &&& match rb {
                    Ok(md) => A::trailing(pre.spec_a(), md, post.spec_a(), r),
                    Err(e) => r == Err::<Metadata, Status>(e) && post.spec_a() == pre.spec_a(),
                }
            }
    }

    fn on_initial_metadata(&mut self, metadata: Metadata) -> (r: Result<Metadata, Status>) {
        let rb = self.handler_b.on_initial_metadata(metadata);
        let ghost shown = rb;
        let r = match rb {
            Ok(md) => self.handler_a.on_initial_metadata(md),
            Err(e) => Err(e),
        };
        assert(B::initial(old(self).spec_b(), metadata, self.spec_b(), shown));
        r
    }

    fn on_trailing_metadata(&mut self, metadata: Metadata) -> (r: Result<Metadata, Status>) {
        let rb = self.handler_b.on_trailing_metadata(metadata);
        let ghost shown = rb;
        let r = match rb {
            Ok(md) => self.handler_a.on_trailing_metadata(md),
            Err(e) => Err(e),
        };
        assert(B::trailing(old(self).spec_b(), metadata, self.spec_b(), shown));
        r
    }
}

/// An interceptor of metadata as an interceptor of calls on the level of bytes.
pub struct MetadataInterceptorAdapter<I>(pub I);

impl<
    I: MetadataInterceptor,
    ReqB: Buf,
    RespB: Buf,
    P: PushStreamProducer<Incoming<ReqB>>,
    W: StreamingResponseWriter<RespB>,
    H: GenericByteStreamMethodHandler<
        ReqB,
        RespB,
        P,
        MetadataResponseWriterWrapper<W, I::Handler>,
    >,
> ByteStreamInterceptor<
    H,
    ReqB,
    RespB,
    P,
    W,
    MetadataResponseWriterWrapper<W, I::Handler>,
> for MetadataInterceptorAdapter<I> {
    open spec fn intercepted(
        &self,
        handler: H,
        options: HandlerCallOptions,
        req: StreamingRequest<Incoming<ReqB>, P>,
        resp: W,
        r: Outcome<W, W::BodyWriter>,
    ) -> bool {
        exists|res: Result<InterceptionResult<I::Handler>, Status>|
            {
                &&& #[trigger] self.0.intercepted(req.spec_metadata(), res)
                &&& match res {
                    Err(e) => failed(r, e, Left::Response(resp)),
                    Ok(ir) => exists|
                        new_req: StreamingRequest<Incoming<ReqB>, P>,
                        writer: MetadataResponseWriterWrapper<W, I::Handler>,
                        end: Outcome<
                            MetadataResponseWriterWrapper<W, I::Handler>,
                            MetadataBodyWriterWrapper<W::BodyWriter, I::Handler>,
                        >,
                    |
                        {
                            &&& #[trigger] handler.called(options, new_req, writer, end)
                            &&& r.0 == end.0
                            &&& r.1 == unwrapped(end.1)
                            &&& new_req.spec_stream() == req.spec_stream()
                            &&& new_req.spec_metadata() == ir.metadata
                            &&& writer.spec_inner() == resp
                            &&& writer.spec_handler() == ir.server_metadata_handler
                        },
                }
            }
    }

    fn intercept(
        &self,
        handler: &H,
        options: HandlerCallOptions,
        req: StreamingRequest<Incoming<ReqB>, P>,
        resp: W,
    ) -> (r: Outcome<W, W::BodyWriter>) {
        let (metadata, stream) = req.into_parts();
        let res = self.0.intercept(metadata);
        assert(self.0.intercepted(req.spec_metadata(), res));
        match res {
            Err(e) => (Err(e), Left::Response(resp)),
            Ok(ir) => {
                let new_req = StreamingRequest::new(stream, ir.metadata);
                let writer = MetadataResponseWriterWrapper {
                    inner: resp,
                    handler: ir.server_metadata_handler,
                };
                let end = handler.call(options, new_req, writer);
                assert((*handler).called(options, new_req, writer, end));
                let left = match end.1 {
                    Left::Response(w) => Left::Response(w.inner),
                    Left::Body(w) => Left::Body(w.inner),
                    Left::Nothing => Left::Nothing,
                };
                (end.0, left)
            },
        }
    }
}

/// What is left of a response whose metadata would have gone through a handler.
pub open spec fn unwrapped<W, B, H>(
    left: Left<MetadataResponseWriterWrapper<W, H>, MetadataBodyWriterWrapper<B, H>>,
) -> Left<W, B> {
    match left {
        Left::Response(w) => Left::Response(w.spec_inner()),
        Left::Body(w) => Left::Body(w.spec_inner()),
        Left::Nothing => Left::Nothing,
    }
}

/// A writer of a response whose metadata goes through a handler.
pub struct MetadataResponseWriterWrapper<W, H> {
    inner: W,
    handler: H,
}

impl<W, H> MetadataResponseWriterWrapper<W, H> {
    /// The writer.
    pub closed spec fn spec_inner(&self) -> W {
        self.inner
    }

    /// The handler of the metadata.
    pub closed spec fn spec_handler(&self) -> H {
        self.handler
    }

    /// The writer that was not used, without the handler.
    pub open spec fn below(e: NotSent<Self>) -> NotSent<W> {
        NotSent {
            status: e.status,
            writer: match e.writer {
                Some(w) => Some(w.spec_inner()),
                None => None,
            },
        }
    }
}

impl<T, W: StreamingResponseWriter<T>, H: ServerMetadataHandler> StreamingResponseWriter<
    T,
> for MetadataResponseWriterWrapper<W, H> {
    type BodyWriter = MetadataBodyWriterWrapper<W::BodyWriter, H>;

    open spec fn inv(&self) -> bool {
        self.spec_inner().inv()
    }

    open spec fn initiated(
        self,
        metadata: Metadata,
        r: Result<Self::BodyWriter, NotSent<Self>>,
    ) -> bool {
        exists|after: H, m: Result<Metadata, Status>|
            {
                &&& #[trigger] H::initial(self.spec_handler(), metadata, after, m)
                &&& match m {
                    Err(e) => {
                        &&& r matches Err(x)
                        &&& r->Err_0.status == e
                        &&& r->Err_0.writer is Some
                        &&& r->Err_0.writer->Some_0.spec_inner() == self.spec_inner()
                        &&& r->Err_0.writer->Some_0.spec_handler() == after
                    },
                    Ok(md) => match r {
                        Ok(w) => self.spec_inner().initiated(md, Ok(w.spec_inner()))
                            && w.spec_handler() == after,
                        Err(e) => {
                            &&& self.spec_inner().initiated(md, Err(Self::below(e)))
                            &&& e.writer matches Some(w) ==> w.spec_handler() == after
                        },
                    },
                }
            }
    }

    fn send_initial_metadata(self, metadata: Metadata) -> (r: Result<
        Self::BodyWriter,
        NotSent<Self>,
    >) {
        let ghost this = self;
        let mut handler = self.handler;
        let m = handler.on_initial_metadata(metadata);
        assert(H::initial(this.spec_handler(), metadata, handler, m));
        match m {
            Ok(md) => match self.inner.send_initial_metadata(md) {
                Ok(inner) => {
                    let w = MetadataBodyWriterWrapper { inner, handler };
                    assert(StreamingResponseBodyWriter::<T>::inv(&w));
                    Ok(w)
                },
                Err(e) => {
                    let ghost below = e;
                    let r = NotSent {
                        status: e.status,
                        writer: match e.writer {
                            Some(inner) => Some(MetadataResponseWriterWrapper { inner, handler }),
                            None => None,
                        },
                    };
                    assert(Self::below(r) == below);
                    Err(r)
                },
            },
            Err(e) => Err(
                NotSent {
                    status: e,
                    writer: Some(MetadataResponseWriterWrapper { inner: self.inner, handler }),
                },
            ),
        }
    }
}

/// A body writer of a response whose metadata goes through a handler.
pub struct MetadataBodyWriterWrapper<W, H> {
    inner: W,
    handler: H,
}

impl<W, H> MetadataBodyWriterWrapper<W, H> {
    /// The writer.
    pub closed spec fn spec_inner(&self) -> W {
        self.inner
    }

    /// The handler of the metadata.
    pub closed spec fn spec_handler(&self) -> H {
        self.handler
    }

    /// The writer that was not used, without the handler.
    pub open spec fn below(e: NotSent<Self>) -> NotSent<W> {
        NotSent {
            status: e.status,
            writer: match e.writer {
                Some(w) => Some(w.spec_inner()),
                None => None,
            },
        }
    }
}

impl<T, W: StreamingResponseBodyWriter<T>, H: ServerMetadataHandler> StreamingResponseBodyWriter<
    T,
> for MetadataBodyWriterWrapper<W, H> {
    open spec fn inv(&self) -> bool {
        self.spec_inner().inv()
    }

    open spec fn written(pre: Self, item: T, post: Self, r: Result<(), Status>) -> bool {
        &&& W::written(pre.spec_inner(), item, post.spec_inner(), r)
        &&& post.spec_handler() == pre.spec_handler()
    }

    open spec fn trailed(self, trailers: Metadata, r: Result<(), NotSent<Self>>) -> bool {
        exists|after: H, m: Result<Metadata, Status>|
            {
                &&& #[trigger] H::trailing(self.spec_handler(), trailers, after, m)
                &&& match m {
                    Ok(md) => match r {
                        Ok(_) => self.spec_inner().trailed(md, Ok(())),
                        Err(e) => {
                            &&& self.spec_inner().trailed(md, Err(Self::below(e)))
                            &&& e.writer matches Some(w) ==> w.spec_handler() == after
                        },
                    },
                    Err(e) => {
                        &&& r matches Err(x)
                        &&& r->Err_0.status == e
                        &&& r->Err_0.writer is Some
                        &&& r->Err_0.writer->Some_0.spec_inner() == self.spec_inner()
                        &&& r->Err_0.writer->Some_0.spec_handler() == after
                    },
                }
            }
    }

    fn write(&mut self, item: T) -> (r: Result<(), Status>) {
        self.inner.write(item)
    }

    fn send_trailing_metadata(self, trailers: Metadata) -> (r: Result<(), NotSent<Self>>) {
        let ghost this = self;
        let mut handler = self.handler;
        let m = handler.on_trailing_metadata(trailers);
        assert(H::trailing(this.spec_handler(), trailers, handler, m));
        match m {
            Ok(md) => {
                let sent = self.inner.send_trailing_metadata(md);
                assert(sent matches Ok(u) ==> u == ());
                match sent {
                    Ok(()) => Ok(()),
                    Err(e) => {
                        let ghost below = e;
                        let r = NotSent {
                            status: e.status,
                            writer: match e.writer {
                                Some(inner) => Some(MetadataBodyWriterWrapper { inner, handler }),
                                None => None,
                            },
                        };
                        assert(Self::below(r) == below);
                        Err(r)
                    },
                }
            },
            Err(e) => Err(
                NotSent {
                    status: e,
                    writer: Some(MetadataBodyWriterWrapper { inner: self.inner, handler }),
                },
            ),
        }
    }
}


/// The metadata of a request goes through both interceptors of a chain, first through the first:
/// what the second makes of what the first made of it is what the request goes on with, and the
/// first one to refuse it decides.
pub proof fn law_request_metadata_goes_through_both<
    A: MetadataInterceptor,
    B: MetadataInterceptor,
>(
    chain: Chain<A, B>,
    metadata: Metadata,
    r: Result<InterceptionResult<ChainHandler<A::Handler, B::Handler>>, Status>,
    first: Result<Metadata, Status>,
    second: Result<Metadata, Status>,
)
    requires
        chain.intercepted(metadata, r),
        forall|ra: Result<InterceptionResult<A::Handler>, Status>| #[trigger]
            chain.spec_a().intercepted(metadata, ra) ==> match first {
                Ok(m) => ra is Ok && ra->Ok_0.metadata == m,
                Err(e) => ra == Err::<InterceptionResult<A::Handler>, Status>(e),
            },
        first matches Ok(m) ==> forall|rb: Result<InterceptionResult<B::Handler>, Status>|
            #[trigger]
            chain.spec_b().intercepted(m, rb) ==> match second {
                Ok(n) => rb is Ok && rb->Ok_0.metadata == n,
                Err(e) => rb == Err::<InterceptionResult<B::Handler>, Status>(e),
            },
    ensures
        first matches Err(e) ==> r is Err && r->Err_0 == e,
        first is Ok ==> (second matches Err(e) ==> r is Err && r->Err_0 == e),
        first is Ok ==> (second matches Ok(n) ==> r is Ok && r->Ok_0.metadata == n),
{
}

/// The metadata of a response goes the other way: through the second handler of a chain, and what
/// that makes of it through the first.
pub proof fn law_response_metadata_goes_back<A: ServerMetadataHandler, B: ServerMetadataHandler>(
    pre: ChainHandler<A, B>,
    metadata: Metadata,
    post: ChainHandler<A, B>,
    r: Result<Metadata, Status>,
    inner: Result<Metadata, Status>,
    outer: Result<Metadata, Status>,
)
    requires
        forall|b: B, rb: Result<Metadata, Status>| #[trigger]
            B::initial(pre.spec_b(), metadata, b, rb) ==> rb == inner,
        forall|b: B, rb: Result<Metadata, Status>| #[trigger]
            B::trailing(pre.spec_b(), metadata, b, rb) ==> rb == inner,
        inner matches Ok(m) ==> forall|a: A, ra: Result<Metadata, Status>| #[trigger]
            A::initial(pre.spec_a(), m, a, ra) ==> ra == outer,
        inner matches Ok(m) ==> forall|a: A, ra: Result<Metadata, Status>| #[trigger]
            A::trailing(pre.spec_a(), m, a, ra) ==> ra == outer,
        ChainHandler::<A, B>::initial(pre, metadata, post, r) || ChainHandler::<A, B>::trailing(
            pre,
            metadata,
            post,
            r,
        ),
    ensures
        inner is Ok ==> r == outer,
        inner matches Err(e) ==> r is Err && r->Err_0 == e && post.spec_a() == pre.spec_a(),
{
}

/// A handler behind an interceptor of metadata sees the requests as they are and the metadata that
/// the interceptor made; a request that the interceptor refuses never reaches it, and ends for the
/// interceptor's reason with nothing sent.
pub proof fn law_handler_sees_intercepted_metadata<
    I: MetadataInterceptor,
    ReqB: Buf,
    RespB: Buf,
    P: PushStreamProducer<Incoming<ReqB>>,
    W: StreamingResponseWriter<RespB>,
    H: GenericByteStreamMethodHandler<
        ReqB,
        RespB,
        P,
        MetadataResponseWriterWrapper<W, I::Handler>,
    >,
>(
    adapter: MetadataInterceptorAdapter<I>,
    handler: H,
    options: HandlerCallOptions,
    req: StreamingRequest<Incoming<ReqB>, P>,
    resp: W,
    r: Outcome<W, W::BodyWriter>,
    made: Result<Metadata, Status>,
    seen: spec_fn(Metadata, StreamingRequest<Incoming<ReqB>, P>, Result<(), Status>) -> bool,
)
    requires
        <MetadataInterceptorAdapter<I> as ByteStreamInterceptor<
            H,
            ReqB,
            RespB,
            P,
            W,
            MetadataResponseWriterWrapper<W, I::Handler>,
        >>::intercepted(&adapter, handler, options, req, resp, r),
        forall|res: Result<InterceptionResult<I::Handler>, Status>| #[trigger]
            adapter.0.intercepted(req.spec_metadata(), res) ==> match made {
                Ok(m) => res is Ok && res->Ok_0.metadata == m,
                Err(e) => res == Err::<InterceptionResult<I::Handler>, Status>(e),
            },
        forall|
            new_req: StreamingRequest<Incoming<ReqB>, P>,
            writer: MetadataResponseWriterWrapper<W, I::Handler>,
            end: Outcome<
                MetadataResponseWriterWrapper<W, I::Handler>,
                MetadataBodyWriterWrapper<W::BodyWriter, I::Handler>,
            >,
        | #[trigger]
            handler.called(options, new_req, writer, end) ==> seen(
                new_req.spec_metadata(),
                new_req,
                end.0,
            ),
    ensures
        made matches Err(e) ==> r.0 == Err::<(), Status>(e) && r.1 == Left::<
            W,
            W::BodyWriter,
        >::Response(resp),
        made matches Ok(m) ==> exists|new_req: StreamingRequest<Incoming<ReqB>, P>| #[trigger]
            seen(m, new_req, r.0) && new_req.spec_stream() == req.spec_stream(),
{
    let res = choose|res: Result<InterceptionResult<I::Handler>, Status>|
        {
            &&& #[trigger] adapter.0.intercepted(req.spec_metadata(), res)
            &&& match res {
                Err(e) => failed(r, e, Left::Response(resp)),
                Ok(ir) => exists|
                    new_req: StreamingRequest<Incoming<ReqB>, P>,
                    writer: MetadataResponseWriterWrapper<W, I::Handler>,
                    end: Outcome<
                        MetadataResponseWriterWrapper<W, I::Handler>,
                        MetadataBodyWriterWrapper<W::BodyWriter, I::Handler>,
                    >,
                |
                    {
                        &&& #[trigger] handler.called(options, new_req, writer, end)
                        &&& r.0 == end.0
                        &&& r.1 == unwrapped(end.1)
                        &&& new_req.spec_stream() == req.spec_stream()
                        &&& new_req.spec_metadata() == ir.metadata
                        &&& writer.spec_inner() == resp
                        &&& writer.spec_handler() == ir.server_metadata_handler
                    },
            }
        };
}

/// The metadata of a response goes through the handler of metadata on its way out, and messages as
/// they are: what is sent is what the handler makes of it, and where it makes nothing of it nothing
/// is sent.
pub proof fn law_response_metadata_is_handled<
    T,
    W: StreamingResponseWriter<T>,
    H: ServerMetadataHandler,
>(
    writer: MetadataResponseWriterWrapper<W, H>,
    metadata: Metadata,
    r: Result<
        MetadataBodyWriterWrapper<W::BodyWriter, H>,
        NotSent<MetadataResponseWriterWrapper<W, H>>,
    >,
    body: MetadataBodyWriterWrapper<W::BodyWriter, H>,
    trailers: Metadata,
    end: Result<(), NotSent<MetadataBodyWriterWrapper<W::BodyWriter, H>>>,
    first: Result<Metadata, Status>,
    last: Result<Metadata, Status>,
)
    requires
        <MetadataResponseWriterWrapper<W, H> as StreamingResponseWriter<T>>::initiated(
            writer,
            metadata,
            r,
        ),
        <MetadataBodyWriterWrapper<W::BodyWriter, H> as StreamingResponseBodyWriter<T>>::trailed(
            body,
            trailers,
            end,
        ),
        forall|h: H, m: Result<Metadata, Status>| #[trigger]
            H::initial(writer.spec_handler(), metadata, h, m) ==> m == first,
        forall|h: H, m: Result<Metadata, Status>| #[trigger]
            H::trailing(body.spec_handler(), trailers, h, m) ==> m == last,
    ensures
        first matches Ok(m) ==> (r matches Ok(w) ==> writer.spec_inner().initiated(
            m,
            Ok(w.spec_inner()),
        )),
        first matches Err(e) ==> r is Err && r->Err_0.status == e && r->Err_0.writer is Some
            && r->Err_0.writer->Some_0.spec_inner() == writer.spec_inner(),
        last matches Ok(m) ==> (end is Ok ==> body.spec_inner().trailed(m, Ok(()))),
        last matches Err(e) ==> end is Err && end->Err_0.status == e && end->Err_0.writer is Some
            && end->Err_0.writer->Some_0.spec_inner() == body.spec_inner(),
{
}


/// Messages go through a handler of metadata as they are, and leave it as it was; what is left of a
/// response is handed back without it.
pub proof fn law_messages_pass_metadata_handlers<
    T,
    W: StreamingResponseWriter<T>,
    H: ServerMetadataHandler,
>(
    pre: MetadataBodyWriterWrapper<W::BodyWriter, H>,
    item: T,
    post: MetadataBodyWriterWrapper<W::BodyWriter, H>,
    r: Result<(), Status>,
    left: Left<MetadataResponseWriterWrapper<W, H>, MetadataBodyWriterWrapper<W::BodyWriter, H>>,
)
    requires
        <MetadataBodyWriterWrapper<W::BodyWriter, H> as StreamingResponseBodyWriter<T>>::written(
            pre,
            item,
            post,
            r,
        ),
    ensures
        W::BodyWriter::written(pre.spec_inner(), item, post.spec_inner(), r),
        post.spec_handler() == pre.spec_handler(),
        left matches Left::Response(w) ==> unwrapped(left) == Left::<W, W::BodyWriter>::Response(
            w.spec_inner(),
        ),
        left matches Left::Body(w) ==> unwrapped(left) == Left::<W, W::BodyWriter>::Body(
            w.spec_inner(),
        ),
        left is Nothing ==> unwrapped(left) is Nothing,
{
}

/// The handlers of a response's metadata are those that the interceptors of its request gave, each
/// in its place.
pub proof fn law_chain_keeps_handlers<A: MetadataInterceptor, B: MetadataInterceptor>(
    chain: Chain<A, B>,
    metadata: Metadata,
    r: Result<InterceptionResult<ChainHandler<A::Handler, B::Handler>>, Status>,
    first: A::Handler,
    second: B::Handler,
)
    requires
        chain.intercepted(metadata, r),
        r is Ok,
        forall|m: Metadata, ra: Result<InterceptionResult<A::Handler>, Status>| #[trigger]
            chain.spec_a().intercepted(m, ra) ==> (ra is Ok ==> ra->Ok_0.server_metadata_handler
                == first),
        forall|m: Metadata, rb: Result<InterceptionResult<B::Handler>, Status>| #[trigger]
            chain.spec_b().intercepted(m, rb) ==> (rb is Ok ==> rb->Ok_0.server_metadata_handler
                == second),
    ensures
        r->Ok_0.server_metadata_handler.spec_a() == first,
        r->Ok_0.server_metadata_handler.spec_b() == second,
{
}

} // verus!
