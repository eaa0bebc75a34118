//! Handlers of methods behind interceptors.

use crate::buf::Buf;
use crate::server::call::lazy::Lazy;
use crate::server::call::message_wrapper::{Incoming, Outgoing};
use crate::server::call::request::{HandlerCallOptions, StreamingRequest};
use crate::server::call::streaming_response_writer::{Outcome, StreamingResponseWriter};
use crate::server::interceptor::definition::{ByteStreamInterceptor, Interceptor};
use crate::server::interceptor::noop::NoopInterceptor;
use crate::server::method_handler::{GenericByteStreamMethodHandler, MessageStreamHandler};
use crate::server::stream::PushStreamProducer;
use std::marker::PhantomData;
use vstd::prelude::*;

verus! {

/// A handler of messages with an interceptor in front of it.
pub struct InterceptedMethodHandler<I, H> {
    /// The interceptor.
    pub interceptor: I,
    /// The handler.
    pub inner: H,
}

impl<
    Req,
    Resp,
    L: Lazy<Req>,
    P: PushStreamProducer<L>,
    W: StreamingResponseWriter<Outgoing<Resp>>,
    H: MessageStreamHandler<Req, Resp, L, P, W>,
    I: Interceptor<H, Req, Resp, L, P, W>,
> MessageStreamHandler<Req, Resp, L, P, W> for InterceptedMethodHandler<I, H> {
    open spec fn called(
        &self,
        options: HandlerCallOptions,
        req: StreamingRequest<L, P>,
        writer: W,
        r: Outcome<W, W::BodyWriter>,
    ) -> bool {
        self.interceptor.intercepted(self.inner, options, req, writer, r)
    }

    fn call(
        &self,
        options: HandlerCallOptions,
        req: StreamingRequest<L, P>,
        writer: W,
    ) -> (r: Outcome<W, W::BodyWriter>) {
        self.interceptor.intercept(&self.inner, options, req, writer)
    }
}

/// A borrowed handler of messages with a borrowed interceptor in front of it.
pub struct InterceptedMethodHandlerRef<'a, I, H> {
    /// The interceptor.
    pub interceptor: &'a I,
    /// The handler.
    pub inner: &'a H,
}

impl<
    'a,
    Req,
    Resp,
    L: Lazy<Req>,
    P: PushStreamProducer<L>,
    W: StreamingResponseWriter<Outgoing<Resp>>,
    H: MessageStreamHandler<Req, Resp, L, P, W>,
    I: Interceptor<H, Req, Resp, L, P, W>,
> MessageStreamHandler<Req, Resp, L, P, W> for InterceptedMethodHandlerRef<'a, I, H> {
    open spec fn called(
        &self,
        options: HandlerCallOptions,
        req: StreamingRequest<L, P>,
        writer: W,
        r: Outcome<W, W::BodyWriter>,
    ) -> bool {
        self.interceptor.intercepted(*self.inner, options, req, writer, r)
    }

    fn call(
        &self,
        options: HandlerCallOptions,
        req: StreamingRequest<L, P>,
        writer: W,
    ) -> (r: Outcome<W, W::BodyWriter>) {
        self.interceptor.intercept(self.inner, options, req, writer)
    }
}

/// A handler of bytes with an interceptor in front of it. `W2` is the writer that the interceptor
/// gives to the handler.
pub struct InterceptedByteStreamHandler<I, H, W2> {
    /// The interceptor.
    pub interceptor: I,
    /// The handler.
    pub inner: H,
    /// The writer's type.
    pub marker: PhantomData<W2>,
}

impl<
    ReqB: Buf,
    RespB: Buf,
    P: PushStreamProducer<Incoming<ReqB>>,
    W: StreamingResponseWriter<RespB>,
    W2: StreamingResponseWriter<RespB>,
    H: GenericByteStreamMethodHandler<ReqB, RespB, P, W2>,
    I: ByteStreamInterceptor<H, ReqB, RespB, P, W, W2>,
> GenericByteStreamMethodHandler<ReqB, RespB, P, W> for InterceptedByteStreamHandler<I, H, W2> {
    open spec fn called(
        &self,
        options: HandlerCallOptions,
        req: StreamingRequest<Incoming<ReqB>, P>,
        resp: W,
        r: Outcome<W, W::BodyWriter>,
    ) -> bool {
        self.interceptor.intercepted(self.inner, options, req, resp, r)
    }

    fn call(
        &self,
        options: HandlerCallOptions,
        req: StreamingRequest<Incoming<ReqB>, P>,
        resp: W,
    ) -> (r: Outcome<W, W::BodyWriter>) {
        self.interceptor.intercept(&self.inner, options, req, resp)
    }
}

/// A borrowed handler of bytes with a borrowed interceptor in front of it.
pub struct InterceptedByteStreamHandlerRef<'a, I, H, W2> {
    /// The interceptor.
    pub interceptor: &'a I,
    /// The handler.
    pub inner: &'a H,
    /// The writer's type.
    pub marker: PhantomData<W2>,
}

impl<
    'a,
    ReqB: Buf,
    RespB: Buf,
    P: PushStreamProducer<Incoming<ReqB>>,
    W: StreamingResponseWriter<RespB>,
    W2: StreamingResponseWriter<RespB>,
    H: GenericByteStreamMethodHandler<ReqB, RespB, P, W2>,
    I: ByteStreamInterceptor<H, ReqB, RespB, P, W, W2>,
> GenericByteStreamMethodHandler<ReqB, RespB, P, W> for InterceptedByteStreamHandlerRef<
    'a,
    I,
    H,
    W2,
> {
    open spec fn called(
        &self,
        options: HandlerCallOptions,
        req: StreamingRequest<Incoming<ReqB>, P>,
        resp: W,
        r: Outcome<W, W::BodyWriter>,
    ) -> bool {
        self.interceptor.intercepted(*self.inner, options, req, resp, r)
    }

    fn call(
        &self,
        options: HandlerCallOptions,
        req: StreamingRequest<Incoming<ReqB>, P>,
        resp: W,
    ) -> (r: Outcome<W, W::BodyWriter>) {
        self.interceptor.intercept(self.inner, options, req, resp)
    }
}


/// A handler behind an interceptor that does nothing handles calls as it does alone, and behind one
/// that lets no call through it handles none.
pub proof fn law_interceptor_decides<
    Req,
    Resp,
    L: Lazy<Req>,
    P: PushStreamProducer<L>,
    W: StreamingResponseWriter<Outgoing<Resp>>,
    H: MessageStreamHandler<Req, Resp, L, P, W>,
    I: Interceptor<H, Req, Resp, L, P, W>,
>(
    plain: InterceptedMethodHandler<NoopInterceptor, H>,
    guarded: InterceptedMethodHandler<I, H>,
    options: HandlerCallOptions,
    req: StreamingRequest<L, P>,
    writer: W,
    r: Outcome<W, W::BodyWriter>,
)
    requires
        forall|h: H| !#[trigger] guarded.interceptor.intercepted(h, options, req, writer, r),
    ensures
        <InterceptedMethodHandler<NoopInterceptor, H> as MessageStreamHandler<
            Req,
            Resp,
            L,
            P,
            W,
        >>::called(&plain, options, req, writer, r) == plain.inner.called(options, req, writer, r),
        !<InterceptedMethodHandler<I, H> as MessageStreamHandler<Req, Resp, L, P, W>>::called(
            &guarded,
            options,
            req,
            writer,
            r,
        ),
{
}

} // verus!
