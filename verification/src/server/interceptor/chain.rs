//! Chains of interceptors.

use crate::buf::Buf;
use crate::server::call::lazy::Lazy;
use crate::server::call::message_wrapper::{Incoming, Outgoing};
use crate::server::call::request::{HandlerCallOptions, StreamingRequest};
use crate::server::call::streaming_response_writer::{Outcome, StreamingResponseWriter};
use crate::server::interceptor::definition::{ByteStreamInterceptor, Interceptor};
use crate::server::interceptor::noop::NoopInterceptor;
use crate::server::interceptor::intercepted_handler::{
    InterceptedByteStreamHandlerRef, InterceptedMethodHandlerRef,
};
use crate::server::method_handler::{GenericByteStreamMethodHandler, MessageStreamHandler};
use crate::server::stream::PushStreamProducer;
use std::marker::PhantomData;
use vstd::prelude::*;

verus! {

/// Two interceptors, the first in front of the second. On the level of bytes, `M` is the type of
/// the writer that the first gives to the second.
pub struct ChainedInterceptor<A, B, M> {
    first: A,
    second: B,
    marker: PhantomData<M>,
}

impl<A, B, M> ChainedInterceptor<A, B, M> {
    /// The interceptor in front.
    pub closed spec fn spec_first(&self) -> A {
        self.first
    }

    /// The interceptor behind it.
    pub closed spec fn spec_second(&self) -> B {
        self.second
    }

    /// Puts `first` in front of `second`.
    pub fn new(first: A, second: B) -> (r: Self)
        ensures
            r.spec_first() == first,
            r.spec_second() == second,
    {
        ChainedInterceptor { first, second, marker: PhantomData }
    }
}

impl<
    A,
    B,
    M,
    Req,
    Resp,
    L: Lazy<Req>,
    P: PushStreamProducer<L>,
    W: StreamingResponseWriter<Outgoing<Resp>>,
    H: MessageStreamHandler<Req, Resp, L, P, W>,
> Interceptor<H, Req, Resp, L, P, W> for ChainedInterceptor<A, B, M> where
    B: Interceptor<H, Req, Resp, L, P, W>,
    A: for<'a> Interceptor<InterceptedMethodHandlerRef<'a, B, H>, Req, Resp, L, P, W>,
 {
    open spec fn intercepted(
        &self,
        handler: H,
        options: HandlerCallOptions,
        req: StreamingRequest<L, P>,
        writer: W,
        r: Outcome<W, W::BodyWriter>,
    ) -> bool {
        self.spec_first().intercepted(
            InterceptedMethodHandlerRef { interceptor: &self.spec_second(), inner: &handler },
            options,
            req,
            writer,
            r,
        )
    }

    fn intercept(
        &self,
        handler: &H,
        options: HandlerCallOptions,
        req: StreamingRequest<L, P>,
        writer: W,
    ) -> (r: Outcome<W, W::BodyWriter>) {
        let inner = InterceptedMethodHandlerRef { interceptor: &self.second, inner: handler };
        self.first.intercept(&inner, options, req, writer)
    }
}

impl<
    A,
    B,
    ReqB: Buf,
    RespB: Buf,
    P: PushStreamProducer<Incoming<ReqB>>,
    W: StreamingResponseWriter<RespB>,
    W2: StreamingResponseWriter<RespB>,
    W3: StreamingResponseWriter<RespB>,
    H: GenericByteStreamMethodHandler<ReqB, RespB, P, W3>,
> ByteStreamInterceptor<H, ReqB, RespB, P, W, W3> for ChainedInterceptor<A, B, W2> where
    B: ByteStreamInterceptor<H, ReqB, RespB, P, W2, W3>,
    A: for<'a> ByteStreamInterceptor<
        InterceptedByteStreamHandlerRef<'a, B, H, W3>,
        ReqB,
        RespB,
        P,
        W,
        W2,
    >,
 {
    open spec fn intercepted(
        &self,
        handler: H,
        options: HandlerCallOptions,
        req: StreamingRequest<Incoming<ReqB>, P>,
        resp: W,
        r: Outcome<W, W::BodyWriter>,
    ) -> bool {
        self.spec_first().intercepted(
            InterceptedByteStreamHandlerRef {
                interceptor: &self.spec_second(),
                inner: &handler,
                marker: PhantomData::<W3>,
            },
            options,
            req,
            resp,
            r,
        )
    }

    fn intercept(
        &self,
        handler: &H,
        options: HandlerCallOptions,
        req: StreamingRequest<Incoming<ReqB>, P>,
        resp: W,
    ) -> (r: Outcome<W, W::BodyWriter>) {
        let inner: InterceptedByteStreamHandlerRef<'_, B, H, W3> = InterceptedByteStreamHandlerRef {
            interceptor: &self.second,
            inner: handler,
            marker: PhantomData,
        };
        self.first.intercept(&inner, options, req, resp)
    }
}


/// The first interceptor of a chain stands in front: a call that it lets through in front of no
/// handler does not get through the chain, whatever the second would do.
pub proof fn law_chain_begins_with_first<
    A,
    B,
    M,
    Req,
    Resp,
    L: Lazy<Req>,
    P: PushStreamProducer<L>,
    W: StreamingResponseWriter<Outgoing<Resp>>,
    H: MessageStreamHandler<Req, Resp, L, P, W>,
>(
    chain: ChainedInterceptor<A, B, M>,
    handler: H,
    options: HandlerCallOptions,
    req: StreamingRequest<L, P>,
    writer: W,
    r: Outcome<W, W::BodyWriter>,
) where
    B: Interceptor<H, Req, Resp, L, P, W>,
    A: for<'a> Interceptor<InterceptedMethodHandlerRef<'a, B, H>, Req, Resp, L, P, W>,

    requires
        forall|inner: InterceptedMethodHandlerRef<'_, B, H>| !#[trigger]
            chain.spec_first().intercepted(inner, options, req, writer, r),
    ensures
        !<ChainedInterceptor<A, B, M> as Interceptor<H, Req, Resp, L, P, W>>::intercepted(
            &chain,
            handler,
            options,
            req,
            writer,
            r,
        ),
{
    let inner = InterceptedMethodHandlerRef { interceptor: &chain.spec_second(), inner: &handler };
    assert(!chain.spec_first().intercepted(inner, options, req, writer, r));
}

/// A chain that begins with the interceptor that does nothing is its second interceptor.
pub proof fn law_noop_in_front<
    B,
    M,
    Req,
    Resp,
    L: Lazy<Req>,
    P: PushStreamProducer<L>,
    W: StreamingResponseWriter<Outgoing<Resp>>,
    H: MessageStreamHandler<Req, Resp, L, P, W>,
>(
    chain: ChainedInterceptor<NoopInterceptor, B, M>,
    handler: H,
    options: HandlerCallOptions,
    req: StreamingRequest<L, P>,
    writer: W,
    r: Outcome<W, W::BodyWriter>,
) where B: Interceptor<H, Req, Resp, L, P, W>
    ensures
        <ChainedInterceptor<NoopInterceptor, B, M> as Interceptor<
            H,
            Req,
            Resp,
            L,
            P,
            W,
        >>::intercepted(&chain, handler, options, req, writer, r)
            == chain.spec_second().intercepted(handler, options, req, writer, r),
{
}

} // verus!
