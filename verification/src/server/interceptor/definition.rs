//! Interceptors of the handlers of methods.

use crate::buf::Buf;
use crate::server::call::lazy::Lazy;
use crate::server::call::message_wrapper::{Incoming, Outgoing};
use crate::server::call::request::{HandlerCallOptions, StreamingRequest};
use crate::server::call::streaming_response_writer::{Outcome, StreamingResponseWriter};
use crate::server::method_handler::{GenericByteStreamMethodHandler, MessageStreamHandler};
use crate::server::stream::PushStreamProducer;
use vstd::prelude::*;

verus! {

/// An interceptor of calls on the level of messages.
pub trait Interceptor<
    H: MessageStreamHandler<Req, Resp, L, P, W>,
    Req,
    Resp,
    L: Lazy<Req>,
    P: PushStreamProducer<L>,
    W: StreamingResponseWriter<Outgoing<Resp>>,
> {
    /// Whether handling this request in front of `handler` may end with this result.
    open spec fn intercepted(
        &self,
        handler: H,
        options: HandlerCallOptions,
        req: StreamingRequest<L, P>,
        writer: W,
        r: Outcome<W, W::BodyWriter>,
    ) -> bool {
        true
    }

    /// Handles a request in front of `handler`.
    fn intercept(
        &self,
        handler: &H,
        options: HandlerCallOptions,
        req: StreamingRequest<L, P>,
        writer: W,
    ) -> (r: Outcome<W, W::BodyWriter>)
        requires
            req.spec_stream().spec_producer().inv(),
            forall|lazy: L| #[trigger]
                req.spec_stream().spec_producer().can_yield(lazy) ==> lazy.inv(),
            writer.inv(),
        ensures
            self.intercepted(*handler, options, req, writer, r),
    ;
}

/// A maker of interceptors.
pub trait InterceptorFactory {
    /// The interceptors.
    type Interceptor;

    /// Whether this interceptor may be made.
    open spec fn makes(&self, r: Self::Interceptor) -> bool {
        true
    }

    /// Makes an interceptor.
    fn create(&self) -> (r: Self::Interceptor)
        ensures
            self.makes(r),
    ;
}

/// An interceptor of calls on the level of bytes.
pub trait ByteStreamInterceptor<
    H: GenericByteStreamMethodHandler<ReqB, RespB, P, W2>,
    ReqB: Buf,
    RespB: Buf,
    P: PushStreamProducer<Incoming<ReqB>>,
    W: StreamingResponseWriter<RespB>,
    W2: StreamingResponseWriter<RespB>,
> {
    /// Whether handling this request in front of `handler` may end with this result.
    open spec fn intercepted(
        &self,
        handler: H,
        options: HandlerCallOptions,
        req: StreamingRequest<Incoming<ReqB>, P>,
        resp: W,
        r: Outcome<W, W::BodyWriter>,
    ) -> bool {
        true
    }

    /// Handles a request in front of `handler`.
    fn intercept(
        &self,
        handler: &H,
        options: HandlerCallOptions,
        req: StreamingRequest<Incoming<ReqB>, P>,
        resp: W,
    ) -> (r: Outcome<W, W::BodyWriter>)
        requires
            req.spec_stream().spec_producer().inv(),
            forall|msg: Incoming<ReqB>| #[trigger]
                req.spec_stream().spec_producer().can_yield(msg) ==> msg.message_bytes.inv(),
            resp.inv(),
        ensures
            self.intercepted(*handler, options, req, resp, r),
    ;
}

/// A maker of interceptors on the level of bytes.
pub trait ByteStreamInterceptorFactory {
    /// The interceptors.
    type Interceptor;

    /// Whether this interceptor may be made.
    open spec fn makes(&self, r: Self::Interceptor) -> bool {
        true
    }

    /// Makes an interceptor.
    fn create(&self) -> (r: Self::Interceptor)
        ensures
            self.makes(r),
    ;
}

} // verus!
