//! The interceptor that does nothing.

use crate::buf::Buf;
use crate::server::call::lazy::Lazy;
use crate::server::call::message_wrapper::{Incoming, Outgoing};
use crate::server::call::request::{HandlerCallOptions, StreamingRequest};
use crate::server::call::streaming_response_writer::{Outcome, StreamingResponseWriter};
use crate::server::interceptor::definition::{
    ByteStreamInterceptor, ByteStreamInterceptorFactory, Interceptor, InterceptorFactory,
};
use crate::server::method_handler::{GenericByteStreamMethodHandler, MessageStreamHandler};
use crate::server::stream::PushStreamProducer;
use vstd::prelude::*;

verus! {

/// The interceptor that hands every call on as it is.
#[derive(Debug, Clone, Copy)]
pub struct NoopInterceptor {}

impl<
    Req,
    Resp,
    L: Lazy<Req>,
    P: PushStreamProducer<L>,
    W: StreamingResponseWriter<Outgoing<Resp>>,
    H: MessageStreamHandler<Req, Resp, L, P, W>,
> Interceptor<H, Req, Resp, L, P, W> for NoopInterceptor {
    open spec fn intercepted(
        &self,
        handler: H,
        options: HandlerCallOptions,
        req: StreamingRequest<L, P>,
        writer: W,
        r: Outcome<W, W::BodyWriter>,
    ) -> bool {
        handler.called(options, req, writer, r)
    }

    fn intercept(
        &self,
        handler: &H,
        options: HandlerCallOptions,
        req: StreamingRequest<L, P>,
        writer: W,
    ) -> (r: Outcome<W, W::BodyWriter>) {
        handler.call(options, req, writer)
    }
}

impl InterceptorFactory for NoopInterceptor {
    type Interceptor = NoopInterceptor;

    open spec fn makes(&self, r: NoopInterceptor) -> bool {
        r == (NoopInterceptor {  })
    }

    fn create(&self) -> (r: NoopInterceptor) {
        NoopInterceptor {  }
    }
}

impl ByteStreamInterceptorFactory for NoopInterceptor {
    type Interceptor = NoopInterceptor;

    open spec fn makes(&self, r: NoopInterceptor) -> bool {
        r == (NoopInterceptor {  })
    }

    fn create(&self) -> (r: NoopInterceptor) {
        NoopInterceptor {  }
    }
}

impl<
    ReqB: Buf,
    RespB: Buf,
    P: PushStreamProducer<Incoming<ReqB>>,
    W: StreamingResponseWriter<RespB>,
    H: GenericByteStreamMethodHandler<ReqB, RespB, P, W>,
> ByteStreamInterceptor<H, ReqB, RespB, P, W, W> for NoopInterceptor {
    open spec fn intercepted(
        &self,
        handler: H,
        options: HandlerCallOptions,
        req: StreamingRequest<Incoming<ReqB>, P>,
        resp: W,
        r: Outcome<W, W::BodyWriter>,
    ) -> bool {
        handler.called(options, req, resp, r)
    }

    fn intercept(
        &self,
        handler: &H,
        options: HandlerCallOptions,
        req: StreamingRequest<Incoming<ReqB>, P>,
        resp: W,
    ) -> (r: Outcome<W, W::BodyWriter>) {
        handler.call(options, req, resp)
    }
}

} // verus!
