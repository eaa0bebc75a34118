//! Handlers on the level of bytes, with the types of their streams fixed.

use crate::buf::Buf;
use crate::server::call::message_wrapper::Incoming;
use crate::server::call::request::{HandlerCallOptions, StreamingRequest};
use crate::server::call::streaming_response_writer::{Outcome, StreamingResponseWriter};
use crate::server::method_handler::generic_byte_stream_method_handler::GenericByteStreamMethodHandler;
use crate::server::stream::PushStreamProducer;
use vstd::prelude::*;

verus! {

/// A handler of raw bytes for one type of producers and one of writers.
pub trait ByteStreamMethodHandler<
    ReqB: Buf,
    RespB: Buf,
    W: StreamingResponseWriter<RespB>,
    P: PushStreamProducer<Incoming<ReqB>>,
> {
    /// Whether handling this request may end with this result.
    open spec fn called(
        &self,
        options: HandlerCallOptions,
        req: StreamingRequest<Incoming<ReqB>, P>,
        resp: W,
        r: Outcome<W, W::BodyWriter>,
    ) -> bool {
        true
    }

    /// Handles a request.
    fn call(
        &self,
        options: HandlerCallOptions,
        req: StreamingRequest<Incoming<ReqB>, P>,
        resp: W,
    ) -> (r: Outcome<W, W::BodyWriter>)
        requires
            req.spec_stream().spec_producer().inv(),
            forall|msg: Incoming<ReqB>| #[trigger]
                req.spec_stream().spec_producer().can_yield(msg) ==> msg.message_bytes.inv(),
            resp.inv(),
        ensures
            self.called(options, req, resp, r),
    ;
}

/// A [`GenericByteStreamMethodHandler`] as a [`ByteStreamMethodHandler`].
pub struct GenericByteStreamAdapter<T>(pub T);

impl<
    ReqB: Buf,
    RespB: Buf,
    W: StreamingResponseWriter<RespB>,
    P: PushStreamProducer<Incoming<ReqB>>,
    T: GenericByteStreamMethodHandler<ReqB, RespB, P, W>,
> ByteStreamMethodHandler<ReqB, RespB, W, P> for GenericByteStreamAdapter<T> {
    open spec fn called(
        &self,
        options: HandlerCallOptions,
        req: StreamingRequest<Incoming<ReqB>, P>,
        resp: W,
        r: Outcome<W, W::BodyWriter>,
    ) -> bool {
        self.0.called(options, req, resp, r)
    }

    fn call(
        &self,
        options: HandlerCallOptions,
        req: StreamingRequest<Incoming<ReqB>, P>,
        resp: W,
    ) -> (r: Outcome<W, W::BodyWriter>) {
        self.0.call(options, req, resp)
    }
}

} // verus!
