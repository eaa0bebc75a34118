//! Handlers on the level of bytes.

use crate::buf::Buf;
use crate::server::call::message_wrapper::Incoming;
use crate::server::call::request::{HandlerCallOptions, StreamingRequest};
use crate::server::call::streaming_response_writer::{Outcome, StreamingResponseWriter};
use crate::server::stream::PushStreamProducer;
use vstd::prelude::*;

verus! {

/// A handler of raw bytes. It reads messages in buffers `ReqB` from a producer `P` and writes
/// buffers `RespB` to a writer `W`.
pub trait GenericByteStreamMethodHandler<
    ReqB: Buf,
    RespB: Buf,
    P: PushStreamProducer<Incoming<ReqB>>,
    W: StreamingResponseWriter<RespB>,
> {
    /// Whether handling this request may end with this result.
    open spec fn called(
        &self,
        options: HandlerCallOptions,
        req: StreamingRequest<Incoming<ReqB>, P>,
        resp: W,
        r: Outcome<W, W::BodyWriter>,
    ) -> bool {
        true
    }

    /// Handles a request.
    fn call(
        &self,
        options: HandlerCallOptions,
        req: StreamingRequest<Incoming<ReqB>, P>,
        resp: W,
    ) -> (r: Outcome<W, W::BodyWriter>)
        requires
            req.spec_stream().spec_producer().inv(),
            forall|msg: Incoming<ReqB>| #[trigger]
                req.spec_stream().spec_producer().can_yield(msg) ==> msg.message_bytes.inv(),
            resp.inv(),
        ensures
            self.called(options, req, resp, r),
    ;
}

} // verus!
