//! Handlers on the level of messages.

use crate::server::call::lazy::Lazy;
use crate::server::call::message_wrapper::Outgoing;
use crate::server::call::request::{HandlerCallOptions, StreamingRequest};
use crate::server::call::streaming_response_writer::{Outcome, StreamingResponseWriter};
use crate::server::stream::PushStreamProducer;
use vstd::prelude::*;

verus! {

/// A handler of messages. It reads lazy messages `L` from a producer `P` and writes responses to a
/// writer `W`.
pub trait MessageStreamHandler<
    Req,
    Resp,
    L: Lazy<Req>,
    P: PushStreamProducer<L>,
    W: StreamingResponseWriter<Outgoing<Resp>>,
> {
    /// Whether handling this request may end with this result.
    open spec fn called(
        &self,
        options: HandlerCallOptions,
        req: StreamingRequest<L, P>,
        writer: W,
        r: Outcome<W, W::BodyWriter>,
    ) -> bool {
        true
    }

    /// Handles a request.
    fn call(
        &self,
        options: HandlerCallOptions,
        req: StreamingRequest<L, P>,
        writer: W,
    ) -> (r: Outcome<W, W::BodyWriter>)
        requires
            req.spec_stream().spec_producer().inv(),
            forall|lazy: L| #[trigger]
                req.spec_stream().spec_producer().can_yield(lazy) ==> lazy.inv(),
            writer.inv(),
        ensures
            self.called(options, req, writer, r),
    ;
}

} // verus!
