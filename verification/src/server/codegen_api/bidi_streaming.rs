//! Bidirectional-streaming methods.

use crate::server::codegen_api::{may_have_run, Ran};
use crate::server::stream::{
    consumed_all, PushStream, PushStreamConsumer, PushStreamProducer, PushStreamWriter, Write,
};
use crate::status::ServerStatus;
use vstd::prelude::*;

verus! {

/// A bidirectional-streaming method.
pub trait BidiStreamingMethod<Req, Resp> {
    /// Whether the method may, having run the stream of requests in this way, make these writes
    /// and end with this result.
    open spec fn called(
        &self,
        ran: Ran<Req>,
        writes: Seq<Write<Resp>>,
        r: Result<(), ServerStatus>,
    ) -> bool {
        true
    }

    /// Handles a stream of requests. The writer is given back.
    fn bidi_streaming<P: PushStreamProducer<Req>, C: PushStreamConsumer<Resp>>(
        &self,
        req: PushStream<Req, P>,
        writer: PushStreamWriter<Resp, C>,
    ) -> (r: (Result<(), ServerStatus>, PushStreamWriter<Resp, C>))
        requires
            req.spec_producer().inv(),
            writer.spec_consumer().inv(),
            forall|item: Resp| writer.spec_consumer().admits(item),
        ensures
            r.1.spec_consumer().inv(),
            exists|ran: Ran<Req>, writes: Seq<Write<Resp>>| #[trigger]
                self.called(ran, writes, r.0) && may_have_run(req.spec_producer(), ran)
                    && consumed_all(writer.spec_consumer(), writes, r.1.spec_consumer()),
    ;
}

} // verus!
