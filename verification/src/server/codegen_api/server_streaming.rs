//! Server-streaming methods.

use crate::server::stream::{consumed_all, PushStreamConsumer, PushStreamWriter, Write};
use crate::status::ServerStatus;
use vstd::prelude::*;

verus! {

/// A server-streaming method.
pub trait ServerStreamingMethod<Req, Resp> {
    /// Whether the method may, for a request, make these writes and end with this result.
    open spec fn called(
        &self,
        req: Req,
        writes: Seq<Write<Resp>>,
        r: Result<(), ServerStatus>,
    ) -> bool {
        true
    }

    /// Handles a request. The writer is given back.
    fn server_streaming<C: PushStreamConsumer<Resp>>(
        &self,
        req: &Req,
        writer: PushStreamWriter<Resp, C>,
    ) -> (r: (Result<(), ServerStatus>, PushStreamWriter<Resp, C>))
        requires
            writer.spec_consumer().inv(),
            forall|item: Resp| writer.spec_consumer().admits(item),
        ensures
            r.1.spec_consumer().inv(),
            exists|writes: Seq<Write<Resp>>| #[trigger]
                self.called(*req, writes, r.0) && consumed_all(
                    writer.spec_consumer(),
                    writes,
                    r.1.spec_consumer(),
                ),
    ;
}

} // verus!
