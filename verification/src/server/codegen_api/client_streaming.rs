//! Client-streaming methods.

use crate::server::codegen_api::{may_have_run, Ran};
use crate::server::stream::{PushStream, PushStreamProducer};
use crate::status::ServerStatus;
use vstd::prelude::*;

verus! {

/// A client-streaming method.
pub trait ClientStreamingMethod<Req, Resp> {
    /// Whether the method may, having run the stream of requests in this way, turn the response
    /// `pre` into `post` and end with this result.
    open spec fn called(
        &self,
        ran: Ran<Req>,
        pre: Resp,
        post: Resp,
        r: Result<(), ServerStatus>,
    ) -> bool {
        true
    }

    /// Handles a stream of requests.
    fn client_streaming<P: PushStreamProducer<Req>>(
        &self,
        req: PushStream<Req, P>,
        resp: &mut Resp,
    ) -> (r: Result<(), ServerStatus>)
        requires
            req.spec_producer().inv(),
        ensures
            exists|ran: Ran<Req>| #[trigger]
                self.called(ran, *old(resp), *final(resp), r) && may_have_run(
                    req.spec_producer(),
                    ran,
                ),
    ;
}

} // verus!
