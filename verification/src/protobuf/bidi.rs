//! Bidirectional-streaming methods: a stream of requests in, a stream of responses out.

use crate::client::CallOptions;
use crate::protobuf::message::{ParseMessage, SerializeMessage};
use crate::protobuf::status::{rich_view, Status, StatusErrorView};
use crate::protobuf::stream::{GrpcStreamingRequest, GrpcStreamingResponse};
use crate::protobuf::rpc_status::can_be_serialized;
use crate::protobuf::trailers_conv::{
    law_trailers_tell_the_code, trailers_from_status, trailers_of,
};
use crate::rpc::{RequestHeaders, Trailers};
use crate::server::{Call, Handle, Input, RecvStream, SendStream, Sent};
use vstd::prelude::*;

verus! {

/// A bidirectional-streaming method.
pub trait BidiStreamingMethod {
    /// The requests.
    type Request: ParseMessage;

    /// The responses.
    type Response: SerializeMessage;

    /// Whether the method may, for what the client sends, make these sends and end with this
    /// status.
    open spec fn called(
        &self,
        input: Input,
        output: Seq<Sent>,
        status: Result<(), StatusErrorView>,
    ) -> bool {
        true
    }

    /// Handles a stream of requests. Requests and responses may be interleaved in any way. The
    /// stream of responses is given back.
    fn call<Tx: SendStream, Rx: RecvStream>(
        &self,
        requests: GrpcStreamingRequest<Self::Request, Rx>,
        responses: GrpcStreamingResponse<Self::Response, Tx>,
    ) -> (r: (Status, GrpcStreamingResponse<Self::Response, Tx>))
        requires
            requests.inv(),
            !requests.ended(),
            responses.inv(),
        ensures
            r.1.inv(),
            r.1.origin() == responses.origin(),
            responses.sent().is_prefix_of(r.1.sent()),
            self.called(
                requests.input(),
                r.1.sent().skip(responses.sent().len() as int),
                rich_view(r.0),
            ),
    ;
}

/// The handler of a bidirectional-streaming method.
pub struct BidiStreamingAdapter<M> {
    method: M,
}

impl<M: BidiStreamingMethod> BidiStreamingAdapter<M> {
    /// The method.
    pub closed spec fn spec_method(&self) -> M {
        self.method
    }

    /// The handler of `method`.
    pub fn new(method: M) -> (r: Self)
        ensures
            r.spec_method() == method,
    {
        BidiStreamingAdapter { method }
    }
}

impl<M: BidiStreamingMethod> Handle for BidiStreamingAdapter<M> {
    open spec fn inv(&self) -> bool {
        true
    }

    open spec fn handled(&self, call: Call) -> bool {
        exists|status: Result<(), StatusErrorView>|
            {
                &&& #[trigger] self.spec_method().called(call.input, call.output, status)
                &&& call.trailers == trailers_of(status)
            }
    }

    fn handle<Tx: SendStream, Rx: RecvStream>(
        &self,
        headers: RequestHeaders,
        options: CallOptions,
        tx: Tx,
        rx: Rx,
    ) -> (r: (Trailers, Tx)) {
        let ghost before = tx.sent();
        let ghost input = rx.input();
        let requests = GrpcStreamingRequest::new(rx);
        let responses = GrpcStreamingResponse::new(tx);
        let (status, responses) = self.method.call(requests, responses);
        let ghost told = rich_view(status);
        let tx_back = responses.into_inner();
        let trailers = trailers_from_status(status);
        proof {
            let c = Call {
                headers: headers@,
                options,
                input,
                output: tx_back.sent().skip(before.len() as int),
                trailers: trailers@,
            };
            assert(self.spec_method().called(c.input, c.output, told));
            assert(self.handled(c));
        }
        (trailers, tx_back)
    }
}


/// The method decides a bidirectional-streaming call: it sees all that the client sends, what it
/// sends is what goes out, and the trailers tell the status with which it ends.
pub proof fn law_bidi_method_decides<M: BidiStreamingMethod>(
    adapter: BidiStreamingAdapter<M>,
    call: Call,
    asked: spec_fn(Input, Seq<Sent>) -> bool,
    ending: spec_fn(Input, Seq<Sent>) -> Result<(), StatusErrorView>,
)
    requires
        adapter.handled(call),
        forall|input: Input, output: Seq<Sent>, status: Result<(), StatusErrorView>| #[trigger]
            adapter.spec_method().called(input, output, status) ==> asked(input, output) && status
                == ending(input, output),
    ensures
        asked(call.input, call.output),
        call.trailers.status is Ok <==> ending(call.input, call.output) is Ok,
        ending(call.input, call.output) matches Err(e) ==> (e.payloads.len() == 0
            || can_be_serialized(e.message, e.payloads) ==> call.trailers.status->Err_0.code
            == e.code && call.trailers.status->Err_0.message == e.message),
{
    let status = choose|status: Result<(), StatusErrorView>|
        {
            &&& #[trigger] adapter.spec_method().called(call.input, call.output, status)
            &&& call.trailers == trailers_of(status)
        };
    law_trailers_tell_the_code(status);
}

} // verus!
