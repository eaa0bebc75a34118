//! Server-streaming methods: one request in, a stream of responses out.

use crate::client::CallOptions;
use crate::protobuf::message::{Message, ParseMessage, ProtoRecvMessage, SerializeMessage};
use crate::protobuf::status::{rich_view, Status, StatusError, StatusErrorView};
use crate::protobuf::stream::{has_next, GrpcStreamingResponse};
use crate::protobuf::rpc_status::can_be_serialized;
use crate::protobuf::trailers_conv::{
    internal_error, law_trailers_tell_the_code, trailers_from_status, trailers_of,
};
use crate::rpc::{RequestHeaders, Trailers};
use crate::server::{Call, Handle, RecvStream, SendStream, Sent};
use crate::status::StatusCodeError;
use vstd::prelude::*;

verus! {

/// A server-streaming method.
pub trait ServerStreamingMethod {
    /// The request.
    type Request: ParseMessage;

    /// The responses.
    type Response: SerializeMessage;

    /// Whether the method may, for a request, make these sends and end with this status.
    open spec fn called(
        &self,
        request: Self::Request,
        output: Seq<Sent>,
        status: Result<(), StatusErrorView>,
    ) -> bool {
        true
    }

    /// Handles a request. The stream of responses is given back.
    fn call<Tx: SendStream>(
        &self,
        request: &Self::Request,
        responses: GrpcStreamingResponse<Self::Response, Tx>,
    ) -> (r: (Status, GrpcStreamingResponse<Self::Response, Tx>))
        requires
            responses.inv(),
        ensures
            r.1.inv(),
            r.1.origin() == responses.origin(),
            responses.sent().is_prefix_of(r.1.sent()),
            self.called(
                *request,
                r.1.sent().skip(responses.sent().len() as int),
                rich_view(r.0),
            ),
    ;
}

/// The handler of a server-streaming method.
pub struct ServerStreamingAdapter<M> {
    method: M,
}

impl<M: ServerStreamingMethod> ServerStreamingAdapter<M> {
    /// The method.
    pub closed spec fn spec_method(&self) -> M {
        self.method
    }

    /// The handler of `method`.
    pub fn new(method: M) -> (r: Self)
        ensures
            r.spec_method() == method,
    {
        ServerStreamingAdapter { method }
    }
}

impl<M: ServerStreamingMethod> Handle for ServerStreamingAdapter<M> {
    open spec fn inv(&self) -> bool {
        true
    }

    open spec fn handled(&self, call: Call) -> bool {
        if has_next::<M::Request>(call.input) {
            exists|req: M::Request, status: Result<(), StatusErrorView>|
                {
                    &&& req.is_read_from(call.input.messages[0].bytes)
                    &&& #[trigger] self.spec_method().called(req, call.output, status)
                    &&& call.trailers == trailers_of(status)
                }
        } else {
            &&& call.output == Seq::<Sent>::empty()
            &&& call.trailers == trailers_of(
                Err(internal_error("client did not send a request message"@)),
            )
        }
    }

    fn handle<Tx: SendStream, Rx: RecvStream>(
        &self,
        headers: RequestHeaders,
        options: CallOptions,
        tx: Tx,
        rx: Rx,
    ) -> (r: (Trailers, Tx)) {
        let mut rx = rx;
        let ghost before = tx.sent();
        let ghost input = rx.input();
        let mut recv = ProtoRecvMessage::new(<M::Request as Message>::new_message());
        match rx.next(&mut recv) {
            Some(Ok(())) => {},
            _ => {
                let trailers = trailers_from_status(
                    Err(
                        StatusError::new(
                            StatusCodeError::Internal,
                            "client did not send a request message",
                        ),
                    ),
                );
                assert(before.skip(before.len() as int) =~= Seq::empty());
                return (trailers, tx);
            },
        }
        let req = recv.into_message();
        let responses = GrpcStreamingResponse::new(tx);
        let (status, responses) = self.method.call(&req, responses);
        let ghost told = rich_view(status);
        let tx_back = responses.into_inner();
        let trailers = trailers_from_status(status);
        proof {
            let c = Call {
                headers: headers@,
                options,
                input,
                output: tx_back.sent().skip(before.len() as int),
                trailers: trailers@,
            };
            assert(self.spec_method().called(req, c.output, told));
            assert(self.handled(c));
        }
        (trailers, tx_back)
    }
}


/// The method decides a server-streaming call: what it sends for the request that the client sent
/// is what goes out, whatever it is, and the trailers tell the status with which it ends. A request
/// that is missing or cannot be read is an internal error, and nothing is sent.
pub proof fn law_server_streaming_method_decides<M: ServerStreamingMethod>(
    adapter: ServerStreamingAdapter<M>,
    call: Call,
    asked: spec_fn(Seq<Sent>) -> bool,
    ending: spec_fn(Seq<Sent>) -> Result<(), StatusErrorView>,
)
    requires
        adapter.handled(call),
        call.input.messages.len() > 0 ==> forall|
            req: M::Request,
            output: Seq<Sent>,
            status: Result<(), StatusErrorView>,
        | #[trigger]
            adapter.spec_method().called(req, output, status) && req.is_read_from(
                call.input.messages[0].bytes,
            ) ==> asked(output) && status == ending(output),
    ensures
        call.input.messages.len() == 0 || !M::Request::is_readable(call.input.messages[0].bytes)
            ==> call.output.len() == 0 && (call.trailers.status matches Err(e) && e.code
            == StatusCodeError::Internal),
        call.input.messages.len() > 0 && M::Request::is_readable(call.input.messages[0].bytes) ==> {
            &&& asked(call.output)
            &&& call.trailers.status is Ok <==> ending(call.output) is Ok
            &&& ending(call.output) matches Err(e) ==> (e.payloads.len() == 0
                || can_be_serialized(e.message, e.payloads) ==> call.trailers.status->Err_0.code
                == e.code && call.trailers.status->Err_0.message == e.message)
        },
{
    if has_next::<M::Request>(call.input) {
        let (req, status) = choose|req: M::Request, status: Result<(), StatusErrorView>|
            {
                &&& req.is_read_from(call.input.messages[0].bytes)
                &&& #[trigger] adapter.spec_method().called(req, call.output, status)
                &&& call.trailers == trailers_of(status)
            };
        law_trailers_tell_the_code(status);
    }
}

} // verus!
