//! Client-streaming methods: a stream of requests in, one response out.

use crate::client::CallOptions;
use crate::protobuf::message::{Message, ParseMessage, ProtoSendMessage, SerializeMessage};
use crate::protobuf::status::{rich_view, Status, StatusErrorView};
use crate::protobuf::stream::{sent_message, GrpcStreamingRequest};
use crate::protobuf::rpc_status::can_be_serialized;
use crate::protobuf::trailers_conv::{
    law_trailers_tell_the_code, trailers_from_status, trailers_of,
};
use crate::protobuf::unary::{final_options, sent_response};
use crate::rpc::{RequestHeaders, ServerResponseStreamItem, Trailers};
use crate::server::{Call, Handle, Input, RecvStream, SendOptions, SendStream};
use vstd::prelude::*;

verus! {

/// A client-streaming method.
pub trait ClientStreamingMethod {
    /// The requests.
    type Request: ParseMessage;

    /// The response.
    type Response: SerializeMessage;

    /// Whether the method may, for what the client sends, turn the response `pre` into `post` and
    /// end with this status.
    open spec fn called(
        &self,
        input: Input,
        pre: Self::Response,
        post: Self::Response,
        status: Result<(), StatusErrorView>,
    ) -> bool {
        true
    }

    /// Handles a stream of requests.
    fn call<Rx: RecvStream>(
        &self,
        requests: GrpcStreamingRequest<Self::Request, Rx>,
        response: &mut Self::Response,
    ) -> (r: Status)
        requires
            requests.inv(),
            !requests.ended(),
        ensures
            self.called(requests.input(), *old(response), *final(response), rich_view(r)),
    ;
}

/// The handler of a client-streaming method.
pub struct ClientStreamingAdapter<M> {
    method: M,
}

impl<M: ClientStreamingMethod> ClientStreamingAdapter<M> {
    /// The method.
    pub closed spec fn spec_method(&self) -> M {
        self.method
    }

    /// The handler of `method`.
    pub fn new(method: M) -> (r: Self)
        ensures
            r.spec_method() == method,
    {
        ClientStreamingAdapter { method }
    }
}

impl<M: ClientStreamingMethod> Handle for ClientStreamingAdapter<M> {
    open spec fn inv(&self) -> bool {
        true
    }

    open spec fn handled(&self, call: Call) -> bool {
        exists|pre: M::Response, post: M::Response, status: Result<(), StatusErrorView>|
            {
                &&& pre.is_default()
                &&& #[trigger] self.spec_method().called(call.input, pre, post, status)
                &&& sent_response(call.output, post, status)
                &&& call.trailers == trailers_of(status)
            }
    }

    fn handle<Tx: SendStream, Rx: RecvStream>(
        &self,
        headers: RequestHeaders,
        options: CallOptions,
        tx: Tx,
        rx: Rx,
    ) -> (r: (Trailers, Tx)) {
        let mut tx = tx;
        let ghost before = tx.sent();
        let ghost input = rx.input();
        let requests = GrpcStreamingRequest::new(rx);
        let mut resp = <M::Response as Message>::new_message();
        let ghost pre = resp;
        let status = self.method.call(requests, &mut resp);
        let ghost told = rich_view(status);
        if status.is_ok() {
            let send = ProtoSendMessage::from_view(&resp);
            let options = SendOptions { final_msg: true, disable_compression: false };
            let sent = tx.send(ServerResponseStreamItem::Message(&send), options);
            proof {
                let entry = sent_message(resp, final_options(), sent is Ok);
                assert(tx.sent().skip(before.len() as int) =~= seq![entry]);
            }
        } else {
            assert(tx.sent().skip(before.len() as int) =~= Seq::empty());
        }
        let trailers = trailers_from_status(status);
        proof {
            let c = Call {
                headers: headers@,
                options,
                input,
                output: tx.sent().skip(before.len() as int),
                trailers: trailers@,
            };
            assert(self.spec_method().called(c.input, pre, resp, told));
            assert(self.handled(c));
        }
        (trailers, tx)
    }
}


/// The method decides a client-streaming call: where, for what the client sends and a response
/// without any field set, it always leaves a response with these bytes, they are what is sent, as
/// one message that waits for the trailers, and the call succeeds; where it always ends with this
/// error, nothing is sent, and the trailers tell the error.
pub proof fn law_client_streaming_method_decides<M: ClientStreamingMethod>(
    adapter: ClientStreamingAdapter<M>,
    call: Call,
    answer: Result<Seq<u8>, StatusErrorView>,
)
    requires
        adapter.handled(call),
        forall|pre: M::Response, post: M::Response, status: Result<(), StatusErrorView>| #[trigger]
            adapter.spec_method().called(call.input, pre, post, status) && pre.is_default()
                ==> match answer {
                Ok(bytes) => status is Ok && post.serialized() == Some(bytes),
                Err(e) => status == Err::<(), StatusErrorView>(e),
            },
    ensures
        answer matches Ok(bytes) ==> {
            &&& call.output.len() == 1
            &&& call.output[0].item == crate::rpc::ItemView::Message(Ok(bytes))
            &&& call.output[0].options.final_msg
            &&& call.trailers.status is Ok
        },
        answer matches Err(e) ==> call.output.len() == 0 && call.trailers.status is Err && (
        e.payloads.len() == 0 || can_be_serialized(e.message, e.payloads)
            ==> call.trailers.status->Err_0.code == e.code && call.trailers.status->Err_0.message
            == e.message),
{
    let (pre, post, status) = choose|
        pre: M::Response,
        post: M::Response,
        status: Result<(), StatusErrorView>,
    |
        {
            &&& pre.is_default()
            &&& #[trigger] adapter.spec_method().called(call.input, pre, post, status)
            &&& sent_response(call.output, post, status)
            &&& call.trailers == trailers_of(status)
        };
    law_trailers_tell_the_code(status);
}

} // verus!
