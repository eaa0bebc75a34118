//! Unary methods: one request in, one response out.

use crate::client::CallOptions;
use crate::protobuf::message::{
    Message, ParseMessage, ProtoRecvMessage, ProtoSendMessage, SerializeMessage,
};
use crate::protobuf::status::{rich_view, Status, StatusError, StatusErrorView};
use crate::protobuf::stream::{has_next, sent_message};
use crate::protobuf::rpc_status::can_be_serialized;
use crate::protobuf::trailers_conv::{
    internal_error, law_trailers_tell_the_code, trailers_from_status, trailers_of,
};
use crate::rpc::{RequestHeaders, ServerResponseStreamItem, Trailers};
use crate::server::{Call, Handle, RecvStream, SendOptions, SendStream, Sent};
use crate::status::StatusCodeError;
use vstd::prelude::*;

verus! {

/// A unary method.
pub trait UnaryMethod {
    /// The request.
    type Request: ParseMessage;

    /// The response.
    type Response: SerializeMessage;

    /// Whether the method may, for a request, turn the response `pre` into `post` and end with
    /// this status.
    open spec fn called(
        &self,
        request: Self::Request,
        pre: Self::Response,
        post: Self::Response,
        status: Result<(), StatusErrorView>,
    ) -> bool {
        true
    }

    /// Handles a request.
    fn call(&self, request: &Self::Request, response: &mut Self::Response) -> (r: Status)
        ensures
            self.called(*request, *old(response), *final(response), rich_view(r)),
    ;
}

/// The options of a message that goes together with the trailers.
pub open spec fn final_options() -> SendOptions {
    SendOptions { final_msg: true, disable_compression: false }
}

/// Whether what was sent is a response and nothing else, where the status is success, and nothing
/// at all otherwise.
pub open spec fn sent_response<Resp: SerializeMessage>(
    output: Seq<Sent>,
    resp: Resp,
    status: Result<(), StatusErrorView>,
) -> bool {
    match status {
        Ok(_) => exists|ok: bool|
            output == seq![#[trigger] sent_message(resp, final_options(), ok)],
        Err(_) => output == Seq::<Sent>::empty(),
    }
}

/// The handler of a unary method.
pub struct UnaryAdapter<M> {
    method: M,
}

impl<M: UnaryMethod> UnaryAdapter<M> {
    /// The method.
    pub closed spec fn spec_method(&self) -> M {
        self.method
    }

    /// The handler of `method`.
    pub fn new(method: M) -> (r: Self)
        ensures
            r.spec_method() == method,
    {
        UnaryAdapter { method }
    }
}

impl<M: UnaryMethod> Handle for UnaryAdapter<M> {
    open spec fn inv(&self) -> bool {
        true
    }

    open spec fn handled(&self, call: Call) -> bool {
        if has_next::<M::Request>(call.input) {
            exists|
                req: M::Request,
                pre: M::Response,
                post: M::Response,
                status: Result<(), StatusErrorView>,
            |
                {
                    &&& req.is_read_from(call.input.messages[0].bytes)
                    &&& pre.is_default()
                    &&& #[trigger] self.spec_method().called(req, pre, post, status)
                    &&& sent_response(call.output, post, status)
                    &&& call.trailers == trailers_of(status)
                }
        } else {
            &&& call.output == Seq::<Sent>::empty()
            &&& call.trailers == trailers_of(
                Err(internal_error("client did not send a request message"@)),
            )
        }
    }

    fn handle<Tx: SendStream, Rx: RecvStream>(
        &self,
        headers: RequestHeaders,
        options: CallOptions,
        tx: Tx,
        rx: Rx,
    ) -> (r: (Trailers, Tx)) {
        let mut rx = rx;
        let mut tx = tx;
        let ghost before = tx.sent();
        let ghost input = rx.input();
        let mut recv = ProtoRecvMessage::new(<M::Request as Message>::new_message());
        match rx.next(&mut recv) {
            Some(Ok(())) => {},
            _ => {
                let trailers = trailers_from_status(
                    Err(
                        StatusError::new(
                            StatusCodeError::Internal,
                            "client did not send a request message",
                        ),
                    ),
                );
                assert(before.skip(before.len() as int) =~= Seq::empty());
                return (trailers, tx);
            },
        }
        let req = recv.into_message();
        let mut resp = <M::Response as Message>::new_message();
        let ghost pre = resp;
        let status = self.method.call(&req, &mut resp);
        let ghost told = rich_view(status);
        if status.is_ok() {
            let send = ProtoSendMessage::from_view(&resp);
            let options = SendOptions { final_msg: true, disable_compression: false };
            let sent = tx.send(ServerResponseStreamItem::Message(&send), options);
            proof {
                let entry = sent_message(resp, final_options(), sent is Ok);
                assert(tx.sent().skip(before.len() as int) =~= seq![entry]);
            }
        } else {
            assert(tx.sent().skip(before.len() as int) =~= Seq::empty());
        }
        let trailers = trailers_from_status(status);
        proof {
            let c = Call {
                headers: headers@,
                options,
                input,
                output: tx.sent().skip(before.len() as int),
                trailers: trailers@,
            };
            assert(self.spec_method().called(req, pre, resp, told));
            assert(self.handled(c));
        }
        (trailers, tx)
    }
}


/// A unary call has one answer: a request that is missing or cannot be read is an internal error,
/// success goes with exactly one message, which waits for the trailers, and an error goes alone.
pub proof fn law_unary_call_has_one_answer<M: UnaryMethod>(adapter: UnaryAdapter<M>, call: Call)
    requires
        adapter.handled(call),
    ensures
        call.input.messages.len() == 0 || !M::Request::is_readable(call.input.messages[0].bytes)
            ==> (call.trailers.status matches Err(e) && e.code == StatusCodeError::Internal),
        call.trailers.status is Ok ==> {
            &&& call.output.len() == 1
            &&& call.output[0].item is Message
            &&& call.output[0].options.final_msg
            &&& !call.output[0].options.disable_compression
        },
        call.trailers.status is Err ==> call.output.len() == 0,
{
    if has_next::<M::Request>(call.input) {
        let (req, pre, post, status) = choose|
            req: M::Request,
            pre: M::Response,
            post: M::Response,
            status: Result<(), StatusErrorView>,
        |
            {
                &&& req.is_read_from(call.input.messages[0].bytes)
                &&& pre.is_default()
                &&& #[trigger] adapter.spec_method().called(req, pre, post, status)
                &&& sent_response(call.output, post, status)
                &&& call.trailers == trailers_of(status)
            };
        law_trailers_tell_the_code(status);
    }
}

/// The method decides a unary call: where, for the request that the client sent and a response
/// without any field set, it always leaves a response with these bytes, they are what is sent, and
/// the call succeeds; where it always ends with this error, nothing is sent, and the trailers tell
/// the error.
pub proof fn law_unary_method_decides<M: UnaryMethod>(
    adapter: UnaryAdapter<M>,
    call: Call,
    answer: Result<Seq<u8>, StatusErrorView>,
)
    requires
        adapter.handled(call),
        call.input.messages.len() > 0,
        M::Request::is_readable(call.input.messages[0].bytes),
        forall|
            req: M::Request,
            pre: M::Response,
            post: M::Response,
            status: Result<(), StatusErrorView>,
        | #[trigger]
            adapter.spec_method().called(req, pre, post, status) && pre.is_default()
                && req.is_read_from(call.input.messages[0].bytes) ==> match answer {
                Ok(bytes) => status is Ok && post.serialized() == Some(bytes),
                Err(e) => status == Err::<(), StatusErrorView>(e),
            },
    ensures
        answer matches Ok(bytes) ==> call.output.len() == 1 && call.output[0].item
            == crate::rpc::ItemView::Message(Ok(bytes)) && call.trailers.status is Ok,
        answer matches Err(e) ==> call.output.len() == 0 && call.trailers.status is Err && (
        e.payloads.len() == 0 || can_be_serialized(e.message, e.payloads)
            ==> call.trailers.status->Err_0.code == e.code && call.trailers.status->Err_0.message
            == e.message),
{
    let (req, pre, post, status) = choose|
        req: M::Request,
        pre: M::Response,
        post: M::Response,
        status: Result<(), StatusErrorView>,
    |
        {
            &&& req.is_read_from(call.input.messages[0].bytes)
            &&& pre.is_default()
            &&& #[trigger] adapter.spec_method().called(req, pre, post, status)
            &&& sent_response(call.output, post, status)
            &&& call.trailers == trailers_of(status)
        };
    law_trailers_tell_the_code(status);
}

} // verus!
