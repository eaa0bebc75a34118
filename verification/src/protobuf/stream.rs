//! The streams that the handlers of streaming methods are given.

use crate::protobuf::message::{
    encoding_of_message, Message, ParseMessage, ProtoRecvMessage, ProtoSendMessage,
    SerializeMessage,
};
use crate::rpc::{ItemView, ServerResponseStreamItem};
use crate::server::{default_send_options, Input, Layer, RecvStream, SendOptions, SendStream, Sent};
use std::marker::PhantomData;
use vstd::prelude::*;

verus! {

/// Whether the next item of a stream is a message that can be read.
pub open spec fn has_next<Req: ParseMessage>(input: Input) -> bool {
    input.messages.len() > 0 && Req::is_readable(input.messages[0].bytes)
}

/// What a stream still has to give after its first message.
pub open spec fn after_next(input: Input) -> Input {
    Input { messages: input.messages.skip(1), fails: input.fails }
}

/// The incoming request messages of a call, which are of the type `Req`.
pub struct GrpcStreamingRequest<Req, Rx> {
    rx: Rx,
    _phantom: PhantomData<Req>,
}

impl<Req: ParseMessage, Rx: RecvStream> GrpcStreamingRequest<Req, Rx> {
    /// Whether the stream is in a usable state.
    pub closed spec fn inv(&self) -> bool {
        self.rx.inv()
    }

    /// Whether the stream has come to its end.
    pub closed spec fn ended(&self) -> bool {
        self.rx.ended()
    }

    /// What the stream still has to give.
    pub closed spec fn input(&self) -> Input {
        self.rx.input()
    }

    /// The requests of a receiving stream.
    pub fn new(rx: Rx) -> (r: Self)
        requires
            rx.inv(),
        ensures
            r.inv(),
            r.ended() == rx.ended(),
            r.input() == rx.input(),
    {
        GrpcStreamingRequest { rx, _phantom: PhantomData }
    }

    /// Receives the next request message, or `None` once there are no more. That the client is
    /// done, that the stream fails and that a message cannot be read are not told apart.
    pub fn recv(&mut self) -> (r: Option<Req>)
        requires
            old(self).inv(),
            !old(self).ended(),
        ensures
            final(self).inv(),
            r is Some <==> has_next::<Req>(old(self).input()),
            r matches Some(req) ==> req.is_read_from(old(self).input().messages[0].bytes)
                && final(self).input() == after_next(old(self).input()) && !final(self).ended(),
            r is None ==> final(self).ended(),
    {
        let mut recv = ProtoRecvMessage::new(Req::new_message());
        match self.rx.next(&mut recv) {
            Some(Ok(())) => Some(recv.into_message()),
            _ => None,
        }
    }
}

/// The outgoing response messages of a call, which are of the type `Resp`.
pub struct GrpcStreamingResponse<Resp, Tx> {
    tx: Tx,
    _phantom: PhantomData<Resp>,
}

/// A message that is sent without options.
pub open spec fn sent_message<Resp: SerializeMessage>(resp: Resp, options: SendOptions, ok: bool) -> Sent {
    Sent { item: ItemView::Message(encoding_of_message(resp)), options, ok }
}

impl<Resp: SerializeMessage, Tx: SendStream> GrpcStreamingResponse<Resp, Tx> {
    /// Whether the stream is in a usable state.
    pub closed spec fn inv(&self) -> bool {
        self.tx.inv()
    }

    /// The sends that were made.
    pub closed spec fn sent(&self) -> Seq<Sent> {
        self.tx.sent()
    }

    /// The layers of the stream.
    pub closed spec fn origin(&self) -> Seq<Layer> {
        self.tx.origin()
    }

    /// The responses of a sending stream.
    pub fn new(tx: Tx) -> (r: Self)
        requires
            tx.inv(),
        ensures
            r.inv(),
            r.sent() == tx.sent(),
            r.origin() == tx.origin(),
    {
        GrpcStreamingResponse { tx, _phantom: PhantomData }
    }

    /// The sending stream.
    pub fn into_inner(self) -> (r: Tx)
        requires
            self.inv(),
        ensures
            r.inv(),
            r.sent() == self.sent(),
            r.origin() == self.origin(),
    {
        self.tx
    }

    /// Sends a message. `Err(())` means that the stream is gone; the handler may stop early or
    /// ignore it.
    pub fn send(&mut self, resp: &Resp) -> (r: Result<(), ()>)
        requires
            old(self).inv(),
        ensures
            final(self).inv(),
            final(self).origin() == old(self).origin(),
            final(self).sent() == old(self).sent().push(
                sent_message(*resp, default_send_options(), r is Ok),
            ),
    {
        let msg = ProtoSendMessage::from_view(resp);
        self.tx.send(ServerResponseStreamItem::Message(&msg), SendOptions::default())
    }
}


/// Requests come in the order in which the client sends them: there is a next one exactly where the
/// first message that is left can be read, and behind it comes what followed it.
pub proof fn law_requests_come_in_order<Req: ParseMessage>(input: Input, i: int)
    requires
        0 <= i < input.messages.len() - 1,
    ensures
        has_next::<Req>(input) <==> Req::is_readable(input.messages[0].bytes),
        after_next(input).messages.len() == input.messages.len() - 1,
        after_next(input).messages[i] == input.messages[i + 1],
        after_next(input).fails == input.fails,
{
}

/// A response is sent as one message with the bytes that it is serialized to, as a message among
/// others: it neither waits for the trailers nor asks to be left uncompressed.
pub proof fn law_responses_are_sent<Resp: SerializeMessage>(resp: Resp, bytes: Seq<u8>, ok: bool)
    requires
        resp.serialized() == Some(bytes),
    ensures
        ({
            let sent = sent_message(resp, default_send_options(), ok);
            &&& sent.item == ItemView::Message(Ok(bytes))
            &&& !sent.options.final_msg
            &&& !sent.options.disable_compression
            &&& sent.ok == ok
        }),
{
}


/// There is a next request exactly where a message is left and the first one can be read.
pub proof fn law_next_request<Req: ParseMessage>(input: Input)
    ensures
        has_next::<Req>(input) <==> input.messages.len() != 0 && Req::is_readable(
            input.messages[0].bytes,
        ),
{
}

} // verus!
