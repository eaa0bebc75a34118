//! The server: handlers, routing, interceptors and transports.

pub mod accept;
pub mod builder;
pub mod call;
pub mod codegen_api;
pub mod descriptor;
pub mod interceptor;
pub mod method_handler;
pub mod router;
pub mod service;
pub mod stream;
pub mod transport;

use crate::client::CallOptions;
use crate::metadata::EntryView;
use crate::rpc::{
    item_inv, item_view, received, ItemView, RecvItem, RecvMessage, RequestHeaders, RequestHeadersView,
    SendMessage, ServerResponseStreamItem, Trailers, TrailersView,
};
use crate::server::builder::ServerBuilder;
use crate::server::interceptor::{Identity, Intercept, Intercepted};
use crate::server::router::Router;
use crate::server::service::ServiceRegistrar;
use std::sync::Arc;
use vstd::prelude::*;

verus! {

/// Settings of one send.
#[derive(Debug, Clone, Copy, PartialEq, Eq, Structural)]
pub struct SendOptions {
    /// Delays sending the message until the trailers are there, so that the two can go together.
    pub final_msg: bool,
    /// Leaves this message uncompressed.
    pub disable_compression: bool,
}

/// The options of a send about which nothing was said.
pub open spec fn default_send_options() -> SendOptions {
    SendOptions { final_msg: false, disable_compression: false }
}

impl Default for SendOptions {
    fn default() -> (r: Self)
        ensures
            r == default_send_options(),
    {
        SendOptions { final_msg: false, disable_compression: false }
    }
}

/// One send on a stream: what was sent, under which options, and whether it succeeded.
pub struct Sent {
    /// What was sent.
    pub item: ItemView,
    /// The options.
    pub options: SendOptions,
    /// Whether the send succeeded.
    pub ok: bool,
}

/// A layer that was put on a sending stream.
pub struct Layer {
    /// What had been sent below it when it was put on.
    pub below: Seq<Sent>,
    /// The metadata with which it was set up.
    pub settings: Seq<EntryView>,
}

/// What a receiving stream still has to give: messages, and then its end.
pub struct Input {
    /// The messages, in order.
    pub messages: Seq<RecvItem>,
    /// Whether the stream ends with an error.
    pub fails: bool,
}

/// One call as a handler sees it, from its headers to its trailers.
pub struct Call {
    /// The headers of the request.
    pub headers: RequestHeadersView,
    /// The options of the call.
    pub options: CallOptions,
    /// What the client sends.
    pub input: Input,
    /// What the handler sends, in order.
    pub output: Seq<Sent>,
    /// The trailers with which it ends.
    pub trailers: TrailersView,
}

/// The sending side of a server stream.
///
/// A stream is described by the sends that were made on it. Whether a send succeeds is up to the
/// stream; a failure is a terminal state.
pub trait SendStream: Sized {
    /// Whether the stream is in a usable state.
    open spec fn inv(&self) -> bool {
        true
    }

    /// The sends that were made on the stream.
    open spec fn sent(&self) -> Seq<Sent> {
        arbitrary()
    }

    /// The layers of this stream, the lowest first. They stay as they are.
    open spec fn origin(&self) -> Seq<Layer> {
        arbitrary()
    }

    /// Sends the next item. `Err(())` is a terminal state.
    fn send<M: SendMessage>(
        &mut self,
        item: ServerResponseStreamItem<'_, M>,
        options: SendOptions,
    ) -> (r: Result<(), ()>)
        requires
            old(self).inv(),
            item_inv(item),
        ensures
            final(self).inv(),
            final(self).origin() == old(self).origin(),
            final(self).sent() == old(self).sent().push(
                (Sent { item: item_view(item), options, ok: r is Ok }),
            ),
    ;
}

/// Whether a message was received.
pub open spec fn was_received(r: Option<Result<(), ()>>) -> bool {
    r matches Some(Ok(_))
}

/// The receiving side of a server stream.
///
/// A stream is described by what it still has to give. After its end, and after a message that
/// could not be read, nothing is said of it.
pub trait RecvStream: Sized {
    /// Whether the stream is in a usable state.
    open spec fn inv(&self) -> bool {
        true
    }

    /// What the stream still has to give.
    open spec fn input(&self) -> Input {
        arbitrary()
    }

    /// Whether the stream has come to its end.
    open spec fn ended(&self) -> bool {
        arbitrary()
    }

    /// Receives the next message into `msg`. Returns `Some(Ok(()))` on success, `None` at the
    /// normal end of the stream, and `Some(Err(()))` where the stream fails or the message cannot
    /// be read. Both of the latter are terminal states.
    fn next<M: RecvMessage>(&mut self, msg: &mut M) -> (r: Option<Result<(), ()>>)
        requires
            old(self).inv(),
            !old(self).ended(),
        ensures
            final(self).inv(),
            old(self).input().messages.len() > 0 ==> {
                &&& r is Some
                &&& received(
                    *old(msg),
                    old(self).input().messages[0],
                    *final(msg),
                    was_received(r),
                )
                &&& was_received(r) ==> !final(self).ended() && final(self).input() == (
                Input {
                    messages: old(self).input().messages.skip(1),
                    fails: old(self).input().fails,
                })
            },
            old(self).input().messages.len() == 0 ==> {
                &&& if old(self).input().fails {
                    r matches Some(Err(_))
                } else {
                    r is None
                }
                &&& *final(msg) == *old(msg)
            },
            !was_received(r) ==> final(self).ended(),
    ;
}

/// What handles the calls that reach a server.
///
/// A handler is described by the calls that it may make of what a client sends.
pub trait Handle {
    /// Whether the handler is in a usable state.
    open spec fn inv(&self) -> bool {
        true
    }

    /// Whether the handler may handle a call in this way.
    open spec fn handled(&self, call: Call) -> bool {
        true
    }

    /// Handles a call. The sending stream is given back, so that the call is over when this
    /// returns.
    fn handle<Tx: SendStream, Rx: RecvStream>(
        &self,
        headers: RequestHeaders,
        options: CallOptions,
        tx: Tx,
        rx: Rx,
    ) -> (r: (Trailers, Tx))
        requires
            self.inv(),
            tx.inv(),
            rx.inv(),
            !rx.ended(),
        ensures
            r.1.inv(),
            r.1.origin() == tx.origin(),
            tx.sent().is_prefix_of(r.1.sent()),
            self.handled(
                (Call {
                    headers: headers@,
                    options,
                    input: rx.input(),
                    output: r.1.sent().skip(tx.sent().len() as int),
                    trailers: r.0@,
                }),
            ),
    ;
}

/// A server: the handler of the calls that reach it, once it has one.
pub struct Server<H> {
    handler: Option<Arc<H>>,
}

impl<H: Handle> Server<Router<Intercepted<Arc<Identity>, H>>> {
    /// A builder without interceptors.
    pub fn builder() -> (r: ServerBuilder<Identity, H>)
        ensures
            r.inv(),
            r.spec_router().registered().len() == 0,
            r.spec_router().spec_interceptor() == (Identity {  }),
    {
        ServerBuilder::new()
    }
}

impl<I: Intercept, H: Handle> Server<Router<Intercepted<Arc<I>, H>>> {
    /// A builder with the given interceptor, which will stand in front of the handlers of all
    /// services.
    pub fn builder_with(interceptor: I) -> (r: ServerBuilder<I, H>)
        ensures
            r.inv(),
            r.spec_router().registered().len() == 0,
            r.spec_router().spec_interceptor() == interceptor,
    {
        ServerBuilder::new_with_interceptor(interceptor)
    }
}

impl<H: Handle> Server<H> {
    /// The handler.
    pub closed spec fn spec_handler(&self) -> Option<H> {
        match self.handler {
            Some(h) => Some(*h),
            None => None,
        }
    }

    /// A server without a handler.
    pub fn new() -> (r: Self)
        ensures
            r.spec_handler() is None,
    {
        Server { handler: None }
    }

    /// Sets the handler.
    pub fn set_handler(&mut self, h: H)
        ensures
            final(self).spec_handler() == Some(h),
    {
        self.handler = Some(Arc::new(h));
    }

    /// The handler, to be shared with a connection.
    pub fn handler(&self) -> (r: Option<Arc<H>>)
        ensures
            r is Some <==> self.spec_handler() is Some,
            r matches Some(h) ==> Some(*h) == self.spec_handler(),
    {
        match &self.handler {
            Some(h) => Some(h.clone()),
            None => None,
        }
    }
}

impl<H: Handle> Default for Server<H> {
    fn default() -> (r: Self)
        ensures
            r.spec_handler() is None,
    {
        Server::new()
    }
}

} // verus!
