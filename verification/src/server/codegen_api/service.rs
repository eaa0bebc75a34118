//! Services whose methods are registered by their kind.

use crate::server::codegen_api::bidi_streaming::BidiStreamingMethod;
use crate::server::codegen_api::client_streaming::ClientStreamingMethod;
use crate::server::codegen_api::server_streaming::ServerStreamingMethod;
use crate::server::codegen_api::unary::UnaryMethod;
use crate::server::descriptor::MethodType;
use vstd::prelude::*;

verus! {

/// What methods are registered with, by their kind.
pub trait ServiceRegistrar {
    /// The paths and kinds that were registered, in order.
    open spec fn registered(&self) -> Seq<(Seq<char>, MethodType)> {
        arbitrary()
    }

    /// Registers a unary method.
    fn register_unary<Req, Resp, H: UnaryMethod<Req, Resp>>(&mut self, path: &str, handler: H)
        ensures
            final(self).registered() == old(self).registered().push((path@, MethodType::Unary)),
    ;

    /// Registers a server-streaming method.
    fn register_server_streaming<Req, Resp, H: ServerStreamingMethod<Req, Resp>>(
        &mut self,
        path: &str,
        handler: H,
    )
        ensures
            final(self).registered() == old(self).registered().push(
                (path@, MethodType::ServerStreaming),
            ),
    ;

    /// Registers a client-streaming method.
    fn register_client_streaming<Req, Resp, H: ClientStreamingMethod<Req, Resp>>(
        &mut self,
        path: &str,
        handler: H,
    )
        ensures
            final(self).registered() == old(self).registered().push(
                (path@, MethodType::ClientStreaming),
            ),
    ;

    /// Registers a bidirectional-streaming method.
    fn register_bidi_streaming<Req, Resp, H: BidiStreamingMethod<Req, Resp>>(
        &mut self,
        path: &str,
        handler: H,
    )
        ensures
            final(self).registered() == old(self).registered().push(
                (path@, MethodType::BidiStreaming),
            ),
    ;
}

/// A service that can register its methods by their kind.
pub trait Service: Sized {
    /// The paths and kinds that the service registers, in order.
    open spec fn methods(&self) -> Seq<(Seq<char>, MethodType)> {
        arbitrary()
    }

    /// Registers the service's methods.
    fn register_methods<R: ServiceRegistrar>(self, registrar: &mut R)
        ensures
            final(registrar).registered() == old(registrar).registered() + self.methods(),
    ;
}

} // verus!
