//! The builder of a server.

use crate::server::interceptor::{behind, Identity, Intercept, Intercepted};
use crate::server::router::{last_registered, Router, RouterBuilder};
use crate::server::service::{Service, ServiceRegistrar};
use crate::server::{Handle, Server};
use std::sync::Arc;
use vstd::prelude::*;

verus! {

/// A builder of a [`Server`].
///
/// The interceptor is set when the builder is made and stands in front of the handlers of all
/// services. [`Server::builder`] makes a builder without interceptors, and
/// [`Server::builder_with`] one with an interceptor.
pub struct ServerBuilder<I, H> {
    router: RouterBuilder<I, H>,
}

impl<H: Handle> ServerBuilder<Identity, H> {
    /// A builder without services and without interceptors.
    pub fn new() -> (r: Self)
        ensures
            r.inv(),
            r.spec_router().registered().len() == 0,
            r.spec_router().spec_interceptor() == (Identity {  }),
    {
        ServerBuilder { router: RouterBuilder::new() }
    }
}

impl<I: Intercept, H: Handle> ServerBuilder<I, H> {
    /// The builder of the server's router.
    pub closed spec fn spec_router(&self) -> RouterBuilder<I, H> {
        self.router
    }

    /// Whether the builder is in a usable state.
    pub open spec fn inv(&self) -> bool {
        self.spec_router().inv()
    }

    /// A builder without services, with the given interceptor.
    pub fn new_with_interceptor(interceptor: I) -> (r: Self)
        ensures
            r.inv(),
            r.spec_router().registered().len() == 0,
            r.spec_router().spec_interceptor() == interceptor,
    {
        ServerBuilder { router: RouterBuilder::new_with_interceptor(interceptor) }
    }

    /// Registers all methods of a service.
    pub fn add_service<S: Service<H>>(self, service: S) -> (r: Self)
        requires
            self.inv(),
        ensures
            r.inv(),
            r.spec_router().registered() == self.spec_router().registered() + service.methods(),
            r.spec_router().spec_interceptor() == self.spec_router().spec_interceptor(),
    {
        ServerBuilder { router: self.router.add_service(service) }
    }

    /// The server, whose handler routes calls to the methods that were registered.
    pub fn build(self) -> (r: Server<Router<Intercepted<Arc<I>, H>>>)
        requires
            self.inv(),
        ensures
            r.spec_handler() matches Some(router) && router.wf() && forall|path: Seq<char>|
                #[trigger]
                router.lookup(path) == match last_registered(
                    self.spec_router().registered(),
                    path,
                ) {
                    Some(h) => Some(behind(self.spec_router().spec_interceptor(), h)),
                    None => None,
                },
    {
        let router = self.router.build();
        let mut server = Server::new();
        server.set_handler(router);
        server
    }
}

} // verus!
