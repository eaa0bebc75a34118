//! Services: sets of methods that are registered together.

use crate::server::descriptor::{MethodDescriptor, MethodDescriptorView, ServiceDescriptor};
use crate::server::interceptor::{behind, Intercept, Intercepted};
use crate::server::Handle;
use std::sync::Arc;
use vstd::prelude::*;

verus! {

/// What methods are registered with. `H` is the type of the methods' handlers.
///
/// A registrar is described by the registrations that were made with it.
pub trait ServiceRegistrar<H> {
    /// Whether the registrar is in a usable state.
    open spec fn inv(&self) -> bool {
        true
    }

    /// The methods and handlers that were registered, in order.
    open spec fn registered(&self) -> Seq<(MethodDescriptorView, H)> {
        arbitrary()
    }

    /// Registers `handler` for the method that `descriptor` describes.
    fn register_method(&mut self, descriptor: MethodDescriptor, handler: H)
        requires
            old(self).inv(),
        ensures
            final(self).inv(),
            final(self).registered() == old(self).registered().push(
                (descriptor@, handler),
            ),
    ;
}

/// A service that can register its methods.
pub trait Service<H>: Sized {
    /// What a descriptor of the service may say.
    open spec fn described(&self, d: ServiceDescriptor) -> bool {
        true
    }

    /// The methods and handlers that the service registers, in order.
    open spec fn methods(&self) -> Seq<(MethodDescriptorView, H)> {
        arbitrary()
    }

    /// What the service looks like.
    fn descriptor(&self) -> (r: ServiceDescriptor)
        ensures
            self.described(r),
    ;

    /// Registers the service's methods.
    fn register_methods<R: ServiceRegistrar<H>>(self, registrar: &mut R)
        requires
            old(registrar).inv(),
        ensures
            final(registrar).inv(),
            final(registrar).registered() == old(registrar).registered() + self.methods(),
    ;
}

/// A registrar that keeps what is registered, in order.
pub struct Registrations<H> {
    list: Vec<(MethodDescriptor, H)>,
}

impl<H> Registrations<H> {
    /// A registrar without registrations.
    pub fn new() -> (r: Self)
        ensures
            r.inv(),
            r.registered() == Seq::<(MethodDescriptorView, H)>::empty(),
    {
        let r = Registrations { list: Vec::new() };
        assert(r.registered() =~= Seq::<(MethodDescriptorView, H)>::empty());
        r
    }

    /// The registrations, in order.
    pub fn into_list(self) -> (r: Vec<(MethodDescriptor, H)>)
        ensures
            r@.map_values(|e: (MethodDescriptor, H)| (e.0@, e.1)) == self.registered(),
    {
        self.list
    }
}

impl<H> ServiceRegistrar<H> for Registrations<H> {
    open spec fn inv(&self) -> bool {
        true
    }

    closed spec fn registered(&self) -> Seq<(MethodDescriptorView, H)> {
        self.list@.map_values(|e: (MethodDescriptor, H)| (e.0@, e.1))
    }

    fn register_method(&mut self, descriptor: MethodDescriptor, handler: H) {
        let ghost before = self.registered();
        self.list.push((descriptor, handler));
        assert(self.registered() =~= before.push((descriptor@, handler)));
    }
}

/// A service whose handlers stand behind an interceptor of their own.
pub struct InterceptedService<I, S> {
    interceptor: Arc<I>,
    inner: S,
}

impl<I, S> InterceptedService<I, S> {
    /// The interceptor.
    pub closed spec fn spec_interceptor(&self) -> I {
        *self.interceptor
    }

    /// The service.
    pub closed spec fn spec_inner(&self) -> S {
        self.inner
    }
}

/// Handlers, each behind an interceptor.
pub open spec fn behind_each<I, H>(interceptor: I, methods: Seq<(MethodDescriptorView, H)>) -> Seq<
    (MethodDescriptorView, Intercepted<Arc<I>, H>),
> {
    methods.map_values(|m: (MethodDescriptorView, H)| (m.0, behind(interceptor, m.1)))
}

impl<I: Intercept, H: Handle, S: Service<H>> Service<Intercepted<Arc<I>, H>>
    for InterceptedService<I, S> {
    open spec fn described(&self, d: ServiceDescriptor) -> bool {
        self.spec_inner().described(d)
    }

    open spec fn methods(&self) -> Seq<(MethodDescriptorView, Intercepted<Arc<I>, H>)> {
        behind_each(self.spec_interceptor(), self.spec_inner().methods())
    }

    fn descriptor(&self) -> (r: ServiceDescriptor) {
        self.inner.descriptor()
    }

    fn register_methods<R: ServiceRegistrar<Intercepted<Arc<I>, H>>>(self, registrar: &mut R) {
        let ghost earlier = registrar.registered();
        let ghost methods = self.inner.methods();
        let interceptor = self.interceptor;
        let mut registrations: Registrations<H> = Registrations::new();
        self.inner.register_methods(&mut registrations);
        assert(registrations.registered() =~= methods);
        let list = registrations.into_list();
        let total: usize = list.len();
        let mut todo = list;
        let mut done: usize = 0;
        proof {
            assert(behind_each(*interceptor, methods.take(0)) =~= Seq::empty());
            assert(earlier + behind_each(*interceptor, methods.take(0)) =~= earlier);
            assert(methods.skip(0) =~= methods);
        }
        while todo.len() > 0
            invariant
                registrar.inv(),
                done + todo@.len() == methods.len() == total,
                todo@.map_values(|e: (MethodDescriptor, H)| (e.0@, e.1)) == methods.skip(done as int),
                registrar.registered() == earlier + behind_each(
                    *interceptor,
                    methods.take(done as int),
                ),
            decreases todo@.len(),
        {
            let ghost before = todo@;
            let ghost rest = todo@.map_values(|e: (MethodDescriptor, H)| (e.0@, e.1));
            let (descriptor, handler) = todo.remove(0);
            assert(rest[0] == (descriptor@, handler));
            assert(methods[done as int] == rest[0]);
            let wrapped = Intercepted { interceptor: interceptor.clone(), inner: handler };
            registrar.register_method(descriptor, wrapped);
            done += 1;
            proof {
                let now = todo@.map_values(|e: (MethodDescriptor, H)| (e.0@, e.1));
                assert forall|i: int| 0 <= i < now.len() implies now[i] == methods.skip(
                    done as int,
                )[i] by {
                    assert(todo@[i] == before[i + 1]);
                    assert(rest[i + 1] == methods.skip(done - 1)[i + 1]);
                }
                assert(now =~= methods.skip(done as int));
                assert(registrar.registered() =~= earlier + behind_each(
                    *interceptor,
                    methods.take(done as int),
                ));
            }
        }
        assert(methods.take(done as int) =~= methods);
    }
}

/// Putting interceptors in front of the handlers of a service.
pub trait ServiceExt<H: Handle>: Service<H> {
    /// Puts `interceptor` in front of each handler of this service.
    fn with_interceptor<I: Intercept>(self, interceptor: I) -> (r: InterceptedService<I, Self>)
        ensures
            r.spec_interceptor() == interceptor,
            r.spec_inner() == self,
    ;
}

impl<H: Handle, S: Service<H>> ServiceExt<H> for S {
    fn with_interceptor<I: Intercept>(self, interceptor: I) -> (r: InterceptedService<I, Self>) {
        InterceptedService { interceptor: Arc::new(interceptor), inner: self }
    }
}


/// An interceptor in front of a service stands in front of each of its handlers, and leaves the
/// methods, and their order, as they are.
pub proof fn law_service_is_intercepted<I, H>(
    interceptor: I,
    methods: Seq<(MethodDescriptorView, H)>,
    i: int,
)
    requires
        0 <= i < methods.len(),
    ensures
        behind_each(interceptor, methods).len() == methods.len(),
        behind_each(interceptor, methods)[i].0 == methods[i].0,
        behind_each(interceptor, methods)[i].1.inner == methods[i].1,
        *behind_each(interceptor, methods)[i].1.interceptor == interceptor,
{
}

} // verus!
