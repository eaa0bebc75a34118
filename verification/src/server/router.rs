//! Routing of calls to the handlers of their methods.

use crate::client::CallOptions;
use crate::rpc::{error_trailers, RequestHeaders, Trailers};
use crate::server::descriptor::{MethodDescriptor, MethodDescriptorView, ServiceDescriptor};
use crate::server::interceptor::{behind, Identity, Intercept, Intercepted};
use crate::server::service::{Registrations, Service, ServiceRegistrar};
use crate::server::{Call, Handle, RecvStream, SendStream, Sent};
use crate::status::{StatusCodeError, StatusError};
use crate::text::{joined_text, same_text};
use std::sync::Arc;
use vstd::prelude::*;

verus! {

/// The handler that was registered last for a path.
pub open spec fn last_registered<H>(
    registered: Seq<(MethodDescriptorView, H)>,
    path: Seq<char>,
) -> Option<H> {
    last_under(by_path(registered), path)
}

/// Registrations by path.
pub open spec fn by_path<H>(registered: Seq<(MethodDescriptorView, H)>) -> Seq<(Seq<char>, H)> {
    registered.map_values(|e: (MethodDescriptorView, H)| (e.0.full_path, e.1))
}

/// The last item under a path.
pub open spec fn last_under<H>(registered: Seq<(Seq<char>, H)>, path: Seq<char>) -> Option<H>
    decreases registered.len(),
{
    if registered.len() == 0 {
        None
    } else if registered.last().0 == path {
        Some(registered.last().1)
    } else {
        last_under(registered.drop_last(), path)
    }
}

/// A table of handlers by path, in which no path occurs twice.
struct HandlerTable<H> {
    entries: Vec<(String, H)>,
}

impl<H> HandlerTable<H> {
    /// No path occurs twice.
    spec fn inv(&self) -> bool {
        forall|i: int, j: int|
            0 <= i < j < self.entries@.len() ==> (#[trigger] self.entries@[i]).0@ != (
            #[trigger] self.entries@[j]).0@
    }

    /// The handler of a path.
    spec fn lookup(&self, path: Seq<char>) -> Option<H> {
        last_under(self.entries@.map_values(|e: (String, H)| (e.0@, e.1)), path)
    }

    /// The handler at an index is that of its path.
    proof fn lemma_lookup(&self, i: int)
        requires
            self.inv(),
            0 <= i < self.entries@.len(),
        ensures
            self.lookup(self.entries@[i].0@) == Some(self.entries@[i].1),
    {
        let shown = self.entries@.map_values(|e: (String, H)| (e.0@, e.1));
        let path = self.entries@[i].0@;
        assert forall|j: int| i < j < shown.len() implies (#[trigger] shown[j]).0 != path by {
            assert(self.entries@[j].0@ != self.entries@[i].0@);
        }
        lemma_last_registered(shown, path, i);
    }

    /// A path that stands nowhere has no handler.
    proof fn lemma_no_lookup(&self, path: Seq<char>)
        requires
            forall|j: int| 0 <= j < self.entries@.len() ==> (#[trigger] self.entries@[j]).0@ != path,
        ensures
            self.lookup(path) is None,
    {
        let shown = self.entries@.map_values(|e: (String, H)| (e.0@, e.1));
        assert forall|j: int| 0 <= j < shown.len() implies (#[trigger] shown[j]).0 != path by {
            assert(self.entries@[j].0@ != path);
        }
        lemma_none_registered(shown, path);
    }

    /// An empty table.
    fn new() -> (r: Self)
        ensures
            r.inv(),
            forall|path: Seq<char>| #[trigger] r.lookup(path) is None,
    {
        HandlerTable { entries: Vec::new() }
    }

    /// Where a path stands.
    fn find(&self, path: &str) -> (r: Option<usize>)
        requires
            self.inv(),
        ensures
            r is Some <==> self.lookup(path@) is Some,
            r matches Some(i) ==> i < self.entries@.len() && self.entries@[i as int].0@ == path@
                && self.lookup(path@) == Some(self.entries@[i as int].1),
            r is None ==> forall|j: int|
                0 <= j < self.entries@.len() ==> (#[trigger] self.entries@[j]).0@ != path@,
    {
        let mut i: usize = 0;
        while i < self.entries.len()
            invariant
                self.inv(),
                i <= self.entries@.len(),
                forall|j: int| 0 <= j < i ==> (#[trigger] self.entries@[j]).0@ != path@,
            decreases self.entries@.len() - i,
        {
            if same_text(self.entries[i].0.as_str(), path) {
                proof {
                    self.lemma_lookup(i as int);
                }
                return Some(i);
            }
            i += 1;
        }
        proof {
            self.lemma_no_lookup(path@);
        }
        None
    }

    /// Puts a handler under a path, in the place of one that is there.
    fn insert(&mut self, path: String, handler: H)
        requires
            old(self).inv(),
        ensures
            final(self).inv(),
            forall|p: Seq<char>| #[trigger]
                final(self).lookup(p) == if p == path@ {
                    Some(handler)
                } else {
                    old(self).lookup(p)
                },
    {
        let ghost before = *self;
        let ghost text = path@;
        match self.find(path.as_str()) {
            Some(i) => {
                self.entries[i] = (path, handler);
                proof {
                    assert forall|p: Seq<char>| #[trigger]
                        self.lookup(p) == if p == text {
                            Some(handler)
                        } else {
                            before.lookup(p)
                        } by {
                        self.lemma_agree(before, p, i as int, text, handler);
                    }
                }
            },
            None => {
                self.entries.push((path, handler));
                proof {
                    let shown = self.entries@.map_values(|e: (String, H)| (e.0@, e.1));
                    assert(shown.drop_last() =~= before.entries@.map_values(
                        |e: (String, H)| (e.0@, e.1),
                    ));
                }
            },
        }
    }

    /// What changes when the entry at `i` is replaced under the same path.
    proof fn lemma_agree(&self, before: Self, p: Seq<char>, i: int, path: Seq<char>, handler: H)
        requires
            before.inv(),
            0 <= i < before.entries@.len(),
            before.entries@[i].0@ == path,
            self.entries@.len() == before.entries@.len(),
            self.entries@[i].0@ == path,
            self.entries@[i].1 == handler,
            forall|j: int|
                0 <= j < before.entries@.len() && j != i ==> (#[trigger] self.entries@[j])
                    == before.entries@[j],
        ensures
            self.inv(),
            self.lookup(p) == if p == path {
                Some(handler)
            } else {
                before.lookup(p)
            },
    {
        assert(self.inv()) by {
            assert forall|a: int, b: int| 0 <= a < b < self.entries@.len() implies (
            #[trigger] self.entries@[a]).0@ != (#[trigger] self.entries@[b]).0@ by {
                assert(before.entries@[a].0@ != before.entries@[b].0@);
            }
        }
        if p == path {
            self.lemma_lookup(i);
        } else if exists|j: int|
            0 <= j < before.entries@.len() && (#[trigger] before.entries@[j]).0@ == p {
            let j = choose|j: int|
                0 <= j < before.entries@.len() && (#[trigger] before.entries@[j]).0@ == p;
            before.lemma_lookup(j);
            assert(self.entries@[j] == before.entries@[j]);
            self.lemma_lookup(j);
        } else {
            before.lemma_no_lookup(p);
            assert forall|j: int| 0 <= j < self.entries@.len() implies (
            #[trigger] self.entries@[j]).0@ != p by {
                if j != i {
                    assert(self.entries@[j] == before.entries@[j]);
                }
            }
            self.lemma_no_lookup(p);
        }
    }
}

/// The last registration of a path decides.
proof fn lemma_last_registered<H>(registered: Seq<(Seq<char>, H)>, path: Seq<char>, i: int)
    requires
        0 <= i < registered.len(),
        registered[i].0 == path,
        forall|j: int| i < j < registered.len() ==> (#[trigger] registered[j]).0 != path,
    ensures
        last_under(registered, path) == Some(registered[i].1),
    decreases registered.len(),
{
    if i + 1 < registered.len() {
        assert(registered[registered.len() - 1].0 != path);
        let init = registered.drop_last();
        assert forall|j: int| i < j < init.len() implies (#[trigger] init[j]).0 != path by {
            assert(init[j] == registered[j]);
        }
        lemma_last_registered(init, path, i);
    }
}

/// A path that was never registered has no handler.
proof fn lemma_none_registered<H>(registered: Seq<(Seq<char>, H)>, path: Seq<char>)
    requires
        forall|j: int| 0 <= j < registered.len() ==> (#[trigger] registered[j]).0 != path,
    ensures
        last_under(registered, path) is None,
    decreases registered.len(),
{
    if registered.len() > 0 {
        assert(registered[registered.len() - 1].0 != path);
        let init = registered.drop_last();
        assert forall|j: int| 0 <= j < init.len() implies (#[trigger] init[j]).0 != path by {
            assert(init[j] == registered[j]);
        }
        lemma_none_registered(init, path);
    }
}

/// A builder of a [`Router`].
///
/// Methods are added one by one (`add_method`) or service by service (`add_service`). Each handler
/// is put behind the builder's interceptor, which is set when the builder is made.
pub struct RouterBuilder<I, H> {
    handlers: HandlerTable<Intercepted<Arc<I>, H>>,
    descriptors: Vec<ServiceDescriptor>,
    interceptor: Arc<I>,
    log: Ghost<Seq<(MethodDescriptorView, H)>>,
}

impl<H: Handle> RouterBuilder<Identity, H> {
    /// A builder without methods and without an interceptor.
    pub fn new() -> (r: Self)
        ensures
            r.inv(),
            r.registered() == Seq::<(MethodDescriptorView, H)>::empty(),
            r.spec_interceptor() == (Identity {  }),
            r.spec_descriptors() == Seq::<ServiceDescriptor>::empty(),
    {
        RouterBuilder::new_with_interceptor(Identity {  })
    }
}

impl<I: Intercept, H: Handle> RouterBuilder<I, H> {
    /// The interceptor.
    pub closed spec fn spec_interceptor(&self) -> I {
        *self.interceptor
    }

    /// The descriptors of the services that were added.
    pub closed spec fn spec_descriptors(&self) -> Seq<ServiceDescriptor> {
        self.descriptors@
    }

    /// A builder without methods, with the given interceptor.
    pub fn new_with_interceptor(interceptor: I) -> (r: Self)
        ensures
            r.inv(),
            r.registered() == Seq::<(MethodDescriptorView, H)>::empty(),
            r.spec_interceptor() == interceptor,
            r.spec_descriptors() == Seq::<ServiceDescriptor>::empty(),
    {
        RouterBuilder {
            handlers: HandlerTable::new(),
            descriptors: Vec::new(),
            interceptor: Arc::new(interceptor),
            log: Ghost(Seq::empty()),
        }
    }

    /// Registers a handler for a path.
    fn put(&mut self, descriptor: MethodDescriptor, handler: H)
        requires
            old(self).inv(),
        ensures
            final(self).inv(),
            final(self).registered() == old(self).registered().push((descriptor@, handler)),
            final(self).spec_interceptor() == old(self).spec_interceptor(),
            final(self).spec_descriptors() == old(self).spec_descriptors(),
    {
        let ghost before = *self;
        let ghost entry = (descriptor@, handler);
        let path = descriptor.into_path();
        let wrapped = Intercepted { interceptor: self.interceptor.clone(), inner: handler };
        self.handlers.insert(path, wrapped);
        proof {
            self.log@ = self.log@.push(entry);
            assert(by_path(self.log@).drop_last() =~= by_path(before.log@));
            assert forall|p: Seq<char>| #[trigger]
                self.handlers.lookup(p) == (match last_registered(self.log@, p) {
                    Some(h) => Some(behind(*self.interceptor, h)),
                    None => None,
                }) by {
                assert(before.handlers.lookup(p) == (match last_registered(before.log@, p) {
                    Some(h) => Some(behind(*before.interceptor, h)),
                    None => None,
                }));
            }
        }
    }

    /// Registers `handler` for a method. A handler that was registered for the same path is
    /// replaced.
    pub fn add_method(self, descriptor: MethodDescriptor, handler: H) -> (r: Self)
        requires
            self.inv(),
        ensures
            r.inv(),
            r.registered() == self.registered().push((descriptor@, handler)),
            r.spec_interceptor() == self.spec_interceptor(),
            r.spec_descriptors() == self.spec_descriptors(),
    {
        let mut this = self;
        this.put(descriptor, handler);
        this
    }

    /// Registers all methods of a service.
    pub fn add_service<S: Service<H>>(self, service: S) -> (r: Self)
        requires
            self.inv(),
        ensures
            r.inv(),
            r.registered() == self.registered() + service.methods(),
            r.spec_interceptor() == self.spec_interceptor(),
            r.spec_descriptors().drop_last() == self.spec_descriptors(),
            r.spec_descriptors().len() == self.spec_descriptors().len() + 1,
            service.described(r.spec_descriptors().last()),
    {
        let mut this = self;
        let ghost earlier = this.registered();
        this.descriptors.push(service.descriptor());
        assert(this.spec_descriptors().drop_last() =~= self.spec_descriptors());
        let ghost descriptors = this.spec_descriptors();
        let ghost methods = service.methods();
        let mut registrations = Registrations::new();
        service.register_methods(&mut registrations);
        let ghost kept = registrations.registered();
        assert(kept =~= methods);
        let list = registrations.into_list();
        let ghost shown = list@.map_values(|e: (MethodDescriptor, H)| (e.0@, e.1));
        let total: usize = list.len();
        let mut todo = list;
        proof {
            assert(earlier + shown.take(0) =~= earlier);
            assert(todo@.map_values(|e: (MethodDescriptor, H)| (e.0@, e.1)) =~= shown.skip(0));
        }
        let mut done: usize = 0;
        while todo.len() > 0
            invariant
                this.inv(),
                done + todo@.len() == shown.len(),
                todo@.map_values(|e: (MethodDescriptor, H)| (e.0@, e.1)) == shown.skip(done as int),
                this.registered() == earlier + shown.take(done as int),
                this.spec_interceptor() == self.spec_interceptor(),
                this.spec_descriptors() == descriptors,
                shown.len() == total,
            decreases todo@.len(),
        {
            let ghost before = todo@;
            let ghost rest = todo@.map_values(|e: (MethodDescriptor, H)| (e.0@, e.1));
            let (descriptor, handler) = todo.remove(0);
            assert(rest[0] == (descriptor@, handler));
            assert(shown[done as int] == rest[0]);
            this.put(descriptor, handler);
            done += 1;
            proof {
                let now = todo@.map_values(|e: (MethodDescriptor, H)| (e.0@, e.1));
                assert forall|i: int| 0 <= i < now.len() implies now[i] == shown.skip(
                    done as int,
                )[i] by {
                    assert(todo@[i] == before[i + 1]);
                    assert(rest[i + 1] == shown.skip(done - 1)[i + 1]);
                }
                assert(now =~= shown.skip(done as int));
                assert(this.registered() =~= earlier + shown.take(done as int));
            }
        }
        assert(shown.take(done as int) =~= shown);
        this
    }

    /// The router with the methods that were registered.
    pub fn build(self) -> (r: Router<Intercepted<Arc<I>, H>>)
        requires
            self.inv(),
        ensures
            r.wf(),
            forall|path: Seq<char>| #[trigger]
                r.lookup(path) == match last_registered(self.registered(), path) {
                    Some(h) => Some(behind(self.spec_interceptor(), h)),
                    None => None,
                },
    {
        Router { handlers: self.handlers }
    }
}

impl<H: Handle> Default for RouterBuilder<Identity, H> {
    fn default() -> (r: Self)
        ensures
            r.inv(),
            r.registered() == Seq::<(MethodDescriptorView, H)>::empty(),
    {
        RouterBuilder::new()
    }
}

impl<I: Intercept, H: Handle> ServiceRegistrar<H> for RouterBuilder<I, H> {
    closed spec fn inv(&self) -> bool {
        &&& self.handlers.inv()
        &&& forall|path: Seq<char>| #[trigger]
            self.handlers.lookup(path) == match last_registered(self.log@, path) {
                Some(h) => Some(behind(*self.interceptor, h)),
                None => None,
            }
    }

    closed spec fn registered(&self) -> Seq<(MethodDescriptorView, H)> {
        self.log@
    }

    fn register_method(&mut self, descriptor: MethodDescriptor, handler: H) {
        self.put(descriptor, handler);
    }
}

/// Routes calls to handlers by the method name in their headers.
///
/// A router does not change once it is built.
pub struct Router<H> {
    handlers: HandlerTable<H>,
}

impl<H> Router<H> {
    /// No path has two handlers.
    pub closed spec fn wf(&self) -> bool {
        self.handlers.inv()
    }

    /// The handler of a path.
    pub closed spec fn lookup(&self, path: Seq<char>) -> Option<H> {
        self.handlers.lookup(path)
    }
}

impl<H: Handle> Handle for Router<H> {
    open spec fn inv(&self) -> bool {
        &&& self.wf()
        &&& forall|path: Seq<char>| (#[trigger] self.lookup(path)) matches Some(h) ==> h.inv()
    }

    open spec fn handled(&self, call: Call) -> bool {
        match self.lookup(call.headers.method_name) {
            Some(h) => h.handled(call),
            None => {
                &&& call.output == Seq::<Sent>::empty()
                &&& call.trailers == error_trailers(
                    StatusCodeError::Unimplemented,
                    "unknown method: "@ + call.headers.method_name,
                )
            },
        }
    }

    fn handle<Tx: SendStream, Rx: RecvStream>(
        &self,
        headers: RequestHeaders,
        options: CallOptions,
        tx: Tx,
        rx: Rx,
    ) -> (r: (Trailers, Tx)) {
        match self.handlers.find(headers.method_name()) {
            Some(i) => {
                assert(self.lookup(headers@.method_name) is Some);
                self.handlers.entries[i].1.handle(headers, options, tx, rx)
            },
            None => {
                let message = joined_text("unknown method: ", headers.method_name());
                let trailers = Trailers::new(
                    Err(StatusError::with_text(StatusCodeError::Unimplemented, message)),
                );
                assert(tx.sent().skip(tx.sent().len() as int) =~= Seq::empty());
                (trailers, tx)
            },
        }
    }
}

/// The registration that came last decides: a method that is registered again is handled by its
/// new handler, and every other method as before.
pub proof fn law_last_registration_wins<H>(
    registered: Seq<(MethodDescriptorView, H)>,
    method: MethodDescriptorView,
    handler: H,
    other: Seq<char>,
)
    requires
        other != method.full_path,
    ensures
        last_registered(registered.push((method, handler)), method.full_path) == Some(handler),
        last_registered(registered.push((method, handler)), other) == last_registered(
            registered,
            other,
        ),
{
    assert(by_path(registered.push((method, handler))).drop_last() =~= by_path(registered));
}

/// A method that nobody registered is answered with `UNIMPLEMENTED` and its name, and nothing is
/// sent.
pub proof fn law_unknown_method_is_unimplemented<H: Handle>(router: Router<H>, call: Call)
    requires
        router.handled(call),
        router.lookup(call.headers.method_name) is None,
    ensures
        call.output.len() == 0,
        call.trailers.status matches Err(e) && e.code == StatusCodeError::Unimplemented && e.message
            == "unknown method: "@ + call.headers.method_name,
{
}


/// The router of a builder answers a call by the handler that was registered last for its method,
/// behind the builder's interceptor: whatever the interceptor asks of every call holds, and where it
/// is the identity the call is handled as the handler does alone.
pub proof fn law_calls_are_routed<H: Handle>(
    router: Router<Intercepted<Arc<Identity>, H>>,
    registered: Seq<(MethodDescriptorView, H)>,
    interceptor: Identity,
    call: Call,
    i: int,
)
    requires
        router.handled(call),
        forall|path: Seq<char>| #[trigger]
            router.lookup(path) == match last_registered(registered, path) {
                Some(h) => Some(behind(interceptor, h)),
                None => None,
            },
        0 <= i < registered.len(),
        registered[i].0.full_path == call.headers.method_name,
        forall|j: int|
            i < j < registered.len() ==> (#[trigger] registered[j]).0.full_path
                != call.headers.method_name,
    ensures
        registered[i].1.handled(call),
{
    let paths = by_path(registered);
    assert forall|j: int| i < j < paths.len() implies (#[trigger] paths[j]).0
        != call.headers.method_name by {
        assert(registered[j].0.full_path == paths[j].0);
    }
    lemma_last_registered(paths, call.headers.method_name, i);
    assert(last_registered(registered, call.headers.method_name) == Some(registered[i].1));
    let h = behind(interceptor, registered[i].1);
    assert(router.lookup(call.headers.method_name) == Some(h));
    assert(h.handled(call));
}

/// A method that stands nowhere among the registrations has no handler.
pub proof fn law_unregistered_methods_are_unknown<H>(
    registered: Seq<(MethodDescriptorView, H)>,
    path: Seq<char>,
)
    ensures
        last_registered(registered, path) is None <==> forall|j: int|
            0 <= j < registered.len() ==> (#[trigger] registered[j]).0.full_path != path,
    decreases registered.len(),
{
    let paths = by_path(registered);
    if forall|j: int| 0 <= j < registered.len() ==> (#[trigger] registered[j]).0.full_path != path {
        assert forall|j: int| 0 <= j < paths.len() implies (#[trigger] paths[j]).0 != path by {
            assert(registered[j].0.full_path == paths[j].0);
        }
        lemma_none_registered(paths, path);
    } else if registered.len() > 0 {
        let init = registered.drop_last();
        assert(by_path(init) =~= paths.drop_last());
        if registered.last().0.full_path != path {
            let j = choose|j: int|
                0 <= j < registered.len() && (#[trigger] registered[j]).0.full_path == path;
            assert(init[j].0.full_path == path);
            law_unregistered_methods_are_unknown(init, path);
        }
    }
}

} // verus!
