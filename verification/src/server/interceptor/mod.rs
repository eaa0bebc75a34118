//! Interceptors: what stands between the transport and the handlers.

pub mod chain;
pub mod deadline;
pub mod definition;
pub mod extension;
pub mod http2_framing;
pub mod intercepted_handler;
pub mod metadata_interceptor;
pub mod noop;

use crate::client::CallOptions;
use crate::rpc::{RequestHeaders, Trailers};
use crate::server::{Call, Handle, RecvStream, SendStream};
use std::sync::Arc;
use vstd::prelude::*;

verus! {

/// What intercepts the calls that reach a handler.
///
/// An interceptor is described by the calls that it may make, given the calls that the next
/// handler may make.
pub trait Intercept {
    /// Whether the interceptor is in a usable state.
    open spec fn inv(&self) -> bool {
        true
    }

    /// Whether the interceptor may handle a call in this way in front of a handler that handles
    /// calls as `next` says.
    open spec fn intercepted(&self, next: spec_fn(Call) -> bool, call: Call) -> bool {
        true
    }

    /// Handles a call in front of `next`.
    fn intercept<Tx: SendStream, Rx: RecvStream, H: Handle>(
        &self,
        headers: RequestHeaders,
        options: CallOptions,
        tx: Tx,
        rx: Rx,
        next: &H,
    ) -> (r: (Trailers, Tx))
        requires
            self.inv(),
            next.inv(),
            tx.inv(),
            rx.inv(),
            !rx.ended(),
        ensures
            r.1.inv(),
            r.1.origin() == tx.origin(),
            tx.sent().is_prefix_of(r.1.sent()),
            self.intercepted(
                |c: Call| next.handled(c),
                (Call {
                    headers: headers@,
                    options,
                    input: rx.input(),
                    output: r.1.sent().skip(tx.sent().len() as int),
                    trailers: r.0@,
                }),
            ),
    ;
}

/// The interceptor that hands every call on as it is.
#[derive(Debug, Clone, Copy)]
pub struct Identity {}

impl Intercept for Identity {
    open spec fn inv(&self) -> bool {
        true
    }

    open spec fn intercepted(&self, next: spec_fn(Call) -> bool, call: Call) -> bool {
        next(call)
    }

    fn intercept<Tx: SendStream, Rx: RecvStream, H: Handle>(
        &self,
        headers: RequestHeaders,
        options: CallOptions,
        tx: Tx,
        rx: Rx,
        next: &H,
    ) -> (r: (Trailers, Tx)) {
        next.handle(headers, options, tx, rx)
    }
}

impl<I: Intercept> Intercept for Arc<I> {
    open spec fn inv(&self) -> bool {
        (**self).inv()
    }

    open spec fn intercepted(&self, next: spec_fn(Call) -> bool, call: Call) -> bool {
        (**self).intercepted(next, call)
    }

    fn intercept<Tx: SendStream, Rx: RecvStream, H: Handle>(
        &self,
        headers: RequestHeaders,
        options: CallOptions,
        tx: Tx,
        rx: Rx,
        next: &H,
    ) -> (r: (Trailers, Tx)) {
        (**self).intercept(headers, options, tx, rx, next)
    }
}

/// A handler with an interceptor in front of it.
pub struct Intercepted<I, H> {
    /// The interceptor.
    pub interceptor: I,
    /// The handler.
    pub inner: H,
}

impl<I: Intercept, H: Handle> Handle for Intercepted<I, H> {
    open spec fn inv(&self) -> bool {
        self.interceptor.inv() && self.inner.inv()
    }

    open spec fn handled(&self, call: Call) -> bool {
        self.interceptor.intercepted(|c: Call| self.inner.handled(c), call)
    }

    fn handle<Tx: SendStream, Rx: RecvStream>(
        &self,
        headers: RequestHeaders,
        options: CallOptions,
        tx: Tx,
        rx: Rx,
    ) -> (r: (Trailers, Tx)) {
        self.interceptor.intercept(headers, options, tx, rx, &self.inner)
    }
}

/// A handler behind an interceptor.
pub open spec fn behind<I, H>(interceptor: I, handler: H) -> Intercepted<Arc<I>, H> {
    Intercepted { interceptor: Arc::new(interceptor), inner: handler }
}

/// A borrowed handler with a borrowed interceptor in front of it.
pub struct InterceptedRef<'a, I, H> {
    /// The interceptor.
    pub interceptor: &'a I,
    /// The handler.
    pub inner: &'a H,
}

impl<'a, I: Intercept, H: Handle> Handle for InterceptedRef<'a, I, H> {
    open spec fn inv(&self) -> bool {
        self.interceptor.inv() && self.inner.inv()
    }

    open spec fn handled(&self, call: Call) -> bool {
        self.interceptor.intercepted(|c: Call| self.inner.handled(c), call)
    }

    fn handle<Tx: SendStream, Rx: RecvStream>(
        &self,
        headers: RequestHeaders,
        options: CallOptions,
        tx: Tx,
        rx: Rx,
    ) -> (r: (Trailers, Tx)) {
        self.interceptor.intercept(headers, options, tx, rx, self.inner)
    }
}

/// Two interceptors, the first in front of the second.
#[derive(Debug)]
pub struct ComposedIntercept<A, B> {
    first: A,
    second: B,
}

impl<A, B> ComposedIntercept<A, B> {
    /// The interceptor in front.
    pub closed spec fn spec_first(&self) -> A {
        self.first
    }

    /// The interceptor behind it.
    pub closed spec fn spec_second(&self) -> B {
        self.second
    }

    /// Puts `first` in front of `second`.
    pub fn new(first: A, second: B) -> (r: Self)
        ensures
            r.spec_first() == first,
            r.spec_second() == second,
    {
        ComposedIntercept { first, second }
    }
}

impl<A: Intercept, B: Intercept> Intercept for ComposedIntercept<A, B> {
    open spec fn inv(&self) -> bool {
        self.spec_first().inv() && self.spec_second().inv()
    }

    open spec fn intercepted(&self, next: spec_fn(Call) -> bool, call: Call) -> bool {
        self.spec_first().intercepted(
            |c: Call| self.spec_second().intercepted(next, c),
            call,
        )
    }

    fn intercept<Tx: SendStream, Rx: RecvStream, H: Handle>(
        &self,
        headers: RequestHeaders,
        options: CallOptions,
        tx: Tx,
        rx: Rx,
        next: &H,
    ) -> (r: (Trailers, Tx)) {
        let inner = InterceptedRef { interceptor: &self.second, inner: next };
        let r = self.first.intercept(headers, options, tx, rx, &inner);
        proof {
            let f1 = |c: Call| inner.handled(c);
            let f2 = |c: Call|
                self.spec_second().intercepted(|d: Call| next.handled(d), c);
            assert(f1 =~= f2);
        }
        r
    }
}

/// Putting interceptors in front of handlers.
pub trait HandleExt: Handle + Sized {
    /// Puts `interceptor` in front of this handler.
    fn with_interceptor<I: Intercept>(self, interceptor: I) -> (r: Intercepted<I, Self>)
        ensures
            r.interceptor == interceptor,
            r.inner == self,
    ;
}

impl<H: Handle> HandleExt for H {
    fn with_interceptor<I: Intercept>(self, interceptor: I) -> (r: Intercepted<I, Self>) {
        Intercepted { interceptor, inner: self }
    }
}

/// Composition is associative: only the order of the interceptors matters.
pub proof fn law_composition_is_associative<A: Intercept, B: Intercept, C: Intercept>(
    left: ComposedIntercept<ComposedIntercept<A, B>, C>,
    right: ComposedIntercept<A, ComposedIntercept<B, C>>,
    next: spec_fn(Call) -> bool,
    call: Call,
)
    requires
        left.spec_first().spec_first() == right.spec_first(),
        left.spec_first().spec_second() == right.spec_second().spec_first(),
        left.spec_second() == right.spec_second().spec_second(),
    ensures
        left.intercepted(next, call) == right.intercepted(next, call),
{
    let b = right.spec_second().spec_first();
    let c = right.spec_second().spec_second();
    let inner = |d: Call| c.intercepted(next, d);
    let f1 = |d: Call| b.intercepted(inner, d);
    let f2 = |d: Call| right.spec_second().intercepted(next, d);
    assert(f1 =~= f2);
}

/// The identity in front of an interceptor, or behind it, changes nothing.
pub proof fn law_identity_is_neutral<A: Intercept>(
    before: ComposedIntercept<Identity, A>,
    after: ComposedIntercept<A, Identity>,
    next: spec_fn(Call) -> bool,
    call: Call,
)
    ensures
        before.intercepted(next, call) == before.spec_second().intercepted(next, call),
        after.intercepted(next, call) == after.spec_first().intercepted(next, call),
{
    let f = |d: Call| after.spec_second().intercepted(next, d);
    assert(f =~= next);
}


/// An interceptor stands in front of its handler: what it lets through of no handler does not get
/// through, what it asks of every call holds of every call, and the handler is known to it only by
/// the calls that it may make. An interceptor in front of an intercepted handler is one with both
/// composed, in the same order.
pub proof fn law_interceptor_stands_in_front<A: Intercept, B: Intercept, H: Handle>(
    one: Intercepted<A, H>,
    nested: Intercepted<A, Intercepted<B, H>>,
    both: Intercepted<ComposedIntercept<A, B>, H>,
    asked: spec_fn(Call) -> bool,
    call: Call,
)
    requires
        nested.interceptor == both.interceptor.spec_first(),
        nested.inner.interceptor == both.interceptor.spec_second(),
        nested.inner.inner == both.inner,
        forall|next: spec_fn(Call) -> bool, c: Call| #[trigger]
            one.interceptor.intercepted(next, c) ==> asked(c),
    ensures
        one.handled(call) ==> asked(call),
        nested.handled(call) == both.handled(call),
{
    let f1 = |c: Call| nested.inner.handled(c);
    let inner = |d: Call| both.inner.handled(d);
    let f2 = |c: Call| both.interceptor.spec_second().intercepted(inner, c);
    assert(f1 =~= f2);
}

/// Of two interceptors the first sees a call first: whatever it asks of the calls that come to it
/// holds of every call, and what the second asks holds of the calls that the first hands on.
pub proof fn law_first_interceptor_is_outside<A: Intercept, B: Intercept>(
    both: ComposedIntercept<A, B>,
    asked: spec_fn(Call) -> bool,
    asked_inside: spec_fn(Call) -> bool,
    next: spec_fn(Call) -> bool,
    call: Call,
)
    requires
        both.intercepted(next, call),
        forall|n: spec_fn(Call) -> bool, c: Call| #[trigger]
            both.spec_first().intercepted(n, c) ==> asked(c) && exists|d: Call| #[trigger] n(d),
        forall|n: spec_fn(Call) -> bool, c: Call| #[trigger]
            both.spec_second().intercepted(n, c) ==> asked_inside(c),
    ensures
        asked(call),
        exists|d: Call| #[trigger] asked_inside(d),
{
    let n = |c: Call| both.spec_second().intercepted(next, c);
    assert(both.spec_first().intercepted(n, call));
    let d = choose|d: Call| #[trigger] n(d);
    assert(both.spec_second().intercepted(next, d));
    assert(asked_inside(d));
}

/// The identity hands every call on: a handler behind it handles calls as it does alone.
pub proof fn law_identity_hands_on<H: Handle>(one: Intercepted<Identity, H>, call: Call)
    ensures
        one.handled(call) == one.inner.handled(call),
{
}

} // verus!
