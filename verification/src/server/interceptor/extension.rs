//! Chaining of interceptors.

use crate::server::interceptor::chain::ChainedInterceptor;
use vstd::prelude::*;

verus! {

/// Chaining of interceptors on the level of bytes.
pub trait ByteStreamInterceptorExt: Sized {
    /// Puts this interceptor in front of another.
    fn chain<B, M>(self, other: B) -> (r: ChainedInterceptor<Self, B, M>)
        ensures
            r.spec_first() == self,
            r.spec_second() == other,
    ;
}

impl<T> ByteStreamInterceptorExt for T {
    fn chain<B, M>(self, other: B) -> (r: ChainedInterceptor<Self, B, M>) {
        ChainedInterceptor::new(self, other)
    }
}

/// Chaining of interceptors on the level of messages.
pub trait InterceptorExt: Sized {
    /// Puts this interceptor in front of another.
    fn chain<B>(self, other: B) -> (r: ChainedInterceptor<Self, B, ()>)
        ensures
            r.spec_first() == self,
            r.spec_second() == other,
    ;
}

impl<T> InterceptorExt for T {
    fn chain<B>(self, other: B) -> (r: ChainedInterceptor<Self, B, ()>) {
        ChainedInterceptor::new(self, other)
    }
}

} // verus!
