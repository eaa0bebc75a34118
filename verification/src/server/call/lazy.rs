//! Messages that are read only when they are needed.

use crate::status::Status;
use vstd::prelude::*;

verus! {

/// A message that is not read yet.
///
/// The target goes in and comes back, so that what was done to it can be told.
pub trait Lazy<Req>: Sized {
    /// Whether the message can be read.
    open spec fn inv(&self) -> bool {
        true
    }

    /// Whether reading may turn the target `pre` into `post` and end with this result.
    open spec fn resolved(self, pre: Req, post: Req, r: Result<(), Status>) -> bool {
        true
    }

    /// Reads the message into the target.
    fn resolve(self, target: Req) -> (r: (Req, Result<(), Status>))
        requires
            self.inv(),
        ensures
            self.resolved(target, r.0, r.1),
    ;
}

/// A change to a message.
pub trait Mapper<Req>: Sized {
    /// Whether the change can be made.
    open spec fn inv(&self) -> bool {
        true
    }

    /// Whether the change may turn the target `pre` into `post` and end with this result.
    open spec fn mapped(self, pre: Req, post: Req, r: Result<(), Status>) -> bool {
        true
    }

    /// Changes the target.
    fn map(self, target: Req) -> (r: (Req, Result<(), Status>))
        requires
            self.inv(),
        ensures
            self.mapped(target, r.0, r.1),
    ;
}

/// A message that is changed after it was read.
pub struct MapLazy<L, M> {
    /// The message.
    pub inner: L,
    /// The change.
    pub mapper: M,
}

impl<Req, L: Lazy<Req>, M: Mapper<Req>> Lazy<Req> for MapLazy<L, M> {
    open spec fn inv(&self) -> bool {
        self.inner.inv() && self.mapper.inv()
    }

    open spec fn resolved(self, pre: Req, post: Req, r: Result<(), Status>) -> bool {
        exists|mid: Req, first: Result<(), Status>|
            {
                &&& #[trigger] self.inner.resolved(pre, mid, first)
                &&& match first {
                    Ok(_) => self.mapper.mapped(mid, post, r),
                    Err(e) => post == mid && r == Err::<(), Status>(e),
                }
            }
    }

    fn resolve(self, target: Req) -> (r: (Req, Result<(), Status>)) {
        let ghost this = self;
        let (mid, first) = self.inner.resolve(target);
        assert(this.inner.resolved(target, mid, first));
        match first {
            Ok(()) => self.mapper.map(mid),
            Err(e) => (mid, Err(e)),
        }
    }
}

/// A message to which a closure is applied after it was read.
pub struct SyncMapLazy<L, F> {
    /// The message.
    pub inner: L,
    /// The closure.
    pub f: F,
}

impl<Req, L: Lazy<Req>, F: FnOnce(Req) -> (Req, Result<(), Status>)> Lazy<Req> for SyncMapLazy<
    L,
    F,
> {
    open spec fn inv(&self) -> bool {
        self.inner.inv() && forall|t: Req| call_requires(self.f, (t,))
    }

    open spec fn resolved(self, pre: Req, post: Req, r: Result<(), Status>) -> bool {
        exists|mid: Req, first: Result<(), Status>|
            {
                &&& #[trigger] self.inner.resolved(pre, mid, first)
                &&& match first {
                    Ok(_) => call_ensures(self.f, (mid,), (post, r)),
                    Err(e) => post == mid && r == Err::<(), Status>(e),
                }
            }
    }

    fn resolve(self, target: Req) -> (r: (Req, Result<(), Status>)) {
        let ghost this = self;
        let (mid, first) = self.inner.resolve(target);
        assert(this.inner.resolved(target, mid, first));
        match first {
            Ok(()) => (self.f)(mid),
            Err(e) => (mid, Err(e)),
        }
    }
}

/// Putting changes behind the reading of a message.
pub trait LazyExt<Req>: Lazy<Req> {
    /// The message, changed by `mapper` after it was read.
    fn and_map<M: Mapper<Req>>(self, mapper: M) -> (r: MapLazy<Self, M>)
        ensures
            r.inner == self,
            r.mapper == mapper,
    ;

    /// The message, to which `f` is applied after it was read.
    fn map<F: FnOnce(Req) -> (Req, Result<(), Status>)>(self, f: F) -> (r: SyncMapLazy<Self, F>)
        ensures
            r.inner == self,
            r.f == f,
    ;
}

impl<Req, L: Lazy<Req>> LazyExt<Req> for L {
    fn and_map<M: Mapper<Req>>(self, mapper: M) -> (r: MapLazy<Self, M>) {
        MapLazy { inner: self, mapper }
    }

    fn map<F: FnOnce(Req) -> (Req, Result<(), Status>)>(self, f: F) -> (r: SyncMapLazy<Self, F>) {
        SyncMapLazy { inner: self, f }
    }
}


/// A change comes behind the reading, and only where that succeeded: a message that was read is
/// changed, and one that was not is left as the reading left it, with its error.
pub proof fn law_change_comes_behind_reading<
    Req,
    L: Lazy<Req>,
    M: Mapper<Req>,
    F: FnOnce(Req) -> (Req, Result<(), Status>),
>(
    changed: MapLazy<L, M>,
    applied: SyncMapLazy<L, F>,
    pre: Req,
    post: Req,
    r: Result<(), Status>,
    read: Req,
    first: Result<(), Status>,
)
    requires
        forall|mid: Req, res: Result<(), Status>| #[trigger]
            changed.inner.resolved(pre, mid, res) ==> mid == read && res == first,
        forall|mid: Req, res: Result<(), Status>| #[trigger]
            applied.inner.resolved(pre, mid, res) ==> mid == read && res == first,
    ensures
        changed.resolved(pre, post, r) && first is Ok ==> changed.mapper.mapped(read, post, r),
        applied.resolved(pre, post, r) && first is Ok ==> call_ensures(
            applied.f,
            (read,),
            (post, r),
        ),
        first matches Err(e) ==> (changed.resolved(pre, post, r) || applied.resolved(pre, post, r)
            ==> r == Err::<(), Status>(e) && post == read),
{
}

} // verus!
