//! Unary methods.

use crate::status::ServerStatus;
use vstd::prelude::*;

verus! {

/// A unary method.
pub trait UnaryMethod<Req, Resp> {
    /// Whether the method may, for a request, turn the response `pre` into `post` and end with
    /// this result.
    open spec fn called(&self, req: Req, pre: Resp, post: Resp, r: Result<(), ServerStatus>) -> bool {
        true
    }

    /// Handles a request.
    fn unary(&self, req: &Req, resp: &mut Resp) -> (r: Result<(), ServerStatus>)
        ensures
            self.called(*req, *old(resp), *final(resp), r),
    ;
}

} // verus!
