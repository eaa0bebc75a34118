//! Messages as bytes.

use crate::buf::Buf;
use crate::status::Status;
use vstd::prelude::*;

verus! {

/// A message that can be turned into bytes.
pub trait Serialize {
    /// Whether these may be the bytes of the message.
    open spec fn serialized(&self, bytes: Seq<u8>) -> bool {
        true
    }

    /// Whether the message may fail to be turned into bytes, for this reason.
    open spec fn unserializable(&self, e: Status) -> bool {
        true
    }

    /// Adds the bytes of the message to a buffer.
    fn serialize(&self, buf: &mut Vec<u8>) -> (r: Result<(), Status>)
        ensures
            r is Ok ==> old(buf)@.is_prefix_of(final(buf)@) && self.serialized(
                final(buf)@.skip(old(buf)@.len() as int),
            ),
            r matches Err(e) ==> self.unserializable(e),
    ;
}

/// A message that can be read from bytes.
pub trait Deserialize: Sized {
    /// Whether reading bytes may turn `pre` into `post` and end with this result.
    open spec fn deserialized(pre: Self, bytes: Seq<u8>, post: Self, r: Result<(), Status>) -> bool {
        true
    }

    /// Reads the message from a buffer.
    fn deserialize<B: Buf>(&mut self, buf: &mut B) -> (r: Result<(), Status>)
        requires
            old(buf).inv(),
        ensures
            Self::deserialized(*old(self), old(buf).bytes(), *final(self), r),
    ;
}

} // verus!
