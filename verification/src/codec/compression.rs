//! Compression of messages.

use crate::buf::Buf;
use std::sync::Arc;
use vstd::prelude::*;

verus! {

/// What bytes were made into, or why not.
pub type CodingResult = Result<Seq<u8>, Seq<char>>;

/// What a result says.
pub open spec fn coding_view(r: Result<Vec<u8>, String>) -> CodingResult {
    match r {
        Ok(v) => Ok(v@),
        Err(e) => Err(e@),
    }
}

/// An encoding by which messages are compressed.
pub trait Compressor {
    /// Whether this may come of compressing bytes.
    open spec fn compressed(&self, bytes: Seq<u8>, r: CodingResult) -> bool {
        true
    }

    /// Whether this may come of decompressing bytes.
    open spec fn decompressed(&self, bytes: Seq<u8>, r: CodingResult) -> bool {
        true
    }

    /// Compresses bytes.
    fn compress(&self, bytes: &[u8]) -> (r: Result<Vec<u8>, String>)
        ensures
            self.compressed(bytes@, coding_view(r)),
    ;

    /// Decompresses the bytes of a buffer.
    fn decompress<B: Buf>(&self, data: &mut B) -> (r: Result<Vec<u8>, String>)
        requires
            old(data).inv(),
        ensures
            self.decompressed(old(data).bytes(), coding_view(r)),
    ;
}

/// The encodings that are known, by their names.
pub trait CodecRegistry {
    /// The encodings.
    type Codec: Compressor;

    /// Whether this may be found under a name.
    open spec fn found(name: Seq<char>, r: Option<Self::Codec>) -> bool {
        true
    }

    /// The encoding with a name.
    fn get_codec(name: &str) -> (r: Option<Arc<Self::Codec>>)
        ensures
            Self::found(name@, shared_view(r)),
    ;
}

/// What is shared, if anything.
pub open spec fn shared_view<T>(r: Option<Arc<T>>) -> Option<T> {
    match r {
        Some(t) => Some(*t),
        None => None,
    }
}

} // verus!
