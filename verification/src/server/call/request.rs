//! A request as a handler gets it: a stream of messages with metadata, and the options of the call.

use crate::server::call::metadata::Metadata;
use crate::server::stream::{PushStream, PushStreamProducer};
use vstd::prelude::*;

verus! {

/// The options of a call.
#[derive(Debug)]
pub struct HandlerCallOptions {
    /// The encoding by which responses are to be compressed, if any.
    pub compression_encoding: Option<String>,
}

impl Default for HandlerCallOptions {
    fn default() -> (r: Self)
        ensures
            r.compression_encoding is None,
    {
        HandlerCallOptions { compression_encoding: None }
    }
}

/// A stream of messages with metadata.
pub struct StreamingRequest<T, P> {
    stream: PushStream<T, P>,
    metadata: Metadata,
}

impl<T, P: PushStreamProducer<T>> StreamingRequest<T, P> {
    /// The stream.
    pub closed spec fn spec_stream(&self) -> PushStream<T, P> {
        self.stream
    }

    /// The metadata.
    pub closed spec fn spec_metadata(&self) -> Metadata {
        self.metadata
    }

    /// A request with a stream and metadata.
    pub fn new(stream: PushStream<T, P>, metadata: Metadata) -> (r: Self)
        ensures
            r.spec_stream() == stream,
            r.spec_metadata() == metadata,
    {
        StreamingRequest { stream, metadata }
    }

    /// The metadata and the stream.
    pub fn into_parts(self) -> (r: (Metadata, PushStream<T, P>))
        ensures
            r.0 == self.spec_metadata(),
            r.1 == self.spec_stream(),
    {
        (self.metadata, self.stream)
    }
}

} // verus!
