//! What a server shares with clients: the options of a call, and trailers as a client gets them.

use crate::metadata::MetadataMap;
use crate::rpc::{bare_trailers, status_view, TrailersView};
use crate::status::StatusError;
use vstd::prelude::*;

verus! {

/// The options of a call.
#[derive(Debug, Clone, Copy, PartialEq, Eq, Structural)]
pub struct CallOptions {}

impl Default for CallOptions {
    fn default() -> (r: Self)
        ensures
            r == (CallOptions {  }),
    {
        CallOptions {  }
    }
}

/// The end of a call as a client gets it.
#[derive(Debug)]
pub struct Trailers {
    status: Result<(), StatusError>,
    metadata: MetadataMap,
}

impl View for Trailers {
    type V = TrailersView;

    closed spec fn view(&self) -> TrailersView {
        TrailersView { status: status_view(self.status), metadata: self.metadata@ }
    }
}

impl Trailers {
    /// Trailers with a status and without metadata.
    pub fn new(status: Result<(), StatusError>) -> (r: Self)
        ensures
            r@ == bare_trailers(status_view(status)),
    {
        Trailers { status, metadata: MetadataMap::new() }
    }

    /// The same trailers with other metadata.
    pub fn with_metadata(self, metadata: MetadataMap) -> (r: Self)
        ensures
            r@ == (TrailersView { metadata: metadata@, ..self@ }),
    {
        Trailers { status: self.status, metadata }
    }

    /// The status, taken out of the trailers.
    pub fn into_status(self) -> (r: Result<(), StatusError>)
        ensures
            status_view(r) == self@.status,
    {
        self.status
    }

    /// The metadata, to be changed.
    pub fn metadata_mut(&mut self) -> (r: &mut MetadataMap)
        ensures
            r@ == old(self)@.metadata,
            final(self)@ == (TrailersView { metadata: final(r)@, ..old(self)@ }),
    {
        &mut self.metadata
    }
}

} // verus!
