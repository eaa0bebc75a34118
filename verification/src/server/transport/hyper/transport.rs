//! A transport that serves every connection of a listener by one handler.

use crate::status::{Status, StatusCode, StatusView};
use vstd::prelude::*;

verus! {

/// A transport that serves every connection of a listener by one handler.
#[derive(Debug, Clone, Copy, PartialEq, Eq, Structural)]
pub struct HyperTransport {}

/// What is to be done after asking a listener for a connection.
pub enum ServeStep {
    /// Serve the connection, and ask for another.
    Serve,
    /// Stop, with this error.
    Stop(Status),
}

impl HyperTransport {
    /// A transport.
    pub fn new() -> (r: Self)
        ensures
            r == (HyperTransport {  }),
    {
        HyperTransport {  }
    }

    /// What is to be done after asking a listener for a connection: a connection is served, and an
    /// error ends the serving.
    pub fn on_accept(&self, accepted: Result<(), String>) -> (r: ServeStep)
        ensures
            match accepted {
                Ok(_) => r is Serve,
                Err(reason) => r matches ServeStep::Stop(s) && s@ == (StatusView {
                    code: StatusCode::Internal,
                    message: reason@,
                }),
            },
    {
        match accepted {
            Ok(()) => ServeStep::Serve,
            Err(reason) => ServeStep::Stop(Status::with_text(StatusCode::Internal, reason)),
        }
    }
}

} // verus!
