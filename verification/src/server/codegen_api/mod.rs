//! The methods of services, as generated code provides them.

pub mod bidi_streaming;
pub mod client_streaming;
pub mod server_streaming;
pub mod service;
pub mod unary;

use crate::status::Status;
use crate::server::stream::{PushStreamProducer, Write};
use vstd::prelude::*;

verus! {

/// What a method saw of a stream that it ran: the writes that were made to it, and the result;
/// nothing if it did not run the stream.
pub type Ran<T> = Option<(Seq<Write<T>>, Result<(), Status>)>;

/// Whether a producer may have run in this way, if it ran.
pub open spec fn may_have_run<T, P: PushStreamProducer<T>>(producer: P, ran: Ran<T>) -> bool {
    ran matches Some((writes, r)) ==> producer.produces(writes, r)
}

} // verus!
