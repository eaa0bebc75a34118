//! The writers of a response: first the initial metadata, then the messages, and then the trailing
//! metadata.

use crate::server::call::metadata::Metadata;
use crate::status::Status;
use vstd::prelude::*;

verus! {

/// Why something could not be sent, and the writer, where it was not used.
pub struct NotSent<W> {
    /// Why it could not be sent.
    pub status: Status,
    /// The writer, if nothing was sent by it.
    pub writer: Option<W>,
}

/// What is left of a response.
pub enum Left<W, B> {
    /// All of it: nothing was sent.
    Response(W),
    /// The messages and the trailing metadata that come behind what was sent.
    Body(B),
    /// Nothing: the trailing metadata was sent, or the writer was used up by a failure.
    Nothing,
}

/// How the handling of a call ends: its result, and what is left of the response.
pub type Outcome<W, B> = (Result<(), Status>, Left<W, B>);

/// Whether a call ended with this error and left this much of the response.
pub open spec fn failed<W, B>(r: Outcome<W, B>, status: Status, left: Left<W, B>) -> bool {
    r.0 == Err::<(), Status>(status) && r.1 == left
}

/// What is left of a response whose initial metadata was not sent.
pub open spec fn unbegun<W, B>(writer: Option<W>) -> Left<W, B> {
    match writer {
        Some(w) => Left::Response(w),
        None => Left::Nothing,
    }
}

/// What is left of a response whose trailing metadata was not sent.
pub open spec fn unfinished<W, B>(writer: Option<B>) -> Left<W, B> {
    match writer {
        Some(w) => Left::Body(w),
        None => Left::Nothing,
    }
}

/// The outcome of a call whose initial metadata was not sent.
pub fn not_begun<W, B>(e: NotSent<W>) -> (r: Outcome<W, B>)
    ensures
        failed(r, e.status, unbegun(e.writer)),
{
    let left = match e.writer {
        Some(w) => Left::Response(w),
        None => Left::Nothing,
    };
    (Err(e.status), left)
}

/// Whether a call whose trailing metadata was sent with this result may end in this way.
pub open spec fn ended<W, B>(sent: Result<(), NotSent<B>>, r: Outcome<W, B>) -> bool {
    match sent {
        Ok(_) => r.0 is Ok && r.1 is Nothing,
        Err(e) => failed(r, e.status, unfinished(e.writer)),
    }
}

/// The outcome of a call whose trailing metadata was sent with this result.
pub fn ended_by<W, B>(sent: Result<(), NotSent<B>>) -> (r: Outcome<W, B>)
    ensures
        ended(sent, r),
{
    match sent {
        Ok(()) => (Ok(()), Left::Nothing),
        Err(e) => {
            let left = match e.writer {
                Some(w) => Left::Body(w),
                None => Left::Nothing,
            };
            (Err(e.status), left)
        },
    }
}

/// The writer of a response that has not begun. Sending the initial metadata gives the writer of
/// its messages.
pub trait StreamingResponseWriter<T>: Sized {
    /// The writer of the messages.
    type BodyWriter: StreamingResponseBodyWriter<T>;

    /// Whether the writer is in a usable state.
    open spec fn inv(&self) -> bool {
        true
    }

    /// Whether sending this initial metadata may end in this way.
    open spec fn initiated(
        self,
        metadata: Metadata,
        r: Result<Self::BodyWriter, NotSent<Self>>,
    ) -> bool {
        true
    }

    /// Sends the initial metadata. Where that fails before this writer was used, the writer is
    /// given back.
    fn send_initial_metadata(self, metadata: Metadata) -> (r: Result<
        Self::BodyWriter,
        NotSent<Self>,
    >)
        requires
            self.inv(),
        ensures
            self.initiated(metadata, r),
            r matches Ok(w) ==> w.inv(),
            r matches Err(e) ==> (e.writer matches Some(w) ==> w.inv()),
    ;
}

/// The writer of the messages of a response.
pub trait StreamingResponseBodyWriter<T>: Sized {
    /// Whether the writer is in a usable state.
    open spec fn inv(&self) -> bool {
        true
    }

    /// Whether writing `item` may turn `pre` into `post` and be answered by `r`.
    open spec fn written(pre: Self, item: T, post: Self, r: Result<(), Status>) -> bool {
        true
    }

    /// Whether sending this trailing metadata may end in this way.
    open spec fn trailed(self, trailers: Metadata, r: Result<(), NotSent<Self>>) -> bool {
        true
    }

    /// Writes a message.
    fn write(&mut self, item: T) -> (r: Result<(), Status>)
        requires
            old(self).inv(),
        ensures
            final(self).inv(),
            Self::written(*old(self), item, *final(self), r),
    ;

    /// Sends the trailing metadata, which goes with the final status. Where that fails before this
    /// writer was used, the writer is given back.
    fn send_trailing_metadata(self, trailers: Metadata) -> (r: Result<(), NotSent<Self>>)
        requires
            self.inv(),
        ensures
            self.trailed(trailers, r),
            r matches Err(e) ==> (e.writer matches Some(w) ==> w.inv()),
    ;
}

} // verus!
