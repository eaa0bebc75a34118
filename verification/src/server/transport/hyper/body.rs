//! Bodies: what is read frame by frame.

use crate::buf::contents;
use bytes::Bytes;
use http::header::HeaderValue;
use http::HeaderMap;
use std::collections::VecDeque;
use vstd::prelude::*;

verus! {

/// What came of asking a body for a frame.
pub enum FrameEvent {
    /// Data.
    Data(Bytes),
    /// Trailers.
    Trailers(HeaderMap<HeaderValue>),
    /// A frame of another kind.
    Other,
    /// The body failed, for this reason.
    Failed(String),
}

/// A body that is read frame by frame.
///
/// A body is described by the frames that it still has to give.
pub trait FrameSource: Sized {
    /// Whether the body is in a usable state.
    open spec fn inv(&self) -> bool {
        true
    }

    /// The frames that are left.
    open spec fn frames(&self) -> Seq<FrameEvent> {
        arbitrary()
    }

    /// The next frame, or nothing at the end of the body.
    fn next_frame(&mut self) -> (r: Option<FrameEvent>)
        requires
            old(self).inv(),
        ensures
            final(self).inv(),
            old(self).frames().len() > 0 ==> r == Some(old(self).frames()[0])
                && final(self).frames() == old(self).frames().skip(1),
            old(self).frames().len() == 0 ==> r is None && final(self).frames().len() == 0,
    ;
}

/// Frames that are all there.
impl FrameSource for VecDeque<FrameEvent> {
    open spec fn inv(&self) -> bool {
        true
    }

    open spec fn frames(&self) -> Seq<FrameEvent> {
        self@
    }

    fn next_frame(&mut self) -> (r: Option<FrameEvent>) {
        let r = self.pop_front();
        assert(self@ =~= if old(self)@.len() > 0 {
            old(self)@.skip(1)
        } else {
            old(self)@
        });
        r
    }
}

/// The data of a body, up to the frame that ends it.
pub open spec fn data_of(frames: Seq<FrameEvent>) -> Seq<u8>
    decreases frames.len(),
{
    if frames.len() == 0 {
        Seq::empty()
    } else {
        match frames[0] {
            FrameEvent::Data(data) => contents(data) + data_of(frames.skip(1)),
            FrameEvent::Other => data_of(frames.skip(1)),
            _ => Seq::empty(),
        }
    }
}

} // verus!
