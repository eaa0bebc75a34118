//! Decoding of the frames of a request body.

use super::buffer::BufList;
use crate::buf::{contents, Buf};
use crate::codec::lpm::{after_first, decode_length, first_message, has_frame, LPM_HEADER_SIZE};
use crate::server::call::message_wrapper::{Incoming, MessageReadOptions};
use bytes::Bytes;
use vstd::prelude::*;

verus! {

/// A decoder for the chunks of a body.
///
/// It gathers bytes and decodes them into gRPC messages: it reads the header (compression flag
/// and length) of each frame and hands out the payload.
pub struct HyperBodyDecoder {
    buffer: BufList<Bytes>,
}

impl HyperBodyDecoder {
    /// The bytes that were pushed and not yet decoded.
    pub closed spec fn bytes(&self) -> Seq<u8> {
        self.buffer.bytes()
    }

    /// Whether the decoder is in a usable state.
    pub closed spec fn inv(&self) -> bool {
        self.buffer.inv()
    }

    /// Creates a new, empty `HyperBodyDecoder`.
    pub fn new() -> (r: Self)
        ensures
            r.inv(),
            r.bytes() == Seq::<u8>::empty(),
    {
        HyperBodyDecoder { buffer: BufList::empty() }
    }

    /// Pushes a chunk of bytes into the decoder's buffer.
    pub fn push(&mut self, chunk: Bytes)
        requires
            old(self).inv(),
            old(self).bytes().len() + contents(chunk).len() <= usize::MAX,
        ensures
            final(self).inv(),
            final(self).bytes() == old(self).bytes() + contents(chunk),
    {
        self.buffer.push(chunk);
    }

    /// Decodes one message, if a complete frame is available.
    ///
    /// The header is taken off; the compression flag comes with the message. Without a complete
    /// frame nothing changes and more data is needed.
    pub fn decode(&mut self) -> (r: Option<Incoming<BufList<Bytes>>>)
        requires
            old(self).inv(),
        ensures
            final(self).inv(),
            r is Some <==> has_frame(old(self).bytes()),
            r matches Some(msg) ==> {
                &&& msg.message_bytes.inv()
                &&& msg.message_bytes.bytes() == first_message(old(self).bytes()).payload
                &&& msg.options == Some(
                    MessageReadOptions { compressed: first_message(old(self).bytes()).compressed },
                )
                &&& final(self).bytes() == after_first(old(self).bytes())
            },
            r is None ==> *final(self) == *old(self),
    {
        if self.buffer.remaining() < LPM_HEADER_SIZE {
            return None;
        }
        let ghost all = self.buffer.bytes();
        let mut header_buf: [u8; 5] = [0u8; 5];
        let _ = self.buffer.peek_copy_to(&mut header_buf);
        assert(header_buf@ =~= all.take(5));
        let body_len: usize = decode_length(
            header_buf[1],
            header_buf[2],
            header_buf[3],
            header_buf[4],
        );
        assert(all.subrange(1, 5) =~= seq![
            header_buf[1],
            header_buf[2],
            header_buf[3],
            header_buf[4],
        ]);
        if self.buffer.remaining() - LPM_HEADER_SIZE < body_len {
            return None;
        }
        match self.buffer.split_to(LPM_HEADER_SIZE + body_len) {
            Ok(mut msg) => {
                msg.advance(LPM_HEADER_SIZE);
                assert(msg.bytes() =~= first_message(all).payload);
                Some(
                    Incoming {
                        message_bytes: msg,
                        options: Some(MessageReadOptions { compressed: header_buf[0] != 0 }),
                    },
                )
            },
            Err(_) => None,
        }
    }

    /// The number of bytes in the buffer.
    pub fn buffer_len(&self) -> (r: usize)
        requires
            self.inv(),
        ensures
            r == self.bytes().len(),
    {
        self.buffer.remaining()
    }
}

impl Default for HyperBodyDecoder {
    fn default() -> (r: Self)
        ensures
            r.inv(),
            r.bytes() == Seq::<u8>::empty(),
    {
        HyperBodyDecoder::new()
    }
}

} // verus!
