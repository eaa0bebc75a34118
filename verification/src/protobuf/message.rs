//! Protobuf messages, as generated code provides them, and their way through the streams of a
//! call.

use crate::buf::{bytes_from_vec, Buf};
use crate::rpc::{received, RecvItem, RecvMessage, SendMessage};
use bytes::Bytes;
use vstd::prelude::*;

verus! {

/// A protobuf message.
pub trait Message: Sized {
    /// Whether this is the message without any field set.
    open spec fn is_default(&self) -> bool {
        true
    }

    /// The message without any field set.
    fn new_message() -> (r: Self)
        ensures
            r.is_default(),
    ;
}

/// A protobuf message that can be read from bytes.
pub trait ParseMessage: Message {
    /// Whether bytes stand for a message of this type.
    open spec fn is_readable(bytes: Seq<u8>) -> bool {
        arbitrary()
    }

    /// Whether this is a message that the bytes stand for.
    open spec fn is_read_from(&self, bytes: Seq<u8>) -> bool {
        true
    }

    /// Clears the message and reads it from bytes. Returns whether that was possible.
    fn clear_and_parse(&mut self, bytes: &[u8]) -> (r: bool)
        ensures
            r == Self::is_readable(bytes@),
            r ==> final(self).is_read_from(bytes@),
    ;
}

/// A protobuf message that can be turned into bytes.
pub trait SerializeMessage: Message {
    /// The bytes of the message, where it can be serialized.
    open spec fn serialized(&self) -> Option<Seq<u8>> {
        arbitrary()
    }

    /// The bytes of the message.
    fn serialize(&self) -> (r: Option<Vec<u8>>)
        ensures
            match self.serialized() {
                Some(b) => r matches Some(v) && v@ == b,
                None => r is None,
            },
    ;
}

/// A message that a stream can read into.
pub struct ProtoRecvMessage<M> {
    message: M,
}

impl<M: ParseMessage> ProtoRecvMessage<M> {
    /// The message.
    pub closed spec fn spec_message(&self) -> M {
        self.message
    }

    /// Makes a message ready to be read into.
    pub fn new(message: M) -> (r: Self)
        ensures
            r.spec_message() == message,
    {
        ProtoRecvMessage { message }
    }

    /// The message.
    pub fn into_message(self) -> (r: M)
        ensures
            r == self.spec_message(),
    {
        self.message
    }
}

impl<M: ParseMessage> RecvMessage for ProtoRecvMessage<M> {
    open spec fn flagged(self, compressed: bool) -> Self {
        self
    }

    open spec fn decoded(pre: Self, bytes: Seq<u8>, post: Self, ok: bool) -> bool {
        &&& ok == M::is_readable(bytes)
        &&& ok ==> post.spec_message().is_read_from(bytes)
    }

    fn set_compressed(&mut self, compressed: bool) {
    }

    fn decode<B: Buf>(&mut self, data: &mut B) -> (r: Result<(), String>) {
        let ghost all = data.bytes();
        let len: usize = data.remaining();
        let bytes = data.copy_to_bytes(len);
        assert(all.take(len as int) =~= all);
        if self.message.clear_and_parse(bytes.chunk()) {
            Ok(())
        } else {
            Err(String::from_str("Couldn't deserialize given bytes into a proto"))
        }
    }
}

/// A message that a stream can send.
pub struct ProtoSendMessage<'a, M> {
    message: &'a M,
}

/// The bytes of a message, or what is said where it could not be serialized.
pub open spec fn encoding_of(serialized: Option<Seq<u8>>) -> Result<Seq<u8>, Seq<char>> {
    match serialized {
        Some(b) => Ok(b),
        None => Err(
            "Couldn't serialize proto into bytes (depth too deep or missing required fields)"@,
        ),
    }
}

/// The bytes of a message, or why it has none.
pub open spec fn encoding_of_message<M: SerializeMessage>(message: M) -> Result<Seq<u8>, Seq<char>> {
    encoding_of(message.serialized())
}

impl<'a, M: SerializeMessage> ProtoSendMessage<'a, M> {
    /// The message.
    pub closed spec fn spec_message(&self) -> M {
        *self.message
    }

    /// Makes a message ready to be sent.
    pub fn from_view(message: &'a M) -> (r: Self)
        ensures
            r.spec_message() == *message,
    {
        ProtoSendMessage { message }
    }
}

impl<'a, M: SerializeMessage> SendMessage for ProtoSendMessage<'a, M> {
    type Encoded = Bytes;

    open spec fn inv(&self) -> bool {
        true
    }

    open spec fn encoding(&self) -> Result<Seq<u8>, Seq<char>> {
        encoding_of_message(self.spec_message())
    }

    fn encode(&self) -> (r: Result<Bytes, String>) {
        match self.message.serialize() {
            Some(v) => Ok(bytes_from_vec(v)),
            None => Err(
                String::from_str(
                    "Couldn't serialize proto into bytes (depth too deep or missing required fields)",
                ),
            ),
        }
    }
}


/// A message is read from the bytes that came, whatever is said of their compression, where they
/// stand for one; it is sent as the bytes that it is serialized to, and cannot be sent without any.
pub proof fn law_messages_are_bytes<M: ParseMessage, N: SerializeMessage>(
    pre: ProtoRecvMessage<M>,
    item: RecvItem,
    post: ProtoRecvMessage<M>,
    ok: bool,
    message: N,
)
    requires
        received(pre, item, post, ok),
    ensures
        ok == M::is_readable(item.bytes),
        ok ==> post.spec_message().is_read_from(item.bytes),
        message.serialized() matches Some(b) ==> encoding_of_message(message) == Ok::<
            Seq<u8>,
            Seq<char>,
        >(b),
        message.serialized() is None ==> encoding_of_message(message) is Err,
{
}

} // verus!
