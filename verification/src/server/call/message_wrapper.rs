//! Messages together with the options under which they are read or written.

use vstd::prelude::*;

verus! {

/// What is known of an incoming message besides its bytes.
#[derive(Debug, Clone, Copy, PartialEq, Eq, Structural)]
pub struct MessageReadOptions {
    /// Whether the payload is compressed.
    pub compressed: bool,
}

/// An incoming message: its bytes, and what is known of them.
pub struct Incoming<B> {
    /// The payload.
    pub message_bytes: B,
    /// What is known of the payload.
    pub options: Option<MessageReadOptions>,
}

/// Whether a message is to be compressed.
#[derive(Debug, Clone, Copy, PartialEq, Eq, Structural)]
pub enum CompressionEncoding {
    /// As the call is.
    Inherit,
    /// If the call can be.
    Enabled,
    /// Never.
    Disabled,
}

/// The options under which a message is written.
#[derive(Debug, Clone, Copy, PartialEq, Eq, Structural)]
pub struct MessageWriteOptions {
    /// Whether the message is to be compressed.
    pub compression: CompressionEncoding,
}

/// An outgoing message, and the options under which it is written.
pub struct Outgoing<M> {
    /// The message.
    pub message: M,
    /// The options.
    pub options: Option<MessageWriteOptions>,
}

impl<M> Outgoing<M> {
    /// A message without options.
    pub fn new(message: M) -> (r: Self)
        ensures
            r == (Outgoing { message, options: None }),
    {
        Outgoing { message, options: None }
    }
}

} // verus!
