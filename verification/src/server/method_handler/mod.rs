//! Handlers of methods, on the level of messages and on the level of bytes.

pub mod bidi_streaming_adapter;
pub mod byte_stream_method_handler;
pub mod codec_message_stream_handler;
pub mod generic_byte_stream_method_handler;
pub mod message_stream_handler;
pub mod server_streaming_adapter;

pub use bidi_streaming_adapter::BidiStreamingAdapter;
pub use byte_stream_method_handler::{ByteStreamMethodHandler, GenericByteStreamAdapter};
pub use codec_message_stream_handler::{CodecLazy, CodecMessageStreamHandler};
pub use generic_byte_stream_method_handler::GenericByteStreamMethodHandler;
pub use message_stream_handler::MessageStreamHandler;
pub use server_streaming_adapter::ServerStreamingAdapter;
