//! Services with protobuf messages: messages as generated code provides them, statuses with
//! payloads, and the handlers of the four kinds of methods.

pub mod any;
pub mod bidi;
pub mod client_streaming;
pub mod merge;
pub mod message;
pub mod rpc_status;
pub mod server_streaming;
pub mod status;
pub mod stream;
pub mod trailers_conv;
pub mod unary;
pub mod wire;

pub use bidi::{BidiStreamingAdapter, BidiStreamingMethod};
pub use client_streaming::{ClientStreamingAdapter, ClientStreamingMethod};
pub use server_streaming::{ServerStreamingAdapter, ServerStreamingMethod};
pub use stream::{GrpcStreamingRequest, GrpcStreamingResponse};
pub use unary::{UnaryAdapter, UnaryMethod};
