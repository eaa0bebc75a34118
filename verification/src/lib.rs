//! The server side of gRPC: framing, routing, interception and the rules by which a connection
//! is served.

pub mod base64;
pub mod buf;
pub mod client;
pub mod codec;
pub mod headers;
pub mod interop;
pub mod metadata;
pub mod percent;
pub mod protobuf;
pub mod rpc;
pub mod server;
pub mod status;
pub mod text;
pub mod time;
