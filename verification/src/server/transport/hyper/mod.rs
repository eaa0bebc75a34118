//! The HTTP/2 transport.

pub mod body;
pub mod buffer;
pub mod config;
pub mod decoder;
pub mod encoder;
pub mod producer;
pub mod request;
pub mod response;
pub mod send;
pub mod service;
pub mod status;
pub mod transport;

pub use config::{Http2Config, HyperConnection, HyperTransport};
