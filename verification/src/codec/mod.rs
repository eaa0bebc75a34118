//! How messages are turned into bytes and framed.

pub mod compression;
pub mod lpm;
pub mod message;
pub mod serialization;
