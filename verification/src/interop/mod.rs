//! The service by which implementations of gRPC are tested against each other.

pub mod messages;
pub mod server_grpc;
