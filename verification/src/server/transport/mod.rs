//! Transports over which a server is reached.

pub mod hyper;
