//! What one call consists of: messages with their options, metadata and the writers of a
//! response.

pub mod lazy;
pub mod message_wrapper;
pub mod metadata;
pub mod request;
pub mod streaming_response_writer;
pub mod streaming_response_writer_ext;
pub mod test_util;
