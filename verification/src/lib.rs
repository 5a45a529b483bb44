//! Client-side core for the FastDFS distributed file store: the wire codec
//! (10-byte headers, fixed-width zero-padded fields, big-endian integers,
//! metadata records), file-identifier handling, the error taxonomy, the
//! connection-pool state machine, and the request builders and response
//! parsers used by every tracker and storage operation.
//!
//! Network transport (TCP, timeouts, retries with backoff sleeps) is left to
//! the embedding program; everything here is pure logic over plain values.

pub mod connection;
pub mod errors;
pub mod metadata;
pub mod operations;
pub mod protocol;
pub mod types;
