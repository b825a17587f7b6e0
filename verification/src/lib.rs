//! Decoder for the RESULT family of messages of a CQL-style binary wire
//! protocol: the responses a database server sends after executing a
//! statement. An untrusted byte buffer is turned into a typed value (a void
//! acknowledgement, a row set, a prepared-statement handle, or a change
//! notice), or into a typed decode error; malformed input never panics.

pub mod cursor;
pub mod error;
pub mod laws;
pub mod result;
pub mod wire;
