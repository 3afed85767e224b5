//! A verified core for a one-shot, point-to-point file transfer over a
//! byte stream.
//!
//! The wire protocol is: a 4-byte big-endian length prefix, that many bytes
//! of encoded file metadata (name and payload size), then exactly `size`
//! raw payload bytes with no further framing.  This crate holds the framing
//! codec, the sender and receiver bookkeeping for the chunked payload
//! phase, and the error taxonomy; the sockets, files and terminal output
//! live outside it.

pub mod codec;
pub mod engine;
pub mod errors;
pub mod format;
