//! A minimal Redis-compatible in-memory key/value server core.
//!
//! The crate has two tightly coupled subsystems: a RESP (Redis
//! Serialization Protocol) codec that encodes frames to bytes and decodes
//! them incrementally from a growable byte buffer, and a command layer
//! that parses RESP arrays into typed commands and executes them against
//! a concurrent in-memory store.  The socket loop that feeds bytes in and
//! writes replies out lives outside this library.
//!
//! The codec's two central properties are proved in `resp::proofs`:
//! decoding the encoding of any well-formed frame yields the frame back
//! and consumes exactly its bytes, and decoding any strict prefix of a
//! frame's wire form reports an incomplete frame, so the decoder can
//! always restart once more bytes arrive.

pub mod backend;
pub mod cmd;
pub mod network;
pub mod resp;
pub mod utf8;
