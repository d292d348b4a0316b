//! Client library for the RouterOS API: a length-prefixed, tagged
//! request/response protocol spoken over TCP.
//!
//! The library holds the protocol engine as verified, I/O-free code:
//! the word/sentence codec, the sentence deserializer, the call sinks,
//! the tag table that routes replies to them, and the command builder.
pub mod call;
pub mod client;
pub mod codec;
pub mod de;
pub mod error;
pub mod fields;
pub mod model;
pub mod read;
pub mod table;
