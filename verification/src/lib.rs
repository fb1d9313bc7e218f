//! A shared remote clipboard: one value on a server, which clients replace
//! ("push") or fetch ("pull"), one request and one response per connection.
//!
//! This library is the protocol without the network. `frame` has the two
//! families of frames and their encoding, `decode` says what a stream of
//! bytes means, and `decoder` decodes a stream as it arrives, in bounded
//! reads that the caller performs. `peek` sizes a frame from its first
//! bytes. `clipboard` is the stored value and what requests do to it,
//! `server` is the handling of one connection, and `client` is what a
//! response means to the client that asked.

pub mod client;
pub mod clipboard;
pub mod decode;
pub mod decoder;
pub mod error;
pub mod frame;
pub mod peek;
pub mod server;
pub mod wire;
