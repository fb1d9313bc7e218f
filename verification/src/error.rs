//! Why a frame could not be decoded.

use vstd::prelude::*;

verus! {

/// The ways decoding a frame fails.
#[derive(Clone, Copy, Debug, PartialEq, Eq)]
pub enum FrameError {
    /// The first byte was `found`, not the magic value.
    BadMagic { found: u8 },
    /// The type tag `tag` names no frame of the family being decoded.
    UnknownType { tag: u8 },
    /// The length field declared `declared` bytes, more than a payload may hold.
    PayloadTooLarge { declared: u64 },
    /// The stream ended before the frame was complete.
    Truncated,
}

/// Whose fault a failure is: the peer's bytes, or the connection.
#[derive(Clone, Copy, Debug, PartialEq, Eq)]
pub enum ErrorClass {
    /// The bytes received are not a frame of this protocol.
    Protocol,
    /// The connection went away.
    Transport,
}

/// Where the bytes that were decoded came from.
#[derive(Clone, Copy, Debug, PartialEq, Eq)]
pub enum Source {
    /// A connection, read piece by piece: more bytes might have come.
    Stream,
    /// A buffer that holds all the bytes there are.
    Buffer,
}

impl FrameError {
    /// A frame cut short is a transport failure where a stream was read: the
    /// connection went away. Where a buffer was decoded it is a protocol
    /// failure: the bytes are all there, and the length they declare does not
    /// match them. Every other failure is a protocol failure, whatever the
    /// source.
    pub open spec fn spec_class(self, source: Source) -> ErrorClass {
        match (self, source) {
            (FrameError::Truncated, Source::Stream) => ErrorClass::Transport,
            _ => ErrorClass::Protocol,
        }
    }

    /// The class this error belongs to, given where the bytes came from.
    pub fn class(&self, source: Source) -> (c: ErrorClass)
        ensures
            c == self.spec_class(source),
    {
        match (self, source) {
            (FrameError::Truncated, Source::Stream) => ErrorClass::Transport,
            _ => ErrorClass::Protocol,
        }
    }
}

} // verus!
