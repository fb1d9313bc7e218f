//! Sizing a frame from its first bytes, for a caller that wants to read the
//! rest of it in one go. Peeking decodes nothing and replaces no check of
//! the decoder; it applies the same checks to the bytes it is shown.

use crate::decode::{decode_request, decode_response, response_has_payload};
use crate::error::FrameError;
use crate::frame::{RequestFrame, ResponseFrame};
use crate::wire::{
    be_value, get_be, HEADER_LEN, LENGTH_LEN, MAGIC, MAX_PAYLOAD_LEN, REQUEST_PULL, REQUEST_PUSH,
    RESPONSE_PULL_ERR, RESPONSE_PULL_OK, RESPONSE_PUSH_ERR, RESPONSE_PUSH_OK,
};
use vstd::prelude::*;
use vstd::slice::slice_subrange;

verus! {

/// What the first bytes of a stream tell about the frame they start.
#[derive(Clone, Copy, Debug, PartialEq, Eq)]
pub enum Peek {
    /// Too few bytes to tell: the fixed part of the frame is not all there.
    /// The fixed part is the header, and the length field where the type
    /// tag announces a payload.
    InsufficientPrefix,
    /// The frame is complete once this many more bytes have come; with 0 it
    /// is complete already.
    Missing(usize),
    /// No frame starts like this.
    Malformed(FrameError),
}

/// How many bytes a stream of `have` bytes lacks to hold `total`.
pub open spec fn lacking(total: int, have: int) -> int {
    if have >= total {
        0
    } else {
        total - have
    }
}

/// What `prefix` tells about a frame whose tag announces a payload.
pub open spec fn peek_payload(prefix: Seq<u8>) -> Peek {
    if prefix.len() < HEADER_LEN + LENGTH_LEN {
        Peek::InsufficientPrefix
    } else {
        let declared = be_value(prefix.subrange(HEADER_LEN as int, HEADER_LEN + LENGTH_LEN));
        if declared > MAX_PAYLOAD_LEN {
            Peek::Malformed(FrameError::PayloadTooLarge { declared: declared as u64 })
        } else {
            Peek::Missing(lacking(HEADER_LEN + LENGTH_LEN + declared, prefix.len() as int) as usize)
        }
    }
}

/// What `prefix` tells about the request it starts.
pub open spec fn peek_request(prefix: Seq<u8>) -> Peek {
    if prefix.len() < HEADER_LEN {
        Peek::InsufficientPrefix
    } else if prefix[0] != MAGIC {
        Peek::Malformed(FrameError::BadMagic { found: prefix[0] })
    } else if prefix[1] == REQUEST_PUSH {
        peek_payload(prefix)
    } else if prefix[1] == REQUEST_PULL {
        Peek::Missing(0)
    } else {
        Peek::Malformed(FrameError::UnknownType { tag: prefix[1] })
    }
}

/// What `prefix` tells about the response it starts.
pub open spec fn peek_response(prefix: Seq<u8>) -> Peek {
    if prefix.len() < HEADER_LEN {
        Peek::InsufficientPrefix
    } else if prefix[0] != MAGIC {
        Peek::Malformed(FrameError::BadMagic { found: prefix[0] })
    } else if prefix[1] == RESPONSE_PUSH_OK {
        Peek::Missing(0)
    } else if response_has_payload(prefix[1]) {
        peek_payload(prefix)
    } else {
        Peek::Malformed(FrameError::UnknownType { tag: prefix[1] })
    }
}

/// Whether what a peek at `prefix` told agrees with what `decoded`, the
/// decoding of the same bytes, came to: complete means decodable, malformed
/// means refused for that reason, and anything missing means truncated.
pub open spec fn peek_agrees<F>(peek: Peek, decoded: Result<F, FrameError>) -> bool {
    match peek {
        Peek::InsufficientPrefix => decoded == Err::<F, FrameError>(FrameError::Truncated),
        Peek::Missing(n) => if n == 0 {
            decoded is Ok
        } else {
            decoded == Err::<F, FrameError>(FrameError::Truncated)
        },
        Peek::Malformed(e) => decoded == Err::<F, FrameError>(e),
    }
}

/// Peeking at a stream and decoding it agree.
pub proof fn lemma_peek_request_agrees(s: Seq<u8>)
    ensures
        peek_agrees(peek_request(s), decode_request(s)),
{
    if s.len() >= 10 {
        assert(s.skip(2).take(8) =~= s.subrange(2, 10));
    }
}

/// Peeking at a stream and decoding it agree.
pub proof fn lemma_peek_response_agrees(s: Seq<u8>)
    ensures
        peek_agrees(peek_response(s), decode_response(s)),
{
    if s.len() >= 10 {
        assert(s.skip(2).take(8) =~= s.subrange(2, 10));
    }
}

/// The count a peek gives is the right one: once that many more bytes have
/// come, or more, the request is complete.
pub proof fn lemma_peek_request_count(prefix: Seq<u8>, more: Seq<u8>)
    requires
        peek_request(prefix) matches Peek::Missing(n) && n <= more.len(),
    ensures
        peek_request(prefix + more) == Peek::Missing(0),
        (decode_request(prefix + more) is Ok),
{
    let s = prefix + more;
    if prefix.len() >= 10 {
        assert(s.subrange(2, 10) =~= prefix.subrange(2, 10));
    }
    lemma_peek_request_agrees(s);
}

/// The count a peek gives is the right one: once that many more bytes have
/// come, or more, the response is complete.
pub proof fn lemma_peek_response_count(prefix: Seq<u8>, more: Seq<u8>)
    requires
        peek_response(prefix) matches Peek::Missing(n) && n <= more.len(),
    ensures
        peek_response(prefix + more) == Peek::Missing(0),
        (decode_response(prefix + more) is Ok),
{
    let s = prefix + more;
    if prefix.len() >= 10 {
        assert(s.subrange(2, 10) =~= prefix.subrange(2, 10));
    }
    lemma_peek_response_agrees(s);
}

/// Peeks at a frame whose tag announces a payload.
fn peek_with_payload(prefix: &[u8]) -> (peek: Peek)
    ensures
        peek == peek_payload(prefix@),
{
    if prefix.len() < HEADER_LEN + LENGTH_LEN {
        return Peek::InsufficientPrefix;
    }
    let declared = get_be(slice_subrange(prefix, HEADER_LEN, HEADER_LEN + LENGTH_LEN));
    if declared > MAX_PAYLOAD_LEN {
        Peek::Malformed(FrameError::PayloadTooLarge { declared })
    } else {
        let body = declared as usize;
        let have = prefix.len() - (HEADER_LEN + LENGTH_LEN);
        if have >= body {
            Peek::Missing(0)
        } else {
            Peek::Missing(body - have)
        }
    }
}

impl RequestFrame {
    /// Tells from the first bytes of a stream how many more are needed to
    /// complete the request they start. Looks at the header and the length
    /// field only.
    pub fn peek_length(prefix: &[u8]) -> (peek: Peek)
        ensures
            peek == peek_request(prefix@),
    {
        if prefix.len() < HEADER_LEN {
            return Peek::InsufficientPrefix;
        }
        let found = prefix[0];
        let tag = prefix[1];
        if found != MAGIC {
            Peek::Malformed(FrameError::BadMagic { found })
        } else if tag == REQUEST_PUSH {
            peek_with_payload(prefix)
        } else if tag == REQUEST_PULL {
            Peek::Missing(0)
        } else {
            Peek::Malformed(FrameError::UnknownType { tag })
        }
    }
}

impl ResponseFrame {
    /// Tells from the first bytes of a stream how many more are needed to
    /// complete the response they start. Looks at the header and the length
    /// field only.
    pub fn peek_length(prefix: &[u8]) -> (peek: Peek)
        ensures
            peek == peek_response(prefix@),
    {
        if prefix.len() < HEADER_LEN {
            return Peek::InsufficientPrefix;
        }
        let found = prefix[0];
        let tag = prefix[1];
        if found != MAGIC {
            Peek::Malformed(FrameError::BadMagic { found })
        } else if tag == RESPONSE_PUSH_OK {
            Peek::Missing(0)
        } else if tag == RESPONSE_PUSH_ERR || tag == RESPONSE_PULL_OK || tag == RESPONSE_PULL_ERR {
            peek_with_payload(prefix)
        } else {
            Peek::Malformed(FrameError::UnknownType { tag })
        }
    }
}

} // verus!
