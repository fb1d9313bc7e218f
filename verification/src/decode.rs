//! What a sequence of bytes means as a frame, and how that meaning relates
//! to encoding.

use crate::error::{ErrorClass, FrameError, Source};
use crate::frame::{encode_request, encode_response, RequestView, ResponseView};
use crate::wire::{
    be_bytes, be_value, lemma_be_bytes_len, lemma_be_bytes_of_value, lemma_be_value_of_bytes,
    lemma_pow256_eight, HEADER_LEN, LENGTH_LEN, MAGIC, MAX_PAYLOAD_LEN, REQUEST_PULL,
    REQUEST_PUSH, RESPONSE_PULL_ERR, RESPONSE_PULL_OK, RESPONSE_PUSH_ERR, RESPONSE_PUSH_OK,
};
use vstd::prelude::*;

verus! {

/// The payload that `rest`, the bytes after a header, starts with: a length
/// field and then that many bytes. A declared length over the limit is
/// refused before the bytes behind it are looked at.
pub open spec fn decode_payload(rest: Seq<u8>) -> Result<Seq<u8>, FrameError> {
    if rest.len() < LENGTH_LEN {
        Err(FrameError::Truncated)
    } else {
        let declared = be_value(rest.take(LENGTH_LEN as int));
        if declared > MAX_PAYLOAD_LEN {
            Err(FrameError::PayloadTooLarge { declared: declared as u64 })
        } else if rest.len() < LENGTH_LEN + declared {
            Err(FrameError::Truncated)
        } else {
            Ok(rest.subrange(LENGTH_LEN as int, LENGTH_LEN + declared))
        }
    }
}

/// The response with tag `tag` and payload `payload`, for a tag that
/// announces a payload.
pub open spec fn response_with_payload(tag: u8, payload: Seq<u8>) -> ResponseView {
    if tag == RESPONSE_PUSH_ERR {
        ResponseView::PushErr(payload)
    } else if tag == RESPONSE_PULL_OK {
        ResponseView::PullOk(payload)
    } else {
        ResponseView::PullErr(payload)
    }
}

/// Whether `tag` announces a response with a payload.
pub open spec fn response_has_payload(tag: u8) -> bool {
    tag == RESPONSE_PUSH_ERR || tag == RESPONSE_PULL_OK || tag == RESPONSE_PULL_ERR
}

/// The request that the stream `s` starts with, or why it starts with none.
/// Bytes behind the frame play no part.
pub open spec fn decode_request(s: Seq<u8>) -> Result<RequestView, FrameError> {
    if s.len() < HEADER_LEN {
        Err(FrameError::Truncated)
    } else if s[0] != MAGIC {
        Err(FrameError::BadMagic { found: s[0] })
    } else if s[1] == REQUEST_PUSH {
        match decode_payload(s.skip(HEADER_LEN as int)) {
            Ok(payload) => Ok(RequestView::Push(payload)),
            Err(e) => Err(e),
        }
    } else if s[1] == REQUEST_PULL {
        Ok(RequestView::Pull)
    } else {
        Err(FrameError::UnknownType { tag: s[1] })
    }
}

/// The response that the stream `s` starts with, or why it starts with none.
/// Bytes behind the frame play no part.
pub open spec fn decode_response(s: Seq<u8>) -> Result<ResponseView, FrameError> {
    if s.len() < HEADER_LEN {
        Err(FrameError::Truncated)
    } else if s[0] != MAGIC {
        Err(FrameError::BadMagic { found: s[0] })
    } else if s[1] == RESPONSE_PUSH_OK {
        Ok(ResponseView::PushOk)
    } else if response_has_payload(s[1]) {
        match decode_payload(s.skip(HEADER_LEN as int)) {
            Ok(payload) => Ok(response_with_payload(s[1], payload)),
            Err(e) => Err(e),
        }
    } else {
        Err(FrameError::UnknownType { tag: s[1] })
    }
}

/// Whether a frame's payload, if it has one, is within the limit.
pub open spec fn within_limit(payload: Option<Seq<u8>>) -> bool {
    match payload {
        Some(bytes) => bytes.len() <= MAX_PAYLOAD_LEN,
        None => true,
    }
}

/// A length field followed by as many bytes decodes to those bytes, whatever follows.
pub proof fn lemma_payload_round_trip(payload: Seq<u8>, rest: Seq<u8>)
    requires
        payload.len() <= MAX_PAYLOAD_LEN,
    ensures
        decode_payload(be_bytes(payload.len(), 8) + payload + rest) == Ok::<Seq<u8>, FrameError>(
            payload,
        ),
{
    let field = be_bytes(payload.len(), 8);
    let s = field + payload + rest;
    lemma_be_bytes_len(payload.len(), 8);
    lemma_be_value_of_bytes(payload.len(), 8);
    lemma_pow256_eight();
    assert(s.take(8) =~= field);
    assert(s.subrange(8, 8 + payload.len() as int) =~= payload);
}

/// A length field that declares more than the limit is refused, whatever follows.
pub proof fn lemma_payload_oversize(declared: nat, rest: Seq<u8>)
    requires
        MAX_PAYLOAD_LEN < declared <= u64::MAX,
    ensures
        decode_payload(be_bytes(declared, 8) + rest) == Err::<Seq<u8>, FrameError>(
            FrameError::PayloadTooLarge { declared: declared as u64 },
        ),
{
    let field = be_bytes(declared, 8);
    lemma_be_bytes_len(declared, 8);
    lemma_be_value_of_bytes(declared, 8);
    lemma_pow256_eight();
    assert((field + rest).take(8) =~= field);
}

/// What `decode_payload` accepts is the start of its input, spelt canonically.
pub proof fn lemma_payload_canonical(rest: Seq<u8>)
    requires
        (decode_payload(rest) is Ok),
    ensures
        ({
            let payload = decode_payload(rest)->Ok_0;
            let spelt = be_bytes(payload.len(), 8) + payload;
            &&& payload.len() <= MAX_PAYLOAD_LEN
            &&& spelt.len() <= rest.len()
            &&& rest.take(spelt.len() as int) == spelt
        }),
{
    let payload = decode_payload(rest)->Ok_0;
    lemma_be_bytes_of_value(rest.take(8));
    lemma_be_bytes_len(payload.len(), 8);
}

/// Decoding undoes encoding: a request whose payload is within the limit
/// comes back from its encoding, whatever bytes follow the encoding.
pub proof fn lemma_request_round_trip(frame: RequestView, rest: Seq<u8>)
    requires
        within_limit(frame.payload()),
    ensures
        decode_request(encode_request(frame) + rest) == Ok::<RequestView, FrameError>(frame),
{
    let s = encode_request(frame) + rest;
    match frame {
        RequestView::Push(payload) => {
            lemma_payload_round_trip(payload, rest);
            assert(s.skip(2) =~= be_bytes(payload.len(), 8) + payload + rest);
        },
        RequestView::Pull => {},
    }
}

/// Decoding undoes encoding: a response whose payload is within the limit
/// comes back from its encoding, whatever bytes follow the encoding.
pub proof fn lemma_response_round_trip(frame: ResponseView, rest: Seq<u8>)
    requires
        within_limit(frame.payload()),
    ensures
        decode_response(encode_response(frame) + rest) == Ok::<ResponseView, FrameError>(frame),
{
    let s = encode_response(frame) + rest;
    match frame.payload() {
        Some(payload) => {
            lemma_payload_round_trip(payload, rest);
            assert(s.skip(2) =~= be_bytes(payload.len(), 8) + payload + rest);
        },
        None => {},
    }
}

/// A request whose payload is over the limit does not come back from its
/// encoding: decoding stops at the length field with a protocol error.
pub proof fn lemma_request_oversize(payload: Seq<u8>, rest: Seq<u8>)
    requires
        MAX_PAYLOAD_LEN < payload.len() <= u64::MAX,
    ensures
        ({
            let refusal = FrameError::PayloadTooLarge { declared: payload.len() as u64 };
            &&& decode_request(encode_request(RequestView::Push(payload)) + rest) == Err::<
                RequestView,
                FrameError,
            >(refusal)
            &&& forall|source: Source| refusal.spec_class(source) == ErrorClass::Protocol
        }),
{
    let s = encode_request(RequestView::Push(payload)) + rest;
    lemma_payload_oversize(payload.len(), payload + rest);
    assert(s.skip(2) =~= be_bytes(payload.len(), 8) + (payload + rest));
}

/// A response whose payload is over the limit does not come back from its
/// encoding: decoding stops at the length field with a protocol error.
pub proof fn lemma_response_oversize(frame: ResponseView, rest: Seq<u8>)
    requires
        (frame.payload() is Some),
        MAX_PAYLOAD_LEN < frame.payload()->Some_0.len() <= u64::MAX,
    ensures
        ({
            let declared = frame.payload()->Some_0.len() as u64;
            let refusal = FrameError::PayloadTooLarge { declared };
            &&& decode_response(encode_response(frame) + rest) == Err::<
                ResponseView,
                FrameError,
            >(refusal)
            &&& forall|source: Source| refusal.spec_class(source) == ErrorClass::Protocol
        }),
{
    let payload = frame.payload()->Some_0;
    let s = encode_response(frame) + rest;
    lemma_payload_oversize(payload.len(), payload + rest);
    assert(s.skip(2) =~= be_bytes(payload.len(), 8) + (payload + rest));
}

/// Encoding undoes decoding: a stream that decodes to a request starts with
/// that request's encoding, so a frame has one spelling only.
pub proof fn lemma_request_canonical(s: Seq<u8>)
    requires
        (decode_request(s) is Ok),
    ensures
        ({
            let spelt = encode_request(decode_request(s)->Ok_0);
            &&& within_limit(decode_request(s)->Ok_0.payload())
            &&& spelt.len() <= s.len()
            &&& s.take(spelt.len() as int) == spelt
        }),
{
    let frame = decode_request(s)->Ok_0;
    if let Some(payload) = frame.payload() {
        lemma_payload_canonical(s.skip(2));
        let body = be_bytes(payload.len(), 8) + payload;
        assert(encode_request(frame) =~= seq![MAGIC, s[1]] + body);
    }
}

/// Encoding undoes decoding: a stream that decodes to a response starts with
/// that response's encoding, so a frame has one spelling only.
pub proof fn lemma_response_canonical(s: Seq<u8>)
    requires
        (decode_response(s) is Ok),
    ensures
        ({
            let spelt = encode_response(decode_response(s)->Ok_0);
            &&& within_limit(decode_response(s)->Ok_0.payload())
            &&& spelt.len() <= s.len()
            &&& s.take(spelt.len() as int) == spelt
        }),
{
    let frame = decode_response(s)->Ok_0;
    if let Some(payload) = frame.payload() {
        lemma_payload_canonical(s.skip(2));
        let body = be_bytes(payload.len(), 8) + payload;
        assert(encode_response(frame) =~= seq![MAGIC, s[1]] + body);
    }
}

/// Frames delimit themselves: two streams that are the same bytes start
/// with the same request, whatever follows the request in each.
pub proof fn lemma_request_unambiguous(
    a: RequestView,
    rest_a: Seq<u8>,
    b: RequestView,
    rest_b: Seq<u8>,
)
    requires
        within_limit(a.payload()),
        within_limit(b.payload()),
        encode_request(a) + rest_a == encode_request(b) + rest_b,
    ensures
        a == b,
        rest_a == rest_b,
{
    lemma_request_round_trip(a, rest_a);
    lemma_request_round_trip(b, rest_b);
    let s = encode_request(a) + rest_a;
    assert(rest_b =~= s.skip(encode_request(b).len() as int));
}

/// Frames delimit themselves: two streams that are the same bytes start
/// with the same response, whatever follows the response in each.
pub proof fn lemma_response_unambiguous(
    a: ResponseView,
    rest_a: Seq<u8>,
    b: ResponseView,
    rest_b: Seq<u8>,
)
    requires
        within_limit(a.payload()),
        within_limit(b.payload()),
        encode_response(a) + rest_a == encode_response(b) + rest_b,
    ensures
        a == b,
        rest_a == rest_b,
{
    lemma_response_round_trip(a, rest_a);
    lemma_response_round_trip(b, rest_b);
    let s = encode_response(a) + rest_a;
    assert(rest_b =~= s.skip(encode_response(b).len() as int));
}

} // verus!
