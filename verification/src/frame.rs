//! Request and response frames and their encoding.

use crate::wire::{
    be_bytes, lemma_be_bytes_len, put_be, HEADER_LEN, LENGTH_LEN, MAGIC, REQUEST_PULL,
    REQUEST_PUSH, RESPONSE_PULL_ERR, RESPONSE_PULL_OK, RESPONSE_PUSH_ERR, RESPONSE_PUSH_OK,
};
use vstd::prelude::*;

verus! {

/// What a client asks of the server.
#[derive(Debug, PartialEq, Eq)]
pub enum RequestFrame {
    /// Replace the stored value with these bytes.
    Push(Vec<u8>),
    /// Send back the stored value.
    Pull,
}

/// What the server answers.
#[derive(Debug, PartialEq, Eq)]
pub enum ResponseFrame {
    /// The push was accepted.
    PushOk,
    /// The push was rejected; the bytes are a UTF-8 message.
    PushErr(Vec<u8>),
    /// The stored value.
    PullOk(Vec<u8>),
    /// The pull was rejected; the bytes are a UTF-8 message.
    PullErr(Vec<u8>),
}

/// A request as a mathematical value.
pub enum RequestView {
    Push(Seq<u8>),
    Pull,
}

/// A response as a mathematical value.
pub enum ResponseView {
    PushOk,
    PushErr(Seq<u8>),
    PullOk(Seq<u8>),
    PullErr(Seq<u8>),
}

impl View for RequestFrame {
    type V = RequestView;

    open spec fn view(&self) -> RequestView {
        match self {
            RequestFrame::Push(bytes) => RequestView::Push(bytes@),
            RequestFrame::Pull => RequestView::Pull,
        }
    }
}

impl View for ResponseFrame {
    type V = ResponseView;

    open spec fn view(&self) -> ResponseView {
        match self {
            ResponseFrame::PushOk => ResponseView::PushOk,
            ResponseFrame::PushErr(bytes) => ResponseView::PushErr(bytes@),
            ResponseFrame::PullOk(bytes) => ResponseView::PullOk(bytes@),
            ResponseFrame::PullErr(bytes) => ResponseView::PullErr(bytes@),
        }
    }
}

impl Clone for RequestFrame {
    /// A copy that is the same request.
    fn clone(&self) -> (copy: Self)
        ensures
            copy@ == self@,
    {
        match self {
            RequestFrame::Push(bytes) => RequestFrame::Push(bytes.clone()),
            RequestFrame::Pull => RequestFrame::Pull,
        }
    }
}

impl Clone for ResponseFrame {
    /// A copy that is the same response.
    fn clone(&self) -> (copy: Self)
        ensures
            copy@ == self@,
    {
        match self {
            ResponseFrame::PushOk => ResponseFrame::PushOk,
            ResponseFrame::PushErr(bytes) => ResponseFrame::PushErr(bytes.clone()),
            ResponseFrame::PullOk(bytes) => ResponseFrame::PullOk(bytes.clone()),
            ResponseFrame::PullErr(bytes) => ResponseFrame::PullErr(bytes.clone()),
        }
    }
}

/// The encoding of a frame without payload: magic, then tag.
pub open spec fn encode_bare(tag: u8) -> Seq<u8> {
    seq![MAGIC, tag]
}

/// The encoding of a frame with payload: magic, tag, the payload's length in
/// eight bytes, most significant first, then the payload.
pub open spec fn encode_with_payload(tag: u8, payload: Seq<u8>) -> Seq<u8> {
    seq![MAGIC, tag] + be_bytes(payload.len(), 8) + payload
}

impl RequestView {
    /// The type tag that announces this request.
    pub open spec fn tag(self) -> u8 {
        match self {
            RequestView::Push(_) => REQUEST_PUSH,
            RequestView::Pull => REQUEST_PULL,
        }
    }

    /// The payload, if this request carries one.
    pub open spec fn payload(self) -> Option<Seq<u8>> {
        match self {
            RequestView::Push(bytes) => Some(bytes),
            RequestView::Pull => None,
        }
    }
}

impl ResponseView {
    /// The type tag that announces this response.
    pub open spec fn tag(self) -> u8 {
        match self {
            ResponseView::PushOk => RESPONSE_PUSH_OK,
            ResponseView::PushErr(_) => RESPONSE_PUSH_ERR,
            ResponseView::PullOk(_) => RESPONSE_PULL_OK,
            ResponseView::PullErr(_) => RESPONSE_PULL_ERR,
        }
    }

    /// The payload, if this response carries one.
    pub open spec fn payload(self) -> Option<Seq<u8>> {
        match self {
            ResponseView::PushOk => None,
            ResponseView::PushErr(bytes) => Some(bytes),
            ResponseView::PullOk(bytes) => Some(bytes),
            ResponseView::PullErr(bytes) => Some(bytes),
        }
    }
}

/// The bytes that carry a frame with the given tag and payload.
pub open spec fn encode_parts(tag: u8, payload: Option<Seq<u8>>) -> Seq<u8> {
    match payload {
        Some(bytes) => encode_with_payload(tag, bytes),
        None => encode_bare(tag),
    }
}

/// How many bytes a frame with this payload, or with none, takes on the wire.
pub open spec fn encoded_len(payload: Option<Seq<u8>>) -> nat {
    match payload {
        Some(bytes) => (HEADER_LEN + LENGTH_LEN + bytes.len()) as nat,
        None => HEADER_LEN as nat,
    }
}

/// An encoding is as long as its header, its length field and its payload.
pub proof fn lemma_encoded_len(tag: u8, payload: Option<Seq<u8>>)
    ensures
        encode_parts(tag, payload).len() == encoded_len(payload),
{
    if let Some(bytes) = payload {
        lemma_be_bytes_len(bytes.len(), 8);
    }
}

/// The bytes that carry a request on the wire.
pub open spec fn encode_request(frame: RequestView) -> Seq<u8> {
    encode_parts(frame.tag(), frame.payload())
}

/// The bytes that carry a response on the wire.
pub open spec fn encode_response(frame: ResponseView) -> Seq<u8> {
    encode_parts(frame.tag(), frame.payload())
}

/// Writes a frame with payload into a fresh buffer.
fn write_with_payload(tag: u8, payload: &Vec<u8>) -> (bytes: Vec<u8>)
    ensures
        bytes@ == encode_with_payload(tag, payload@),
{
    let mut bytes = Vec::with_capacity(payload.len().saturating_add(HEADER_LEN + LENGTH_LEN));
    bytes.push(MAGIC);
    bytes.push(tag);
    put_be(&mut bytes, payload.len() as u64, LENGTH_LEN);
    bytes.extend_from_slice(payload.as_slice());
    bytes
}

/// Writes a frame without payload into a fresh buffer.
fn write_bare(tag: u8) -> (bytes: Vec<u8>)
    ensures
        bytes@ == encode_bare(tag),
{
    let mut bytes = Vec::with_capacity(HEADER_LEN);
    bytes.push(MAGIC);
    bytes.push(tag);
    bytes
}

impl RequestFrame {
    /// The bytes that carry this request on the wire.
    pub fn to_bytes(&self) -> (bytes: Vec<u8>)
        ensures
            bytes@ == encode_request(self@),
            bytes@.len() == encoded_len(self@.payload()),
    {
        proof {
            lemma_encoded_len(self@.tag(), self@.payload());
        }
        match self {
            RequestFrame::Push(payload) => write_with_payload(REQUEST_PUSH, payload),
            RequestFrame::Pull => write_bare(REQUEST_PULL),
        }
    }
}

impl ResponseFrame {
    /// The bytes that carry this response on the wire.
    pub fn to_bytes(&self) -> (bytes: Vec<u8>)
        ensures
            bytes@ == encode_response(self@),
            bytes@.len() == encoded_len(self@.payload()),
    {
        proof {
            lemma_encoded_len(self@.tag(), self@.payload());
        }
        match self {
            ResponseFrame::PushOk => write_bare(RESPONSE_PUSH_OK),
            ResponseFrame::PushErr(payload) => write_with_payload(RESPONSE_PUSH_ERR, payload),
            ResponseFrame::PullOk(payload) => write_with_payload(RESPONSE_PULL_OK, payload),
            ResponseFrame::PullErr(payload) => write_with_payload(RESPONSE_PULL_ERR, payload),
        }
    }
}

} // verus!
