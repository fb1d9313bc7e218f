//! What a response means to the client that asked.

use crate::frame::{ResponseFrame, ResponseView};
use vstd::prelude::*;
use vstd::utf8::{decode_utf8, valid_utf8};

verus! {

/// Which of the four responses a response is.
#[derive(Clone, Copy, Debug, PartialEq, Eq)]
pub enum ResponseKind {
    PushOk,
    PushErr,
    PullOk,
    PullErr,
}

/// Why a client's request came to nothing although a response arrived.
#[derive(Debug, PartialEq, Eq)]
pub enum ClientError {
    /// The response answers another kind of request.
    Unexpected(ResponseKind),
    /// The server refused, with this message.
    Rejected(String),
    /// The server refused, and its message is not UTF-8.
    NotText,
}

/// A client error as a mathematical value.
pub enum ClientErrorView {
    Unexpected(ResponseKind),
    Rejected(Seq<char>),
    NotText,
}

impl View for ClientError {
    type V = ClientErrorView;

    open spec fn view(&self) -> ClientErrorView {
        match self {
            ClientError::Unexpected(kind) => ClientErrorView::Unexpected(*kind),
            ClientError::Rejected(message) => ClientErrorView::Rejected(message@),
            ClientError::NotText => ClientErrorView::NotText,
        }
    }
}

impl ResponseView {
    /// Which of the four responses this is.
    pub open spec fn kind(self) -> ResponseKind {
        match self {
            ResponseView::PushOk => ResponseKind::PushOk,
            ResponseView::PushErr(_) => ResponseKind::PushErr,
            ResponseView::PullOk(_) => ResponseKind::PullOk,
            ResponseView::PullErr(_) => ResponseKind::PullErr,
        }
    }
}

impl ResponseFrame {
    /// Which of the four responses this is.
    pub fn kind(&self) -> (kind: ResponseKind)
        ensures
            kind == self@.kind(),
    {
        match self {
            ResponseFrame::PushOk => ResponseKind::PushOk,
            ResponseFrame::PushErr(_) => ResponseKind::PushErr,
            ResponseFrame::PullOk(_) => ResponseKind::PullOk,
            ResponseFrame::PullErr(_) => ResponseKind::PullErr,
        }
    }
}

/// The text that `bytes` spell in UTF-8, if they spell any.
pub open spec fn text_of(bytes: Seq<u8>) -> Option<Seq<char>> {
    if valid_utf8(bytes) {
        Some(decode_utf8(bytes))
    } else {
        None
    }
}

/// What a server's message makes of a request: a refusal with that message,
/// or the finding that the message is no text.
pub open spec fn refusal(message: Seq<u8>) -> ClientErrorView {
    match text_of(message) {
        Some(text) => ClientErrorView::Rejected(text),
        None => ClientErrorView::NotText,
    }
}

/// How a push ends, given the response to it.
pub open spec fn push_outcome(response: ResponseView) -> Result<(), ClientErrorView> {
    match response {
        ResponseView::PushOk => Ok(()),
        ResponseView::PushErr(message) => Err(refusal(message)),
        _ => Err(ClientErrorView::Unexpected(response.kind())),
    }
}

/// How a pull ends, given the response to it: with the stored bytes, be
/// they text or not, or with an error.
pub open spec fn pull_outcome(response: ResponseView) -> Result<Seq<u8>, ClientErrorView> {
    match response {
        ResponseView::PullOk(payload) => Ok(payload),
        ResponseView::PullErr(message) => Err(refusal(message)),
        _ => Err(ClientErrorView::Unexpected(response.kind())),
    }
}

/// Calls `String::from_utf8`. The standard library returns the string made
/// of exactly these bytes when they are valid UTF-8 and an error otherwise;
/// this is stated here over the model of UTF-8 that `vstd` has, and is not
/// proved.
#[verifier::external_body]
fn string_from_utf8(bytes: Vec<u8>) -> (text: Option<String>)
    ensures
        text is Some <==> valid_utf8(bytes@),
        text matches Some(s) ==> s@ == decode_utf8(bytes@),
{
    String::from_utf8(bytes).ok()
}

/// Reads a server's message.
fn read_refusal(message: Vec<u8>) -> (e: ClientError)
    ensures
        e@ == refusal(message@),
{
    match string_from_utf8(message) {
        Some(text) => ClientError::Rejected(text),
        None => ClientError::NotText,
    }
}

/// Decides how a push ended from the response that came back.
pub fn finish_push(response: ResponseFrame) -> (r: Result<(), ClientError>)
    ensures
        match r {
            Ok(_) => push_outcome(response@) == Ok::<(), ClientErrorView>(()),
            Err(e) => push_outcome(response@) == Err::<(), ClientErrorView>(e@),
        },
{
    match response {
        ResponseFrame::PushOk => Ok(()),
        ResponseFrame::PushErr(message) => Err(read_refusal(message)),
        ResponseFrame::PullOk(_) => Err(ClientError::Unexpected(ResponseKind::PullOk)),
        ResponseFrame::PullErr(_) => Err(ClientError::Unexpected(ResponseKind::PullErr)),
    }
}

/// Decides how a pull ended from the response that came back: `Ok` holds
/// the bytes to write out.
pub fn finish_pull(response: ResponseFrame) -> (r: Result<Vec<u8>, ClientError>)
    ensures
        match r {
            Ok(bytes) => pull_outcome(response@) == Ok::<Seq<u8>, ClientErrorView>(bytes@),
            Err(e) => pull_outcome(response@) == Err::<Seq<u8>, ClientErrorView>(e@),
        },
{
    match response {
        ResponseFrame::PushOk => Err(ClientError::Unexpected(ResponseKind::PushOk)),
        ResponseFrame::PushErr(_) => Err(ClientError::Unexpected(ResponseKind::PushErr)),
        ResponseFrame::PullOk(payload) => Ok(payload),
        ResponseFrame::PullErr(message) => Err(read_refusal(message)),
    }
}

} // verus!
