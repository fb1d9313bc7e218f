//! What the server does with one connection.

use crate::clipboard::{apply, Clipboard};
use crate::decode::{
    decode_request, decode_response, lemma_request_canonical, lemma_request_round_trip,
    lemma_response_round_trip, lemma_response_unambiguous, within_limit,
};
use crate::error::{ErrorClass, FrameError, Source};
use crate::frame::{encode_request, encode_response, RequestFrame, RequestView, ResponseView};
use crate::wire::{MAGIC, MAX_PAYLOAD_LEN};
use vstd::prelude::*;

verus! {

/// What one connection does to the stored value and what is written back,
/// given all that the client sent before it stopped sending.
///
/// Input that is no request gets no reply at all, not even an error frame,
/// and leaves the stored value as it was.
pub open spec fn serve(stored: Seq<u8>, received: Seq<u8>) -> (
    Seq<u8>,
    Result<Seq<u8>, FrameError>,
) {
    match decode_request(received) {
        Ok(request) => (
            apply(stored, request).0,
            Ok(encode_response(apply(stored, request).1)),
        ),
        Err(e) => (stored, Err(e)),
    }
}

/// Serves one connection whose input is `received`: decodes the request,
/// handles it and encodes the answer. `Ok` holds the bytes to write back;
/// on `Err` nothing is to be written and the connection is to be closed.
/// The input is a buffer, so every failure is a protocol failure.
pub fn handle_client(clipboard: &mut Clipboard, received: &[u8]) -> (reply: Result<
    Vec<u8>,
    FrameError,
>)
    ensures
        final(clipboard)@ == serve(old(clipboard)@, received@).0,
        match reply {
            Ok(bytes) => serve(old(clipboard)@, received@).1 == Ok::<Seq<u8>, FrameError>(bytes@),
            Err(e) => serve(old(clipboard)@, received@).1 == Err::<Seq<u8>, FrameError>(e)
                && e.spec_class(Source::Buffer) == ErrorClass::Protocol,
        },
{
    match RequestFrame::from_bytes(received) {
        Ok(request) => {
            let response = clipboard.handle(request);
            Ok(response.to_bytes())
        },
        Err(e) => Err(e),
    }
}

/// A connection that opens with a wrong magic byte is dropped without a
/// reply, and the stored value stays.
pub proof fn lemma_bad_magic_dropped(stored: Seq<u8>, received: Seq<u8>)
    requires
        received.len() >= 2,
        received[0] != MAGIC,
    ensures
        serve(stored, received) == (
            stored,
            Err::<Seq<u8>, FrameError>(FrameError::BadMagic { found: received[0] }),
        ),
{
}

/// No input makes the stored value outgrow the payload limit, and a reply,
/// where there is one, is a response that the client decodes back: the
/// answer to the request that the input held.
pub proof fn lemma_reply_decodes(stored: Seq<u8>, received: Seq<u8>, rest: Seq<u8>)
    requires
        stored.len() <= MAX_PAYLOAD_LEN,
    ensures
        serve(stored, received).0.len() <= MAX_PAYLOAD_LEN,
        serve(stored, received).1 matches Ok(reply) ==> decode_response(reply + rest) == Ok::<
            ResponseView,
            FrameError,
        >(apply(stored, decode_request(received)->Ok_0).1),
{
    if decode_request(received) is Ok {
        lemma_request_canonical(received);
        lemma_response_round_trip(apply(stored, decode_request(received)->Ok_0).1, rest);
    }
}

/// A whole exchange. A request within the limit, sent to a server whose
/// stored value is within the limit, is handled as that request, and the
/// client decodes from the reply the answer to it. So a pull that follows a
/// push, on another connection, brings back what was pushed.
pub proof fn lemma_exchange(stored: Seq<u8>, request: RequestView, tail: Seq<u8>)
    requires
        stored.len() <= MAX_PAYLOAD_LEN,
        within_limit(request.payload()),
    ensures
        serve(stored, encode_request(request) + tail) == (
            apply(stored, request).0,
            Ok::<Seq<u8>, FrameError>(encode_response(apply(stored, request).1)),
        ),
        decode_response(encode_response(apply(stored, request).1)) == Ok::<
            ResponseView,
            FrameError,
        >(apply(stored, request).1),
{
    lemma_request_round_trip(request, tail);
    lemma_response_round_trip(apply(stored, request).1, Seq::empty());
}

/// The stored value after the connections whose inputs are `inputs` were
/// served one after another.
pub open spec fn serve_all(stored: Seq<u8>, inputs: Seq<Seq<u8>>) -> Seq<u8>
    decreases inputs.len(),
{
    if inputs.len() == 0 {
        stored
    } else {
        serve(serve_all(stored, inputs.drop_last()), inputs.last()).0
    }
}

/// The inputs of connections that push `payloads`, one payload each.
pub open spec fn pushes(payloads: Seq<Seq<u8>>) -> Seq<Seq<u8>> {
    Seq::new(payloads.len(), |i: int| encode_request(RequestView::Push(payloads[i])))
}

/// One push wins, whole. After connections that push different payloads,
/// served one after another in whatever order, a connection that pulls is
/// sent the encoding of the payload pushed last, byte for byte, and so the
/// encoding of no other payload.
pub proof fn lemma_one_push_wins(stored: Seq<u8>, payloads: Seq<Seq<u8>>)
    requires
        payloads.len() > 0,
        forall|i: int|
            0 <= i < payloads.len() ==> (#[trigger] payloads[i]).len() <= MAX_PAYLOAD_LEN,
        forall|i: int, j: int| 0 <= i < j < payloads.len() ==> payloads[i] != payloads[j],
    ensures
        ({
            let after = serve_all(stored, pushes(payloads));
            let reply = serve(after, encode_request(RequestView::Pull)).1;
            &&& after == payloads.last()
            &&& reply == Ok::<Seq<u8>, FrameError>(
                encode_response(ResponseView::PullOk(payloads.last())),
            )
            &&& forall|i: int|
                0 <= i < payloads.len() - 1 ==> reply != Ok::<Seq<u8>, FrameError>(
                    encode_response(ResponseView::PullOk(#[trigger] payloads[i])),
                )
        }),
{
    let last = payloads.last();
    let nothing = Seq::<u8>::empty();
    let push = encode_request(RequestView::Push(last));
    let pull = encode_request(RequestView::Pull);
    assert(pushes(payloads).last() == push);
    lemma_request_round_trip(RequestView::Push(last), nothing);
    assert(push + nothing =~= push);
    lemma_request_round_trip(RequestView::Pull, nothing);
    assert(pull + nothing =~= pull);
    assert forall|i: int| 0 <= i < payloads.len() - 1 implies encode_response(
        ResponseView::PullOk(#[trigger] payloads[i]),
    ) != encode_response(ResponseView::PullOk(last)) by {
        let one = ResponseView::PullOk(payloads[i]);
        let other = ResponseView::PullOk(last);
        if encode_response(one) == encode_response(other) {
            lemma_response_unambiguous(one, nothing, other, nothing);
        }
    }
}

} // verus!
