//! Decoding a frame from a connection, one bounded read at a time.
//!
//! A decoder never touches the connection. It says how many bytes it wants
//! next; whoever owns the connection reads exactly that many, or learns that
//! the connection closed, and hands the outcome to `step`. The decoder then
//! either wants more, or has a frame, or has failed. It never asks for more
//! than the payload limit, so no forged length field makes anyone allocate
//! more than that.

use crate::decode::{
    decode_request, decode_response, response_has_payload, response_with_payload,
};
use crate::error::{ErrorClass, FrameError, Source};
use crate::frame::{RequestFrame, RequestView, ResponseFrame, ResponseView};
use crate::wire::{
    be_value, get_be, HEADER_LEN, LENGTH_LEN, MAGIC, MAX_PAYLOAD_LEN, REQUEST_PULL, REQUEST_PUSH,
    RESPONSE_PULL_ERR, RESPONSE_PULL_OK, RESPONSE_PUSH_ERR, RESPONSE_PUSH_OK,
};
use vstd::prelude::*;
use vstd::slice::{slice_subrange, slice_to_vec};

verus! {

/// What the connection gave when asked for bytes.
#[derive(Debug)]
pub enum Delivery {
    /// The bytes that were read.
    Bytes(Vec<u8>),
    /// The connection ended before the bytes asked for had come.
    Closed,
}

/// A delivery as a mathematical value.
pub enum DeliveryView {
    Bytes(Seq<u8>),
    Closed,
}

impl View for Delivery {
    type V = DeliveryView;

    open spec fn view(&self) -> DeliveryView {
        match self {
            Delivery::Bytes(bytes) => DeliveryView::Bytes(bytes@),
            Delivery::Closed => DeliveryView::Closed,
        }
    }
}

/// What a decoder waits for.
#[derive(Clone, Copy, Debug, PartialEq, Eq)]
pub enum Stage {
    /// The magic byte and the type tag.
    Header,
    /// The length field of a frame with tag `tag`.
    Length { tag: u8 },
    /// The `len` payload bytes of a frame with tag `tag`.
    Payload { tag: u8, len: usize },
}

impl Stage {
    /// How many bytes this stage asks the connection for.
    pub open spec fn wanted(self) -> nat {
        match self {
            Stage::Header => HEADER_LEN as nat,
            Stage::Length { .. } => LENGTH_LEN as nat,
            Stage::Payload { len, .. } => len as nat,
        }
    }

    /// How many reads a frame may still take from this stage on.
    pub open spec fn reads_left(self) -> nat {
        match self {
            Stage::Header => 3,
            Stage::Length { .. } => 2,
            Stage::Payload { .. } => 1,
        }
    }
}

/// Where one step leaves a decoder whose frames have the view `F`.
pub enum StepView<F> {
    /// More bytes are wanted, at this stage.
    Continue(Stage),
    /// The frame is complete.
    Done(F),
    /// There will be no frame.
    Failed(FrameError),
}

/// The step a request decoder takes at `stage` when handed `delivery`.
///
/// A closed connection, or fewer bytes than were wanted, is a truncated
/// frame. Of more bytes than were wanted only the wanted ones are read. A
/// length field over the limit ends the decoding there, and one that
/// declares no bytes completes the frame without a further read.
pub open spec fn request_step(stage: Stage, delivery: DeliveryView) -> StepView<RequestView> {
    match delivery {
        DeliveryView::Closed => StepView::Failed(FrameError::Truncated),
        DeliveryView::Bytes(bytes) => if bytes.len() < stage.wanted() {
            StepView::Failed(FrameError::Truncated)
        } else {
            match stage {
                Stage::Header => if bytes[0] != MAGIC {
                    StepView::Failed(FrameError::BadMagic { found: bytes[0] })
                } else if bytes[1] == REQUEST_PUSH {
                    StepView::Continue(Stage::Length { tag: bytes[1] })
                } else if bytes[1] == REQUEST_PULL {
                    StepView::Done(RequestView::Pull)
                } else {
                    StepView::Failed(FrameError::UnknownType { tag: bytes[1] })
                },
                Stage::Length { tag } => {
                    let declared = be_value(bytes.take(LENGTH_LEN as int));
                    if declared > MAX_PAYLOAD_LEN {
                        StepView::Failed(FrameError::PayloadTooLarge { declared: declared as u64 })
                    } else if declared == 0 {
                        StepView::Done(RequestView::Push(Seq::empty()))
                    } else {
                        StepView::Continue(Stage::Payload { tag, len: declared as usize })
                    }
                },
                Stage::Payload { len, .. } => StepView::Done(
                    RequestView::Push(bytes.take(len as int)),
                ),
            }
        },
    }
}

/// The step a response decoder takes at `stage` when handed `delivery`.
///
/// A closed connection, or fewer bytes than were wanted, is a truncated
/// frame. Of more bytes than were wanted only the wanted ones are read. A
/// length field over the limit ends the decoding there, and one that
/// declares no bytes completes the frame without a further read.
pub open spec fn response_step(stage: Stage, delivery: DeliveryView) -> StepView<ResponseView> {
    match delivery {
        DeliveryView::Closed => StepView::Failed(FrameError::Truncated),
        DeliveryView::Bytes(bytes) => if bytes.len() < stage.wanted() {
            StepView::Failed(FrameError::Truncated)
        } else {
            match stage {
                Stage::Header => if bytes[0] != MAGIC {
                    StepView::Failed(FrameError::BadMagic { found: bytes[0] })
                } else if bytes[1] == RESPONSE_PUSH_OK {
                    StepView::Done(ResponseView::PushOk)
                } else if response_has_payload(bytes[1]) {
                    StepView::Continue(Stage::Length { tag: bytes[1] })
                } else {
                    StepView::Failed(FrameError::UnknownType { tag: bytes[1] })
                },
                Stage::Length { tag } => {
                    let declared = be_value(bytes.take(LENGTH_LEN as int));
                    if declared > MAX_PAYLOAD_LEN {
                        StepView::Failed(FrameError::PayloadTooLarge { declared: declared as u64 })
                    } else if declared == 0 {
                        StepView::Done(response_with_payload(tag, Seq::empty()))
                    } else {
                        StepView::Continue(Stage::Payload { tag, len: declared as usize })
                    }
                },
                Stage::Payload { tag, len } => StepView::Done(
                    response_with_payload(tag, bytes.take(len as int)),
                ),
            }
        },
    }
}

/// What a connection that carries `stream` and then closes gives when asked
/// for `n` bytes: the next `n` bytes, or the news that it closed first.
pub open spec fn deliver(stream: Seq<u8>, n: nat) -> DeliveryView {
    if n <= stream.len() {
        DeliveryView::Bytes(stream.take(n as int))
    } else {
        DeliveryView::Closed
    }
}

/// The outcome of stepping a request decoder from `stage` over a connection
/// that carries `stream` and then closes.
pub open spec fn run_request(stage: Stage, stream: Seq<u8>) -> Result<RequestView, FrameError>
    decreases stage.reads_left(),
{
    match request_step(stage, deliver(stream, stage.wanted())) {
        StepView::Continue(next) => run_request(next, stream.skip(stage.wanted() as int)),
        StepView::Done(frame) => Ok(frame),
        StepView::Failed(e) => Err(e),
    }
}

/// The outcome of stepping a response decoder from `stage` over a connection
/// that carries `stream` and then closes.
pub open spec fn run_response(stage: Stage, stream: Seq<u8>) -> Result<ResponseView, FrameError>
    decreases stage.reads_left(),
{
    match response_step(stage, deliver(stream, stage.wanted())) {
        StepView::Continue(next) => run_response(next, stream.skip(stage.wanted() as int)),
        StepView::Done(frame) => Ok(frame),
        StepView::Failed(e) => Err(e),
    }
}

/// The two reads that follow a header take from `rest`, the bytes after it,
/// what decoding cuts out of it: the length field, then the payload.
proof fn lemma_reads_cut_the_payload(rest: Seq<u8>)
    ensures
        rest.len() >= 8 ==> {
            let declared = be_value(rest.take(8));
            &&& rest.take(8).take(8) == rest.take(8)
            &&& rest.subrange(8, 8) == Seq::<u8>::empty()
            &&& declared <= rest.skip(8).len() ==> rest.skip(8).take(declared as int).take(
                declared as int,
            ) == rest.subrange(8, 8 + declared as int)
        },
{
}

/// Stepping a request decoder over a stream, from the header on, yields what
/// the stream means: the frame it starts with, or the reason it has none.
pub proof fn lemma_run_request(stream: Seq<u8>)
    ensures
        run_request(Stage::Header, stream) == decode_request(stream),
{
    reveal_with_fuel(run_request, 3);
    if stream.len() >= 2 {
        lemma_reads_cut_the_payload(stream.skip(2));
    }
}

/// Stepping a response decoder over a stream, from the header on, yields
/// what the stream means: the frame it starts with, or the reason it has none.
pub proof fn lemma_run_response(stream: Seq<u8>)
    ensures
        run_response(Stage::Header, stream) == decode_response(stream),
{
    reveal_with_fuel(run_response, 3);
    if stream.len() >= 2 {
        lemma_reads_cut_the_payload(stream.skip(2));
    }
}

/// The payload length that a length field declares, if the limit allows it.
fn declared_length(field: &[u8]) -> (r: Result<usize, FrameError>)
    requires
        field@.len() == LENGTH_LEN,
    ensures
        match r {
            Ok(len) => len == be_value(field@) && len <= MAX_PAYLOAD_LEN,
            Err(e) => be_value(field@) > MAX_PAYLOAD_LEN && e == (FrameError::PayloadTooLarge {
                declared: be_value(field@) as u64,
            }),
        },
{
    let declared = get_be(field);
    if declared > MAX_PAYLOAD_LEN {
        Err(FrameError::PayloadTooLarge { declared })
    } else {
        Ok(declared as usize)
    }
}

/// A decoder of requests, between two reads.
#[derive(Debug)]
pub struct RequestDecoder {
    stage: Stage,
}

/// Where one step leaves a request decoder.
#[derive(Debug)]
pub enum RequestStep {
    /// More bytes are wanted.
    Continue(RequestDecoder),
    /// The request is complete.
    Done(RequestFrame),
    /// There will be no request.
    Failed(FrameError),
}

impl View for RequestDecoder {
    type V = Stage;

    closed spec fn view(&self) -> Stage {
        self.stage
    }
}

impl View for RequestStep {
    type V = StepView<RequestView>;

    open spec fn view(&self) -> StepView<RequestView> {
        match self {
            RequestStep::Continue(decoder) => StepView::Continue(decoder@),
            RequestStep::Done(frame) => StepView::Done(frame@),
            RequestStep::Failed(e) => StepView::Failed(*e),
        }
    }
}

impl RequestDecoder {
    /// Only a push has a length field and a payload, and a payload that is
    /// waited for is neither empty nor over the limit.
    #[verifier::type_invariant]
    spec fn well_formed(self) -> bool {
        match self.stage {
            Stage::Header => true,
            Stage::Length { tag } => tag == REQUEST_PUSH,
            Stage::Payload { tag, len } => tag == REQUEST_PUSH && 0 < len <= MAX_PAYLOAD_LEN,
        }
    }

    /// A decoder that waits for a header.
    pub fn new() -> (decoder: Self)
        ensures
            decoder@ == Stage::Header,
    {
        RequestDecoder { stage: Stage::Header }
    }

    /// How many bytes to read from the connection for the next step: at
    /// least one, and never more than the payload limit.
    pub fn wanted(&self) -> (n: usize)
        ensures
            n == self@.wanted(),
            0 < n <= MAX_PAYLOAD_LEN,
    {
        proof {
            use_type_invariant(self);
        }
        match self.stage {
            Stage::Header => HEADER_LEN,
            Stage::Length { .. } => LENGTH_LEN,
            Stage::Payload { len, .. } => len,
        }
    }

    /// Takes what the connection gave and decides what comes next.
    pub fn step(self, delivery: Delivery) -> (next: RequestStep)
        ensures
            next@ == request_step(self@, delivery@),
    {
        proof {
            use_type_invariant(&self);
        }
        match delivery {
            Delivery::Closed => RequestStep::Failed(FrameError::Truncated),
            Delivery::Bytes(mut bytes) => {
                if bytes.len() < self.wanted() {
                    return RequestStep::Failed(FrameError::Truncated);
                }
                match self.stage {
                    Stage::Header => {
                        let found = bytes[0];
                        let tag = bytes[1];
                        if found != MAGIC {
                            RequestStep::Failed(FrameError::BadMagic { found })
                        } else if tag == REQUEST_PUSH {
                            RequestStep::Continue(RequestDecoder { stage: Stage::Length { tag } })
                        } else if tag == REQUEST_PULL {
                            RequestStep::Done(RequestFrame::Pull)
                        } else {
                            RequestStep::Failed(FrameError::UnknownType { tag })
                        }
                    },
                    Stage::Length { tag } => {
                        match declared_length(slice_subrange(bytes.as_slice(), 0, LENGTH_LEN)) {
                            Err(e) => RequestStep::Failed(e),
                            Ok(len) => if len == 0 {
                                RequestStep::Done(RequestFrame::Push(Vec::new()))
                            } else {
                                RequestStep::Continue(
                                    RequestDecoder { stage: Stage::Payload { tag, len } },
                                )
                            },
                        }
                    },
                    Stage::Payload { len, .. } => {
                        bytes.truncate(len);
                        RequestStep::Done(RequestFrame::Push(bytes))
                    },
                }
            },
        }
    }
}

impl RequestFrame {
    /// Decodes the request that `buf` starts with. The buffer is read as a
    /// connection that carried these bytes and then closed would be, so a
    /// frame that the buffer cuts short fails as truncated; of a buffer that
    /// is a protocol failure, as every other failure is.
    pub fn from_bytes(buf: &[u8]) -> (r: Result<RequestFrame, FrameError>)
        ensures
            match r {
                Ok(frame) => decode_request(buf@) == Ok::<RequestView, FrameError>(frame@),
                Err(e) => decode_request(buf@) == Err::<RequestView, FrameError>(e) && e.spec_class(
                    Source::Buffer,
                ) == ErrorClass::Protocol,
            },
    {
        let mut decoder = RequestDecoder::new();
        let mut pos: usize = 0;
        proof {
            lemma_run_request(buf@);
            assert(buf@.skip(0) =~= buf@);
        }
        loop
            invariant
                pos <= buf@.len(),
                run_request(decoder@, buf@.skip(pos as int)) == decode_request(buf@),
            decreases decoder@.reads_left(),
        {
            let n = decoder.wanted();
            let delivery = if n <= buf.len() - pos {
                Delivery::Bytes(slice_to_vec(slice_subrange(buf, pos, pos + n)))
            } else {
                Delivery::Closed
            };
            proof {
                let rest = buf@.skip(pos as int);
                if n <= buf@.len() - pos {
                    assert(buf@.subrange(pos as int, pos + n) =~= rest.take(n as int));
                    assert(rest.skip(n as int) =~= buf@.skip(pos + n));
                }
            }
            match decoder.step(delivery) {
                RequestStep::Continue(next) => {
                    decoder = next;
                    pos = pos + n;
                },
                RequestStep::Done(frame) => {
                    return Ok(frame);
                },
                RequestStep::Failed(e) => {
                    return Err(e);
                },
            }
        }
    }
}

/// The response that a tag with payload and that payload make.
fn response_of(tag: u8, payload: Vec<u8>) -> (frame: ResponseFrame)
    requires
        response_has_payload(tag),
    ensures
        frame@ == response_with_payload(tag, payload@),
{
    if tag == RESPONSE_PUSH_ERR {
        ResponseFrame::PushErr(payload)
    } else if tag == RESPONSE_PULL_OK {
        ResponseFrame::PullOk(payload)
    } else {
        ResponseFrame::PullErr(payload)
    }
}

/// A decoder of responses, between two reads.
#[derive(Debug)]
pub struct ResponseDecoder {
    stage: Stage,
}

/// Where one step leaves a response decoder.
#[derive(Debug)]
pub enum ResponseStep {
    /// More bytes are wanted.
    Continue(ResponseDecoder),
    /// The response is complete.
    Done(ResponseFrame),
    /// There will be no response.
    Failed(FrameError),
}

impl View for ResponseDecoder {
    type V = Stage;

    closed spec fn view(&self) -> Stage {
        self.stage
    }
}

impl View for ResponseStep {
    type V = StepView<ResponseView>;

    open spec fn view(&self) -> StepView<ResponseView> {
        match self {
            ResponseStep::Continue(decoder) => StepView::Continue(decoder@),
            ResponseStep::Done(frame) => StepView::Done(frame@),
            ResponseStep::Failed(e) => StepView::Failed(*e),
        }
    }
}

impl ResponseDecoder {
    /// Only the three responses with payload have a length field, and a
    /// payload that is waited for is neither empty nor over the limit.
    #[verifier::type_invariant]
    spec fn well_formed(self) -> bool {
        match self.stage {
            Stage::Header => true,
            Stage::Length { tag } => response_has_payload(tag),
            Stage::Payload { tag, len } => response_has_payload(tag) && 0 < len
                <= MAX_PAYLOAD_LEN,
        }
    }

    /// A decoder that waits for a header.
    pub fn new() -> (decoder: Self)
        ensures
            decoder@ == Stage::Header,
    {
        ResponseDecoder { stage: Stage::Header }
    }

    /// How many bytes to read from the connection for the next step: at
    /// least one, and never more than the payload limit.
    pub fn wanted(&self) -> (n: usize)
        ensures
            n == self@.wanted(),
            0 < n <= MAX_PAYLOAD_LEN,
    {
        proof {
            use_type_invariant(self);
        }
        match self.stage {
            Stage::Header => HEADER_LEN,
            Stage::Length { .. } => LENGTH_LEN,
            Stage::Payload { len, .. } => len,
        }
    }

    /// Takes what the connection gave and decides what comes next.
    pub fn step(self, delivery: Delivery) -> (next: ResponseStep)
        ensures
            next@ == response_step(self@, delivery@),
    {
        proof {
            use_type_invariant(&self);
        }
        match delivery {
            Delivery::Closed => ResponseStep::Failed(FrameError::Truncated),
            Delivery::Bytes(mut bytes) => {
                if bytes.len() < self.wanted() {
                    return ResponseStep::Failed(FrameError::Truncated);
                }
                match self.stage {
                    Stage::Header => {
                        let found = bytes[0];
                        let tag = bytes[1];
                        if found != MAGIC {
                            ResponseStep::Failed(FrameError::BadMagic { found })
                        } else if tag == RESPONSE_PUSH_OK {
                            ResponseStep::Done(ResponseFrame::PushOk)
                        } else if tag == RESPONSE_PUSH_ERR || tag == RESPONSE_PULL_OK || tag
                            == RESPONSE_PULL_ERR {
                            ResponseStep::Continue(ResponseDecoder { stage: Stage::Length { tag } })
                        } else {
                            ResponseStep::Failed(FrameError::UnknownType { tag })
                        }
                    },
                    Stage::Length { tag } => {
                        match declared_length(slice_subrange(bytes.as_slice(), 0, LENGTH_LEN)) {
                            Err(e) => ResponseStep::Failed(e),
                            Ok(len) => if len == 0 {
                                ResponseStep::Done(response_of(tag, Vec::new()))
                            } else {
                                ResponseStep::Continue(
                                    ResponseDecoder { stage: Stage::Payload { tag, len } },
                                )
                            },
                        }
                    },
                    Stage::Payload { tag, len } => {
                        bytes.truncate(len);
                        ResponseStep::Done(response_of(tag, bytes))
                    },
                }
            },
        }
    }
}

impl ResponseFrame {
    /// Decodes the response that `buf` starts with. The buffer is read as a
    /// connection that carried these bytes and then closed would be, so a
    /// frame that the buffer cuts short fails as truncated; of a buffer that
    /// is a protocol failure, as every other failure is.
    pub fn from_bytes(buf: &[u8]) -> (r: Result<ResponseFrame, FrameError>)
        ensures
            match r {
                Ok(frame) => decode_response(buf@) == Ok::<ResponseView, FrameError>(frame@),
                Err(e) => decode_response(buf@) == Err::<ResponseView, FrameError>(e) && e.spec_class(
                    Source::Buffer,
                ) == ErrorClass::Protocol,
            },
    {
        let mut decoder = ResponseDecoder::new();
        let mut pos: usize = 0;
        proof {
            lemma_run_response(buf@);
            assert(buf@.skip(0) =~= buf@);
        }
        loop
            invariant
                pos <= buf@.len(),
                run_response(decoder@, buf@.skip(pos as int)) == decode_response(buf@),
            decreases decoder@.reads_left(),
        {
            let n = decoder.wanted();
            let delivery = if n <= buf.len() - pos {
                Delivery::Bytes(slice_to_vec(slice_subrange(buf, pos, pos + n)))
            } else {
                Delivery::Closed
            };
            proof {
                let rest = buf@.skip(pos as int);
                if n <= buf@.len() - pos {
                    assert(buf@.subrange(pos as int, pos + n) =~= rest.take(n as int));
                    assert(rest.skip(n as int) =~= buf@.skip(pos + n));
                }
            }
            match decoder.step(delivery) {
                ResponseStep::Continue(next) => {
                    decoder = next;
                    pos = pos + n;
                },
                ResponseStep::Done(frame) => {
                    return Ok(frame);
                },
                ResponseStep::Failed(e) => {
                    return Err(e);
                },
            }
        }
    }
}

} // verus!
