use clipd::error::{ErrorClass, FrameError, Source};
use clipd::frame::{RequestFrame, ResponseFrame};

const MAX: usize = 10_485_760;

fn framed(tag: u8, declared: u64, payload: &[u8]) -> Vec<u8> {
    let mut bytes = vec![0b1001_0101, tag];
    bytes.extend_from_slice(&declared.to_be_bytes());
    bytes.extend_from_slice(payload);
    bytes
}

#[test]
fn pull_is_two_bytes() {
    assert_eq!(RequestFrame::Pull.to_bytes(), vec![0x95, 56]);
}

#[test]
fn push_is_header_length_payload() {
    let bytes = RequestFrame::Push(b"hello".to_vec()).to_bytes();
    assert_eq!(
        bytes,
        vec![0x95, 55, 0, 0, 0, 0, 0, 0, 0, 5, b'h', b'e', b'l', b'l', b'o']
    );
}

#[test]
fn empty_push_still_has_a_length_field() {
    let bytes = RequestFrame::Push(Vec::new()).to_bytes();
    assert_eq!(bytes, vec![0x95, 55, 0, 0, 0, 0, 0, 0, 0, 0]);
}

#[test]
fn responses_have_their_tags() {
    assert_eq!(ResponseFrame::PushOk.to_bytes(), vec![0x95, 100]);
    assert_eq!(
        ResponseFrame::PushErr(b"no".to_vec()).to_bytes(),
        vec![0x95, 101, 0, 0, 0, 0, 0, 0, 0, 2, b'n', b'o']
    );
    assert_eq!(
        ResponseFrame::PullOk(vec![1, 2, 3]).to_bytes(),
        vec![0x95, 102, 0, 0, 0, 0, 0, 0, 0, 3, 1, 2, 3]
    );
    assert_eq!(
        ResponseFrame::PullErr(Vec::new()).to_bytes(),
        vec![0x95, 103, 0, 0, 0, 0, 0, 0, 0, 0]
    );
}

#[test]
fn long_payload_length_uses_the_high_bytes() {
    let bytes = RequestFrame::Push(vec![7; 0x0102_03]).to_bytes();
    assert_eq!(bytes.len(), 10 + 0x0102_03);
    assert_eq!(&bytes[..10], &[0x95, 55, 0, 0, 0, 0, 0, 1, 2, 3]);
    assert!(bytes[10..].iter().all(|b| *b == 7));
}

#[test]
fn requests_round_trip() {
    for size in [0usize, 1, 2, 255, 256, 65_536] {
        let payload: Vec<u8> = (0..size).map(|i| (i % 251) as u8).collect();
        let frame = RequestFrame::Push(payload);
        assert_eq!(RequestFrame::from_bytes(&frame.to_bytes()), Ok(frame));
    }
    assert_eq!(
        RequestFrame::from_bytes(&RequestFrame::Pull.to_bytes()),
        Ok(RequestFrame::Pull)
    );
}

#[test]
fn responses_round_trip() {
    for size in [0usize, 1, 300] {
        let payload: Vec<u8> = (0..size).map(|i| (i % 7) as u8).collect();
        for frame in [
            ResponseFrame::PushErr(payload.clone()),
            ResponseFrame::PullOk(payload.clone()),
            ResponseFrame::PullErr(payload.clone()),
        ] {
            assert_eq!(ResponseFrame::from_bytes(&frame.to_bytes()), Ok(frame));
        }
    }
    assert_eq!(
        ResponseFrame::from_bytes(&ResponseFrame::PushOk.to_bytes()),
        Ok(ResponseFrame::PushOk)
    );
}

#[test]
fn payload_at_the_limit_round_trips() {
    let frame = RequestFrame::Push(vec![0x5A; MAX]);
    let bytes = frame.to_bytes();
    assert_eq!(bytes.len(), MAX + 10);
    assert_eq!(RequestFrame::from_bytes(&bytes), Ok(frame));
    let reply = ResponseFrame::PullOk(vec![0xA5; MAX]);
    assert_eq!(ResponseFrame::from_bytes(&reply.to_bytes()), Ok(reply));
}

#[test]
fn payload_one_over_the_limit_is_a_protocol_error() {
    let bytes = RequestFrame::Push(vec![0; MAX + 1]).to_bytes();
    let refused = RequestFrame::from_bytes(&bytes);
    assert_eq!(
        refused,
        Err(FrameError::PayloadTooLarge { declared: 10_485_761 })
    );
    let error = refused.unwrap_err();
    assert_eq!(error.class(Source::Buffer), ErrorClass::Protocol);
    assert_eq!(error.class(Source::Stream), ErrorClass::Protocol);
    let reply = ResponseFrame::PullOk(vec![0; MAX + 1]).to_bytes();
    assert_eq!(
        ResponseFrame::from_bytes(&reply),
        Err(FrameError::PayloadTooLarge { declared: 10_485_761 })
    );
}

#[test]
fn declared_length_over_the_limit_fails_without_the_payload() {
    let bytes = framed(55, 10_485_761, &[]);
    assert_eq!(
        RequestFrame::from_bytes(&bytes),
        Err(FrameError::PayloadTooLarge { declared: 10_485_761 })
    );
}

#[test]
fn astronomic_length_fails_at_the_length_field() {
    let bytes = framed(55, 1 << 63, &[1, 2, 3]);
    assert_eq!(
        RequestFrame::from_bytes(&bytes),
        Err(FrameError::PayloadTooLarge { declared: 1 << 63 })
    );
    let bytes = framed(102, u64::MAX, &[]);
    assert_eq!(
        ResponseFrame::from_bytes(&bytes),
        Err(FrameError::PayloadTooLarge { declared: u64::MAX })
    );
}

#[test]
fn bad_magic_is_reported_with_the_byte_found() {
    assert_eq!(
        RequestFrame::from_bytes(&[0x94, 56]),
        Err(FrameError::BadMagic { found: 0x94 })
    );
    assert_eq!(
        ResponseFrame::from_bytes(&[b'G', b'E', b'T', b' ']),
        Err(FrameError::BadMagic { found: b'G' })
    );
}

#[test]
fn bad_magic_wins_over_an_unknown_type() {
    assert_eq!(
        RequestFrame::from_bytes(&[0, 200]),
        Err(FrameError::BadMagic { found: 0 })
    );
}

#[test]
fn unknown_type_is_reported_with_the_tag() {
    assert_eq!(
        RequestFrame::from_bytes(&[0x95, 57]),
        Err(FrameError::UnknownType { tag: 57 })
    );
    assert_eq!(
        ResponseFrame::from_bytes(&[0x95, 104]),
        Err(FrameError::UnknownType { tag: 104 })
    );
}

#[test]
fn each_family_refuses_the_tags_of_the_other() {
    assert_eq!(
        RequestFrame::from_bytes(&ResponseFrame::PushOk.to_bytes()),
        Err(FrameError::UnknownType { tag: 100 })
    );
    assert_eq!(
        ResponseFrame::from_bytes(&RequestFrame::Pull.to_bytes()),
        Err(FrameError::UnknownType { tag: 56 })
    );
    assert_eq!(
        ResponseFrame::from_bytes(&RequestFrame::Push(vec![1]).to_bytes()),
        Err(FrameError::UnknownType { tag: 55 })
    );
}

#[test]
fn a_payload_shorter_than_declared_is_truncated() {
    let bytes = framed(55, 100, &[9; 50]);
    let refused = RequestFrame::from_bytes(&bytes);
    assert_eq!(refused, Err(FrameError::Truncated));
    assert_eq!(refused.unwrap_err().class(Source::Buffer), ErrorClass::Protocol);
    let reply = framed(102, 100, &[9; 50]);
    assert_eq!(ResponseFrame::from_bytes(&reply), Err(FrameError::Truncated));
}

#[test]
fn truncated_header_and_length_field() {
    assert_eq!(RequestFrame::from_bytes(&[]), Err(FrameError::Truncated));
    assert_eq!(RequestFrame::from_bytes(&[0x95]), Err(FrameError::Truncated));
    assert_eq!(RequestFrame::from_bytes(&[0x95, 55]), Err(FrameError::Truncated));
    assert_eq!(
        RequestFrame::from_bytes(&[0x95, 55, 0, 0, 0, 0, 0, 0, 0]),
        Err(FrameError::Truncated)
    );
    assert_eq!(ResponseFrame::from_bytes(&[0x95, 101, 0]), Err(FrameError::Truncated));
}

#[test]
fn payload_one_byte_short() {
    let mut bytes = RequestFrame::Push(vec![1, 2, 3]).to_bytes();
    bytes.pop();
    assert_eq!(RequestFrame::from_bytes(&bytes), Err(FrameError::Truncated));
}

#[test]
fn trailing_bytes_are_left_alone() {
    let mut bytes = RequestFrame::Push(vec![1, 2, 3]).to_bytes();
    bytes.extend_from_slice(&[0xFF; 20]);
    assert_eq!(
        RequestFrame::from_bytes(&bytes),
        Ok(RequestFrame::Push(vec![1, 2, 3]))
    );
    assert_eq!(
        RequestFrame::from_bytes(&[0x95, 56, 1, 2, 3]),
        Ok(RequestFrame::Pull)
    );
    assert_eq!(
        ResponseFrame::from_bytes(&[0x95, 100, 0x95, 100]),
        Ok(ResponseFrame::PushOk)
    );
}

#[test]
fn every_error_has_its_class() {
    for source in [Source::Stream, Source::Buffer] {
        assert_eq!(FrameError::BadMagic { found: 1 }.class(source), ErrorClass::Protocol);
        assert_eq!(FrameError::UnknownType { tag: 1 }.class(source), ErrorClass::Protocol);
        assert_eq!(
            FrameError::PayloadTooLarge { declared: 1 << 40 }.class(source),
            ErrorClass::Protocol
        );
    }
    assert_eq!(FrameError::Truncated.class(Source::Stream), ErrorClass::Transport);
    assert_eq!(FrameError::Truncated.class(Source::Buffer), ErrorClass::Protocol);
}

#[test]
fn every_failure_on_a_buffer_is_a_protocol_failure() {
    let mut cut = RequestFrame::Push(vec![1, 2, 3]).to_bytes();
    cut.pop();
    let buffers: Vec<Vec<u8>> = vec![
        Vec::new(),
        vec![0x95],
        vec![0x95, 55, 0, 0],
        cut,
        vec![0x00, 55],
        vec![0x95, 1],
        framed(55, 1 << 40, &[]),
    ];
    for buffer in buffers {
        let error = RequestFrame::from_bytes(&buffer).unwrap_err();
        assert_eq!(error.class(Source::Buffer), ErrorClass::Protocol);
    }
    let error = ResponseFrame::from_bytes(&[0x95, 102, 0]).unwrap_err();
    assert_eq!(error, FrameError::Truncated);
    assert_eq!(error.class(Source::Buffer), ErrorClass::Protocol);
}

#[test]
fn an_encoding_is_header_length_field_and_payload_long() {
    assert_eq!(RequestFrame::Pull.to_bytes().len(), 2);
    assert_eq!(ResponseFrame::PushOk.to_bytes().len(), 2);
    for size in [0usize, 1, 77, 4096] {
        assert_eq!(RequestFrame::Push(vec![0; size]).to_bytes().len(), 10 + size);
        assert_eq!(ResponseFrame::PushErr(vec![0; size]).to_bytes().len(), 10 + size);
        assert_eq!(ResponseFrame::PullOk(vec![0; size]).to_bytes().len(), 10 + size);
        assert_eq!(ResponseFrame::PullErr(vec![0; size]).to_bytes().len(), 10 + size);
    }
}

#[test]
fn different_frames_have_different_encodings() {
    let frames = [
        ResponseFrame::PushOk,
        ResponseFrame::PushErr(Vec::new()),
        ResponseFrame::PullOk(Vec::new()),
        ResponseFrame::PullErr(Vec::new()),
        ResponseFrame::PullOk(vec![0]),
        ResponseFrame::PullOk(vec![0, 0]),
        ResponseFrame::PullOk(vec![0, 1]),
    ];
    for (i, a) in frames.iter().enumerate() {
        for (j, b) in frames.iter().enumerate() {
            assert_eq!(a.to_bytes() == b.to_bytes(), i == j);
        }
    }
}

#[test]
fn two_frames_in_a_row_decode_to_the_first() {
    let mut stream = RequestFrame::Push(vec![1, 2]).to_bytes();
    stream.extend_from_slice(&RequestFrame::Pull.to_bytes());
    assert_eq!(RequestFrame::from_bytes(&stream), Ok(RequestFrame::Push(vec![1, 2])));
    assert_eq!(RequestFrame::from_bytes(&stream[12..]), Ok(RequestFrame::Pull));
}

#[test]
fn a_copy_is_the_same_frame() {
    let request = RequestFrame::Push(vec![1, 2, 3]);
    assert_eq!(request.clone(), request);
    assert_eq!(RequestFrame::Pull.clone(), RequestFrame::Pull);
    for response in [
        ResponseFrame::PushOk,
        ResponseFrame::PushErr(vec![1]),
        ResponseFrame::PullOk(vec![2, 3]),
        ResponseFrame::PullErr(Vec::new()),
    ] {
        assert_eq!(response.clone(), response);
    }
}
