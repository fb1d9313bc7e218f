use clipd::error::FrameError;
use clipd::frame::{RequestFrame, ResponseFrame};
use clipd::peek::Peek;

#[test]
fn too_short_to_tell() {
    assert_eq!(RequestFrame::peek_length(&[]), Peek::InsufficientPrefix);
    assert_eq!(RequestFrame::peek_length(&[0x95]), Peek::InsufficientPrefix);
    assert_eq!(ResponseFrame::peek_length(&[0x95]), Peek::InsufficientPrefix);
}

#[test]
fn a_push_needs_its_length_field_to_tell() {
    assert_eq!(RequestFrame::peek_length(&[0x95, 55]), Peek::InsufficientPrefix);
    assert_eq!(
        RequestFrame::peek_length(&[0x95, 55, 0, 0, 0, 0, 0, 0, 0]),
        Peek::InsufficientPrefix
    );
    assert_eq!(
        ResponseFrame::peek_length(&[0x95, 102, 0, 0, 0]),
        Peek::InsufficientPrefix
    );
}

#[test]
fn frames_without_payload_are_complete_after_the_header() {
    assert_eq!(RequestFrame::peek_length(&[0x95, 56]), Peek::Missing(0));
    assert_eq!(ResponseFrame::peek_length(&[0x95, 100]), Peek::Missing(0));
    assert_eq!(RequestFrame::peek_length(&[0x95, 56, 1, 2, 3]), Peek::Missing(0));
}

#[test]
fn the_length_field_tells_how_much_is_missing() {
    assert_eq!(
        RequestFrame::peek_length(&[0x95, 55, 0, 0, 0, 0, 0, 0, 1, 0]),
        Peek::Missing(256)
    );
    assert_eq!(
        RequestFrame::peek_length(&[0x95, 55, 0, 0, 0, 0, 0, 0, 1, 0, 7, 7, 7, 7, 7, 7]),
        Peek::Missing(250)
    );
    assert_eq!(
        ResponseFrame::peek_length(&[0x95, 103, 0, 0, 0, 0, 0, 0xA0, 0, 0]),
        Peek::Missing(10_485_760)
    );
}

#[test]
fn a_whole_frame_misses_nothing() {
    let mut bytes = RequestFrame::Push(vec![1, 2, 3]).to_bytes();
    assert_eq!(RequestFrame::peek_length(&bytes), Peek::Missing(0));
    bytes.push(0);
    assert_eq!(RequestFrame::peek_length(&bytes), Peek::Missing(0));
    bytes.truncate(12);
    assert_eq!(RequestFrame::peek_length(&bytes), Peek::Missing(1));
    assert_eq!(
        RequestFrame::peek_length(&RequestFrame::Push(Vec::new()).to_bytes()),
        Peek::Missing(0)
    );
}

#[test]
fn peeking_applies_the_limit() {
    assert_eq!(
        RequestFrame::peek_length(&[0x95, 55, 0, 0, 0, 0, 0, 0xA0, 0, 1]),
        Peek::Malformed(FrameError::PayloadTooLarge { declared: 10_485_761 })
    );
    assert_eq!(
        ResponseFrame::peek_length(&[0x95, 101, 0x80, 0, 0, 0, 0, 0, 0, 0]),
        Peek::Malformed(FrameError::PayloadTooLarge { declared: 1 << 63 })
    );
}

#[test]
fn peeking_refuses_what_decoding_refuses() {
    assert_eq!(
        RequestFrame::peek_length(&[0x00, 55]),
        Peek::Malformed(FrameError::BadMagic { found: 0 })
    );
    assert_eq!(
        RequestFrame::peek_length(&[0x95, 100]),
        Peek::Malformed(FrameError::UnknownType { tag: 100 })
    );
    assert_eq!(
        ResponseFrame::peek_length(&[0x95, 56]),
        Peek::Malformed(FrameError::UnknownType { tag: 56 })
    );
}

#[test]
fn reading_what_a_peek_asks_for_completes_the_frame() {
    let whole = ResponseFrame::PullOk(b"clipboard".to_vec()).to_bytes();
    let mut have = whole[..10].to_vec();
    match ResponseFrame::peek_length(&have) {
        Peek::Missing(n) => {
            assert_eq!(n, 9);
            have.extend_from_slice(&whole[10..10 + n]);
        }
        other => panic!("{:?}", other),
    }
    assert_eq!(
        ResponseFrame::from_bytes(&have),
        Ok(ResponseFrame::PullOk(b"clipboard".to_vec()))
    );
}
