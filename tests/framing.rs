use sozu_core::framing::{frame, parse_frame, FrameError, HEADER_LEN};

#[test]
fn frame_then_parse_gives_the_message_back() {
    let payload = b"{\"id\":\"ID-1\"}".to_vec();
    let mut bytes = frame(&payload);
    assert_eq!(bytes.len(), HEADER_LEN + payload.len());
    assert_eq!(&bytes[..8], &(payload.len() as u64).to_le_bytes());
    bytes.extend_from_slice(b"next");
    let (p, used) = parse_frame(&bytes, 1024).unwrap().unwrap();
    assert_eq!(p, payload);
    assert_eq!(used, HEADER_LEN + payload.len());
}

#[test]
fn incomplete_frames_wait_for_more() {
    let bytes = frame(b"hello");
    assert_eq!(parse_frame(&bytes[..3], 1024), Ok(None));
    assert_eq!(parse_frame(&bytes[..10], 1024), Ok(None));
    assert_eq!(parse_frame(&[], 1024), Ok(None));
}

#[test]
fn empty_message() {
    let bytes = frame(&[]);
    assert_eq!(bytes, vec![0u8; 8]);
    assert_eq!(parse_frame(&bytes, 0), Ok(Some((Vec::new(), 8))));
}

#[test]
fn oversized_frames_are_refused() {
    let bytes = frame(&[7u8; 300]);
    assert_eq!(parse_frame(&bytes, 299), Err(FrameError::TooLarge));
    let mut huge = vec![0xffu8; 8];
    huge.push(1);
    assert_eq!(parse_frame(&huge, usize::MAX), Ok(None));
}
