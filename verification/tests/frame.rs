use sauvequipeut::frame::{
    encode_action_frame, encode_frame, frame_header, frame_length, FrameError, MAX_ACTION_LENGTH,
};

#[test]
fn frame_is_length_then_payload() {
    assert_eq!(encode_frame(b""), Ok(vec![0, 0, 0, 0]));
    assert_eq!(encode_frame(b"ab"), Ok(vec![2, 0, 0, 0, 97, 98]));
    let text = "{\"Action\":{\"MoveTo\":\"Front\"}}";
    let frame = encode_frame(text.as_bytes()).unwrap();
    assert_eq!(frame.len(), 4 + text.len());
    assert_eq!(frame[..4], [29, 0, 0, 0]);
    assert_eq!(&frame[4..], text.as_bytes());
}

#[test]
fn header_is_little_endian() {
    assert_eq!(frame_header(0), [0, 0, 0, 0]);
    assert_eq!(frame_header(1), [1, 0, 0, 0]);
    assert_eq!(frame_header(256), [0, 1, 0, 0]);
    assert_eq!(frame_header(0x0102_0304), [4, 3, 2, 1]);
    assert_eq!(frame_header(u32::MAX), [255, 255, 255, 255]);
    assert_eq!(frame_header(1_048_576), 1_048_576u32.to_le_bytes());
}

#[test]
fn length_is_read_little_endian() {
    assert_eq!(frame_length(&[0, 0, 0, 0]), 0);
    assert_eq!(frame_length(&[29, 0, 0, 0]), 29);
    assert_eq!(frame_length(&[0, 0, 1, 0]), 65536);
    assert_eq!(frame_length(&[4, 3, 2, 1]), 0x0102_0304);
    assert_eq!(frame_length(&[255, 255, 255, 255]), u32::MAX);
    assert_eq!(frame_length(&[0x78, 0x56, 0x34, 0x12]), u32::from_le_bytes([0x78, 0x56, 0x34, 0x12]));
}

#[test]
fn header_and_length_are_inverse() {
    for n in [0u32, 1, 255, 256, 65535, 65536, 16_777_215, 16_777_216, 123_456_789, u32::MAX] {
        assert_eq!(frame_length(&frame_header(n)), n);
    }
    for header in [[1u8, 2, 3, 4], [0, 0, 0, 128], [255, 0, 255, 0]] {
        assert_eq!(frame_header(frame_length(&header)), header);
    }
}

#[test]
fn long_payload_is_framed() {
    let payload = vec![7u8; 70_000];
    let frame = encode_frame(&payload).unwrap();
    assert_eq!(frame[..4], [0x70, 0x11, 0x01, 0x00]);
    assert_eq!(frame.len(), 70_004);
    assert_eq!(frame[4..], payload[..]);
}

#[test]
fn action_of_the_largest_size_is_framed() {
    let payload = vec![1u8; MAX_ACTION_LENGTH];
    let frame = encode_action_frame(&payload).unwrap();
    assert_eq!(frame.len(), MAX_ACTION_LENGTH + 4);
    assert_eq!(frame[..4], [0, 0, 16, 0]);
    assert_eq!(encode_action_frame(b"x"), Ok(vec![1, 0, 0, 0, 120]));
}

#[test]
fn action_over_the_largest_size_is_too_large() {
    assert_eq!(MAX_ACTION_LENGTH, 1_048_576);
    let payload = vec![1u8; MAX_ACTION_LENGTH + 1];
    assert_eq!(encode_action_frame(&payload), Err(FrameError::MessageTooLarge));
    assert!(encode_frame(&payload).is_ok());
}
