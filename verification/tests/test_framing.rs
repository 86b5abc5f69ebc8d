use unison::framing::{
    frame_len_from_header, read_typed_frame, u32_from_be_slice, u32_to_be, u64_from_be_slice,
    u64_to_be, write_typed_frame, FRAME_TYPE_PROTOCOL, FRAME_TYPE_RAW,
};
use unison::MAX_FRAME_SIZE;

#[test]
fn test_u32_be_round_trip() {
    for x in [0u32, 1, 0xff, 0x1234_5678, u32::MAX] {
        let bytes = u32_to_be(x);
        assert_eq!(bytes.len(), 4);
        assert_eq!(u32_from_be_slice(&bytes), x);
    }
    assert_eq!(u32_to_be(0x0102_0304), vec![1, 2, 3, 4]);
}

#[test]
fn test_u64_be_round_trip() {
    for x in [0u64, 1, 0xff, 0x0102_0304_0506_0708, u64::MAX] {
        let bytes = u64_to_be(x);
        assert_eq!(bytes.len(), 8);
        assert_eq!(u64_from_be_slice(&bytes), x);
    }
    assert_eq!(u64_to_be(0x0102_0304_0506_0708), vec![1, 2, 3, 4, 5, 6, 7, 8]);
}

#[test]
fn test_frame_round_trip_protocol_tag() {
    let payload = vec![10u8, 20, 30];
    let frame = write_typed_frame(FRAME_TYPE_PROTOCOL, &payload).unwrap();
    assert_eq!(frame, vec![0, 0, 0, 4, 0x00, 10, 20, 30]);
    let (tag, read_back) = read_typed_frame(&frame).unwrap();
    assert_eq!(tag, FRAME_TYPE_PROTOCOL);
    assert_eq!(read_back, payload);
}

#[test]
fn test_frame_round_trip_raw_tag() {
    let payload = vec![0xDEu8, 0xAD, 0xBE, 0xEF];
    let frame = write_typed_frame(FRAME_TYPE_RAW, &payload).unwrap();
    let (tag, read_back) = read_typed_frame(&frame).unwrap();
    assert_eq!(tag, FRAME_TYPE_RAW);
    assert_eq!(read_back, payload);
}

#[test]
fn test_frame_round_trip_empty_payload() {
    let frame = write_typed_frame(FRAME_TYPE_PROTOCOL, &[]).unwrap();
    assert_eq!(frame, vec![0, 0, 0, 1, 0x00]);
    let (tag, payload) = read_typed_frame(&frame).unwrap();
    assert_eq!(tag, FRAME_TYPE_PROTOCOL);
    assert!(payload.is_empty());
}

#[test]
fn test_frame_round_trip_largest_payload() {
    let payload = vec![0x5Au8; MAX_FRAME_SIZE - 1];
    let frame = write_typed_frame(FRAME_TYPE_RAW, &payload).unwrap();
    let (tag, read_back) = read_typed_frame(&frame).unwrap();
    assert_eq!(tag, FRAME_TYPE_RAW);
    assert_eq!(read_back, payload);
}

#[test]
fn test_oversized_payload_rejected_at_writer() {
    let payload = vec![0u8; MAX_FRAME_SIZE];
    assert!(write_typed_frame(FRAME_TYPE_RAW, &payload).is_err());
}

#[test]
fn test_oversized_header_rejected_before_payload() {
    // 16 MiB announced: rejected from the 4 header bytes alone.
    let header = u32_to_be(16 * 1024 * 1024);
    assert!(frame_len_from_header(&header).is_err());
    let huge = u32_to_be(u32::MAX);
    assert!(frame_len_from_header(&huge).is_err());
}

#[test]
fn test_zero_length_header_rejected() {
    let header = u32_to_be(0);
    assert!(frame_len_from_header(&header).is_err());
}

#[test]
fn test_valid_header_accepted() {
    let header = u32_to_be(5);
    assert_eq!(frame_len_from_header(&header).unwrap(), 5);
    let max = u32_to_be(MAX_FRAME_SIZE as u32);
    assert_eq!(frame_len_from_header(&max).unwrap(), MAX_FRAME_SIZE);
}

#[test]
fn test_truncated_frame_rejected() {
    assert!(read_typed_frame(&[]).is_err());
    assert!(read_typed_frame(&[0, 0, 0, 2]).is_err());
    // Header says 3 bytes follow, only 2 do.
    assert!(read_typed_frame(&[0, 0, 0, 3, 0x00, 7]).is_err());
    // Header says 1 byte follows, 2 do.
    assert!(read_typed_frame(&[0, 0, 0, 1, 0x00, 7]).is_err());
}
