use unison::fields::{encode_fields_vec, parse_fields_vec};
use unison::identity::ChannelUpdate;

#[test]
fn test_fields_round_trip() {
    let fields: Vec<Vec<u8>> = vec![vec![], vec![1], vec![2, 3, 4]];
    let bytes = encode_fields_vec(&fields).unwrap();
    let back = parse_fields_vec(&bytes).unwrap();
    assert_eq!(back, fields);
}

#[test]
fn test_fields_empty_buffer_is_empty_list() {
    let back = parse_fields_vec(&[]).unwrap();
    assert!(back.is_empty());
}

#[test]
fn test_fields_exact_bytes() {
    let fields: Vec<Vec<u8>> = vec![vec![0xAA, 0xBB]];
    let bytes = encode_fields_vec(&fields).unwrap();
    assert_eq!(bytes, vec![0, 0, 0, 2, 0xAA, 0xBB]);
}

#[test]
fn test_fields_truncated_rejected() {
    // Header promises 2 bytes; only 1 follows.
    assert!(parse_fields_vec(&[0, 0, 0, 2, 0xAA]).is_err());
    // A bare, short header.
    assert!(parse_fields_vec(&[0, 0]).is_err());
}

#[test]
fn test_update_unknown_tag_rejected() {
    let fields: Vec<Vec<u8>> = vec![vec![9], vec![1, 2]];
    let bytes = encode_fields_vec(&fields).unwrap();
    assert!(ChannelUpdate::from_payload(&bytes).is_err());
}

#[test]
fn test_update_malformed_rejected() {
    assert!(ChannelUpdate::from_payload(&[0, 0, 0, 0]).is_err());
    assert!(ChannelUpdate::from_payload(&[1, 2, 3]).is_err());
}
