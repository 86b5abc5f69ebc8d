use unison::message::ProtocolMessage;
use unison::stream::{decode_frame_bytes, encode_protocol_frame, encode_raw_frame, StreamHandle};
use unison::{MessageType, NetworkError, TypedFrame};

#[test]
fn test_protocol_send_path_round_trip() {
    let msg = ProtocolMessage::new_request(11, String::from("echo"), vec![4, 5, 6]);
    let wire = encode_protocol_frame(&msg).unwrap();
    match decode_frame_bytes(&wire).unwrap() {
        TypedFrame::Protocol(back) => {
            assert_eq!(back.id, 11);
            assert_eq!(back.method, "echo");
            assert_eq!(back.msg_type, MessageType::Request);
            assert_eq!(back.payload, vec![4, 5, 6]);
        }
        TypedFrame::Raw(_) => panic!("expected a protocol frame"),
    }
}

#[test]
fn test_raw_send_path_round_trip() {
    let data = vec![0xDEu8, 0xAD, 0xBE, 0xEF];
    let wire = encode_raw_frame(&data).unwrap();
    match decode_frame_bytes(&wire).unwrap() {
        TypedFrame::Raw(back) => assert_eq!(back, data),
        TypedFrame::Protocol(_) => panic!("expected a raw frame"),
    }
}

#[test]
fn test_unknown_tag_rejected() {
    // A well-formed frame whose tag is neither protocol nor raw.
    let wire = vec![0, 0, 0, 2, 0x07, 42];
    assert!(decode_frame_bytes(&wire).is_err());
}

#[test]
fn test_garbled_protocol_frame_rejected() {
    // Protocol tag, but the payload is no message encoding.
    let wire = vec![0, 0, 0, 3, 0x00, 1, 2];
    assert!(decode_frame_bytes(&wire).is_err());
}

#[test]
fn test_stream_handle_fields() {
    let h = StreamHandle {
        stream_id: 3,
        method: "__channel:audio".to_string(),
        created_at_millis: 1000,
    };
    assert_eq!(h.stream_id, 3);
    assert_eq!(h.method, "__channel:audio");
}

#[test]
fn test_error_messages_have_text() {
    let e = NetworkError::Timeout;
    assert!(!e.message().is_empty());
    let e2 = NetworkError::HandlerNotFound { method: "x".to_string() };
    assert!(e2.message().contains("x"));
}
