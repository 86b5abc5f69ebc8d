use unison::message::ProtocolMessage;
use unison::MessageType;

#[test]
fn test_message_codec_round_trip() {
    let msg = ProtocolMessage::new_request(7, String::from("ping"), vec![1, 2, 3]);
    let bytes = msg.into_frame().unwrap();
    let back = ProtocolMessage::from_frame(&bytes).unwrap();
    assert_eq!(back.id, 7);
    assert_eq!(back.method, "ping");
    assert_eq!(back.msg_type, MessageType::Request);
    assert_eq!(back.payload, vec![1, 2, 3]);
}

#[test]
fn test_message_codec_non_ascii_method() {
    let msg = ProtocolMessage::new_event(String::from("méthode—λ"), vec![0xFF, 0x00]);
    let bytes = msg.into_frame().unwrap();
    let back = ProtocolMessage::from_frame(&bytes).unwrap();
    assert_eq!(back.id, 0);
    assert_eq!(back.method, "méthode—λ");
    assert_eq!(back.msg_type, MessageType::Event);
    assert_eq!(back.payload, vec![0xFF, 0x00]);
}

#[test]
fn test_message_codec_exact_bytes() {
    let msg = ProtocolMessage::new_response(1, String::from("a"), vec![9]);
    let bytes = msg.into_frame().unwrap();
    // id (8) | kind (1) | method len (4) | method | payload len (4) | payload
    assert_eq!(
        bytes,
        vec![0, 0, 0, 0, 0, 0, 0, 1, 1, 0, 0, 0, 1, b'a', 0, 0, 0, 1, 9]
    );
}

#[test]
fn test_message_kinds_tag_values() {
    for (kind, tag) in [
        (MessageType::Request, 0u8),
        (MessageType::Response, 1),
        (MessageType::Event, 2),
        (MessageType::Error, 3),
    ] {
        let msg = ProtocolMessage { id: 5, method: String::from("m"), msg_type: kind, payload: vec![] };
        let bytes = msg.into_frame().unwrap();
        assert_eq!(bytes[8], tag);
        let back = ProtocolMessage::from_frame(&bytes).unwrap();
        assert_eq!(back.msg_type, kind);
    }
}

#[test]
fn test_message_unknown_kind_rejected() {
    let msg = ProtocolMessage::new_request(1, String::from("m"), vec![]);
    let mut bytes = msg.into_frame().unwrap();
    bytes[8] = 9;
    assert!(ProtocolMessage::from_frame(&bytes).is_err());
}

#[test]
fn test_message_too_short_rejected() {
    assert!(ProtocolMessage::from_frame(&[]).is_err());
    assert!(ProtocolMessage::from_frame(&[0u8; 16]).is_err());
}

#[test]
fn test_message_length_mismatch_rejected() {
    let msg = ProtocolMessage::new_request(1, String::from("m"), vec![1, 2]);
    let mut bytes = msg.into_frame().unwrap();
    bytes.push(0);
    assert!(ProtocolMessage::from_frame(&bytes).is_err());
}

#[test]
fn test_message_bad_utf8_method_rejected() {
    // id 0 | kind 0 | method len 1 | invalid utf-8 byte | payload len 0
    let bytes = vec![0, 0, 0, 0, 0, 0, 0, 0, 0, 0, 0, 0, 1, 0xFF, 0, 0, 0, 0];
    assert!(ProtocolMessage::from_frame(&bytes).is_err());
}

#[test]
fn test_new_event_uses_id_zero() {
    let msg = ProtocolMessage::new_event(String::from("tick"), vec![]);
    assert_eq!(msg.id, 0);
    assert_eq!(msg.msg_type, MessageType::Event);
}

#[test]
fn test_new_error_carries_id() {
    let msg = ProtocolMessage::new_error(42, String::from("boom"), vec![1]);
    assert_eq!(msg.id, 42);
    assert_eq!(msg.msg_type, MessageType::Error);
}

#[test]
fn test_json_payload_round_trip() {
    let value: serde_json::Value =
        serde_json::from_str(r#"{"message":"hello","sequence":1}"#).unwrap();
    let msg =
        ProtocolMessage::new_with_json(3, String::from("ping"), MessageType::Request, &value)
            .unwrap();
    assert_eq!(msg.id, 3);
    assert_eq!(msg.method, "ping");
    let back = msg.payload_as_value().unwrap();
    assert_eq!(back, value);
    assert_eq!(back.get("sequence").and_then(|v| v.as_i64()), Some(1));
}

#[test]
fn test_payload_as_value_rejects_non_json() {
    let msg = ProtocolMessage::new_request(1, String::from("m"), vec![0xFF, 0xFE]);
    assert!(msg.payload_as_value().is_err());
}
