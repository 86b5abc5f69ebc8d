use unison::channel::{decode_typed_frame, interpret_response, ChannelState, RouteAction};
use unison::message::ProtocolMessage;
use unison::{MessageType, TypedFrame};

fn response(id: u64, payload: Vec<u8>) -> TypedFrame {
    TypedFrame::Protocol(ProtocolMessage::new_response(id, String::from("m"), payload))
}

#[test]
fn test_request_ids_distinct_and_increasing() {
    let mut ch = ChannelState::new();
    let mut ids = Vec::new();
    for _ in 0..100 {
        ids.push(ch.begin_request().unwrap());
    }
    for i in 0..ids.len() {
        for j in (i + 1)..ids.len() {
            assert!(ids[i] < ids[j]);
            assert_ne!(ids[i], ids[j]);
        }
    }
    assert_eq!(ids[0], 1);
    assert_eq!(ids[99], 100);
}

#[test]
fn test_correlation_out_of_order() {
    // One hundred concurrent requests; the peer answers in reverse
    // order; every answer resolves exactly the request with its id.
    let mut ch = ChannelState::new();
    let mut ids = Vec::new();
    for i in 0..100u64 {
        let id = ch.begin_request().unwrap();
        ids.push((id, vec![i as u8]));
    }
    for (id, payload) in ids.iter().rev() {
        match ch.route_frame(response(*id, payload.clone())) {
            RouteAction::DeliverResponse(msg) => {
                assert_eq!(msg.id, *id);
                assert_eq!(&msg.payload, payload);
                assert_eq!(interpret_response(msg).unwrap(), *payload);
            }
            _ => panic!("expected delivery for id {}", id),
        }
    }
}

#[test]
fn test_response_delivered_at_most_once() {
    let mut ch = ChannelState::new();
    let id = ch.begin_request().unwrap();
    assert!(matches!(
        ch.route_frame(response(id, vec![1])),
        RouteAction::DeliverResponse(_)
    ));
    assert!(matches!(
        ch.route_frame(response(id, vec![2])),
        RouteAction::DropUncorrelated(_)
    ));
}

#[test]
fn test_uncorrelated_response_dropped() {
    let mut ch = ChannelState::new();
    assert!(matches!(
        ch.route_frame(response(99, vec![])),
        RouteAction::DropUncorrelated(_)
    ));
}

#[test]
fn test_response_id_zero_is_event() {
    let mut ch = ChannelState::new();
    assert!(matches!(ch.route_frame(response(0, vec![])), RouteAction::PushEvent(_)));
}

#[test]
fn test_error_resolves_pending_request() {
    let mut ch = ChannelState::new();
    let id = ch.begin_request().unwrap();
    let err = TypedFrame::Protocol(ProtocolMessage::new_error(
        id,
        String::from("m"),
        br#"{"error":"denied"}"#.to_vec(),
    ));
    match ch.route_frame(err) {
        RouteAction::DeliverResponse(msg) => {
            assert_eq!(msg.msg_type, MessageType::Error);
            // The failure carries the peer's error payload, decoded.
            match interpret_response(msg) {
                Err(unison::NetworkError::Protocol(text)) => {
                    assert_eq!(text, r#"request error: {"error":"denied"}"#);
                }
                other => panic!("expected a protocol error, got {:?}", other),
            }
        }
        _ => panic!("expected delivery"),
    }
}

#[test]
fn test_error_with_non_utf8_payload() {
    let mut ch = ChannelState::new();
    let id = ch.begin_request().unwrap();
    let err = TypedFrame::Protocol(ProtocolMessage::new_error(id, String::from("m"), vec![0xFF]));
    match ch.route_frame(err) {
        RouteAction::DeliverResponse(msg) => match interpret_response(msg) {
            Err(unison::NetworkError::Protocol(text)) => {
                assert_eq!(text, "request error: payload is not utf-8");
            }
            other => panic!("expected a protocol error, got {:?}", other),
        },
        _ => panic!("expected delivery"),
    }
}

#[test]
fn test_uncorrelated_error_is_event() {
    let mut ch = ChannelState::new();
    let err = TypedFrame::Protocol(ProtocolMessage::new_error(5, String::from("m"), vec![]));
    assert!(matches!(ch.route_frame(err), RouteAction::PushEvent(_)));
}

#[test]
fn test_requests_and_events_are_queued() {
    let mut ch = ChannelState::new();
    let req = TypedFrame::Protocol(ProtocolMessage::new_request(9, String::from("m"), vec![]));
    assert!(matches!(ch.route_frame(req), RouteAction::PushEvent(_)));
    let evt = TypedFrame::Protocol(ProtocolMessage::new_event(String::from("m"), vec![]));
    assert!(matches!(ch.route_frame(evt), RouteAction::PushEvent(_)));
}

#[test]
fn test_timeout_then_late_response() {
    // A request times out: its entry stays; the late response is
    // silently dropped and retires the entry; the channel stays usable.
    let mut ch = ChannelState::new();
    let id = ch.begin_request().unwrap();
    ch.abandon_request(id);
    assert!(matches!(ch.route_frame(response(id, vec![1])), RouteAction::DropLate(_)));
    assert!(matches!(
        ch.route_frame(response(id, vec![1])),
        RouteAction::DropUncorrelated(_)
    ));
    let id2 = ch.begin_request().unwrap();
    assert!(id2 > id);
    assert!(matches!(
        ch.route_frame(response(id2, vec![2])),
        RouteAction::DeliverResponse(_)
    ));
}

#[test]
fn test_close_fails_waiting_requests() {
    let mut ch = ChannelState::new();
    let a = ch.begin_request().unwrap();
    let b = ch.begin_request().unwrap();
    let c = ch.begin_request().unwrap();
    ch.abandon_request(b);
    let failed = ch.close();
    assert_eq!(failed, vec![a, c]);
    assert!(matches!(ch.begin_request(), Err(unison::NetworkError::NotConnected)));
}

#[test]
fn test_fail_all_pending_returns_waiting_ids() {
    let mut ch = ChannelState::new();
    let a = ch.begin_request().unwrap();
    let b = ch.begin_request().unwrap();
    let failed = ch.fail_all_pending();
    assert_eq!(failed, vec![a, b]);
    // Everything pending is gone; a response for a failed id is dropped.
    assert!(matches!(
        ch.route_frame(response(a, vec![])),
        RouteAction::DropUncorrelated(_)
    ));
}

#[test]
fn test_raw_frames_go_to_raw_queue() {
    let mut ch = ChannelState::new();
    let data = vec![0xDEu8, 0xAD, 0xBE, 0xEF];
    match ch.route_frame(TypedFrame::Raw(data.clone())) {
        RouteAction::PushRaw(got) => assert_eq!(got, data),
        _ => panic!("expected raw push"),
    }
}

#[test]
fn test_decode_typed_frame_tags() {
    let msg = ProtocolMessage::new_event(String::from("m"), vec![1]);
    let bytes = msg.into_frame().unwrap();
    assert!(matches!(decode_typed_frame(0, bytes), Ok(TypedFrame::Protocol(_))));
    assert!(matches!(decode_typed_frame(1, vec![1, 2]), Ok(TypedFrame::Raw(_))));
    assert!(decode_typed_frame(2, vec![]).is_err());
    assert!(decode_typed_frame(0xFF, vec![]).is_err());
}

#[test]
fn test_ping_scenario() {
    // The request/response exchange of a ping channel, at the protocol
    // level: the client sends a request, the server echoes a response
    // with the same id, and the client's demultiplexer resolves it.
    let mut client = ChannelState::new();
    let req_value: serde_json::Value =
        serde_json::from_str(r#"{"message":"hello","sequence":1}"#).unwrap();
    let id = client.begin_request().unwrap();
    let request =
        ProtocolMessage::new_with_json(id, String::from("ping"), MessageType::Request, &req_value)
            .unwrap();
    let wire = request.into_frame().unwrap();

    // Server side: decode, inspect, respond with the same id.
    let received = ProtocolMessage::from_frame(&wire).unwrap();
    assert_eq!(received.method, "ping");
    assert_eq!(received.msg_type, MessageType::Request);
    let req_back = received.payload_as_value().unwrap();
    assert_eq!(req_back.get("message").and_then(|v| v.as_str()), Some("hello"));
    let resp_value: serde_json::Value = serde_json::from_str(
        r#"{"message":"Pong: hello","sequence":1,"server_info":"unison"}"#,
    )
    .unwrap();
    let resp = ProtocolMessage::new_with_json(
        received.id,
        String::from("ping"),
        MessageType::Response,
        &resp_value,
    )
    .unwrap();
    let resp_wire = resp.into_frame().unwrap();

    // Client side: route the response, check the correlated payload.
    let resp_received = ProtocolMessage::from_frame(&resp_wire).unwrap();
    match client.route_frame(TypedFrame::Protocol(resp_received)) {
        RouteAction::DeliverResponse(msg) => {
            let payload = interpret_response(msg).unwrap();
            let value: serde_json::Value = serde_json::from_slice(&payload).unwrap();
            assert_eq!(value.get("sequence").and_then(|v| v.as_i64()), Some(1));
            assert_eq!(
                value.get("message").and_then(|v| v.as_str()),
                Some("Pong: hello")
            );
        }
        _ => panic!("expected delivery"),
    }
}

#[test]
fn test_channels_are_independent() {
    // A stalled channel does not hold another back: requests pending on
    // one channel leave a second channel's correlation untouched.
    let mut stalled = ChannelState::new();
    let mut live = ChannelState::new();
    let _never_answered = stalled.begin_request().unwrap();
    for i in 0..10u64 {
        let id = live.begin_request().unwrap();
        match live.route_frame(response(id, vec![i as u8])) {
            RouteAction::DeliverResponse(msg) => assert_eq!(msg.payload, vec![i as u8]),
            _ => panic!("expected delivery"),
        }
    }
    // The stalled channel still holds its pending request.
    assert!(matches!(
        stalled.route_frame(response(1, vec![])),
        RouteAction::DeliverResponse(_)
    ));
}
