use unison::routing::{
    handshake_decision, handshake_transition, make_channel_open_message, make_channel_open_method,
    parse_channel_method, generate_request_id, HandshakeDecision, StreamPhase,
};
use unison::server::ProtocolServer;
use unison::MessageType;

#[test]
fn test_server_creation() {
    let server = ProtocolServer::new();
    assert!(!server.has_channel_handler("ping"));
    assert!(server.list_services().is_empty());
}

#[test]
fn test_server_lifecycle() {
    let mut server = ProtocolServer::new();

    server.register_channel("ping");

    assert!(server.has_channel_handler("ping"));
    assert!(!server.has_channel_handler("pong"));

    assert!(server.list_services().is_empty());
}

#[test]
fn test_server_services() {
    let mut server = ProtocolServer::new();
    server.register_service("sync");
    server.register_service("sync");
    server.register_service("audio");
    assert_eq!(server.list_services(), vec!["sync".to_string(), "audio".to_string()]);
}

#[test]
fn test_build_identity_lists_registered_channels() {
    let mut server = ProtocolServer::with_identity("srv", "2.0.0", "ns");
    server.register_channel("a");
    server.register_channel("b");
    let identity = server.build_identity();
    assert_eq!(identity.name, "srv");
    assert_eq!(identity.version, "2.0.0");
    assert_eq!(identity.namespace, "ns");
    assert_eq!(identity.channels.len(), 2);
    assert_eq!(identity.channels[0].name, "a");
    assert_eq!(identity.channels[1].name, "b");
}

#[test]
fn test_channel_open_method_round_trip() {
    let method = make_channel_open_method("ping");
    assert_eq!(method, "__channel:ping");
    assert_eq!(parse_channel_method(&method).unwrap(), "ping");
    assert!(parse_channel_method("ping").is_none());
    assert!(parse_channel_method("__identity").is_none());
    assert_eq!(parse_channel_method("__channel:").unwrap(), "");
}

#[test]
fn test_channel_open_message_shape() {
    let msg = make_channel_open_message("bench", 17);
    assert_eq!(msg.method, "__channel:bench");
    assert_eq!(msg.id, 17);
    assert_eq!(msg.msg_type, MessageType::Request);
    assert!(msg.payload.is_empty());
}

#[test]
fn test_handshake_dispatch() {
    let registered = vec!["ping".to_string(), "bench".to_string()];

    match handshake_decision("__channel:ping", &registered) {
        HandshakeDecision::OpenChannel(name) => assert_eq!(name, "ping"),
        _ => panic!("expected open"),
    }
    match handshake_decision("__channel:does_not_exist", &registered) {
        HandshakeDecision::UnknownChannel(name) => assert_eq!(name, "does_not_exist"),
        _ => panic!("expected unknown channel"),
    }
    assert!(matches!(handshake_decision("hello", &registered), HandshakeDecision::Reject));
    assert!(matches!(
        handshake_decision("__identity", &registered),
        HandshakeDecision::Reject
    ));
}

#[test]
fn test_handshake_stream_phases() {
    let registered = vec!["ping".to_string()];
    let open = handshake_decision("__channel:ping", &registered);
    assert_eq!(handshake_transition(&open), StreamPhase::Registered);
    let unknown = handshake_decision("__channel:nope", &registered);
    assert_eq!(handshake_transition(&unknown), StreamPhase::Closed);
    let reject = handshake_decision("nope", &registered);
    assert_eq!(handshake_transition(&reject), StreamPhase::Closed);
}

#[test]
fn test_generate_request_id_monotonic() {
    let mut counter: u64 = 1;
    let a = generate_request_id(&mut counter);
    let b = generate_request_id(&mut counter);
    let c = generate_request_id(&mut counter);
    assert_eq!((a, b, c), (1, 2, 3));
    assert_eq!(counter, 4);
}
