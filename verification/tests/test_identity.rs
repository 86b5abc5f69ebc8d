use unison::context::ConnectionContext;
use unison::identity::{
    ChannelDirection, ChannelInfo, ChannelStatus, ChannelUpdate, ServerIdentity,
};
use unison::routing::receive_identity_message;
use unison::server::ProtocolServer;

#[test]
fn test_identity_serialization() {
    let identity = ServerIdentity {
        name: "creo-memories".to_string(),
        version: "1.0.0".to_string(),
        namespace: "club.chronista.sync".to_string(),
        channels: vec![
            ChannelInfo {
                name: "events".to_string(),
                direction: ChannelDirection::ServerToClient,
                lifetime: "persistent".to_string(),
                status: ChannelStatus::Available,
            },
            ChannelInfo {
                name: "query".to_string(),
                direction: ChannelDirection::Bidirectional,
                lifetime: "transient".to_string(),
                status: ChannelStatus::Available,
            },
        ],
        metadata: r#"{"project":"creo-memories","role":"memory-store"}"#.to_string(),
    };

    let payload = identity.to_payload().unwrap();
    let deserialized = ServerIdentity::from_payload(&payload).unwrap();
    assert_eq!(deserialized.name, "creo-memories");
    assert_eq!(deserialized.channels.len(), 2);
    assert_eq!(deserialized.channels[0].status, ChannelStatus::Available);
    assert_eq!(deserialized.channels[1].direction, ChannelDirection::Bidirectional);
    assert_eq!(deserialized.channels[1].lifetime, "transient");
    assert_eq!(deserialized.metadata, identity.metadata);
}

#[test]
fn test_channel_update() {
    let update = ChannelUpdate::Added(ChannelInfo {
        name: "alerts".to_string(),
        direction: ChannelDirection::ServerToClient,
        lifetime: "transient".to_string(),
        status: ChannelStatus::Available,
    });

    let payload = update.to_payload().unwrap();
    let deserialized = ChannelUpdate::from_payload(&payload).unwrap();
    match deserialized {
        ChannelUpdate::Added(info) => assert_eq!(info.name, "alerts"),
        _ => panic!("Expected Added variant"),
    }
}

#[test]
fn test_identity_channel_flow() {
    let identity = ServerIdentity::new("test-server", "1.0.0", "test.ns");
    assert_eq!(identity.name, "test-server");
    assert_eq!(identity.version, "1.0.0");
    assert_eq!(identity.namespace, "test.ns");
    assert!(identity.channels.is_empty());

    let mut identity = identity;
    identity.add_channel(ChannelInfo {
        name: "events".to_string(),
        direction: ChannelDirection::ServerToClient,
        lifetime: "persistent".to_string(),
        status: ChannelStatus::Available,
    });
    assert_eq!(identity.channels.len(), 1);
    assert_eq!(identity.channels[0].name, "events");

    let msg = identity.to_protocol_message().unwrap();
    assert_eq!(msg.method, "__identity");

    let restored = ServerIdentity::from_protocol_message(&msg).unwrap();
    assert_eq!(restored.name, "test-server");
    assert_eq!(restored.version, "1.0.0");
    assert_eq!(restored.channels.len(), 1);
    assert_eq!(restored.channels[0].name, "events");
}

#[test]
fn test_channel_update_serialization() {
    let update = ChannelUpdate::Added(ChannelInfo {
        name: "new-channel".to_string(),
        direction: ChannelDirection::Bidirectional,
        lifetime: "persistent".to_string(),
        status: ChannelStatus::Available,
    });

    let payload = update.to_payload().unwrap();
    let restored = ChannelUpdate::from_payload(&payload).unwrap();

    match restored {
        ChannelUpdate::Added(info) => {
            assert_eq!(info.name, "new-channel");
            assert_eq!(info.direction, ChannelDirection::Bidirectional);
        }
        _ => panic!("Expected ChannelUpdate::Added"),
    }
}

#[test]
fn test_channel_update_removed_round_trip() {
    let update = ChannelUpdate::Removed("old".to_string());
    let payload = update.to_payload().unwrap();
    match ChannelUpdate::from_payload(&payload).unwrap() {
        ChannelUpdate::Removed(name) => assert_eq!(name, "old"),
        _ => panic!("Expected Removed variant"),
    }
}

#[test]
fn test_channel_update_status_changed_round_trip() {
    let update =
        ChannelUpdate::StatusChanged { name: "query".to_string(), status: ChannelStatus::Busy };
    let payload = update.to_payload().unwrap();
    match ChannelUpdate::from_payload(&payload).unwrap() {
        ChannelUpdate::StatusChanged { name, status } => {
            assert_eq!(name, "query");
            assert_eq!(status, ChannelStatus::Busy);
        }
        _ => panic!("Expected StatusChanged variant"),
    }
}

#[test]
fn test_identity_empty_payload_rejected() {
    assert!(ServerIdentity::from_payload(&[1, 2, 3]).is_err());
}

#[test]
fn test_identity_handshake_end_to_end() {
    // A server configured with one ping channel introduces itself; the
    // client reads the identity off the handshake frame and caches it.
    let mut server = ProtocolServer::with_identity("test-server", "0.1.0", "test");
    server.register_channel("ping");
    let identity = server.build_identity();
    let msg = identity.to_protocol_message().unwrap();

    let received = receive_identity_message(&msg).unwrap();
    assert_eq!(received.name, "test-server");
    assert_eq!(received.version, "0.1.0");
    assert_eq!(received.namespace, "test");
    assert_eq!(received.channels.len(), 1);
    assert_eq!(received.channels[0].name, "ping");
    assert_eq!(received.channels[0].direction, ChannelDirection::Bidirectional);
    assert_eq!(received.channels[0].lifetime, "persistent");
    assert_eq!(received.channels[0].status, ChannelStatus::Available);

    let mut ctx = ConnectionContext::new();
    ctx.set_identity(received);
    assert_eq!(ctx.identity().unwrap().name, "test-server");
}

#[test]
fn test_identity_rejected_on_wrong_method() {
    let identity = ServerIdentity::new("s", "1", "ns");
    let mut msg = identity.to_protocol_message().unwrap();
    msg.method = "not_identity".to_string();
    assert!(receive_identity_message(&msg).is_err());
}
