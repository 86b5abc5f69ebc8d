use unison::context::{ChannelHandle, ConnectionContext};
use unison::identity::{ChannelDirection, ServerIdentity};

#[test]
fn test_connection_context_creation() {
    let ctx = ConnectionContext::new();
    assert!(ctx.identity().is_none());
    assert!(ctx.channel_names().is_empty());
}

#[test]
fn test_identity_set_and_get() {
    let mut ctx = ConnectionContext::new();
    let identity = ServerIdentity::new("test-server", "0.1.0", "test");
    ctx.set_identity(identity);

    let retrieved = ctx.identity().unwrap();
    assert_eq!(retrieved.name, "test-server");
    assert_eq!(retrieved.version, "0.1.0");
}

#[test]
fn test_channel_registration() {
    let mut ctx = ConnectionContext::new();

    let handle = ChannelHandle {
        channel_name: "events".to_string(),
        stream_id: 1,
        direction: ChannelDirection::ServerToClient,
    };
    ctx.register_channel(handle);

    let retrieved = ctx.get_channel("events").unwrap();
    assert_eq!(retrieved.stream_id, 1);
    assert_eq!(retrieved.direction, ChannelDirection::ServerToClient);

    let names = ctx.channel_names();
    assert_eq!(names, vec!["events"]);
}

#[test]
fn test_channel_removal() {
    let mut ctx = ConnectionContext::new();

    let handle = ChannelHandle {
        channel_name: "control".to_string(),
        stream_id: 2,
        direction: ChannelDirection::Bidirectional,
    };
    ctx.register_channel(handle);

    let removed = ctx.remove_channel("control");
    assert!(removed.is_some());
    assert!(ctx.get_channel("control").is_none());
}

#[test]
fn test_channel_reregistration_replaces() {
    let mut ctx = ConnectionContext::new();
    ctx.register_channel(ChannelHandle {
        channel_name: "data".to_string(),
        stream_id: 1,
        direction: ChannelDirection::ClientToServer,
    });
    ctx.register_channel(ChannelHandle {
        channel_name: "data".to_string(),
        stream_id: 9,
        direction: ChannelDirection::Bidirectional,
    });
    assert_eq!(ctx.channel_names().len(), 1);
    let got = ctx.get_channel("data").unwrap();
    assert_eq!(got.stream_id, 9);
    assert_eq!(got.direction, ChannelDirection::Bidirectional);
}

#[test]
fn test_reserve_channels() {
    let mut ctx = ConnectionContext::new();
    let names = vec!["control".to_string(), "events".to_string()];
    let opened = ctx.reserve_channels(&names);
    assert_eq!(opened, names);
    assert!(ctx.get_channel("control").is_some());
    assert!(ctx.get_channel("events").is_some());
    assert_eq!(ctx.get_channel("events").unwrap().stream_id, 0);
}

#[test]
fn test_connection_ids_differ() {
    let a = ConnectionContext::new();
    let b = ConnectionContext::new();
    assert_ne!(a.connection_id, b.connection_id);
}
