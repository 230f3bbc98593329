use gridspeak::ChatMessage;
use gridspeak::VoiceSignal;
use gridspeak::directory::ChannelState;
use gridspeak::engine::ApiRequest;
use gridspeak::engine::EngineAction;
use gridspeak::engine::MeshEngine;
use gridspeak::engine::format_chat_line;
use gridspeak::envelope::ChatEnvelope;
use gridspeak::envelope::DispatchKind;
use gridspeak::envelope::IncomingPayload;
use gridspeak::envelope::classify;

fn node(peer: &str, nick: &str) -> MeshEngine {
    let channels = ChannelState::open(vec!["general".to_string()], vec![Vec::new()]);
    MeshEngine::new(peer.to_string(), nick.to_string(), channels)
}

fn msg(id: u128, author: &str, body: &str) -> ChatMessage {
    ChatMessage {
        id,
        author: author.to_string(),
        body: body.to_string(),
        timestamp: "2024-01-01T00:00:00+00:00".to_string(),
        attachments: Vec::new(),
    }
}

fn empty_payload() -> IncomingPayload {
    IncomingPayload { voice_signal: None, channel_list: None, channel_removed: None, chat: None }
}

fn chat_payload(channel: &str, message: ChatMessage) -> IncomingPayload {
    IncomingPayload {
        chat: Some(ChatEnvelope { channel: channel.to_string(), message }),
        ..empty_payload()
    }
}

fn voice(from: &str, kind: &str, data: &str) -> VoiceSignal {
    VoiceSignal { from: from.to_string(), to: None, kind: kind.to_string(), data: data.to_string() }
}

/// The first published chat envelope among the actions.
fn published_chat(actions: &[EngineAction]) -> (String, ChatMessage) {
    for a in actions {
        if let EngineAction::PublishChat { channel, message } = a {
            return (channel.clone(), message.clone());
        }
    }
    panic!("no chat was published");
}

#[test]
fn two_node_exchange() {
    // Node A publishes "hello" to general; the envelope reaches node B.
    let mut a = node("peer-a", "a");
    let mut b = node("peer-b", "b");
    a.handle_connection_opened("peer-b");
    let actions = a.handle_stdin_line("hello");
    let (channel, message) = published_chat(&actions);
    assert_eq!(channel, "general");
    b.handle_gossip(chat_payload(&channel, message));
    let log = b.channels.messages("general");
    assert_eq!(log.len(), 1);
    assert_eq!(log[0].author, "a");
    assert_eq!(log[0].body, "hello");
    let snapshot = a.telemetry.snapshot();
    assert!(snapshot.peers.contains(&"peer-b".to_string()));
}

#[test]
fn channel_creation_propagates() {
    let mut a = node("peer-a", "a");
    let mut b = node("peer-b", "b");
    a.channels.add_channel_local("random", Vec::new()).unwrap();
    let actions = a.handle_command(ApiRequest::BroadcastChannelList);
    let list = match &actions[0] {
        EngineAction::PublishChannelList(list) => list.clone(),
        other => panic!("unexpected action: {:?}", action_name(other)),
    };
    let payload = IncomingPayload { channel_list: Some(list), ..empty_payload() };
    let actions = b.handle_gossip(payload);
    // B is told to load the journal files for the new channels first.
    let unknown = match &actions[0] {
        EngineAction::LoadChannels(names) => names.clone(),
        other => panic!("unexpected action: {:?}", action_name(other)),
    };
    assert_eq!(unknown, vec!["random".to_string()]);
    let entries: Vec<(String, Vec<ChatMessage>)> =
        unknown.into_iter().map(|n| (n, Vec::new())).collect();
    b.channels.merge_channels_from_remote(entries);
    assert!(b.channels.list().contains(&"random".to_string()));
    assert_eq!(b.channels.messages("random").len(), 0);
}

fn action_name(a: &EngineAction) -> &'static str {
    match a {
        EngineAction::PublishChat { .. } => "PublishChat",
        EngineAction::PublishChannelList(_) => "PublishChannelList",
        EngineAction::PublishChannelRemoved(_) => "PublishChannelRemoved",
        EngineAction::PublishVoice(_) => "PublishVoice",
        EngineAction::PersistChannel(_) => "PersistChannel",
        EngineAction::DisplayLine(_) => "DisplayLine",
        EngineAction::AddExplicitPeer(_) => "AddExplicitPeer",
        EngineAction::RemoveExplicitPeer(_) => "RemoveExplicitPeer",
        EngineAction::LoadChannels(_) => "LoadChannels",
    }
}

#[test]
fn redelivery_is_idempotent() {
    let mut a = node("peer-a", "a");
    let mut b = node("peer-b", "b");
    let actions = a.handle_command(ApiRequest::SendMessage {
        channel: "general".to_string(),
        message: msg(77, "a", "once"),
    });
    let (channel, message) = published_chat(&actions);
    for _ in 0..3 {
        b.handle_gossip(chat_payload(&channel, message.clone()));
    }
    let log = b.channels.messages("general");
    assert_eq!(log.len(), 1);
    assert_eq!(log[0].id, 77);
}

#[test]
fn deletion_is_local_only_for_config() {
    let mut a = node("peer-a", "a");
    let mut b = node("peer-b", "b");
    a.channels.add_channel_local("random", Vec::new()).unwrap();
    b.channels.add_channel_local("random", Vec::new()).unwrap();
    // B's config stands apart from its in-memory directory.
    let mut b_config = gridspeak::NodeConfig {
        data_dir: ".".to_string(),
        topic: "gridspeak-global".to_string(),
        bootstrap_nodes: Vec::new(),
        nickname: "b".to_string(),
        channels: vec!["general".to_string(), "random".to_string()],
    };
    a.channels.remove_channel_local("random").unwrap();
    let actions = a.handle_command(ApiRequest::BroadcastChannelRemoved("random".to_string()));
    let name = match &actions[0] {
        EngineAction::PublishChannelRemoved(name) => name.clone(),
        other => panic!("unexpected action: {:?}", action_name(other)),
    };
    let payload = IncomingPayload { channel_removed: Some(name), ..empty_payload() };
    b.handle_gossip(payload);
    assert!(!b.channels.list().contains(&"random".to_string()));
    // The remote removal never touches B's configuration.
    assert!(b_config.channels.contains(&"random".to_string()));
    // Only a local removal would change it.
    b_config.remove_channel("random");
    assert!(!b_config.channels.contains(&"random".to_string()));
}

#[test]
fn root_deletion_is_rejected_and_nothing_is_published() {
    let mut a = node("peer-a", "a");
    let before = a.channels.list();
    let result = a.channels.remove_channel_local("general");
    assert_eq!(result, Err(gridspeak::ChannelError::ProtectedChannel));
    assert_eq!(a.channels.list(), before);
    // The removal failed, so no broadcast command is ever submitted.
}

#[test]
fn voice_relay_with_self_echo_suppression() {
    let mut a = node("peer-a", "a");
    let mut b = node("peer-b", "b");
    let outbound = voice("peer-a", "offer", "abc");
    let actions = a.handle_voice_outbound(outbound);
    let relayed = match &actions[0] {
        EngineAction::PublishVoice(s) => s.clone(),
        other => panic!("unexpected action: {:?}", action_name(other)),
    };
    // B receives the relay and buffers it.
    let payload = IncomingPayload { voice_signal: Some(relayed.clone()), ..empty_payload() };
    b.handle_gossip(payload);
    let ring = b.voice_ring.signals();
    assert_eq!(ring.len(), 1);
    assert_eq!(ring[0].from, "peer-a");
    assert_eq!(ring[0].kind, "offer");
    assert_eq!(ring[0].data, "abc");
    // A receives its own relay back and drops it.
    let echo = IncomingPayload { voice_signal: Some(relayed), ..empty_payload() };
    a.handle_gossip(echo);
    assert_eq!(a.voice_ring.signals().len(), 0);
}

#[test]
fn dispatch_priority_prefers_voice() {
    let payload = IncomingPayload {
        voice_signal: Some(voice("peer-x", "offer", "abc")),
        channel_list: Some(vec!["random".to_string()]),
        channel_removed: None,
        chat: None,
    };
    assert_eq!(classify(&payload), DispatchKind::Voice);
    let mut b = node("peer-b", "b");
    b.handle_gossip(payload);
    // Dispatched as voice: buffered in the ring, and the channel list ignored.
    assert_eq!(b.voice_ring.signals().len(), 1);
    assert!(!b.channels.list().contains(&"random".to_string()));
}

#[test]
fn empty_channel_list_is_a_no_op() {
    let mut b = node("peer-b", "b");
    let payload = IncomingPayload { channel_list: Some(Vec::new()), ..empty_payload() };
    let actions = b.handle_gossip(payload);
    assert!(actions.is_empty());
    assert_eq!(b.channels.list(), vec!["general".to_string()]);
}

#[test]
fn duplicate_names_in_advert_are_loaded_once() {
    let b = node("peer-b", "b");
    let advert = vec![
        "random".to_string(),
        "general".to_string(),
        "random".to_string(),
    ];
    let unknown = b.channels.unknown_channels(&advert);
    assert_eq!(unknown, vec!["random".to_string()]);
}

#[test]
fn unknown_envelopes_are_dropped() {
    let mut b = node("peer-b", "b");
    assert_eq!(classify(&empty_payload()), DispatchKind::Unknown);
    let actions = b.handle_gossip(empty_payload());
    assert!(actions.is_empty());
    assert_eq!(b.channels.list(), vec!["general".to_string()]);
}

#[test]
fn chat_for_unknown_channel_is_dropped_silently() {
    let mut b = node("peer-b", "b");
    let actions = b.handle_gossip(chat_payload("ghost", msg(5, "x", "y")));
    assert!(actions.is_empty());
    assert_eq!(b.channels.total_messages(), 0);
    assert_eq!(b.telemetry.snapshot().last_message, None);
}

#[test]
fn blank_stdin_lines_are_ignored() {
    let mut a = node("peer-a", "a");
    let actions = a.handle_stdin_line("   ");
    assert!(actions.is_empty());
    assert_eq!(a.channels.messages("general").len(), 0);
}

#[test]
fn stdin_line_is_persisted_before_publication() {
    let mut a = node("peer-a", "a");
    let actions = a.handle_stdin_line("hi there");
    assert_eq!(actions.len(), 3);
    assert!(matches!(&actions[0], EngineAction::PersistChannel(c) if c == "general"));
    assert!(matches!(&actions[1], EngineAction::PublishChat { .. }));
    assert!(matches!(&actions[2], EngineAction::DisplayLine(d) if d == "[general] you :: hi there"));
    let log = a.channels.messages("general");
    assert_eq!(log.len(), 1);
    assert_eq!(log[0].author, "a");
    assert_eq!(log[0].body, "hi there");
    let snapshot = a.telemetry.snapshot();
    assert_eq!(snapshot.last_message, Some(log[0].timestamp.clone()));
}

#[test]
fn peer_discovery_updates_telemetry() {
    let mut a = node("peer-a", "a");
    let actions = a.handle_peer_discovered("peer-x");
    assert!(matches!(&actions[0], EngineAction::AddExplicitPeer(p) if p == "peer-x"));
    assert!(a.telemetry.snapshot().peers.contains(&"peer-x".to_string()));
    let actions = a.handle_peer_expired("peer-x");
    assert!(matches!(&actions[0], EngineAction::RemoveExplicitPeer(p) if p == "peer-x"));
    assert!(!a.telemetry.snapshot().peers.contains(&"peer-x".to_string()));
    a.handle_connection_opened("peer-y");
    assert!(a.telemetry.snapshot().peers.contains(&"peer-y".to_string()));
    a.handle_connection_closed("peer-y");
    assert!(!a.telemetry.snapshot().peers.contains(&"peer-y".to_string()));
}

#[test]
fn display_line_format() {
    assert_eq!(format_chat_line("general", "alice", "hi"), "[general] alice :: hi");
}

#[test]
fn chat_ingest_updates_telemetry_and_displays() {
    let mut b = node("peer-b", "b");
    let actions = b.handle_gossip(chat_payload("general", msg(9, "alice", "hello")));
    assert_eq!(actions.len(), 2);
    assert!(matches!(&actions[0], EngineAction::PersistChannel(c) if c == "general"));
    assert!(matches!(&actions[1], EngineAction::DisplayLine(d) if d == "[general] alice :: hello"));
    assert_eq!(
        b.telemetry.snapshot().last_message,
        Some("2024-01-01T00:00:00+00:00".to_string())
    );
}
