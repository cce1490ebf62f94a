use gossip_network::config::Config;
use gossip_network::crypto::Identity;
use gossip_network::domain::{GossipPayload, NodeId, PeerAddr, SignedMessage, TelemetryData};
use gossip_network::engine::{Engine, EngineEvent};
use gossip_network::transport::{ConnectionEvent, InboundMessage, TransportCommand};

fn create_test_message(identity: &Identity, timestamp_ms: u64) -> SignedMessage {
    identity.sign(GossipPayload {
        telemetry: TelemetryData { timestamp_ms, value_bits: 42.0f64.to_bits() },
        community_id: 1,
    })
}

fn addr(o: [u8; 4], port: u16) -> PeerAddr {
    PeerAddr::v4(o, port)
}

fn engine_with(config: Config) -> Engine {
    Engine::new(Identity::new(), config)
}

#[test]
fn test_engine_prunes_stale_nodes_from_all_maps() {
    let config = Config { node_ttl_ms: 1000, ..Config::default() };
    let mut engine = engine_with(config);

    let peer_identity = Identity::new();
    let peer_addr = addr([127, 0, 0, 1], 1234);
    let message = create_test_message(&peer_identity, 0);
    let effects = engine.handle_inbound_message(InboundMessage { peer_addr, message });
    let state = effects.snapshot.expect("Peer should be added to state");
    assert_eq!(state.nodes.len(), 1);
    assert!(state.nodes.contains_key(&peer_identity.node_id), "Peer should be added to state");

    let effects = engine.handle_inbound_message(InboundMessage {
        peer_addr: addr([127, 0, 0, 1], 9999),
        message: create_test_message(&Identity::new(), 0),
    });
    assert!(!effects.commands.is_empty(), "Engine should know peer address to gossip");

    let final_state = engine.cleanup_stale_nodes(62_000).expect("a snapshot after pruning");
    assert!(final_state.nodes.is_empty(), "Stale peer should be pruned from node_info");

    let effects = engine.handle_inbound_message(InboundMessage {
        peer_addr: addr([127, 0, 0, 1], 9999),
        message: create_test_message(&Identity::new(), 0),
    });
    assert!(effects.commands.is_empty(), "Engine should not gossip to a pruned peer");
}

#[test]
fn test_engine_state_freeze_via_timestamp_attack() {
    let mut engine = engine_with(Config::default());
    let attacker_identity = Identity::new();
    let attacker_addr = addr([127, 0, 0, 1], 6666);

    let future_message = create_test_message(&attacker_identity, u64::MAX);
    let effects = engine
        .handle_inbound_message(InboundMessage { peer_addr: attacker_addr, message: future_message });
    let state = effects.snapshot.unwrap();
    assert_eq!(
        state.nodes.get(&attacker_identity.node_id).unwrap().telemetry.timestamp_ms,
        u64::MAX
    );

    let valid_message = create_test_message(&attacker_identity, 1000);
    let effects = engine
        .handle_inbound_message(InboundMessage { peer_addr: attacker_addr, message: valid_message });
    assert!(effects.snapshot.is_none());
    let final_state = engine.publish_state();
    assert_eq!(
        final_state.nodes.get(&attacker_identity.node_id).unwrap().telemetry.timestamp_ms,
        u64::MAX,
        "Engine should reject the new message as it is older than the future-dated one"
    );
}

#[test]
fn test_engine_routing_table_poisoning() {
    let mut engine = engine_with(Config::default());
    let honest_peer_id = Identity::new();
    let malicious_peer_addr = addr([127, 0, 0, 1], 6666);
    let message_from_a = create_test_message(&honest_peer_id, 1000);
    engine.handle_inbound_message(InboundMessage {
        peer_addr: malicious_peer_addr,
        message: message_from_a,
    });

    let another_peer_id = Identity::new();
    let another_peer_addr = addr([127, 0, 0, 1], 7777);
    let trigger_message = create_test_message(&another_peer_id, 2000);
    let effects = engine.handle_inbound_message(InboundMessage {
        peer_addr: another_peer_addr,
        message: trigger_message,
    });
    let command = *effects.commands.first().expect("Engine should have sent a gossip command");
    let TransportCommand::SendMessage(sent_to, msg) = command;
    assert_eq!(sent_to, malicious_peer_addr, "Address should be the malicious peer's address");
    assert_eq!(msg.originator, another_peer_id.node_id, "Message should be the trigger message");
}

#[test]
fn routing_follows_the_currently_bound_address() {
    let config = Config { gossip_factor: 1, ..Config::default() };
    let mut engine = engine_with(config);
    let x = Identity::new();
    let y = Identity::new();
    engine.handle_inbound_message(InboundMessage {
        peer_addr: addr([192, 0, 2, 1], 6666),
        message: create_test_message(&x, 10),
    });
    let effects = engine.handle_inbound_message(InboundMessage {
        peer_addr: addr([192, 0, 2, 2], 7777),
        message: create_test_message(&y, 20),
    });
    assert_eq!(effects.commands.len(), 1);
    let TransportCommand::SendMessage(to, msg) = effects.commands[0];
    assert_eq!(to, addr([192, 0, 2, 1], 6666));
    assert_eq!(msg, create_test_message(&y, 20));
}

#[test]
fn invalid_signature_is_discarded_without_effects() {
    let mut engine = engine_with(Config::default());
    let peer = Identity::new();
    let mut message = create_test_message(&peer, 1000);
    message.signature[10] ^= 0x01;
    let effects = engine.handle_inbound_message(InboundMessage {
        peer_addr: addr([10, 0, 0, 2], 5000),
        message,
    });
    assert!(effects.snapshot.is_none());
    assert!(effects.animation.is_none());
    assert!(effects.commands.is_empty());
    assert!(engine.publish_state().nodes.is_empty());
}

#[test]
fn ttl_prune_clears_address_and_stops_fan_out() {
    let config = Config { node_ttl_ms: 1000, cleanup_interval_ms: 500, gossip_factor: 1, ..Config::default() };
    let mut engine = engine_with(config);
    let x = Identity::new();
    let t = 50_000u64;
    engine.handle_inbound_message(InboundMessage {
        peer_addr: addr([10, 0, 0, 7], 7000),
        message: create_test_message(&x, t),
    });
    // Not yet stale at t + 1 s, nor when future-dated.
    assert!(engine.cleanup_stale_nodes(t + 1000).is_none());
    assert!(engine.cleanup_stale_nodes(t - 5000).is_none());
    let state = engine.cleanup_stale_nodes(t + 2000).expect("X is pruned");
    assert!(!state.nodes.contains_key(&x.node_id));
    // A fan-out of the node's own message finds nobody to send to.
    let effects = engine.gossip_self_telemetry(t + 2500, 1.5f64.to_bits());
    assert!(effects.commands.is_empty());
}

#[test]
fn own_entry_is_never_pruned() {
    let config = Config { node_ttl_ms: 10, ..Config::default() };
    let mut engine = engine_with(config);
    let own = engine.node_id();
    engine.gossip_self_telemetry(100, 0);
    assert!(engine.cleanup_stale_nodes(1_000_000).is_none());
    assert!(engine.publish_state().nodes.contains_key(&own));
}

#[test]
fn gossip_tick_signs_stores_and_pokes_bootstrap_peers() {
    let boot = addr([10, 0, 0, 1], 5000);
    let config = Config { bootstrap_peers: vec![boot], community_id: 7, ..Config::default() };
    let mut engine = engine_with(config);
    let own = engine.node_id();
    let effects = engine.gossip_self_telemetry(1234, 2.0f64.to_bits());
    let snapshot = effects.snapshot.unwrap();
    assert_eq!(snapshot.self_id, Some(own));
    let info = snapshot.nodes.get(&own).unwrap();
    assert_eq!(info.telemetry.timestamp_ms, 1234);
    assert_eq!(info.community_id, 7);
    assert_eq!(effects.commands.len(), 1);
    let TransportCommand::SendMessage(to, msg) = effects.commands[0];
    assert_eq!(to, boot);
    assert_eq!(msg.originator, own);
    assert_eq!(msg.message.community_id, 7);
    assert!(msg.verify().is_ok());
}

#[test]
fn newer_message_replaces_and_equal_timestamp_does_not() {
    let mut engine = engine_with(Config::default());
    let x = Identity::new();
    let from = addr([10, 0, 0, 3], 3000);
    assert!(engine
        .handle_inbound_message(InboundMessage { peer_addr: from, message: create_test_message(&x, 5) })
        .snapshot
        .is_some());
    let same = engine
        .handle_inbound_message(InboundMessage { peer_addr: from, message: create_test_message(&x, 5) });
    assert!(same.snapshot.is_none() && same.commands.is_empty());
    let newer = engine
        .handle_inbound_message(InboundMessage { peer_addr: from, message: create_test_message(&x, 6) });
    let state = newer.snapshot.unwrap();
    assert_eq!(state.nodes.get(&x.node_id).unwrap().telemetry.timestamp_ms, 6);
}

#[test]
fn animation_names_the_relaying_node() {
    let mut engine = engine_with(Config::default());
    let relay = Identity::new();
    let far = Identity::new();
    let relay_addr = addr([10, 0, 0, 4], 4000);
    let first = engine.handle_inbound_message(InboundMessage {
        peer_addr: relay_addr,
        message: create_test_message(&relay, 1),
    });
    assert!(first.animation.is_none());
    let second = engine.handle_inbound_message(InboundMessage {
        peer_addr: relay_addr,
        message: create_test_message(&far, 1),
    });
    let hop = second.animation.unwrap();
    assert!(hop == relay.node_id || hop == far.node_id);
    assert_eq!(hop, relay.node_id);
}

#[test]
fn connection_events_drive_active_connections() {
    let mut engine = engine_with(Config::default());
    let x = Identity::new();
    let x_addr = addr([10, 0, 0, 5], 5555);
    engine.handle_inbound_message(InboundMessage { peer_addr: x_addr, message: create_test_message(&x, 1) });
    let up = engine
        .handle_connection_event(ConnectionEvent::PeerConnected { peer_addr: x_addr })
        .unwrap();
    assert_eq!(up.active_connections, vec![x.node_id]);
    assert!(engine
        .handle_connection_event(ConnectionEvent::PeerConnected { peer_addr: x_addr })
        .is_none());
    let unknown = addr([10, 0, 0, 6], 6666);
    let s = engine
        .handle_connection_event(ConnectionEvent::PeerConnected { peer_addr: unknown })
        .unwrap();
    assert_eq!(s.active_connections, vec![x.node_id]);
    let down = engine
        .handle_connection_event(ConnectionEvent::PeerDisconnected { peer_addr: x_addr })
        .unwrap();
    assert!(down.active_connections.is_empty());
    assert!(engine
        .handle_connection_event(ConnectionEvent::PeerDisconnected { peer_addr: x_addr })
        .is_none());
}

#[test]
fn every_snapshot_names_this_node() {
    let mut engine = engine_with(Config::default());
    let own = engine.node_id();
    let peer = Identity::new();
    let events = vec![
        EngineEvent::GossipTick { timestamp_ms: 10, value_bits: 0 },
        EngineEvent::Inbound(InboundMessage {
            peer_addr: addr([10, 0, 0, 8], 8),
            message: create_test_message(&peer, 10),
        }),
        EngineEvent::Connection(ConnectionEvent::PeerConnected { peer_addr: addr([10, 0, 0, 8], 8) }),
        EngineEvent::CleanupTick { now_ms: 10_000_000 },
    ];
    let mut seen = 0;
    for event in events {
        if let Some(s) = engine.handle_event(event).snapshot {
            assert_eq!(s.self_id, Some(own));
            seen += 1;
        }
    }
    assert_eq!(seen, 4);
}

#[test]
fn default_config_matches_documented_values() {
    let c = Config::default();
    assert_eq!(c.identity_path, "identity.key");
    assert_eq!(c.p2p_addr, addr([127, 0, 0, 1], 5000));
    assert!(c.bootstrap_peers.is_empty());
    assert_eq!(c.gossip_interval_ms, 5000);
    assert_eq!(c.gossip_factor, 2);
    assert_eq!(c.node_ttl_ms, 300_000);
    assert_eq!(c.cleanup_interval_ms, 60_000);
    assert_eq!(c.community_id, 0);
    assert!(c.visualizer.is_none());
    let _: NodeId = NodeId([0; 32]);
}
