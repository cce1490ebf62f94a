use gossip_network::domain::{NetworkState, NodeId, NodeInfo, TelemetryData};
use gossip_network::feed::{calculate_delta, Feed, UpdatePayload, WebSocketMessage};

fn create_node_id(id: u8) -> NodeId {
    let mut bytes = [0u8; 32];
    bytes[0] = id;
    NodeId(bytes)
}

fn create_node_info(timestamp_ms: u64) -> NodeInfo {
    NodeInfo {
        telemetry: TelemetryData { timestamp_ms, value_bits: 0.0f64.to_bits() },
        community_id: 0,
    }
}

#[test]
fn delta_detects_node_added() {
    let node1 = create_node_id(1);
    let old_state = NetworkState::default();
    let mut new_state = NetworkState::default();
    new_state.nodes.insert(node1, create_node_info(100));
    let delta = calculate_delta(&old_state, &new_state);
    assert_eq!(delta.len(), 1);
    assert!(matches!(delta[0], UpdatePayload::NodeAdded { .. }));
}

#[test]
fn delta_detects_node_removed() {
    let node1 = create_node_id(1);
    let mut old_state = NetworkState::default();
    old_state.nodes.insert(node1, create_node_info(100));
    let new_state = NetworkState::default();
    let delta = calculate_delta(&old_state, &new_state);
    assert_eq!(delta.len(), 1);
    assert!(matches!(delta[0], UpdatePayload::NodeRemoved { .. }));
}

#[test]
fn delta_detects_node_updated() {
    let node1 = create_node_id(1);
    let mut old_state = NetworkState::default();
    old_state.nodes.insert(node1, create_node_info(100));
    let mut new_state = NetworkState::default();
    new_state.nodes.insert(node1, create_node_info(200));
    let delta = calculate_delta(&old_state, &new_state);
    assert_eq!(delta.len(), 1);
    assert!(matches!(delta[0], UpdatePayload::NodeUpdated { .. }));
}

#[test]
fn delta_detects_connection_added_and_removed() {
    let node1 = create_node_id(1);
    let node2 = create_node_id(2);
    let node3 = create_node_id(3);
    let mut old_state = NetworkState::default();
    old_state.active_connections = vec![node1, node2];
    let mut new_state = NetworkState::default();
    new_state.active_connections = vec![node2, node3];
    let delta = calculate_delta(&old_state, &new_state);
    assert_eq!(delta.len(), 2);
    let disconnected = delta
        .iter()
        .find(|d| matches!(d, UpdatePayload::ConnectionStatus { is_connected: false, .. }));
    let connected = delta
        .iter()
        .find(|d| matches!(d, UpdatePayload::ConnectionStatus { is_connected: true, .. }));
    assert!(disconnected.is_some());
    assert!(connected.is_some());
    if let Some(UpdatePayload::ConnectionStatus { peer_id, .. }) = disconnected {
        assert_eq!(*peer_id, node1);
    }
    if let Some(UpdatePayload::ConnectionStatus { peer_id, .. }) = connected {
        assert_eq!(*peer_id, node3);
    }
}

#[test]
fn delta_is_empty_when_states_are_identical() {
    let node1 = create_node_id(1);
    let mut state = NetworkState::default();
    state.nodes.insert(node1, create_node_info(100));
    state.active_connections.push(node1);
    let delta = calculate_delta(&state, &state.duplicate());
    assert!(delta.is_empty());
}

/// Replays updates on the old state as an observer would.
fn replay(old: &NetworkState, delta: &[UpdatePayload]) -> (Vec<(NodeId, NodeInfo)>, Vec<NodeId>) {
    let mut nodes = old.nodes.duplicate();
    let mut conns: Vec<NodeId> = Vec::new();
    for c in &old.active_connections {
        if !conns.contains(c) {
            conns.push(*c);
        }
    }
    for u in delta {
        match *u {
            UpdatePayload::NodeAdded { id, info } | UpdatePayload::NodeUpdated { id, info } => {
                nodes.insert(id, info);
            }
            UpdatePayload::NodeRemoved { id } => {
                nodes.remove(&id);
            }
            UpdatePayload::ConnectionStatus { peer_id, is_connected } => {
                conns.retain(|c| *c != peer_id);
                if is_connected {
                    conns.push(peer_id);
                }
            }
            UpdatePayload::AnimateEdge { .. } => {}
        }
    }
    let mut n = nodes.to_vec();
    n.sort_by_key(|e| e.0 .0);
    conns.sort_by_key(|c| c.0);
    (n, conns)
}

#[test]
fn applying_the_delta_yields_the_new_state() {
    let mut old = NetworkState::default();
    old.nodes.insert(create_node_id(1), create_node_info(100));
    old.nodes.insert(create_node_id(2), create_node_info(100));
    old.nodes.insert(create_node_id(3), create_node_info(100));
    old.active_connections = vec![create_node_id(1), create_node_id(2), create_node_id(1)];
    let mut new = NetworkState::default();
    new.nodes.insert(create_node_id(2), create_node_info(100));
    new.nodes.insert(create_node_id(3), create_node_info(300));
    new.nodes.insert(create_node_id(4), create_node_info(400));
    new.active_connections = vec![create_node_id(2), create_node_id(4), create_node_id(4)];
    let delta = calculate_delta(&old, &new);
    // Added 4, updated 3, removed 1, node 1 disconnected, node 4 connected.
    assert_eq!(delta.len(), 5);
    let first_conn = delta
        .iter()
        .position(|u| matches!(u, UpdatePayload::ConnectionStatus { .. }))
        .unwrap();
    assert_eq!(first_conn, 3);
    assert!(delta[first_conn..]
        .iter()
        .all(|u| matches!(u, UpdatePayload::ConnectionStatus { .. })));
    let (nodes, conns) = replay(&old, &delta);
    let mut expected = new.nodes.to_vec();
    expected.sort_by_key(|e| e.0 .0);
    assert_eq!(nodes, expected);
    assert_eq!(conns, vec![create_node_id(2), create_node_id(4)]);
}

#[test]
fn feed_waits_for_identity_then_sends_snapshot_then_deltas() {
    let mut feed = Feed::new();
    assert!(feed.on_state(NetworkState::default()).is_empty());

    let me = create_node_id(9);
    let mut first = NetworkState::default();
    first.self_id = Some(me);
    first.nodes.insert(me, create_node_info(10));
    let out = feed.on_state(first);
    assert_eq!(out.len(), 1);
    match &out[0] {
        WebSocketMessage::Snapshot(p) => {
            assert_eq!(p.self_id, me);
            assert_eq!(p.nodes.len(), 1);
        }
        WebSocketMessage::Update(_) => panic!("expected a snapshot"),
    }

    let mut second = NetworkState::default();
    second.self_id = Some(me);
    second.nodes.insert(me, create_node_info(20));
    second.nodes.insert(create_node_id(1), create_node_info(5));
    let out = feed.on_state(second);
    assert_eq!(out.len(), 2);
    assert!(out.iter().all(|m| matches!(m, WebSocketMessage::Update(_))));

    // A state without identity is ignored and does not reset the feed.
    assert!(feed.on_state(NetworkState::default()).is_empty());
    let mut third = NetworkState::default();
    third.self_id = Some(me);
    third.nodes.insert(me, create_node_info(20));
    let out = feed.on_state(third);
    assert_eq!(out.len(), 1);
    assert!(matches!(out[0], WebSocketMessage::Update(UpdatePayload::NodeRemoved { .. })));
}

#[test]
fn feed_forwards_animation_events() {
    let feed = Feed::new();
    let peer = create_node_id(4);
    assert!(matches!(
        feed.on_animation(peer),
        WebSocketMessage::Update(UpdatePayload::AnimateEdge { from_peer }) if from_peer == peer
    ));
}
