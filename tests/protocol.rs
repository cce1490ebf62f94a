use gossip_network::domain::{NodeId, PeerAddr};
use gossip_network::id_map::IdMap;
use gossip_network::protocol::{fan_out_candidates, pick, select_peers};

fn create_node_id(id: u8) -> NodeId {
    let mut bytes = [0u8; 32];
    bytes[0] = id;
    NodeId(bytes)
}

fn local(port: u16) -> PeerAddr {
    PeerAddr::v4([127, 0, 0, 1], port)
}

#[test]
fn test_select_peers_excludes_originator() {
    let originator = create_node_id(1);
    let peer_b = create_node_id(2);
    let peer_c = create_node_id(3);
    let mut peers = IdMap::new();
    peers.insert(originator, local(1001));
    peers.insert(peer_b, local(1002));
    peers.insert(peer_c, local(1003));
    let selected = select_peers(&peers, originator, 5);
    assert_eq!(selected.len(), 2);
    assert!(selected.iter().all(|(id, _)| *id != originator));
}

#[test]
fn test_select_peers_respects_gossip_factor() {
    let originator = create_node_id(1);
    let mut peers = IdMap::new();
    for i in 2..=10 {
        peers.insert(create_node_id(i), local(1000));
    }
    let selected = select_peers(&peers, originator, 3);
    assert_eq!(selected.len(), 3);
}

#[test]
fn test_select_peers_with_no_valid_peers() {
    let originator = create_node_id(1);
    let mut peers = IdMap::new();
    peers.insert(originator, local(1001));
    let selected = select_peers(&peers, originator, 2);
    assert!(selected.is_empty());
}

#[test]
fn selected_peers_are_distinct_known_and_carry_their_address() {
    let mut peers = IdMap::new();
    for i in 1..=20u8 {
        peers.insert(create_node_id(i), local(2000 + i as u16));
    }
    for _ in 0..50 {
        let selected = select_peers(&peers, create_node_id(5), 4);
        assert_eq!(selected.len(), 4);
        for (i, (id, addr)) in selected.iter().enumerate() {
            assert_ne!(*id, create_node_id(5));
            assert_eq!(peers.get(id), Some(addr));
            for (other, _) in &selected[i + 1..] {
                assert_ne!(id, other);
            }
        }
    }
}

#[test]
fn selection_size_is_min_of_factor_and_others() {
    let mut peers = IdMap::new();
    for i in 1..=4u8 {
        peers.insert(create_node_id(i), local(3000));
    }
    // Originator unknown: all four are candidates.
    assert_eq!(select_peers(&peers, create_node_id(9), 10).len(), 4);
    // Originator known: three remain.
    assert_eq!(select_peers(&peers, create_node_id(1), 10).len(), 3);
    assert_eq!(select_peers(&peers, create_node_id(1), 0).len(), 0);
    assert_eq!(select_peers(&IdMap::new(), create_node_id(1), 2).len(), 0);
}

#[test]
fn selection_varies_across_calls() {
    let mut peers = IdMap::new();
    for i in 1..=30u8 {
        peers.insert(create_node_id(i), local(4000));
    }
    let first = select_peers(&peers, create_node_id(0), 3);
    let differs = (0..50).any(|_| select_peers(&peers, create_node_id(0), 3) != first);
    assert!(differs);
}

#[test]
fn seeded_selection_picks_the_given_candidates() {
    let mut peers = IdMap::new();
    peers.insert(create_node_id(1), local(1));
    peers.insert(create_node_id(2), local(2));
    peers.insert(create_node_id(3), local(3));
    let candidates = fan_out_candidates(&peers, create_node_id(2));
    assert_eq!(candidates.len(), 2);
    assert!(candidates.iter().all(|(id, _)| *id != create_node_id(2)));
    let chosen = pick(&candidates, &vec![1, 0]);
    assert_eq!(chosen, vec![candidates[1], candidates[0]]);
}
