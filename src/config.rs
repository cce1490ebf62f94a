//! The node's runtime parameters.

use crate::domain::PeerAddr;
use vstd::prelude::*;

verus! {

/// Where the observation feed listens.
#[derive(Clone, Copy, Debug, PartialEq, Eq, Structural)]
pub struct VisualizerConfig {
    pub bind_addr: PeerAddr,
}

/// All runtime parameters of a node.
pub struct Config {
    /// Where the 32-byte identity secret is stored.
    pub identity_path: String,
    /// The transport's bind address.
    pub p2p_addr: PeerAddr,
    /// Peers dialed at start and sent every self-emitted message.
    pub bootstrap_peers: Vec<PeerAddr>,
    /// Period of self-emitted telemetry.
    pub gossip_interval_ms: u64,
    /// How many peers each message is forwarded to.
    pub gossip_factor: usize,
    /// Age after which a foreign node's entry is pruned.
    pub node_ttl_ms: u64,
    /// Period of pruning.
    pub cleanup_interval_ms: u64,
    /// Stamped on outgoing payloads.
    pub community_id: u32,
    /// Where the observation feed listens, if it runs.
    pub visualizer: Option<VisualizerConfig>,
}

impl Default for Config {
    fn default() -> (r: Config)
        ensures
            r.identity_path@ == "identity.key"@,
            r.p2p_addr == (PeerAddr::V4 { ip: 0x7f00_0001, port: 5000 }),
            r.bootstrap_peers@.len() == 0,
            r.gossip_interval_ms == 5000,
            r.gossip_factor == 2,
            r.node_ttl_ms == 300_000,
            r.cleanup_interval_ms == 60_000,
            r.community_id == 0,
            r.visualizer.is_none(),
    {
        Config {
            identity_path: "identity.key".to_owned(),
            p2p_addr: PeerAddr::V4 { ip: 0x7f00_0001, port: 5000 },
            bootstrap_peers: Vec::new(),
            gossip_interval_ms: 5000,
            gossip_factor: 2,
            node_ttl_ms: 300_000,
            cleanup_interval_ms: 60_000,
            community_id: 0,
            visualizer: None,
        }
    }
}

} // verus!
