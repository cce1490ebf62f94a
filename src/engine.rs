//! The gossip engine: the protocol's state and its decisions.
//!
//! The engine is a state machine. Each event (a gossip tick, a cleanup tick,
//! an inbound message, a connection event) updates the state and yields the
//! effects to perform: a snapshot to publish, an animation event to
//! broadcast, and commands for the transport. Timers, channels and the clock
//! belong to whoever runs the machine.

use crate::config::Config;
use crate::codec::payload_bytes;
use crate::crypto::{ed25519_signature, message_verifies, verify, Identity};
use crate::domain::{
    node_info_of, GossipPayload, NetworkState, NodeId, NodeInfo, PeerAddr, SignedMessage,
    TelemetryData,
};
use crate::id_map::{lists, IdMap};
use crate::protocol::{is_fan_out, select_peers};
use crate::transport::{ConnectionEvent, InboundMessage, TransportCommand};
use vstd::prelude::*;

verus! {

/// The nodes whose known address has an active connection.
pub open spec fn active_ids(peers: Map<NodeId, PeerAddr>, active: Set<PeerAddr>) -> Set<NodeId> {
    Set::new(|id: NodeId| peers.contains_key(id) && active.contains(peers[id]))
}

/// Whether `s` is a snapshot of the given state.
pub open spec fn is_snapshot(
    s: NetworkState,
    self_id: NodeId,
    nodes: Map<NodeId, NodeInfo>,
    peers: Map<NodeId, PeerAddr>,
    active: Set<PeerAddr>,
) -> bool {
    &&& s.self_id == Some(self_id)
    &&& s.nodes@ == nodes
    &&& s.active_connections@.no_duplicates()
    &&& s.active_connections@.to_set() == active_ids(peers, active)
}

/// Whether a timestamp is news for `id`: nothing is stored for it, or the
/// stored timestamp is strictly older.
pub open spec fn is_newer(nodes: Map<NodeId, NodeInfo>, id: NodeId, timestamp_ms: u64) -> bool {
    !nodes.contains_key(id) || timestamp_ms > nodes[id].telemetry.timestamp_ms
}

/// Last-writer-wins merge of `info` for `id`: it is stored only if newer.
pub open spec fn lww_merge(nodes: Map<NodeId, NodeInfo>, id: NodeId, info: NodeInfo) -> Map<
    NodeId,
    NodeInfo,
> {
    if is_newer(nodes, id, info.telemetry.timestamp_ms) {
        nodes.insert(id, info)
    } else {
        nodes
    }
}

/// `hop` is a node last heard through `addr`, or none if there is no such node.
pub open spec fn is_hop(peers: Map<NodeId, PeerAddr>, addr: PeerAddr, hop: Option<NodeId>) -> bool {
    match hop {
        Some(id) => peers.contains_key(id) && peers[id] == addr,
        None => forall|id: NodeId| #[trigger] peers.contains_key(id) ==> peers[id] != addr,
    }
}

/// The commands that send `m` to each selected peer, in order.
pub open spec fn sends(sel: Seq<(NodeId, PeerAddr)>, m: SignedMessage) -> Seq<TransportCommand> {
    Seq::new(sel.len(), |i: int| TransportCommand::SendMessage(sel[i].1, m))
}

/// The commands that send `m` to each address, in order.
pub open spec fn sends_to(addrs: Seq<PeerAddr>, m: SignedMessage) -> Seq<TransportCommand> {
    Seq::new(addrs.len(), |i: int| TransportCommand::SendMessage(addrs[i], m))
}

/// `cmds` forward `m` to a fan-out for it over `peers`.
pub open spec fn is_forwarding(
    cmds: Seq<TransportCommand>,
    peers: Map<NodeId, PeerAddr>,
    m: SignedMessage,
    k: nat,
) -> bool {
    exists|sel: Seq<(NodeId, PeerAddr)>| is_fan_out(sel, peers, m.originator, k) && cmds == sends(sel, m)
}

/// Whether an entry with this timestamp has outlived the TTL at `now_ms`.
/// A future-dated entry is never stale.
pub open spec fn is_stale(now_ms: u64, timestamp_ms: u64, ttl_ms: u64) -> bool {
    now_ms > timestamp_ms && now_ms - timestamp_ms > ttl_ms
}

/// The foreign nodes whose entries are stale at `now_ms`.
pub open spec fn pruned(
    nodes: Map<NodeId, NodeInfo>,
    self_id: NodeId,
    now_ms: u64,
    ttl_ms: u64,
) -> Set<NodeId> {
    Set::new(
        |id: NodeId|
            nodes.contains_key(id) && id != self_id && is_stale(
                now_ms,
                nodes[id].telemetry.timestamp_ms,
                ttl_ms,
            ),
    )
}

/// The payload a node emits about itself at a gossip tick.
pub open spec fn self_payload(timestamp_ms: u64, value_bits: u64, community_id: u32) -> GossipPayload {
    GossipPayload { telemetry: TelemetryData { timestamp_ms, value_bits }, community_id }
}

/// The effects of handling one event.
pub struct Effects {
    /// A snapshot to publish, if the visible state changed.
    pub snapshot: Option<NetworkState>,
    /// The node that relayed new information, for the animation bus.
    pub animation: Option<NodeId>,
    /// Commands for the transport, in order.
    pub commands: Vec<TransportCommand>,
}

impl Effects {
    /// No effect at all.
    pub open spec fn is_none(&self) -> bool {
        &&& self.snapshot.is_none()
        &&& self.animation.is_none()
        &&& self.commands@.len() == 0
    }

    fn none() -> (r: Effects)
        ensures
            r.is_none(),
    {
        Effects { snapshot: None, animation: None, commands: Vec::new() }
    }
}

/// The gossip engine's state.
pub struct Engine {
    identity: Identity,
    config: Config,
    node_info: IdMap<NodeInfo>,
    known_peers: IdMap<PeerAddr>,
    active_peer_addrs: Vec<PeerAddr>,
}

impl Engine {
    /// This node's identifier.
    pub closed spec fn self_id(&self) -> NodeId {
        self.identity.id()
    }

    /// The latest telemetry known of each node.
    pub closed spec fn nodes(&self) -> Map<NodeId, NodeInfo> {
        self.node_info@
    }

    /// The address each node was last heard through.
    pub closed spec fn peers(&self) -> Map<NodeId, PeerAddr> {
        self.known_peers@
    }

    /// The addresses with an active connection.
    pub closed spec fn active(&self) -> Set<PeerAddr> {
        self.active_peer_addrs@.to_set()
    }

    /// How many peers each message is forwarded to.
    pub closed spec fn gossip_factor(&self) -> usize {
        self.config.gossip_factor
    }

    /// Age after which a foreign node is pruned.
    pub closed spec fn node_ttl_ms(&self) -> u64 {
        self.config.node_ttl_ms
    }

    /// The community stamped on this node's payloads.
    pub closed spec fn community_id(&self) -> u32 {
        self.config.community_id
    }

    /// The peers sent every self-emitted message.
    pub closed spec fn bootstrap_peers(&self) -> Seq<PeerAddr> {
        self.config.bootstrap_peers@
    }

    /// The identity's secret.
    pub closed spec fn secret(&self) -> Seq<u8> {
        self.identity.secret()
    }

    /// The identity is consistent and each active address is listed once.
    pub closed spec fn wf(&self) -> bool {
        &&& self.identity.wf()
        &&& self.active_peer_addrs@.no_duplicates()
    }

    /// `s` is a snapshot of this state.
    pub open spec fn snapshot_of(&self, s: NetworkState) -> bool {
        is_snapshot(s, self.self_id(), self.nodes(), self.peers(), self.active())
    }

    /// Both states have the same identity and configuration.
    pub open spec fn same_setup(&self, other: Engine) -> bool {
        &&& self.self_id() == other.self_id()
        &&& self.gossip_factor() == other.gossip_factor()
        &&& self.node_ttl_ms() == other.node_ttl_ms()
        &&& self.community_id() == other.community_id()
        &&& self.bootstrap_peers() == other.bootstrap_peers()
    }

    /// A fresh engine: nothing known, no connection.
    pub fn new(identity: Identity, config: Config) -> (r: Engine)
        requires
            identity.wf(),
        ensures
            r.wf(),
            r.self_id() == identity.id(),
            r.nodes() == Map::<NodeId, NodeInfo>::empty(),
            r.peers() == Map::<NodeId, PeerAddr>::empty(),
            r.active() == Set::<PeerAddr>::empty(),
            r.gossip_factor() == config.gossip_factor,
            r.node_ttl_ms() == config.node_ttl_ms,
            r.community_id() == config.community_id,
            r.bootstrap_peers() == config.bootstrap_peers@,
    {
        let r = Engine {
            identity,
            config,
            node_info: IdMap::new(),
            known_peers: IdMap::new(),
            active_peer_addrs: Vec::new(),
        };
        assert(r.active_peer_addrs@.to_set() =~= Set::<PeerAddr>::empty());
        r
    }

    /// This node's identifier.
    pub fn node_id(&self) -> (r: NodeId)
        ensures
            r == self.self_id(),
    {
        self.identity.node_id()
    }

    fn find_active(&self, addr: PeerAddr) -> (r: Option<usize>)
        ensures
            match r {
                Some(i) => i < self.active_peer_addrs@.len() && self.active_peer_addrs@[i as int]
                    == addr,
                None => !self.active_peer_addrs@.contains(addr),
            },
    {
        let mut i: usize = 0;
        while i < self.active_peer_addrs.len()
            invariant
                i <= self.active_peer_addrs@.len(),
                forall|j: int| 0 <= j < i ==> self.active_peer_addrs@[j] != addr,
            decreases self.active_peer_addrs@.len() - i,
        {
            if self.active_peer_addrs[i] == addr {
                return Some(i);
            }
            i = i + 1;
        }
        None
    }

    fn is_active(&self, addr: PeerAddr) -> (r: bool)
        ensures
            r == self.active().contains(addr),
    {
        match self.find_active(addr) {
            Some(i) => {
                assert(self.active_peer_addrs@.contains(addr));
                true
            },
            None => false,
        }
    }

    /// The current snapshot.
    pub fn publish_state(&self) -> (r: NetworkState)
        ensures
            self.snapshot_of(r),
    {
        let peers = self.known_peers.to_vec();
        let ghost target = active_ids(self.peers(), self.active());
        let mut conns: Vec<NodeId> = Vec::new();
        let mut i: usize = 0;
        while i < peers.len()
            invariant
                i <= peers@.len(),
                lists(peers@, self.peers()),
                target == active_ids(self.peers(), self.active()),
                conns@.no_duplicates(),
                forall|t: int| 0 <= t < conns@.len() ==> #[trigger] target.contains(conns@[t]),
                forall|j: int|
                    #![trigger peers@[j]]
                    0 <= j < i && target.contains(peers@[j].0) ==> conns@.contains(peers@[j].0),
                forall|j: int, t: int|
                    #![trigger peers@[j], conns@[t]]
                    i <= j < peers@.len() && 0 <= t < conns@.len() ==> conns@[t] != peers@[j].0,
            decreases peers@.len() - i,
        {
            let (id, addr) = peers[i];
            if self.is_active(addr) {
                let ghost before = conns@;
                conns.push(id);
                proof {
                    assert(target.contains(id));
                    assert forall|a: int, b: int|
                        0 <= a < conns@.len() && 0 <= b < conns@.len() && a != b implies conns@[a]
                        != conns@[b] by {
                        if a < before.len() && b < before.len() {
                        } else if a < before.len() {
                            assert(before[a] == conns@[a]);
                        } else {
                            assert(before[b] == conns@[b]);
                        }
                    }
                    assert forall|t: int| 0 <= t < conns@.len() implies #[trigger] target.contains(
                        conns@[t],
                    ) by {
                        if t < before.len() {
                            assert(before[t] == conns@[t]);
                        }
                    }
                    assert forall|j: int|
                        #![trigger peers@[j]]
                        0 <= j < i + 1 && target.contains(peers@[j].0) implies conns@.contains(
                            peers@[j].0,
                        ) by {
                        if j < i {
                            let t = choose|t: int| 0 <= t < before.len() && before[t] == peers@[j].0;
                            assert(conns@[t] == before[t]);
                        } else {
                            assert(conns@[before.len() as int] == id);
                        }
                    }
                    assert forall|j: int, t: int|
                        #![trigger peers@[j], conns@[t]]
                        i + 1 <= j < peers@.len() && 0 <= t < conns@.len() implies conns@[t]
                        != peers@[j].0 by {
                        if t < before.len() {
                            assert(conns@[t] == before[t]);
                        } else {
                            assert(peers@[i as int].0 != peers@[j].0);
                        }
                    }
                }
            } else {
                proof {
                    assert(!target.contains(id));
                }
            }
            i = i + 1;
        }
        proof {
            assert forall|id: NodeId| conns@.to_set().contains(id) <==> target.contains(id) by {
                if target.contains(id) {
                    let j = choose|j: int| 0 <= j < peers@.len() && peers@[j].0 == id;
                }
                if conns@.contains(id) {
                    let t = choose|t: int| 0 <= t < conns@.len() && conns@[t] == id;
                }
            }
            assert(conns@.to_set() =~= target);
        }
        NetworkState {
            self_id: Some(self.identity.node_id()),
            nodes: self.node_info.duplicate(),
            active_connections: conns,
        }
    }

    /// Records a connection coming up or going down. A snapshot is due exactly
    /// when the set of active addresses changed.
    pub fn handle_connection_event(&mut self, event: ConnectionEvent) -> (r: Option<NetworkState>)
        requires
            old(self).wf(),
        ensures
            final(self).wf(),
            connection_step(*old(self), *final(self), event, r),
    {
        let ghost s0 = self.active_peer_addrs@;
        match event {
            ConnectionEvent::PeerConnected { peer_addr } => {
                if self.is_active(peer_addr) {
                    assert(s0.to_set().insert(peer_addr) =~= s0.to_set());
                    None
                } else {
                    self.active_peer_addrs.push(peer_addr);
                    proof {
                        let s1 = self.active_peer_addrs@;
                        assert(s1[s0.len() as int] == peer_addr);
                        assert forall|x: PeerAddr| s1.contains(x) <==> s0.contains(x) || x
                            == peer_addr by {
                            if s1.contains(x) {
                                let t = choose|t: int| 0 <= t < s1.len() && s1[t] == x;
                                if t < s0.len() {
                                    assert(s0[t] == x);
                                }
                            }
                            if s0.contains(x) {
                                let t = choose|t: int| 0 <= t < s0.len() && s0[t] == x;
                                assert(s1[t] == x);
                            }
                        }
                        assert(s1.to_set() =~= s0.to_set().insert(peer_addr));
                        assert forall|a: int, b: int|
                            0 <= a < s1.len() && 0 <= b < s1.len() && a != b implies s1[a]
                            != s1[b] by {
                            if a < s0.len() && b < s0.len() {
                            } else if a < s0.len() {
                                assert(s0.contains(s1[a]));
                            } else {
                                assert(s0.contains(s1[b]));
                            }
                        }
                    }
                    Some(self.publish_state())
                }
            },
            ConnectionEvent::PeerDisconnected { peer_addr } => {
                if let Some(i) = self.find_active(peer_addr) {
                    self.active_peer_addrs.remove(i);
                    proof {
                        let s1 = self.active_peer_addrs@;
                        assert(s1 == s0.remove(i as int));
                        assert forall|x: PeerAddr| s1.contains(x) <==> s0.contains(x) && x
                            != peer_addr by {
                            if s1.contains(x) {
                                let t = choose|t: int| 0 <= t < s1.len() && s1[t] == x;
                                if t < i {
                                    assert(s0[t] == x);
                                } else {
                                    assert(s0[t + 1] == x);
                                }
                            }
                            if s0.contains(x) && x != peer_addr {
                                let t = choose|t: int| 0 <= t < s0.len() && s0[t] == x;
                                if t < i {
                                    assert(s1[t] == x);
                                } else {
                                    assert(s1[t - 1] == x);
                                }
                            }
                        }
                        assert(s1.to_set() =~= s0.to_set().remove(peer_addr));
                        assert forall|a: int, b: int|
                            0 <= a < s1.len() && 0 <= b < s1.len() && a != b implies s1[a]
                            != s1[b] by {
                            let sa = if a < i { a } else { a + 1 };
                            let sb = if b < i { b } else { b + 1 };
                            assert(s1[a] == s0[sa] && s1[b] == s0[sb]);
                        }
                        assert(s0.to_set().contains(peer_addr));
                    }
                    Some(self.publish_state())
                } else {
                    assert(s0.to_set().remove(peer_addr) =~= s0.to_set());
                    None
                }
            },
        }
    }

    fn hop_of(&self, addr: PeerAddr) -> (r: Option<NodeId>)
        ensures
            is_hop(self.peers(), addr, r),
    {
        let peers = self.known_peers.to_vec();
        let mut i: usize = 0;
        while i < peers.len()
            invariant
                i <= peers@.len(),
                lists(peers@, self.peers()),
                forall|j: int| 0 <= j < i ==> #[trigger] peers@[j].1 != addr,
            decreases peers@.len() - i,
        {
            if peers[i].1 == addr {
                return Some(peers[i].0);
            }
            i = i + 1;
        }
        proof {
            assert forall|id: NodeId| #[trigger] self.peers().contains_key(id) implies self.peers()[id]
                != addr by {
                let j = choose|j: int| 0 <= j < peers@.len() && peers@[j].0 == id;
                assert(peers@[j].1 != addr);
            }
        }
        None
    }

    fn gossip_to_peers(&self, message: SignedMessage) -> (r: Vec<TransportCommand>)
        ensures
            is_forwarding(r@, self.peers(), message, self.gossip_factor() as nat),
    {
        let sel = select_peers(&self.known_peers, message.originator, self.config.gossip_factor);
        let mut cmds: Vec<TransportCommand> = Vec::new();
        let mut i: usize = 0;
        while i < sel.len()
            invariant
                i <= sel@.len(),
                cmds@ == sends(sel@, message).subrange(0, i as int),
            decreases sel@.len() - i,
        {
            cmds.push(TransportCommand::SendMessage(sel[i].1, message));
            i = i + 1;
            assert(cmds@ =~= sends(sel@, message).subrange(0, i as int));
        }
        assert(cmds@ =~= sends(sel@, message));
        cmds
    }

    /// Handles a message delivered by the transport.
    pub fn handle_inbound_message(&mut self, inbound: InboundMessage) -> (r: Effects)
        requires
            old(self).wf(),
        ensures
            final(self).wf(),
            inbound_step(*old(self), *final(self), inbound, r),
    {
        if verify(&inbound.message).is_err() {
            return Effects::none();
        }
        let message = inbound.message;
        let originator = message.originator;
        let peer_node_id = self.hop_of(inbound.peer_addr);
        self.known_peers.insert(originator, inbound.peer_addr);
        let is_new = match self.node_info.get(&originator) {
            Some(existing) => message.message.telemetry.timestamp_ms
                > existing.telemetry.timestamp_ms,
            None => true,
        };
        if is_new {
            self.node_info.insert(originator, NodeInfo::from_payload(&message.message));
            let snapshot = self.publish_state();
            let commands = self.gossip_to_peers(message);
            Effects { snapshot: Some(snapshot), animation: peer_node_id, commands }
        } else {
            Effects::none()
        }
    }

    /// Emits this node's own telemetry, read at wall time `timestamp_ms`.
    pub fn gossip_self_telemetry(&mut self, timestamp_ms: u64, value_bits: u64) -> (r: Effects)
        requires
            old(self).wf(),
        ensures
            final(self).wf(),
            gossip_tick_step(*old(self), *final(self), timestamp_ms, value_bits, r),
    {
        let payload = GossipPayload {
            telemetry: TelemetryData { timestamp_ms, value_bits },
            community_id: self.config.community_id,
        };
        let signed = self.identity.sign(payload);
        let own_id = self.identity.node_id();
        let ghost pre = *self;
        self.node_info.insert(own_id, NodeInfo::from_payload(&signed.message));
        let snapshot = self.publish_state();
        let mut commands = self.gossip_to_peers(signed);
        let ghost fan = commands@;
        let mut i: usize = 0;
        while i < self.config.bootstrap_peers.len()
            invariant
                i <= self.config.bootstrap_peers@.len(),
                commands@ == fan + sends_to(self.config.bootstrap_peers@, signed).subrange(
                    0,
                    i as int,
                ),
            decreases self.config.bootstrap_peers@.len() - i,
        {
            commands.push(TransportCommand::SendMessage(self.config.bootstrap_peers[i], signed));
            i = i + 1;
            assert(commands@ =~= fan + sends_to(self.config.bootstrap_peers@, signed).subrange(
                0,
                i as int,
            ));
        }
        assert(sends_to(self.config.bootstrap_peers@, signed).subrange(
            0,
            i as int,
        ) =~= sends_to(self.config.bootstrap_peers@, signed));
        Effects { snapshot: Some(snapshot), animation: None, commands }
    }

    /// Prunes every foreign node whose telemetry is older than the TTL at wall
    /// time `now_ms`, from the telemetry map and from the address table.
    pub fn cleanup_stale_nodes(&mut self, now_ms: u64) -> (r: Option<NetworkState>)
        requires
            old(self).wf(),
        ensures
            final(self).wf(),
            cleanup_step(*old(self), *final(self), now_ms, r),
    {
        let ghost pre = *self;
        let ghost gone = pruned(pre.nodes(), pre.self_id(), now_ms, pre.node_ttl_ms());
        let own_id = self.identity.node_id();
        let ttl_ms = self.config.node_ttl_ms;
        let entries = self.node_info.to_vec();
        let mut stale: Vec<NodeId> = Vec::new();
        let mut i: usize = 0;
        while i < entries.len()
            invariant
                i <= entries@.len(),
                lists(entries@, pre.nodes()),
                own_id == pre.self_id(),
                ttl_ms == pre.node_ttl_ms(),
                gone == pruned(pre.nodes(), pre.self_id(), now_ms, pre.node_ttl_ms()),
                forall|t: int| 0 <= t < stale@.len() ==> #[trigger] gone.contains(stale@[t]),
                forall|j: int|
                    #![trigger entries@[j]]
                    0 <= j < i && gone.contains(entries@[j].0) ==> stale@.contains(entries@[j].0),
            decreases entries@.len() - i,
        {
            let (id, info) = entries[i];
            let ghost before = stale@;
            proof {
                assert(entries@[i as int] == (id, info));
            }
            if id != own_id && now_ms > info.telemetry.timestamp_ms && now_ms
                - info.telemetry.timestamp_ms > ttl_ms {
                stale.push(id);
                proof {
                    assert(stale@[stale@.len() - 1] == id);
                }
            }
            proof {
                assert forall|j: int|
                    #![trigger entries@[j]]
                    0 <= j < i + 1 && gone.contains(entries@[j].0) implies stale@.contains(
                        entries@[j].0,
                    ) by {
                    if j < i {
                        let t = choose|t: int| 0 <= t < before.len() && before[t] == entries@[j].0;
                        assert(stale@[t] == before[t]);
                    } else {
                        assert(stale@[stale@.len() - 1] == id);
                    }
                }
            }
            i = i + 1;
        }
        proof {
            assert forall|id: NodeId| gone.contains(id) <==> stale@.contains(id) by {
                if gone.contains(id) {
                    let j = choose|j: int| 0 <= j < entries@.len() && entries@[j].0 == id;
                }
                if stale@.contains(id) {
                    let t = choose|t: int| 0 <= t < stale@.len() && stale@[t] == id;
                }
            }
        }
        if stale.len() == 0 {
            proof {
                assert(gone =~= Set::<NodeId>::empty());
                assert(pre.nodes().remove_keys(gone) =~= pre.nodes());
                assert(pre.peers().remove_keys(gone) =~= pre.peers());
            }
            return None;
        }
        let mut j: usize = 0;
        while j < stale.len()
            invariant
                j <= stale@.len(),
                self.wf(),
                self.same_setup(pre),
                self.active() == pre.active(),
                self.nodes() == pre.nodes().remove_keys(stale@.subrange(0, j as int).to_set()),
                self.peers() == pre.peers().remove_keys(stale@.subrange(0, j as int).to_set()),
            decreases stale@.len() - j,
        {
            let id = stale[j];
            let ghost done = stale@.subrange(0, j as int).to_set();
            self.node_info.remove(&id);
            self.known_peers.remove(&id);
            j = j + 1;
            proof {
                assert(stale@.subrange(0, j as int).to_set() =~= done.insert(id)) by {
                    assert forall|x: NodeId| stale@.subrange(0, j as int).contains(x) <==> stale@.subrange(
                        0,
                        j - 1,
                    ).contains(x) || x == id by {
                        let s1 = stale@.subrange(0, j as int);
                        let s0 = stale@.subrange(0, j - 1);
                        if s1.contains(x) {
                            let t = choose|t: int| 0 <= t < s1.len() && s1[t] == x;
                            if t < s0.len() {
                                assert(s0[t] == x);
                            }
                        }
                        if s0.contains(x) {
                            let t = choose|t: int| 0 <= t < s0.len() && s0[t] == x;
                            assert(s1[t] == x);
                        }
                        assert(s1[j - 1] == id);
                    }
                }
                assert(self.nodes() =~= pre.nodes().remove_keys(done.insert(id)));
                assert(self.peers() =~= pre.peers().remove_keys(done.insert(id)));
            }
        }
        proof {
            assert(stale@.subrange(0, j as int) =~= stale@);
            assert(stale@.to_set() =~= gone);
            assert(gone.contains(stale@[0]));
        }
        Some(self.publish_state())
    }

    /// Handles one event.
    pub fn handle_event(&mut self, event: EngineEvent) -> (r: Effects)
        requires
            old(self).wf(),
        ensures
            final(self).wf(),
            match event {
                EngineEvent::GossipTick { timestamp_ms, value_bits } => gossip_tick_step(
                    *old(self),
                    *final(self),
                    timestamp_ms,
                    value_bits,
                    r,
                ),
                EngineEvent::CleanupTick { now_ms } => {
                    &&& cleanup_step(*old(self), *final(self), now_ms, r.snapshot)
                    &&& r.animation.is_none()
                    &&& r.commands@.len() == 0
                },
                EngineEvent::Inbound(inbound) => inbound_step(*old(self), *final(self), inbound, r),
                EngineEvent::Connection(e) => {
                    &&& connection_step(*old(self), *final(self), e, r.snapshot)
                    &&& r.animation.is_none()
                    &&& r.commands@.len() == 0
                },
            },
    {
        match event {
            EngineEvent::GossipTick { timestamp_ms, value_bits } => self.gossip_self_telemetry(
                timestamp_ms,
                value_bits,
            ),
            EngineEvent::CleanupTick { now_ms } => {
                let snapshot = self.cleanup_stale_nodes(now_ms);
                Effects { snapshot, animation: None, commands: Vec::new() }
            },
            EngineEvent::Inbound(inbound) => self.handle_inbound_message(inbound),
            EngineEvent::Connection(e) => {
                let snapshot = self.handle_connection_event(e);
                Effects { snapshot, animation: None, commands: Vec::new() }
            },
        }
    }
}

/// Handling a connection event from `pre` led to `post` with snapshot `r`.
pub open spec fn connection_step(
    pre: Engine,
    post: Engine,
    event: ConnectionEvent,
    r: Option<NetworkState>,
) -> bool {
    &&& post.same_setup(pre)
    &&& post.nodes() == pre.nodes()
    &&& post.peers() == pre.peers()
    &&& match event {
        ConnectionEvent::PeerConnected { peer_addr } => {
            &&& post.active() == pre.active().insert(peer_addr)
            &&& r is Some <==> !pre.active().contains(peer_addr)
        },
        ConnectionEvent::PeerDisconnected { peer_addr } => {
            &&& post.active() == pre.active().remove(peer_addr)
            &&& r is Some <==> pre.active().contains(peer_addr)
        },
    }
    &&& r matches Some(s) ==> post.snapshot_of(s)
}

/// Handling an inbound message from `pre` led to `post` with effects `eff`.
///
/// A message whose signature does not verify changes nothing. Otherwise the
/// originator is bound to the address the message came through, and the
/// telemetry is merged last-writer-wins; only news is published, attributed
/// to the relaying node, and forwarded.
pub open spec fn inbound_step(pre: Engine, post: Engine, inbound: InboundMessage, eff: Effects) -> bool {
    let m = inbound.message;
    let orig = m.originator;
    &&& post.same_setup(pre)
    &&& post.active() == pre.active()
    &&& if !message_verifies(m) {
        &&& post.nodes() == pre.nodes()
        &&& post.peers() == pre.peers()
        &&& eff.is_none()
    } else {
        &&& post.peers() == pre.peers().insert(orig, inbound.peer_addr)
        &&& post.nodes() == lww_merge(pre.nodes(), orig, node_info_of(m.message))
        &&& if is_newer(pre.nodes(), orig, m.message.telemetry.timestamp_ms) {
            &&& match eff.snapshot {
                Some(s) => post.snapshot_of(s),
                None => false,
            }
            &&& is_hop(pre.peers(), inbound.peer_addr, eff.animation)
            &&& is_forwarding(eff.commands@, post.peers(), m, post.gossip_factor() as nat)
        } else {
            eff.is_none()
        }
    }
}

/// A gossip tick at `timestamp_ms` led from `pre` to `post` with effects `eff`.
///
/// The node signs its own telemetry, stores it, publishes a snapshot, and sends
/// the signed message to a fan-out and then to every bootstrap peer.
pub open spec fn gossip_tick_step(
    pre: Engine,
    post: Engine,
    timestamp_ms: u64,
    value_bits: u64,
    eff: Effects,
) -> bool {
    let payload = self_payload(timestamp_ms, value_bits, pre.community_id());
    &&& post.same_setup(pre)
    &&& post.active() == pre.active()
    &&& post.peers() == pre.peers()
    &&& post.nodes() == pre.nodes().insert(pre.self_id(), node_info_of(payload))
    &&& match eff.snapshot {
        Some(s) => post.snapshot_of(s),
        None => false,
    }
    &&& eff.animation.is_none()
    &&& exists|m: SignedMessage, sel: Seq<(NodeId, PeerAddr)>|
        {
            &&& m.message == payload
            &&& m.originator == pre.self_id()
            &&& m.signature@ == ed25519_signature(pre.secret(), payload_bytes(payload))
            &&& message_verifies(m)
            &&& is_fan_out(sel, pre.peers(), pre.self_id(), pre.gossip_factor() as nat)
            &&& eff.commands@ == sends(sel, m) + sends_to(pre.bootstrap_peers(), m)
        }
}

/// A cleanup tick at `now_ms` led from `pre` to `post` with snapshot `r`.
///
/// Every stale foreign node leaves both the telemetry map and the address
/// table; a snapshot is due exactly when some node left.
pub open spec fn cleanup_step(pre: Engine, post: Engine, now_ms: u64, r: Option<NetworkState>) -> bool {
    let gone = pruned(pre.nodes(), pre.self_id(), now_ms, pre.node_ttl_ms());
    &&& post.same_setup(pre)
    &&& post.active() == pre.active()
    &&& post.nodes() == pre.nodes().remove_keys(gone)
    &&& post.peers() == pre.peers().remove_keys(gone)
    &&& r is Some <==> exists|id: NodeId| gone.contains(id)
    &&& r matches Some(s) ==> post.snapshot_of(s)
}

/// What the engine reacts to.
pub enum EngineEvent {
    /// The gossip timer fired at wall time `timestamp_ms`; `value_bits` is the
    /// reading to emit.
    GossipTick { timestamp_ms: u64, value_bits: u64 },
    /// The cleanup timer fired at wall time `now_ms`.
    CleanupTick { now_ms: u64 },
    /// The transport delivered a message.
    Inbound(InboundMessage),
    /// The transport reported a connection change.
    Connection(ConnectionEvent),
}

/// Last-writer-wins: after a merge the node is known; a strictly newer
/// timestamp (or a first one) is stored as it arrived, and a stale or equal
/// one leaves every record unchanged. The stored timestamp never decreases.
pub proof fn lemma_lww_convergence(nodes: Map<NodeId, NodeInfo>, id: NodeId, info: NodeInfo)
    ensures
        lww_merge(nodes, id, info).contains_key(id),
        is_newer(nodes, id, info.telemetry.timestamp_ms) ==> lww_merge(nodes, id, info)[id] == info,
        !is_newer(nodes, id, info.telemetry.timestamp_ms) ==> lww_merge(nodes, id, info) == nodes,
        nodes.contains_key(id) ==> lww_merge(nodes, id, info)[id].telemetry.timestamp_ms
            >= nodes[id].telemetry.timestamp_ms,
{
}

/// Pruning soundness: after a cleanup at wall time `now_ms`, every remaining
/// entry but the node's own has `timestamp_ms >= now_ms - ttl_ms`.
pub proof fn lemma_pruning_soundness(
    nodes: Map<NodeId, NodeInfo>,
    self_id: NodeId,
    now_ms: u64,
    ttl_ms: u64,
)
    ensures
        forall|id: NodeId| #[trigger]
            nodes.remove_keys(pruned(nodes, self_id, now_ms, ttl_ms)).contains_key(id) && id
                != self_id ==> nodes[id].telemetry.timestamp_ms >= now_ms - ttl_ms,
{
    assert forall|id: NodeId| #[trigger]
        nodes.remove_keys(pruned(nodes, self_id, now_ms, ttl_ms)).contains_key(id) && id
            != self_id implies nodes[id].telemetry.timestamp_ms >= now_ms - ttl_ms by {
        assert(!pruned(nodes, self_id, now_ms, ttl_ms).contains(id));
    }
}

/// Pruning clears the address table: a pruned node has no address left, and
/// a fan-out over what is left never selects it.
pub proof fn lemma_pruning_clears_addresses(
    peers: Map<NodeId, PeerAddr>,
    gone: Set<NodeId>,
    sel: Seq<(NodeId, PeerAddr)>,
    exclude: NodeId,
    k: nat,
)
    requires
        is_fan_out(sel, peers.remove_keys(gone), exclude, k),
    ensures
        forall|id: NodeId| #[trigger] gone.contains(id) ==> !peers.remove_keys(gone).contains_key(id),
        forall|i: int| 0 <= i < sel.len() ==> !gone.contains(#[trigger] sel[i].0),
{
    assert forall|i: int| 0 <= i < sel.len() implies !gone.contains(#[trigger] sel[i].0) by {
        assert(peers.remove_keys(gone).contains_key(sel[i].0));
    }
}

} // verus!
