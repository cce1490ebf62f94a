//! The values that flow between transport, engine and feed.

use crate::id_map::IdMap;
use vstd::prelude::*;

verus! {

/// The lowercase hexadecimal digit of a value below 16.
pub open spec fn hex_digit(n: u8) -> char {
    seq!['0', '1', '2', '3', '4', '5', '6', '7', '8', '9', 'a', 'b', 'c', 'd', 'e', 'f'][n as int]
}

/// Two lowercase hexadecimal digits per byte, most significant nibble first.
pub open spec fn hex_of(bytes: Seq<u8>) -> Seq<char>
    decreases bytes.len(),
{
    if bytes.len() == 0 {
        seq![]
    } else {
        seq![hex_digit(bytes[0] / 16), hex_digit(bytes[0] % 16)] + hex_of(bytes.drop_first())
    }
}

/// Relies on hex::encode: two lowercase hexadecimal digits for each byte, in order.
#[verifier::external_body]
fn hex_encode(bytes: &[u8]) -> (r: String)
    ensures
        r@ == hex_of(bytes@),
{
    hex::encode(bytes)
}

/// Whether `c` is a hexadecimal digit, in either case.
pub open spec fn is_hex_char(c: char) -> bool {
    (48 <= c as u32 <= 57) || (97 <= c as u32 <= 102) || (65 <= c as u32 <= 70)
}

/// The value of a hexadecimal digit.
pub open spec fn hex_char_value(c: char) -> int {
    if 48 <= c as u32 <= 57 {
        c as u32 - 48
    } else if 97 <= c as u32 <= 102 {
        c as u32 - 87
    } else {
        c as u32 - 55
    }
}

/// Every character of `s` is a hexadecimal digit.
pub open spec fn all_hex(s: Seq<char>) -> bool {
    forall|i: int| 0 <= i < s.len() ==> is_hex_char(#[trigger] s[i])
}

/// `s` spells the bytes `b`, two digits per byte, most significant first.
pub open spec fn spells(s: Seq<char>, b: Seq<u8>) -> bool {
    &&& s.len() == 2 * b.len()
    &&& forall|i: int|
        0 <= i < b.len() ==> #[trigger] b[i] == hex_char_value(s[2 * i]) * 16 + hex_char_value(
            s[2 * i + 1],
        )
}

/// Relies on hex::decode: it accepts an even number of hexadecimal digits of
/// either case and yields one byte per pair; anything else is an error.
#[verifier::external_body]
fn hex_decode(s: &str) -> (r: Option<Vec<u8>>)
    ensures
        r.is_some() == (s@.len() % 2 == 0 && all_hex(s@)),
        r matches Some(b) ==> spells(s@, b@),
{
    hex::decode(s).ok()
}

/// Relies on String::push_str: the argument is appended to the string.
pub assume_specification[ String::push_str ](s: &mut String, string: &str)
    ensures
        final(s)@ == old(s)@ + string@,
;

/// The hex form spells the bytes it was made from.
pub proof fn lemma_hex_round_trip(b: Seq<u8>)
    ensures
        all_hex(hex_of(b)),
        spells(hex_of(b), b),
    decreases b.len(),
{
    if b.len() > 0 {
        let rest = b.drop_first();
        lemma_hex_round_trip(rest);
        let h = hex_of(b);
        let hi = b[0] / 16;
        let lo = b[0] % 16;
        assert(h == seq![hex_digit(hi), hex_digit(lo)] + hex_of(rest));
        assert forall|n: u8| n < 16 implies is_hex_char(hex_digit(n)) && hex_char_value(hex_digit(n))
            == n by {
            assert(n == 0 || n == 1 || n == 2 || n == 3 || n == 4 || n == 5 || n == 6 || n == 7 || n
                == 8 || n == 9 || n == 10 || n == 11 || n == 12 || n == 13 || n == 14 || n == 15);
        }
        assert forall|i: int| 0 <= i < h.len() implies is_hex_char(#[trigger] h[i]) by {
            if i >= 2 {
                assert(h[i] == hex_of(rest)[i - 2]);
            }
        }
        assert forall|i: int| 0 <= i < b.len() implies #[trigger] b[i] == hex_char_value(h[2 * i])
            * 16 + hex_char_value(h[2 * i + 1]) by {
            if i > 0 {
                assert(b[i] == rest[i - 1]);
                assert(h[2 * i] == hex_of(rest)[2 * (i - 1)]);
                assert(h[2 * i + 1] == hex_of(rest)[2 * (i - 1) + 1]);
            }
        }
    }
}

/// A node's identity on the network: its 32-byte Ed25519 public key.
#[derive(Clone, Copy, Debug, Eq, Hash)]
pub struct NodeId(pub [u8; 32]);

impl PartialEq for NodeId {
    fn eq(&self, other: &NodeId) -> (r: bool)
        ensures
            r == (*self == *other),
    {
        let mut i: usize = 0;
        while i < 32
            invariant
                0 <= i <= 32,
                forall|j: int| 0 <= j < i ==> self.0@[j] == other.0@[j],
            decreases 32 - i,
        {
            if self.0[i] != other.0[i] {
                return false;
            }
            i = i + 1;
        }
        assert(self.0@ =~= other.0@);
        proof {
            vstd::array::axiom_array_ext_equal(self.0, other.0);
        }
        true
    }
}

impl vstd::std_specs::cmp::PartialEqSpecImpl for NodeId {
    open spec fn obeys_eq_spec() -> bool {
        true
    }

    open spec fn eq_spec(&self, other: &NodeId) -> bool {
        *self == *other
    }
}

impl NodeId {
    /// The identifier of the given public key.
    pub fn new(bytes: [u8; 32]) -> (r: NodeId)
        ensures
            r.0 == bytes,
    {
        NodeId(bytes)
    }

    /// The public key's raw bytes.
    pub fn as_bytes(&self) -> (r: &[u8; 32])
        ensures
            *r == self.0,
    {
        &self.0
    }

    /// The external form: 64 lowercase hexadecimal digits.
    pub fn to_hex(&self) -> (r: String)
        ensures
            r@ == hex_of(self.0@),
    {
        hex_encode(self.0.as_slice())
    }

    /// The identifier spelled by 64 hexadecimal digits, of either case.
    pub fn from_hex(s: &str) -> (r: Option<NodeId>)
        ensures
            r is Some <==> s@.len() == 64 && all_hex(s@),
            r matches Some(id) ==> spells(s@, id.0@),
    {
        match hex_decode(s) {
            Some(bytes) => {
                if bytes.len() != 32 {
                    return None;
                }
                let mut id = [0u8; 32];
                let mut i: usize = 0;
                while i < 32
                    invariant
                        bytes@.len() == 32,
                        i <= 32,
                        forall|j: int| 0 <= j < i ==> id@[j] == bytes@[j],
                    decreases 32 - i,
                {
                    id[i] = bytes[i];
                    i = i + 1;
                }
                assert(id@ =~= bytes@);
                Some(NodeId(id))
            },
            None => None,
        }
    }

    /// The short display form: `node::` followed by the first four bytes in hex.
    pub fn to_string(&self) -> (r: String)
        ensures
            r@ == "node::"@ + hex_of(self.0@.subrange(0, 4)),
    {
        let head: [u8; 4] = [self.0[0], self.0[1], self.0[2], self.0[3]];
        assert(head@ =~= self.0@.subrange(0, 4));
        let digits = hex_encode(head.as_slice());
        let mut r = "node::".to_owned();
        r.push_str(digits.as_str());
        r
    }
}

/// A peer's transport address: an IP address with its port.
///
/// The IPv4 address is held as its 32-bit value and the IPv6 address as its
/// 128-bit value, most significant octet first, as the standard library
/// converts them.
#[allow(inconsistent_fields)]
#[derive(Clone, Copy, Debug, PartialEq, Eq, Hash, Structural)]
pub enum PeerAddr {
    V4 { ip: u32, port: u16 },
    V6 { ip: u128, port: u16, flowinfo: u32, scope_id: u32 },
}

/// The 32-bit value of four IPv4 octets, most significant first.
pub open spec fn ipv4_value(o: [u8; 4]) -> int {
    o[0] as int * 0x100_0000 + o[1] as int * 0x1_0000 + o[2] as int * 0x100 + o[3] as int
}

impl PeerAddr {
    /// The IPv4 address with the given octets and port.
    pub fn v4(octets: [u8; 4], port: u16) -> (r: PeerAddr)
        ensures
            r == (PeerAddr::V4 { ip: ipv4_value(octets) as u32, port }),
    {
        let ip: u32 = octets[0] as u32 * 0x100_0000 + octets[1] as u32 * 0x1_0000
            + octets[2] as u32 * 0x100 + octets[3] as u32;
        PeerAddr::V4 { ip, port }
    }
}

/// One reading of a node's telemetry.
///
/// `timestamp_ms` is the logical version of the reading. `value_bits` holds the
/// IEEE-754 bits of the reading's 64-bit floating-point value, whose meaning
/// is opaque to the core.
#[derive(Clone, Copy, Debug, PartialEq, Eq, Hash, Structural)]
pub struct TelemetryData {
    pub timestamp_ms: u64,
    pub value_bits: u64,
}

/// The unit that is signed and gossiped.
#[derive(Clone, Copy, Debug, PartialEq, Eq, Hash, Structural)]
pub struct GossipPayload {
    pub telemetry: TelemetryData,
    pub community_id: u32,
}

/// A payload together with the identity that signed it and the signature.
#[derive(Clone, Copy, Debug, PartialEq, Eq)]
pub struct SignedMessage {
    pub message: GossipPayload,
    pub originator: NodeId,
    pub signature: [u8; 64],
}

/// What the engine knows of a node.
#[derive(Clone, Copy, Debug, PartialEq, Eq, Hash, Structural)]
pub struct NodeInfo {
    pub telemetry: TelemetryData,
    pub community_id: u32,
}

impl NodeInfo {
    /// The record kept for a received payload.
    pub fn from_payload(p: &GossipPayload) -> (r: NodeInfo)
        ensures
            r == node_info_of(*p),
    {
        NodeInfo { telemetry: p.telemetry, community_id: p.community_id }
    }
}

/// The record kept for a received payload.
pub open spec fn node_info_of(p: GossipPayload) -> NodeInfo {
    NodeInfo { telemetry: p.telemetry, community_id: p.community_id }
}

/// A snapshot of the engine's view of the network.
pub struct NetworkState {
    pub self_id: Option<NodeId>,
    pub nodes: IdMap<NodeInfo>,
    pub active_connections: Vec<NodeId>,
}

impl Default for NetworkState {
    fn default() -> (r: NetworkState)
        ensures
            r.self_id.is_none(),
            r.nodes@ == Map::<NodeId, NodeInfo>::empty(),
            r.active_connections@.len() == 0,
    {
        NetworkState { self_id: None, nodes: IdMap::new(), active_connections: Vec::new() }
    }
}

impl NetworkState {
    /// A snapshot with the same contents.
    pub fn duplicate(&self) -> (r: NetworkState)
        ensures
            r.self_id == self.self_id,
            r.nodes@ == self.nodes@,
            r.active_connections@ == self.active_connections@,
    {
        let mut conns: Vec<NodeId> = Vec::new();
        let mut i: usize = 0;
        while i < self.active_connections.len()
            invariant
                i <= self.active_connections@.len(),
                conns@ == self.active_connections@.subrange(0, i as int),
            decreases self.active_connections@.len() - i,
        {
            conns.push(self.active_connections[i]);
            i = i + 1;
            assert(conns@ =~= self.active_connections@.subrange(0, i as int));
        }
        assert(conns@ =~= self.active_connections@);
        NetworkState { self_id: self.self_id, nodes: self.nodes.duplicate(), active_connections: conns }
    }
}

} // verus!
