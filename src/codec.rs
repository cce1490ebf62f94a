//! The canonical binary encoding of payloads and signed messages.
//!
//! Fields stand in declared order with no framing or tags: integers are
//! little-endian and fixed-width, the telemetry value is its 8 IEEE-754 bytes,
//! the originator is its 32 key bytes and the signature its 64 bytes. The
//! payload's encoding is exactly what is signed; the message's encoding is
//! exactly the content of one stream on the wire.

use crate::domain::{GossipPayload, NodeId, SignedMessage, TelemetryData};
use crate::error::Error;
use vstd::prelude::*;

verus! {

/// Length of an encoded payload.
pub const PAYLOAD_LEN: usize = 20;

/// Length of an encoded signed message.
pub const MESSAGE_LEN: usize = 116;

/// The largest stream a peer may send; longer ones are not read.
pub const MAX_MESSAGE_SIZE: usize = 1024 * 1024;

/// The 8 little-endian bytes of `x`.
pub open spec fn le_u64(x: u64) -> Seq<u8> {
    seq![
        (x & 0xff) as u8,
        ((x >> 8u64) & 0xff) as u8,
        ((x >> 16u64) & 0xff) as u8,
        ((x >> 24u64) & 0xff) as u8,
        ((x >> 32u64) & 0xff) as u8,
        ((x >> 40u64) & 0xff) as u8,
        ((x >> 48u64) & 0xff) as u8,
        ((x >> 56u64) & 0xff) as u8,
    ]
}

/// The 4 little-endian bytes of `x`.
pub open spec fn le_u32(x: u32) -> Seq<u8> {
    seq![
        (x & 0xff) as u8,
        ((x >> 8u32) & 0xff) as u8,
        ((x >> 16u32) & 0xff) as u8,
        ((x >> 24u32) & 0xff) as u8,
    ]
}

/// The canonical bytes of a payload: timestamp, value, community.
pub open spec fn payload_bytes(p: GossipPayload) -> Seq<u8> {
    le_u64(p.telemetry.timestamp_ms) + le_u64(p.telemetry.value_bits) + le_u32(p.community_id)
}

/// The canonical bytes of a signed message: payload, originator, signature.
pub open spec fn message_bytes(m: SignedMessage) -> Seq<u8> {
    payload_bytes(m.message) + m.originator.0@ + m.signature@
}

proof fn lemma_le_u64_injective(a: u64, b: u64)
    requires
        le_u64(a) == le_u64(b),
    ensures
        a == b,
{
    assert(le_u64(a)[0] == le_u64(b)[0]);
    assert(le_u64(a)[1] == le_u64(b)[1]);
    assert(le_u64(a)[2] == le_u64(b)[2]);
    assert(le_u64(a)[3] == le_u64(b)[3]);
    assert(le_u64(a)[4] == le_u64(b)[4]);
    assert(le_u64(a)[5] == le_u64(b)[5]);
    assert(le_u64(a)[6] == le_u64(b)[6]);
    assert(le_u64(a)[7] == le_u64(b)[7]);
    assert(((a & 0xff) as u8 == (b & 0xff) as u8 && ((a >> 8u64) & 0xff) as u8 == ((b >> 8u64)
        & 0xff) as u8 && ((a >> 16u64) & 0xff) as u8 == ((b >> 16u64) & 0xff) as u8 && ((a
        >> 24u64) & 0xff) as u8 == ((b >> 24u64) & 0xff) as u8 && ((a >> 32u64) & 0xff) as u8
        == ((b >> 32u64) & 0xff) as u8 && ((a >> 40u64) & 0xff) as u8 == ((b >> 40u64) & 0xff) as u8
        && ((a >> 48u64) & 0xff) as u8 == ((b >> 48u64) & 0xff) as u8 && ((a >> 56u64) & 0xff) as u8
        == ((b >> 56u64) & 0xff) as u8) ==> a == b) by (bit_vector);
}

proof fn lemma_le_u32_injective(a: u32, b: u32)
    requires
        le_u32(a) == le_u32(b),
    ensures
        a == b,
{
    assert(le_u32(a)[0] == le_u32(b)[0]);
    assert(le_u32(a)[1] == le_u32(b)[1]);
    assert(le_u32(a)[2] == le_u32(b)[2]);
    assert(le_u32(a)[3] == le_u32(b)[3]);
    assert(((a & 0xff) as u8 == (b & 0xff) as u8 && ((a >> 8u32) & 0xff) as u8 == ((b >> 8u32)
        & 0xff) as u8 && ((a >> 16u32) & 0xff) as u8 == ((b >> 16u32) & 0xff) as u8 && ((a
        >> 24u32) & 0xff) as u8 == ((b >> 24u32) & 0xff) as u8) ==> a == b) by (bit_vector);
}

/// Distinct payloads have distinct encodings: a payload is determined by the
/// bytes that are signed for it.
pub proof fn lemma_payload_bytes_injective(a: GossipPayload, b: GossipPayload)
    requires
        payload_bytes(a) == payload_bytes(b),
    ensures
        a == b,
{
    let (x, y) = (payload_bytes(a), payload_bytes(b));
    assert(x.subrange(0, 8) =~= le_u64(a.telemetry.timestamp_ms));
    assert(y.subrange(0, 8) =~= le_u64(b.telemetry.timestamp_ms));
    assert(x.subrange(8, 16) =~= le_u64(a.telemetry.value_bits));
    assert(y.subrange(8, 16) =~= le_u64(b.telemetry.value_bits));
    assert(x.subrange(16, 20) =~= le_u32(a.community_id));
    assert(y.subrange(16, 20) =~= le_u32(b.community_id));
    lemma_le_u64_injective(a.telemetry.timestamp_ms, b.telemetry.timestamp_ms);
    lemma_le_u64_injective(a.telemetry.value_bits, b.telemetry.value_bits);
    lemma_le_u32_injective(a.community_id, b.community_id);
}

/// Distinct messages have distinct encodings: decoding inverts encoding.
pub proof fn lemma_message_bytes_injective(a: SignedMessage, b: SignedMessage)
    requires
        message_bytes(a) == message_bytes(b),
    ensures
        a == b,
{
    let (x, y) = (message_bytes(a), message_bytes(b));
    assert(x.subrange(0, 20) =~= payload_bytes(a.message));
    assert(y.subrange(0, 20) =~= payload_bytes(b.message));
    lemma_payload_bytes_injective(a.message, b.message);
    assert(x.subrange(20, 52) =~= a.originator.0@);
    assert(y.subrange(20, 52) =~= b.originator.0@);
    assert(x.subrange(52, 116) =~= a.signature@);
    assert(y.subrange(52, 116) =~= b.signature@);
    vstd::array::axiom_array_ext_equal(a.originator.0, b.originator.0);
    vstd::array::axiom_array_ext_equal(a.signature, b.signature);
}

fn push_u64(out: &mut Vec<u8>, x: u64)
    ensures
        final(out)@ == old(out)@ + le_u64(x),
{
    out.push((x & 0xff) as u8);
    out.push(((x >> 8u64) & 0xff) as u8);
    out.push(((x >> 16u64) & 0xff) as u8);
    out.push(((x >> 24u64) & 0xff) as u8);
    out.push(((x >> 32u64) & 0xff) as u8);
    out.push(((x >> 40u64) & 0xff) as u8);
    out.push(((x >> 48u64) & 0xff) as u8);
    out.push(((x >> 56u64) & 0xff) as u8);
    assert(out@ =~= old(out)@ + le_u64(x));
}

fn push_u32(out: &mut Vec<u8>, x: u32)
    ensures
        final(out)@ == old(out)@ + le_u32(x),
{
    out.push((x & 0xff) as u8);
    out.push(((x >> 8u32) & 0xff) as u8);
    out.push(((x >> 16u32) & 0xff) as u8);
    out.push(((x >> 24u32) & 0xff) as u8);
    assert(out@ =~= old(out)@ + le_u32(x));
}

fn push_bytes(out: &mut Vec<u8>, bytes: &[u8])
    ensures
        final(out)@ == old(out)@ + bytes@,
{
    let mut i: usize = 0;
    while i < bytes.len()
        invariant
            i <= bytes@.len(),
            out@ == old(out)@ + bytes@.subrange(0, i as int),
        decreases bytes@.len() - i,
    {
        out.push(bytes[i]);
        i = i + 1;
        assert(out@ =~= old(out)@ + bytes@.subrange(0, i as int));
    }
    assert(bytes@.subrange(0, i as int) =~= bytes@);
}

/// The canonical bytes of a payload, which are what its signature covers.
pub fn encode_payload(p: &GossipPayload) -> (r: Vec<u8>)
    ensures
        r@ == payload_bytes(*p),
        r@.len() == PAYLOAD_LEN,
{
    let mut out: Vec<u8> = Vec::new();
    push_u64(&mut out, p.telemetry.timestamp_ms);
    push_u64(&mut out, p.telemetry.value_bits);
    push_u32(&mut out, p.community_id);
    assert(out@ =~= payload_bytes(*p));
    out
}

/// The canonical bytes of a signed message, as sent on one stream.
pub fn encode_message(m: &SignedMessage) -> (r: Vec<u8>)
    ensures
        r@ == message_bytes(*m),
        r@.len() == MESSAGE_LEN,
{
    let mut out = encode_payload(&m.message);
    push_bytes(&mut out, m.originator.0.as_slice());
    push_bytes(&mut out, m.signature.as_slice());
    assert(out@ =~= message_bytes(*m));
    out
}

fn read_u64(b: &[u8], at: usize) -> (r: u64)
    requires
        at + 8 <= b@.len(),
    ensures
        le_u64(r) == b@.subrange(at as int, at + 8),
{
    let (b0, b1, b2, b3) = (b[at] as u64, b[at + 1] as u64, b[at + 2] as u64, b[at + 3] as u64);
    let (b4, b5, b6, b7) = (
        b[at + 4] as u64,
        b[at + 5] as u64,
        b[at + 6] as u64,
        b[at + 7] as u64,
    );
    let r: u64 = b0 | (b1 << 8u64) | (b2 << 16u64) | (b3 << 24u64) | (b4 << 32u64) | (b5 << 40u64)
        | (b6 << 48u64) | (b7 << 56u64);
    assert((b0 < 256 && b1 < 256 && b2 < 256 && b3 < 256 && b4 < 256 && b5 < 256 && b6 < 256 && b7
        < 256 && r == b0 | (b1 << 8u64) | (b2 << 16u64) | (b3 << 24u64) | (b4 << 32u64) | (b5
        << 40u64) | (b6 << 48u64) | (b7 << 56u64)) ==> ((r & 0xff) == b0 && ((r >> 8u64) & 0xff)
        == b1 && ((r >> 16u64) & 0xff) == b2 && ((r >> 24u64) & 0xff) == b3 && ((r >> 32u64)
        & 0xff) == b4 && ((r >> 40u64) & 0xff) == b5 && ((r >> 48u64) & 0xff) == b6 && ((r
        >> 56u64) & 0xff) == b7)) by (bit_vector);
    assert(le_u64(r) =~= b@.subrange(at as int, at + 8));
    r
}

fn read_u32(b: &[u8], at: usize) -> (r: u32)
    requires
        at + 4 <= b@.len(),
    ensures
        le_u32(r) == b@.subrange(at as int, at + 4),
{
    let (b0, b1, b2, b3) = (b[at] as u32, b[at + 1] as u32, b[at + 2] as u32, b[at + 3] as u32);
    let r: u32 = b0 | (b1 << 8u32) | (b2 << 16u32) | (b3 << 24u32);
    assert((b0 < 256 && b1 < 256 && b2 < 256 && b3 < 256 && r == b0 | (b1 << 8u32) | (b2 << 16u32)
        | (b3 << 24u32)) ==> ((r & 0xff) == b0 && ((r >> 8u32) & 0xff) == b1 && ((r >> 16u32)
        & 0xff) == b2 && ((r >> 24u32) & 0xff) == b3)) by (bit_vector);
    assert(le_u32(r) =~= b@.subrange(at as int, at + 4));
    r
}

fn read_32(b: &[u8], at: usize) -> (r: [u8; 32])
    requires
        at + 32 <= b@.len(),
        b@.len() == MESSAGE_LEN,
    ensures
        r@ == b@.subrange(at as int, at + 32),
{
    let mut r = [0u8; 32];
    let mut i: usize = 0;
    while i < 32
        invariant
            at + 32 <= b@.len(),
            b@.len() == MESSAGE_LEN,
            i <= 32,
            forall|j: int| 0 <= j < i ==> r@[j] == b@[at + j],
        decreases 32 - i,
    {
        r[i] = b[at + i];
        i = i + 1;
    }
    assert(r@ =~= b@.subrange(at as int, at + 32));
    r
}

fn read_64(b: &[u8], at: usize) -> (r: [u8; 64])
    requires
        at + 64 <= b@.len(),
        b@.len() == MESSAGE_LEN,
    ensures
        r@ == b@.subrange(at as int, at + 64),
{
    let mut r = [0u8; 64];
    let mut i: usize = 0;
    while i < 64
        invariant
            at + 64 <= b@.len(),
            b@.len() == MESSAGE_LEN,
            i <= 64,
            forall|j: int| 0 <= j < i ==> r@[j] == b@[at + j],
        decreases 64 - i,
    {
        r[i] = b[at + i];
        i = i + 1;
    }
    assert(r@ =~= b@.subrange(at as int, at + 64));
    r
}

/// Decodes the content of one stream into a signed message.
///
/// Succeeds exactly on the canonical encoding of some message, which is then
/// the message returned.
pub fn decode_message(bytes: &[u8]) -> (r: Result<SignedMessage, Error>)
    ensures
        r is Ok <==> bytes@.len() == MESSAGE_LEN,
        r matches Ok(m) ==> message_bytes(m) == bytes@,
        r matches Err(e) ==> e == Error::Serialization,
{
    if bytes.len() != MESSAGE_LEN {
        return Err(Error::Serialization);
    }
    let timestamp_ms = read_u64(bytes, 0);
    let value_bits = read_u64(bytes, 8);
    let community_id = read_u32(bytes, 16);
    let originator = read_32(bytes, 20);
    let signature = read_64(bytes, 52);
    let m = SignedMessage {
        message: GossipPayload { telemetry: TelemetryData { timestamp_ms, value_bits }, community_id },
        originator: NodeId(originator),
        signature,
    };
    assert(message_bytes(m) =~= bytes@);
    Ok(m)
}

} // verus!
