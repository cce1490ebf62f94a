use gossip_network::codec::{decode_message, encode_message, encode_payload, MESSAGE_LEN};
use gossip_network::domain::{GossipPayload, NodeId, SignedMessage, TelemetryData};
use gossip_network::error::Error;
use gossip_network::transport::InboundMessage;
use gossip_network::domain::PeerAddr;

fn payload(timestamp_ms: u64, value: f64, community_id: u32) -> GossipPayload {
    GossipPayload {
        telemetry: TelemetryData { timestamp_ms, value_bits: value.to_bits() },
        community_id,
    }
}

#[test]
fn test_telemetry_serialization_is_stable() {
    let msg1 = payload(100, 123.45, 0);
    let msg2 = payload(100, 123.45, 0);
    let bytes1 = encode_payload(&msg1);
    let bytes2 = encode_payload(&msg2);
    assert_eq!(bytes1, bytes2);
}

#[test]
fn payload_encoding_is_fixed_width_little_endian() {
    let p = payload(0x0102_0304_0506_0708, 1.0, 0xa1b2_c3d4);
    let bytes = encode_payload(&p);
    let mut expected = vec![8, 7, 6, 5, 4, 3, 2, 1];
    expected.extend_from_slice(&1.0f64.to_le_bytes());
    expected.extend_from_slice(&[0xd4, 0xc3, 0xb2, 0xa1]);
    assert_eq!(bytes, expected);
}

#[test]
fn message_round_trips_through_the_codec() {
    let m = SignedMessage {
        message: payload(u64::MAX, -2.5, 7),
        originator: NodeId([0x5a; 32]),
        signature: [0x33; 64],
    };
    let bytes = encode_message(&m);
    assert_eq!(bytes.len(), MESSAGE_LEN);
    assert_eq!(&bytes[20..52], &[0x5a; 32]);
    assert_eq!(&bytes[52..], &[0x33; 64][..]);
    assert_eq!(decode_message(&bytes), Ok(m));
}

#[test]
fn decoding_rejects_wrong_lengths() {
    let m = SignedMessage {
        message: payload(1, 0.0, 0),
        originator: NodeId([1; 32]),
        signature: [2; 64],
    };
    let mut bytes = encode_message(&m);
    bytes.push(0);
    assert_eq!(decode_message(&bytes), Err(Error::Serialization));
    bytes.truncate(MESSAGE_LEN - 1);
    assert_eq!(decode_message(&bytes), Err(Error::Serialization));
    assert_eq!(decode_message(&[]), Err(Error::Serialization));
}

#[test]
fn inbound_stream_carries_sender_address() {
    let m = SignedMessage {
        message: payload(9, 3.0, 1),
        originator: NodeId([4; 32]),
        signature: [5; 64],
    };
    let addr = PeerAddr::v4([10, 0, 0, 1], 4000);
    let inbound = InboundMessage::from_stream(addr, &encode_message(&m)).unwrap();
    assert_eq!(inbound.peer_addr, addr);
    assert_eq!(inbound.message, m);
    assert!(InboundMessage::from_stream(addr, &[0u8; 10]).is_err());
}
