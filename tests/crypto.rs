use gossip_network::crypto::{verify, Identity};
use gossip_network::domain::{GossipPayload, SignedMessage, TelemetryData};
use gossip_network::error::Error;

fn create_test_telemetry() -> GossipPayload {
    GossipPayload {
        telemetry: TelemetryData { timestamp_ms: 12345, value_bits: 99.9f64.to_bits() },
        community_id: 0,
    }
}

fn sign_at(identity: &Identity, timestamp_ms: u64) -> SignedMessage {
    let payload = GossipPayload {
        telemetry: TelemetryData { timestamp_ms, value_bits: 42.0f64.to_bits() },
        community_id: 1,
    };
    identity.sign(payload)
}

#[test]
fn test_sign_and_verify_ok() {
    let identity = Identity::new();
    let telemetry = create_test_telemetry();
    let signed_message = identity.sign(telemetry);
    assert_eq!(signed_message.originator, identity.node_id);
    assert!(verify(&signed_message).is_ok());
}

#[test]
fn test_verify_fails_on_tampered_message() {
    let identity = Identity::new();
    let telemetry = create_test_telemetry();
    let mut signed_message = identity.sign(telemetry);
    signed_message.message.telemetry.value_bits = 0.0f64.to_bits();
    assert!(verify(&signed_message).is_err());
}

#[test]
fn test_verify_fails_with_wrong_identity() {
    let identity1 = Identity::new();
    let identity2 = Identity::new();
    let telemetry = create_test_telemetry();
    let mut signed_message = identity1.sign(telemetry);
    signed_message.originator = identity2.node_id;
    assert!(verify(&signed_message).is_err());
}

#[test]
fn signature_verification_succeeds_for_valid_message() {
    let peer = Identity::new();
    let message = sign_at(&peer, 1000);
    assert!(message.verify().is_ok());
}

#[test]
fn signature_verification_fails_for_tampered_payload() {
    let peer = Identity::new();
    let mut message = sign_at(&peer, 1000);
    message.message.telemetry.value_bits = 999.0f64.to_bits();
    assert!(message.verify().is_err());
}

#[test]
fn signature_verification_fails_for_wrong_originator() {
    let peer_a = Identity::new();
    let peer_b = Identity::new();
    let mut message = sign_at(&peer_a, 1000);
    message.originator = peer_b.node_id;
    assert!(message.verify().is_err());
}

#[test]
fn signature_verification_fails_for_corrupted_signature() {
    let peer = Identity::new();
    let mut message = sign_at(&peer, 1000);
    message.signature[0] ^= 0xff;
    assert!(message.verify().is_err());
}

#[test]
fn tampering_with_timestamp_or_community_fails_verification() {
    let peer = Identity::new();
    let mut message = sign_at(&peer, 1000);
    message.message.telemetry.timestamp_ms = 1001;
    assert_eq!(message.verify(), Err(Error::Crypto));
    let mut message = sign_at(&peer, 1000);
    message.message.community_id = 2;
    assert_eq!(message.verify(), Err(Error::Crypto));
}

#[test]
fn originator_that_is_not_a_public_key_fails_verification() {
    let peer = Identity::new();
    let mut message = sign_at(&peer, 1000);
    // Not the encoding of a curve point.
    let mut bogus = [0xffu8; 32];
    bogus[31] = 0x7f;
    message.originator.0 = bogus;
    assert!(message.verify().is_err());
}

#[test]
fn key_file_content_must_be_exactly_32_bytes() {
    assert_eq!(Identity::from_key_bytes(&[1u8; 31]).err(), Some(Error::InvalidKeyFile));
    assert_eq!(Identity::from_key_bytes(&[1u8; 33]).err(), Some(Error::InvalidKeyFile));
    assert_eq!(Identity::from_key_bytes(&[]).err(), Some(Error::InvalidKeyFile));
    let id = Identity::from_key_bytes(&[1u8; 32]).ok().unwrap();
    assert_eq!(id.secret_bytes(), [1u8; 32]);
    assert_eq!(id.node_id, Identity::from_secret([1u8; 32]).node_id);
}

#[test]
fn public_key_is_derived_from_the_secret() {
    let id = Identity::from_secret([9u8; 32]);
    assert_ne!(id.node_id.0, [9u8; 32]);
    let reloaded = Identity::from_key_bytes(&id.secret_bytes()).ok().unwrap();
    assert_eq!(reloaded.node_id, id.node_id);
    assert_eq!(reloaded.node_id(), id.node_id);
}

#[test]
fn fresh_identities_differ() {
    let a = Identity::new();
    let b = Identity::new();
    assert_ne!(a.node_id, b.node_id);
    assert_ne!(a.secret_bytes(), b.secret_bytes());
}

#[test]
fn signing_is_deterministic_and_covers_the_payload() {
    let id = Identity::from_secret([3u8; 32]);
    let a = sign_at(&id, 5);
    let b = sign_at(&id, 5);
    let c = sign_at(&id, 6);
    assert_eq!(a.signature, b.signature);
    assert_ne!(a.signature, c.signature);
    assert_ne!(a.signature, [0u8; 64]);
}
