//! Node identities, and signing and verifying gossip payloads with Ed25519.

use crate::codec::{encode_payload, payload_bytes};
use crate::domain::{GossipPayload, NodeId, SignedMessage};
use crate::error::Error;
use ed25519_dalek::{Signature, Signer, SigningKey, Verifier, VerifyingKey};
use rand::RngCore;
use vstd::prelude::*;

verus! {

/// The Ed25519 public key of a 32-byte secret.
pub uninterp spec fn ed25519_public(secret: Seq<u8>) -> Seq<u8>;

/// The Ed25519 signature of a message under a 32-byte secret.
pub uninterp spec fn ed25519_signature(secret: Seq<u8>, message: Seq<u8>) -> Seq<u8>;

/// Whether a signature on a message verifies under a public key.
pub uninterp spec fn ed25519_accepts(public_key: Seq<u8>, message: Seq<u8>, signature: Seq<u8>) -> bool;

/// Relies on rand's OsRng: 32 bytes from the operating system's generator.
/// Nothing is known of them.
#[verifier::external_body]
fn random_secret() -> (r: [u8; 32]) {
    let mut bytes = [0u8; 32];
    rand::rngs::OsRng.fill_bytes(&mut bytes);
    bytes
}

/// Relies on ed25519_dalek's SigningKey::verifying_key: the public key is a
/// function of the secret alone.
#[verifier::external_body]
fn public_key_of(secret: &[u8; 32]) -> (r: [u8; 32])
    ensures
        r@ == ed25519_public(secret@),
{
    SigningKey::from_bytes(secret).verifying_key().to_bytes()
}

/// Relies on ed25519_dalek's Signer::sign for SigningKey: Ed25519 signing is
/// deterministic, so the signature is a function of the secret and the message;
/// and, as the crate documents, it verifies under the secret's public key.
#[verifier::external_body]
fn sign_bytes(secret: &[u8; 32], message: &[u8]) -> (r: [u8; 64])
    ensures
        r@ == ed25519_signature(secret@, message@),
        ed25519_accepts(ed25519_public(secret@), message@, r@),
{
    SigningKey::from_bytes(secret).sign(message).to_bytes()
}

/// Relies on ed25519_dalek's Verifier::verify for VerifyingKey, after
/// VerifyingKey::from_bytes; bytes that are not a public key verify nothing.
/// The outcome is a function of the three byte strings.
#[verifier::external_body]
fn verify_bytes(public_key: &[u8; 32], message: &[u8], signature: &[u8; 64]) -> (r: bool)
    ensures
        r == ed25519_accepts(public_key@, message@, signature@),
{
    match VerifyingKey::from_bytes(public_key) {
        Ok(key) => key.verify(message, &Signature::from_bytes(signature)).is_ok(),
        Err(_) => false,
    }
}

/// Whether a message's signature covers its payload's canonical bytes under
/// the originator's key.
pub open spec fn message_verifies(m: SignedMessage) -> bool {
    ed25519_accepts(m.originator.0@, payload_bytes(m.message), m.signature@)
}

/// A node's cryptographic identity: its secret and the public key derived from it.
#[derive(Clone)]
pub struct Identity {
    secret: [u8; 32],
    pub node_id: NodeId,
}

impl Identity {
    /// The identity's 32-byte secret.
    pub closed spec fn secret(&self) -> Seq<u8> {
        self.secret@
    }

    /// The identity's node identifier.
    pub closed spec fn id(&self) -> NodeId {
        self.node_id
    }

    /// The node identifier is the public key of the secret.
    pub closed spec fn wf(&self) -> bool {
        self.node_id.0@ == ed25519_public(self.secret@)
    }

    /// The identity's node identifier.
    pub fn node_id(&self) -> (r: NodeId)
        ensures
            r == self.id(),
    {
        self.node_id
    }

    /// A new identity with a random secret.
    pub fn new() -> (r: Identity)
        ensures
            r.wf(),
    {
        Identity::from_secret(random_secret())
    }

    /// The identity of the given secret.
    pub fn from_secret(secret: [u8; 32]) -> (r: Identity)
        ensures
            r.wf(),
            r.secret() == secret@,
            r.id().0@ == ed25519_public(secret@),
    {
        let public = public_key_of(&secret);
        Identity { secret, node_id: NodeId(public) }
    }

    /// The identity stored in a key file's content, which must be exactly 32 bytes.
    pub fn from_key_bytes(bytes: &[u8]) -> (r: Result<Identity, Error>)
        ensures
            r is Ok <==> bytes@.len() == 32,
            r matches Ok(id) ==> id.wf() && id.secret() == bytes@ && id.id().0@ == ed25519_public(
                bytes@,
            ),
            r matches Err(e) ==> e == Error::InvalidKeyFile,
    {
        if bytes.len() != 32 {
            return Err(Error::InvalidKeyFile);
        }
        let mut secret = [0u8; 32];
        let mut i: usize = 0;
        while i < 32
            invariant
                bytes@.len() == 32,
                i <= 32,
                forall|j: int| 0 <= j < i ==> secret@[j] == bytes@[j],
            decreases 32 - i,
        {
            secret[i] = bytes[i];
            i = i + 1;
        }
        assert(secret@ =~= bytes@);
        Ok(Identity::from_secret(secret))
    }

    /// The secret, as a key file holds it.
    pub fn secret_bytes(&self) -> (r: [u8; 32])
        ensures
            r@ == self.secret(),
    {
        self.secret
    }

    /// Signs a payload: the signature covers the payload's canonical bytes, and
    /// the originator is this identity.
    pub fn sign(&self, message_data: GossipPayload) -> (r: SignedMessage)
        ensures
            r.message == message_data,
            r.originator == self.id(),
            r.signature@ == ed25519_signature(self.secret(), payload_bytes(message_data)),
            self.wf() ==> message_verifies(r),
    {
        let bytes = encode_payload(&message_data);
        let signature = sign_bytes(&self.secret, bytes.as_slice());
        SignedMessage { message: message_data, originator: self.node_id, signature }
    }
}

/// Checks that a message's signature covers its payload under its originator's key.
pub fn verify(message: &SignedMessage) -> (r: Result<(), Error>)
    ensures
        r is Ok <==> message_verifies(*message),
        r matches Err(e) ==> e == Error::Crypto,
{
    let bytes = encode_payload(&message.message);
    if verify_bytes(&message.originator.0, bytes.as_slice(), &message.signature) {
        Ok(())
    } else {
        Err(Error::Crypto)
    }
}

impl SignedMessage {
    /// Checks that the signature covers the payload under the originator's key.
    pub fn verify(&self) -> (r: Result<(), Error>)
        ensures
            r is Ok <==> message_verifies(*self),
            r matches Err(e) ==> e == Error::Crypto,
    {
        verify(self)
    }
}

} // verus!
