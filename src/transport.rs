//! What the transport and the engine hand each other.

use crate::codec::{decode_message, message_bytes, MESSAGE_LEN};
use crate::domain::{PeerAddr, SignedMessage};
use crate::error::Error;
use vstd::prelude::*;

verus! {

/// A command to the transport.
#[derive(Clone, Copy, Debug, PartialEq, Eq)]
pub enum TransportCommand {
    /// Send the message to the peer on a new stream.
    SendMessage(PeerAddr, SignedMessage),
}

/// A message received from a peer, with the address it came from.
#[derive(Clone, Copy, Debug, PartialEq, Eq)]
pub struct InboundMessage {
    pub peer_addr: PeerAddr,
    pub message: SignedMessage,
}

/// A change in the transport's connections.
#[derive(Clone, Copy, Debug, PartialEq, Eq, Hash, Structural)]
pub enum ConnectionEvent {
    PeerConnected { peer_addr: PeerAddr },
    PeerDisconnected { peer_addr: PeerAddr },
}

impl InboundMessage {
    /// The message carried by one complete stream from `peer_addr`.
    pub fn from_stream(peer_addr: PeerAddr, bytes: &[u8]) -> (r: Result<InboundMessage, Error>)
        ensures
            r is Ok <==> bytes@.len() == MESSAGE_LEN,
            r matches Ok(m) ==> m.peer_addr == peer_addr && message_bytes(m.message) == bytes@,
            r matches Err(e) ==> e == Error::Serialization,
    {
        match decode_message(bytes) {
            Ok(message) => Ok(InboundMessage { peer_addr, message }),
            Err(e) => Err(e),
        }
    }
}

} // verus!
