//! A peer-to-peer gossip node's core: identities and signed telemetry, the
//! canonical message codec, the gossip engine's state machine, fan-out peer
//! selection, and the observation feed's snapshot-to-delta derivation.

pub mod codec;
pub mod config;
pub mod crypto;
pub mod domain;
pub mod engine;
pub mod error;
pub mod feed;
pub mod id_map;
pub mod protocol;
pub mod transport;
