use vstd::prelude::*;

verus! {

/// The failures that the library itself reports.
#[derive(Clone, Copy, Debug, PartialEq, Eq, Structural)]
pub enum Error {
    /// An identity key file did not hold exactly 32 bytes.
    InvalidKeyFile,
    /// A signature did not verify under the claimed originator's key.
    Crypto,
    /// Bytes received from a peer are not the encoding of a signed message.
    Serialization,
}

} // verus!
