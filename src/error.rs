use vstd::prelude::*;

verus! {

/// The failures that the library reports.
#[derive(Debug, Clone, Copy, PartialEq, Eq, Structural)]
pub enum Error {
    /// A byte buffer does not have the width its type requires.
    InvalidLength,
    /// The scalar bits of an extended private key break its clamping rules.
    InvalidPrivateKey,
    /// Hardened derivation was requested from a public key, or a derivation
    /// step gave no valid key.
    InvalidDerivation,
    /// A signature is not exactly 64 bytes.
    InvalidSignatureLength,
    /// A public key is not exactly 32 bytes.
    InvalidPublicKeyLength,
    /// A quantity sum does not fit in 64 bits.
    QuantityOverflow,
    /// A quantity difference would be negative.
    QuantityUnderflow,
    /// Fee arithmetic left the 64-bit range.
    Overflow,
    /// The type nibble of an address header is not a known address kind.
    InvalidAddressHeader,
    /// The address length does not match its declared kind.
    InvalidAddressLength,
    /// A pointer's variable-length integers are truncated or too large.
    MalformedPointer,
    /// No built-in network has the requested name.
    UnknownNetwork,
}

} // verus!
