//! Anonymous attestation in the style of ECDAA over the BLS12-381 pairing.
//!
//! An issuer publishes a key with a proof of its well-formedness, grants members
//! credentials through a three-message join, and members then sign messages with
//! randomized copies of their credential. A verifier checks a signature against the
//! issuer's key without learning which member made it, and signatures made under
//! one base-name by one member can be linked.
use vstd::prelude::*;

pub mod codec;
pub mod cred;
pub mod curve;
pub mod hash;
pub mod issuer;
pub mod join;
pub mod scalar;
pub mod schnorr;
pub mod signature;

verus! {

/// The terminal errors of the protocol.
#[derive(Debug, Clone, Copy, PartialEq, Eq, Structural)]
pub enum EcdaaError {
    /// A recomputed Fiat-Shamir challenge differs from the one in the proof.
    InvalidSchnorrProof,
    /// The issuer key's proof of knowledge of its secret does not hold.
    InvalidPublicKey,
    /// The pairing relation e(A, Y) = e(B, g2) does not hold.
    InvalidCredential1,
    /// The pairing relation e(C, g2) = e(A + D, X) does not hold.
    InvalidCredential2,
    /// Linkability was asked for but the signature holds no token.
    KNotInSignature,
    /// Hashing to the curve ran out of counter values.
    HashingFailed,
}

} // verus!
