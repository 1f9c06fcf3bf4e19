//! Curve arithmetic over the Ristretto group and Feldman verifiable secret
//! sharing on top of it, with codecs for secp256k1 keys.
use vstd::prelude::*;

pub mod feldman_vss;
pub mod point;
pub mod scalar;
pub mod secp256_k1;

pub use point::GE;
pub use scalar::FE;

verus! {

/// Rejection of a malformed public-key encoding.
#[derive(Copy, PartialEq, Eq, Clone, Debug, Structural)]
pub enum ErrorKey {
    InvalidPublicKey,
}

/// Rejection of a secret share that does not match its commitments.
#[derive(Copy, PartialEq, Eq, Clone, Debug, Structural)]
pub enum ErrorSS {
    VerifyShareError,
}

} // verus!
