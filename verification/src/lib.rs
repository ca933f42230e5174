//! MProve: a non-interactive proof of reserves for a CryptoNote-style coin,
//! over the Ristretto group.
//!
//! An exchange holds the secret keys of some addresses inside a larger ring.
//! A proof shows, for every ring position, either knowledge of the address key
//! or knowledge of the blinding factor of an auxiliary commitment, without
//! telling which, and publishes the sum of the commitment differences as the
//! reserve commitment. Each position carries two one-out-of-two ring
//! signatures, one of them linkable through its key image.
#![allow(non_snake_case)]

use vstd::prelude::*;

pub mod point;
pub mod proofs;
pub mod scalar;
pub mod transcript;

verus! {

/// Why a proof or one of its signatures was rejected.
#[derive(Copy, Clone, Debug, PartialEq, Eq, Structural)]
pub enum Errors {
    /// A ring signature is malformed or its challenge chain does not close.
    MProveSigsError,
    /// The proof's vectors disagree in length, or the reserve commitment is
    /// not the sum of the commitment differences.
    MProveError,
}

} // verus!
