//! Fiat-Shamir transcripts.
//!
//! A [`Transcript`] is a Keccak-512 hasher that takes in bytes piece by piece:
//! what counts is the byte string taken in so far, its view. A signature takes
//! in the fixed part of its transcript once and forks the hasher for every
//! challenge, so that a challenge costs the hashing of its last piece only.
//! The hashing is done by `sha3` and the reduction to a scalar by
//! `curve25519-dalek`; what this module proves is built on the contracts of the
//! private functions that make those calls.

use vstd::prelude::*;
use crate::scalar::{keccak512_scalar, Scalar};

verus! {

#[verifier::external_type_specification]
#[verifier::external_body]
pub struct ExKeccak512(sha3::Keccak512);

/// The bytes that a Keccak-512 hasher has taken in since it was made, in the
/// order in which they came.
pub uninterp spec fn absorbed(hasher: sha3::Keccak512) -> Seq<u8>;

/// `Keccak512::default`: a hasher that has taken in nothing.
#[verifier::external_body]
fn keccak_new() -> (h: sha3::Keccak512)
    ensures
        absorbed(h) == Seq::<u8>::empty(),
{
    sha3::Keccak512::default()
}

/// `Digest::update`: the hasher takes in `data` behind what it has.
#[verifier::external_body]
fn keccak_update(h: &mut sha3::Keccak512, data: &[u8])
    ensures
        absorbed(*final(h)) == absorbed(*old(h)) + data@,
{
    sha3::Digest::update(h, data)
}

/// `Clone::clone` of a hasher: a second hasher that has taken in the same.
#[verifier::external_body]
fn keccak_clone(h: &sha3::Keccak512) -> (g: sha3::Keccak512)
    ensures
        absorbed(g) == absorbed(*h),
{
    h.clone()
}

/// `Scalar::from_hash`: the digest of what the hasher has taken in, read as a
/// 512-bit little-endian integer and reduced modulo the group order. The
/// digest has no short description, so the result is named by
/// [`keccak512_scalar`].
#[verifier::external_body]
fn dalek_scalar_from_hash(h: sha3::Keccak512) -> (r: Scalar)
    ensures
        r.wf(),
        r@ == keccak512_scalar(absorbed(h)),
{
    Scalar { bytes: curve25519_dalek::scalar::Scalar::from_hash(h).to_bytes() }
}

/// A byte string that is being hashed.
pub struct Transcript {
    hasher: sha3::Keccak512,
}

impl View for Transcript {
    type V = Seq<u8>;

    closed spec fn view(&self) -> Seq<u8> {
        absorbed(self.hasher)
    }
}

impl Transcript {
    /// The empty transcript.
    pub fn new() -> (t: Transcript)
        ensures
            t@ == Seq::<u8>::empty(),
    {
        Transcript { hasher: keccak_new() }
    }

    /// Appends `data` to the transcript.
    pub fn absorb(&mut self, data: &[u8])
        ensures
            final(self)@ == old(self)@ + data@,
    {
        keccak_update(&mut self.hasher, data);
    }

    /// A second transcript with the same bytes.
    pub fn fork(&self) -> (t: Transcript)
        ensures
            t@ == self@,
    {
        Transcript { hasher: keccak_clone(&self.hasher) }
    }

    /// The challenge for the transcript: its hash, as a scalar.
    pub fn challenge(self) -> (c: Scalar)
        ensures
            c.wf(),
            c@ == keccak512_scalar(self@),
    {
        dalek_scalar_from_hash(self.hasher)
    }
}

} // verus!
