//! Scalars: the integers modulo the order of the Ristretto group.
//!
//! A [`Scalar`] holds the 32-byte little-endian encoding of its value, the
//! form in which scalars are stored and exchanged. All arithmetic is done by
//! `curve25519-dalek`; what this module proves is built on the contracts of
//! the private functions that make those calls.

use vstd::prelude::*;
use crate::transcript::Transcript;

verus! {

/// The order of the Ristretto group, 2^252 + 27742317777372353535851937790883648493.
pub open spec fn group_order() -> nat {
    7237005577332262213973186563042994240857116359379907606001950938285454250989nat
}

/// The number that a little-endian byte string stands for.
pub open spec fn le_value(bytes: Seq<u8>) -> nat
    decreases bytes.len(),
{
    if bytes.len() == 0 {
        0
    } else {
        bytes[0] as nat + 256 * le_value(bytes.skip(1))
    }
}

/// `a - b` modulo the group order, for `b` below the order.
pub open spec fn sub_mod(a: nat, b: nat) -> nat {
    ((a + group_order() - b) % (group_order() as int)) as nat
}

/// `a * b` modulo the group order.
pub open spec fn mul_mod(a: nat, b: nat) -> nat {
    (a * b) % group_order()
}

/// The result of `Scalar::from_hash` on a Keccak-512 hasher that has taken in
/// `input`, as a number: the digest of `input`, read as a 512-bit little-endian
/// integer and reduced modulo the group order.
pub uninterp spec fn keccak512_scalar(input: Seq<u8>) -> nat;

/// An integer modulo the group order, in its 32-byte little-endian encoding.
#[derive(Clone, Copy, Debug)]
pub struct Scalar {
    pub bytes: [u8; 32],
}

impl View for Scalar {
    type V = nat;

    open spec fn view(&self) -> nat {
        le_value(self.bytes@)
    }
}

/// `Scalar::random` with the thread-local generator of `rand`. The outcome is
/// not determined by anything the library holds; the contract says only that
/// the encoding is reduced.
#[verifier::external_body]
fn dalek_scalar_random() -> (r: Scalar)
    ensures
        r.wf(),
{
    let s = curve25519_dalek::scalar::Scalar::random(&mut rand::thread_rng());
    Scalar { bytes: s.to_bytes() }
}

/// `Scalar * Scalar`: the product modulo the group order.
#[verifier::external_body]
fn dalek_scalar_mul(a: &Scalar, b: &Scalar) -> (r: Scalar)
    requires
        a.wf(),
        b.wf(),
    ensures
        r.wf(),
        r@ == mul_mod(a@, b@),
{
    let x = curve25519_dalek::scalar::Scalar::from_bytes_mod_order(a.bytes);
    let y = curve25519_dalek::scalar::Scalar::from_bytes_mod_order(b.bytes);
    Scalar { bytes: (x * y).to_bytes() }
}

/// `Scalar - Scalar`: the difference modulo the group order.
#[verifier::external_body]
fn dalek_scalar_sub(a: &Scalar, b: &Scalar) -> (r: Scalar)
    requires
        a.wf(),
        b.wf(),
    ensures
        r.wf(),
        r@ == sub_mod(a@, b@),
{
    let x = curve25519_dalek::scalar::Scalar::from_bytes_mod_order(a.bytes);
    let y = curve25519_dalek::scalar::Scalar::from_bytes_mod_order(b.bytes);
    Scalar { bytes: (x - y).to_bytes() }
}

/// `Scalar::from_canonical_bytes`: accepts exactly the encodings of numbers
/// below the group order, and keeps the bytes as they are.
#[verifier::external_body]
fn dalek_scalar_from_canonical_bytes(bytes: [u8; 32]) -> (r: Option<Scalar>)
    ensures
        r is Some <==> le_value(bytes@) < group_order(),
        r matches Some(s) ==> s.bytes == bytes,
{
    let s = curve25519_dalek::scalar::Scalar::from_canonical_bytes(bytes);
    s.map(|_| Scalar { bytes })
}

/// `Scalar::from(u64)`: the scalar whose value is `x`.
#[verifier::external_body]
fn dalek_scalar_from_u64(x: u64) -> (r: Scalar)
    ensures
        r.wf(),
        r@ == x,
{
    Scalar { bytes: curve25519_dalek::scalar::Scalar::from(x).to_bytes() }
}

/// Whether two 32-byte strings are the same.
pub fn bytes_equal(a: &[u8; 32], b: &[u8; 32]) -> (r: bool)
    ensures
        r == (a@ == b@),
{
    let mut i: usize = 0;
    while i < 32
        invariant
            i <= 32,
            forall|k: int| 0 <= k < i ==> a@[k] == b@[k],
        decreases 32 - i,
    {
        if a[i] != b[i] {
            return false;
        }
        i = i + 1;
    }
    assert(a@ =~= b@);
    true
}

/// Byte strings of the same length that stand for the same number are the
/// same.
pub proof fn lemma_le_value_injective(a: Seq<u8>, b: Seq<u8>)
    requires
        a.len() == b.len(),
        le_value(a) == le_value(b),
    ensures
        a == b,
    decreases a.len(),
{
    if a.len() > 0 {
        let va = le_value(a.skip(1));
        let vb = le_value(b.skip(1));
        assert(a[0] + 256 * va == b[0] + 256 * vb);
        assert(a[0] == b[0] && va == vb);
        lemma_le_value_injective(a.skip(1), b.skip(1));
        assert(a =~= seq![a[0]] + a.skip(1));
        assert(b =~= seq![b[0]] + b.skip(1));
    } else {
        assert(a =~= b);
    }
}

/// A byte string of zeros stands for 0.
proof fn lemma_le_value_zeros(a: Seq<u8>)
    requires
        forall|i: int| 0 <= i < a.len() ==> a[i] == 0,
    ensures
        le_value(a) == 0,
    decreases a.len(),
{
    if a.len() > 0 {
        lemma_le_value_zeros(a.skip(1));
    }
}

impl Scalar {
    /// The encoding is reduced: the value is below the group order.
    pub open spec fn wf(&self) -> bool {
        self@ < group_order()
    }

    /// The scalar 0.
    pub fn zero() -> (r: Scalar)
        ensures
            r.wf(),
            r@ == 0,
    {
        let r = Scalar { bytes: [0u8; 32] };
        proof {
            lemma_le_value_zeros(r.bytes@);
        }
        r
    }

    /// The scalar 1.
    pub fn one() -> (r: Scalar)
        ensures
            r.wf(),
            r@ == 1,
    {
        let mut bytes = [0u8; 32];
        bytes[0] = 1;
        let r = Scalar { bytes };
        proof {
            lemma_le_value_zeros(r.bytes@.skip(1));
        }
        r
    }

    /// The scalar with value `x`.
    pub fn from_u64(x: u64) -> (r: Scalar)
        ensures
            r.wf(),
            r@ == x,
    {
        dalek_scalar_from_u64(x)
    }

    /// Reads a scalar from its encoding. `None` exactly when the bytes stand
    /// for a number that is not below the group order.
    pub fn from_canonical_bytes(bytes: [u8; 32]) -> (r: Option<Scalar>)
        ensures
            r is Some <==> le_value(bytes@) < group_order(),
            r matches Some(s) ==> s.wf() && s.bytes == bytes,
    {
        dalek_scalar_from_canonical_bytes(bytes)
    }

    /// Whether the encoding is reduced.
    pub fn is_canonical(&self) -> (r: bool)
        ensures
            r == self.wf(),
    {
        dalek_scalar_from_canonical_bytes(self.bytes).is_some()
    }

    /// The 32-byte little-endian encoding.
    pub fn to_bytes(&self) -> (r: [u8; 32])
        ensures
            r == self.bytes,
    {
        self.bytes
    }

    /// A scalar drawn uniformly at random.
    pub fn random() -> (r: Scalar)
        ensures
            r.wf(),
    {
        dalek_scalar_random()
    }

    /// The Fiat-Shamir hash of a byte string.
    pub fn hash_from_bytes(input: &[u8]) -> (r: Scalar)
        ensures
            r.wf(),
            r@ == keccak512_scalar(input@),
    {
        let mut t = Transcript::new();
        t.absorb(input);
        assert(t@ =~= input@);
        t.challenge()
    }

    /// `self * other` modulo the group order.
    pub fn mul(&self, other: &Scalar) -> (r: Scalar)
        requires
            self.wf(),
            other.wf(),
        ensures
            r.wf(),
            r@ == mul_mod(self@, other@),
    {
        dalek_scalar_mul(self, other)
    }

    /// `self - other` modulo the group order.
    pub fn sub(&self, other: &Scalar) -> (r: Scalar)
        requires
            self.wf(),
            other.wf(),
        ensures
            r.wf(),
            r@ == sub_mod(self@, other@),
    {
        dalek_scalar_sub(self, other)
    }

    /// Whether two scalars have the same value, which they have exactly
    /// when their encodings agree.
    pub fn equals(&self, other: &Scalar) -> (r: bool)
        ensures
            r == (self@ == other@),
            r == (self.bytes@ == other.bytes@),
    {
        proof {
            if self@ == other@ {
                lemma_le_value_injective(self.bytes@, other.bytes@);
            }
        }
        bytes_equal(&self.bytes, &other.bytes)
    }

    /// Whether the scalar is 0.
    pub fn is_zero(&self) -> (r: bool)
        ensures
            r == (self@ == 0),
    {
        let zero = Scalar::zero();
        self.equals(&zero)
    }
}

} // verus!
