//! Points of the Ristretto group.
//!
//! A [`Point`] holds the canonical 32-byte encoding of a group element, the
//! form in which points are hashed, stored and exchanged. The group has prime
//! order [`group_order`] and the basepoint `B` generates it, so every element
//! is `k·B` for exactly one `k` below the order. That `k` is what a point
//! stands for in the contracts of this library, its view: addition of points
//! is then addition modulo the order, and multiplication by a scalar is
//! multiplication modulo the order. Nothing computes `k`; it is the reading
//! that the contracts give to the encoding.
//!
//! All group arithmetic is done by `curve25519-dalek`; what this module proves
//! is built on the contracts of the private functions that make those calls.

use vstd::prelude::*;
use curve25519_dalek::traits::VartimeMultiscalarMul;
use crate::scalar::{bytes_equal, group_order, mul_mod, sub_mod, Scalar};

verus! {

/// The result of `CompressedRistretto::decompress` on `encoding`: `None` where
/// the bytes are not the canonical encoding of a group element, and `Some(k)`
/// where they encode `k·B`.
pub uninterp spec fn ristretto_decompress(encoding: Seq<u8>) -> Option<nat>;

/// The bytes of the result of `RistrettoPoint::compress` on the element `k·B`.
pub uninterp spec fn ristretto_compress(k: nat) -> Seq<u8>;

/// The result of `RistrettoPoint::hash_from_bytes::<Keccak512>` on `input`, as
/// the `k` for which it is `k·B`.
pub uninterp spec fn keccak512_point(input: Seq<u8>) -> nat;

/// `a + b` modulo the group order.
pub open spec fn add_mod(a: nat, b: nat) -> nat {
    (a + b) % group_order()
}

/// The value of `c[0]·p[0] + ... + c[n-1]·p[n-1]` before reduction.
pub open spec fn linear_combination(scalars: Seq<Scalar>, points: Seq<Point>) -> nat
    decreases scalars.len(),
{
    if scalars.len() == 0 {
        0
    } else {
        linear_combination(scalars.drop_last(), points.drop_last()) + scalars.last()@
            * points.last()@
    }
}

/// An element of the Ristretto group, in its canonical encoding.
#[derive(Clone, Copy, Debug)]
pub struct Point {
    pub bytes: [u8; 32],
}

impl View for Point {
    type V = nat;

    open spec fn view(&self) -> nat {
        match ristretto_decompress(self.bytes@) {
            Some(k) => k,
            None => 0,
        }
    }
}

/// `constants::RISTRETTO_BASEPOINT_POINT`, the generator `B`, which is `1·B`.
#[verifier::external_body]
fn dalek_basepoint() -> (r: Point)
    ensures
        r.wf(),
        r@ == 1,
{
    Point { bytes: curve25519_dalek::constants::RISTRETTO_BASEPOINT_POINT.compress().to_bytes() }
}

/// `CompressedRistretto::decompress`: accepts exactly the canonical encodings
/// of group elements, which are the encodings that `compress` produces.
#[verifier::external_body]
fn dalek_decompress(bytes: [u8; 32]) -> (r: Option<Point>)
    ensures
        r is Some <==> ristretto_decompress(bytes@) is Some,
        r matches Some(p) ==> p.bytes == bytes && p.wf() && ristretto_compress(p@) == bytes@,
{
    let p = curve25519_dalek::ristretto::CompressedRistretto(bytes).decompress();
    p.map(|_| Point { bytes })
}

/// `RistrettoPoint::random` with the thread-local generator of `rand`. The
/// outcome is not determined by anything the library holds; the contract says
/// only that the result is a group element.
#[verifier::external_body]
fn dalek_point_random() -> (r: Point)
    ensures
        r.wf(),
{
    let p = curve25519_dalek::ristretto::RistrettoPoint::random(&mut rand::thread_rng());
    Point { bytes: p.compress().to_bytes() }
}

/// `RistrettoPoint::hash_from_bytes` with Keccak-512: the digest of `input`,
/// mapped to the group. The map has no short description, so its result is
/// named by [`keccak512_point`].
#[verifier::external_body]
fn dalek_point_hash(input: &[u8]) -> (r: Point)
    ensures
        r.wf(),
        r@ == keccak512_point(input@),
{
    let p = curve25519_dalek::ristretto::RistrettoPoint::hash_from_bytes::<sha3::Keccak512>(input);
    Point { bytes: p.compress().to_bytes() }
}

/// `RistrettoPoint + RistrettoPoint`, the group law: `j·B + k·B = (j + k)·B`.
#[verifier::external_body]
fn dalek_point_add(a: &Point, b: &Point) -> (r: Point)
    requires
        a.wf(),
        b.wf(),
    ensures
        r.wf(),
        r@ == add_mod(a@, b@),
{
    let p = curve25519_dalek::ristretto::CompressedRistretto(a.bytes).decompress().unwrap();
    let q = curve25519_dalek::ristretto::CompressedRistretto(b.bytes).decompress().unwrap();
    Point { bytes: (p + q).compress().to_bytes() }
}

/// `RistrettoPoint - RistrettoPoint`: `j·B - k·B = (j - k)·B`.
#[verifier::external_body]
fn dalek_point_sub(a: &Point, b: &Point) -> (r: Point)
    requires
        a.wf(),
        b.wf(),
    ensures
        r.wf(),
        r@ == sub_mod(a@, b@),
{
    let p = curve25519_dalek::ristretto::CompressedRistretto(a.bytes).decompress().unwrap();
    let q = curve25519_dalek::ristretto::CompressedRistretto(b.bytes).decompress().unwrap();
    Point { bytes: (p - q).compress().to_bytes() }
}

/// `RistrettoPoint * Scalar`: `s·(k·B) = (s·k)·B`.
#[verifier::external_body]
fn dalek_point_mul(a: &Point, s: &Scalar) -> (r: Point)
    requires
        a.wf(),
        s.wf(),
    ensures
        r.wf(),
        r@ == mul_mod(s@, a@),
{
    let p = curve25519_dalek::ristretto::CompressedRistretto(a.bytes).decompress().unwrap();
    let x = curve25519_dalek::scalar::Scalar::from_bytes_mod_order(s.bytes);
    Point { bytes: (p * x).compress().to_bytes() }
}

/// `RistrettoPoint::vartime_double_scalar_mul_basepoint`, documented as
/// `a·A + b·B` for the basepoint `B`.
#[verifier::external_body]
fn dalek_double_scalar_mul_basepoint(a: &Scalar, A: &Point, b: &Scalar) -> (r: Point)
    requires
        a.wf(),
        A.wf(),
        b.wf(),
    ensures
        r.wf(),
        r@ == (a@ * A@ + b@) % group_order(),
{
    let x = curve25519_dalek::scalar::Scalar::from_bytes_mod_order(a.bytes);
    let p = curve25519_dalek::ristretto::CompressedRistretto(A.bytes).decompress().unwrap();
    let y = curve25519_dalek::scalar::Scalar::from_bytes_mod_order(b.bytes);
    let q = curve25519_dalek::ristretto::RistrettoPoint::vartime_double_scalar_mul_basepoint(
        &x, &p, &y,
    );
    Point { bytes: q.compress().to_bytes() }
}

/// `RistrettoPoint::vartime_multiscalar_mul`, documented as
/// `c_1·P_1 + ... + c_n·P_n`; it panics where the two lengths differ.
#[verifier::external_body]
fn dalek_multiscalar_mul(scalars: &[Scalar], points: &[Point]) -> (r: Point)
    requires
        scalars.len() == points.len(),
        forall|i: int| 0 <= i < scalars.len() ==> (#[trigger] scalars[i]).wf(),
        forall|i: int| 0 <= i < points.len() ==> (#[trigger] points[i]).wf(),
    ensures
        r.wf(),
        r@ == linear_combination(scalars@, points@) % group_order(),
{
    let q = curve25519_dalek::ristretto::RistrettoPoint::vartime_multiscalar_mul(
        scalars.iter().map(|s| curve25519_dalek::scalar::Scalar::from_bytes_mod_order(s.bytes)),
        points.iter().map(|p| {
            curve25519_dalek::ristretto::CompressedRistretto(p.bytes).decompress().unwrap()
        }),
    );
    Point { bytes: q.compress().to_bytes() }
}

impl Point {
    /// The bytes are the canonical encoding of the group element `self@·B`.
    pub open spec fn wf(&self) -> bool {
        &&& ristretto_decompress(self.bytes@) is Some
        &&& self@ < group_order()
        &&& ristretto_compress(self@) == self.bytes@
    }

    /// The generator `B` of the group.
    pub fn basepoint() -> (r: Point)
        ensures
            r.wf(),
            r@ == 1,
    {
        dalek_basepoint()
    }

    /// Reads a point from its encoding. `None` exactly when the bytes are not
    /// the canonical encoding of a group element.
    pub fn from_bytes(bytes: [u8; 32]) -> (r: Option<Point>)
        ensures
            r is Some <==> ristretto_decompress(bytes@) is Some,
            r matches Some(p) ==> p.bytes == bytes && p.wf(),
    {
        dalek_decompress(bytes)
    }

    /// Whether the bytes are the canonical encoding of a group element.
    pub fn is_valid(&self) -> (r: bool)
        ensures
            r == self.wf(),
    {
        dalek_decompress(self.bytes).is_some()
    }

    /// The canonical 32-byte encoding.
    pub fn to_bytes(&self) -> (r: [u8; 32])
        ensures
            r == self.bytes,
    {
        self.bytes
    }

    /// A group element drawn uniformly at random.
    pub fn random() -> (r: Point)
        ensures
            r.wf(),
    {
        dalek_point_random()
    }

    /// Hashes a byte string to a group element.
    pub fn hash_from_bytes(input: &[u8]) -> (r: Point)
        ensures
            r.wf(),
            r@ == keccak512_point(input@),
    {
        dalek_point_hash(input)
    }

    /// `self + other`.
    pub fn add(&self, other: &Point) -> (r: Point)
        requires
            self.wf(),
            other.wf(),
        ensures
            r.wf(),
            r@ == add_mod(self@, other@),
    {
        dalek_point_add(self, other)
    }

    /// `self - other`.
    pub fn sub(&self, other: &Point) -> (r: Point)
        requires
            self.wf(),
            other.wf(),
        ensures
            r.wf(),
            r@ == sub_mod(self@, other@),
    {
        dalek_point_sub(self, other)
    }

    /// `s·self`.
    pub fn mul(&self, s: &Scalar) -> (r: Point)
        requires
            self.wf(),
            s.wf(),
        ensures
            r.wf(),
            r@ == mul_mod(s@, self@),
    {
        dalek_point_mul(self, s)
    }

    /// `a·A + b·B` for the basepoint `B`, in variable time.
    pub fn vartime_double_scalar_mul_basepoint(a: &Scalar, A: &Point, b: &Scalar) -> (r: Point)
        requires
            a.wf(),
            A.wf(),
            b.wf(),
        ensures
            r.wf(),
            r@ == (a@ * A@ + b@) % group_order(),
    {
        dalek_double_scalar_mul_basepoint(a, A, b)
    }

    /// `scalars[0]·points[0] + ... + scalars[n-1]·points[n-1]`, in variable time.
    pub fn vartime_multiscalar_mul(scalars: &[Scalar], points: &[Point]) -> (r: Point)
        requires
            scalars.len() == points.len(),
            forall|i: int| 0 <= i < scalars.len() ==> (#[trigger] scalars[i]).wf(),
            forall|i: int| 0 <= i < points.len() ==> (#[trigger] points[i]).wf(),
        ensures
            r.wf(),
            r@ == linear_combination(scalars@, points@) % group_order(),
    {
        dalek_multiscalar_mul(scalars, points)
    }

    /// Whether two points are the same group element. The encoding is
    /// canonical, so this is the case exactly when the bytes agree.
    pub fn equals(&self, other: &Point) -> (r: bool)
        requires
            self.wf(),
            other.wf(),
        ensures
            r == (self@ == other@),
            r == (self.bytes@ == other.bytes@),
    {
        bytes_equal(&self.bytes, &other.bytes)
    }
}

} // verus!
