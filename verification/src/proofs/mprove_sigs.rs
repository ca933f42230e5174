//! One-out-of-many ring signatures over Ristretto: a Schnorr-style ring
//! signature and its linkable variant, LSAG.
//!
//! Both run a Fiat-Shamir chain of challenges round the ring. The transcript
//! that is hashed holds the encodings of the ring keys, then the message, then
//! the commitment point (two points for LSAG) of the current position; the
//! keys and the message are taken in once for the whole signature. The
//! signer starts the chain behind its own position with a fresh commitment and
//! closes it with a response computed from its secret key; the verifier walks
//! the ring once from position 0 and accepts when the chain returns to where it
//! started.

use vstd::prelude::*;
use vstd::arithmetic::div_mod::{
    lemma_add_mod_noop_right, lemma_fundamental_div_mod, lemma_mod_multiples_vanish,
    lemma_small_mod,
};
use crate::point::{keccak512_point, linear_combination, ristretto_compress, Point};
use crate::scalar::{group_order, keccak512_scalar, mul_mod, sub_mod, Scalar};
use crate::transcript::Transcript;
use crate::Errors;

verus! {

/// The encodings of the group elements `points[0]·B`, `points[1]·B`, ..., one
/// after the other.
pub open spec fn encodings(points: Seq<nat>) -> Seq<u8>
    decreases points.len(),
{
    if points.len() == 0 {
        Seq::empty()
    } else {
        encodings(points.drop_last()) + ristretto_compress(points.last())
    }
}

/// The part of a transcript that stays fixed during one signature: the ring
/// keys, then the message.
pub open spec fn transcript_prefix(pk: Seq<nat>, message: nat) -> Seq<u8> {
    encodings(pk) + ristretto_compress(message)
}

/// The group elements of a vector of points, each as the multiple of `B`
/// that it is.
pub open spec fn point_values(p: Seq<Point>) -> Seq<nat> {
    Seq::new(p.len(), |i: int| p[i]@)
}

/// The values of a vector of scalars.
pub open spec fn scalar_values(s: Seq<Scalar>) -> Seq<nat> {
    Seq::new(s.len(), |i: int| s[i]@)
}

/// Every scalar of the vector is reduced.
pub open spec fn scalars_wf(s: Seq<Scalar>) -> bool {
    forall|i: int| 0 <= i < s.len() ==> (#[trigger] s[i]).wf()
}

/// Every point of the vector is a group element.
pub open spec fn points_wf(p: Seq<Point>) -> bool {
    forall|i: int| 0 <= i < p.len() ==> (#[trigger] p[i]).wf()
}

/// The challenge that follows challenge `c` at a ring position with key
/// `pk·B` and response `s`: the hash of the transcript whose commitment is
/// `s·B + c·(pk·B)`.
pub open spec fn ring_step(prefix: Seq<u8>, c: nat, pk: nat, s: nat) -> nat {
    keccak512_scalar(prefix + ristretto_compress((c * pk + s) % group_order()))
}

/// The challenge reached from `c` by stepping through positions `from`, ...,
/// `to - 1` of the ring.
pub open spec fn ring_chain(
    prefix: Seq<u8>,
    pk: Seq<nat>,
    s: Seq<nat>,
    c: nat,
    from: int,
    to: int,
) -> nat
    decreases to - from,
{
    if to <= from {
        c
    } else {
        ring_step(prefix, ring_chain(prefix, pk, s, c, from, to - 1), pk[to - 1], s[to - 1])
    }
}

/// The challenge that opens the signer's chain: the hash of the transcript
/// whose commitment is `alpha·B`.
pub open spec fn ring_opening(prefix: Seq<u8>, alpha: nat) -> nat {
    keccak512_scalar(prefix + ristretto_compress(mul_mod(alpha, 1)))
}

/// The challenge at position 0 of a signature made at `index` with the nonce
/// `alpha` and the responses `s`.
pub open spec fn ring_anchor(
    prefix: Seq<u8>,
    pk: Seq<nat>,
    s: Seq<nat>,
    index: int,
    alpha: nat,
) -> nat {
    ring_chain(prefix, pk, s, ring_opening(prefix, alpha), index + 1, pk.len() as int)
}

/// The challenge that arrives at the signer's own position.
pub open spec fn ring_closing(
    prefix: Seq<u8>,
    pk: Seq<nat>,
    s: Seq<nat>,
    index: int,
    alpha: nat,
) -> nat {
    ring_chain(prefix, pk, s, ring_anchor(prefix, pk, s, index, alpha), 0, index)
}

/// Checks that every scalar of the vector is reduced.
pub fn scalars_valid(s: &[Scalar]) -> (r: bool)
    ensures
        r == scalars_wf(s@),
{
    let mut i: usize = 0;
    while i < s.len()
        invariant
            i <= s.len(),
            forall|j: int| 0 <= j < i ==> (#[trigger] s@[j]).wf(),
        decreases s.len() - i,
    {
        if !s[i].is_canonical() {
            return false;
        }
        i = i + 1;
    }
    true
}

/// Checks that every point of the vector is a group element.
pub fn points_valid(p: &[Point]) -> (r: bool)
    ensures
        r == points_wf(p@),
{
    let mut i: usize = 0;
    while i < p.len()
        invariant
            i <= p.len(),
            forall|j: int| 0 <= j < i ==> (#[trigger] p@[j]).wf(),
        decreases p.len() - i,
    {
        if !p[i].is_valid() {
            return false;
        }
        i = i + 1;
    }
    true
}

/// The challenge `c` and the responses `s` can belong to a signature for a
/// ring of `n` keys: the ring has at least two keys, there is one response per
/// key, and no scalar is 0.
pub open spec fn well_shaped(s: Seq<Scalar>, c: Scalar, n: nat) -> bool {
    &&& n >= 2
    &&& s.len() == n
    &&& c@ != 0
    &&& forall|j: int| 0 <= j < s.len() ==> (#[trigger] s[j])@ != 0
}

/// Checks the shape of a signature for a ring of `n` keys.
pub fn check_shape(s_vec: &[Scalar], c: &Scalar, n: usize) -> (r: bool)
    ensures
        r == well_shaped(s_vec@, *c, n as nat),
{
    if n < 2 || s_vec.len() != n {
        return false;
    }
    let mut i: usize = 0;
    while i < n
        invariant
            i <= n,
            n == s_vec@.len(),
            forall|j: int| 0 <= j < i ==> (#[trigger] s_vec@[j])@ != 0,
        decreases n - i,
    {
        if s_vec[i].is_zero() {
            return false;
        }
        i = i + 1;
    }
    !c.is_zero()
}

/// The verdict on a signature whose chain, started with the challenge `c`,
/// ended in `last`: accepted exactly when the chain has returned to `c`.
pub fn closing_verdict(c: &Scalar, last: &Scalar) -> (r: Result<(), Errors>)
    ensures
        r is Ok <==> last@ == c@,
        r is Err ==> r == Err::<(), Errors>(Errors::MProveSigsError),
{
    if last.equals(c) {
        Ok(())
    } else {
        Err(Errors::MProveSigsError)
    }
}

/// A Schnorr-style ring signature: one response per ring position and the
/// challenge at position 0.
#[derive(Clone, Debug)]
pub struct RingSig {
    pub s_vec: Vec<Scalar>,
    pub c: Scalar,
}

/// Takes in the fixed part of a transcript.
fn build_prefix(pk: &[Point], message: &Point) -> (t: Transcript)
    requires
        points_wf(pk@),
        message.wf(),
    ensures
        t@ == transcript_prefix(point_values(pk@), message@),
{
    let ghost keys = point_values(pk@);
    let mut t = Transcript::new();
    let mut i: usize = 0;
    while i < pk.len()
        invariant
            i <= pk.len(),
            points_wf(pk@),
            keys == point_values(pk@),
            t@ == encodings(keys.take(i as int)),
        decreases pk.len() - i,
    {
        t.absorb(pk[i].bytes.as_slice());
        assert(keys.take(i + 1).drop_last() =~= keys.take(i as int));
        i = i + 1;
    }
    assert(keys.take(pk.len() as int) =~= keys);
    t.absorb(message.bytes.as_slice());
    t
}

/// The hash of the transcript `prefix ‖ l`.
fn ring_challenge(prefix: &Transcript, l: &Point) -> (c: Scalar)
    ensures
        c.wf(),
        c@ == keccak512_scalar(prefix@ + l.bytes@),
{
    let mut t = prefix.fork();
    t.absorb(l.bytes.as_slice());
    t.challenge()
}

/// A chain depends only on the responses of the positions it steps through.
proof fn lemma_ring_chain_agree(
    prefix: Seq<u8>,
    pk: Seq<nat>,
    s1: Seq<nat>,
    s2: Seq<nat>,
    c: nat,
    from: int,
    to: int,
)
    requires
        forall|k: int| from <= k < to ==> s1[k] == s2[k],
    ensures
        ring_chain(prefix, pk, s1, c, from, to) == ring_chain(prefix, pk, s2, c, from, to),
    decreases to - from,
{
    if to > from {
        lemma_ring_chain_agree(prefix, pk, s1, s2, c, from, to - 1);
    }
}

/// Stepping from `from` to `to` is stepping to `mid` and on from there.
proof fn lemma_ring_chain_split(
    prefix: Seq<u8>,
    pk: Seq<nat>,
    s: Seq<nat>,
    c: nat,
    from: int,
    mid: int,
    to: int,
)
    requires
        from <= mid <= to,
    ensures
        ring_chain(prefix, pk, s, c, from, to) == ring_chain(
            prefix,
            pk,
            s,
            ring_chain(prefix, pk, s, c, from, mid),
            mid,
            to,
        ),
    decreases to - mid,
{
    if to > mid {
        lemma_ring_chain_split(prefix, pk, s, c, from, mid, to - 1);
    }
}

/// The identity that closes a Schnorr chain: with the response
/// `alpha - c·x`, the commitment `s·B + c·(x·B)` is `alpha·B` again.
proof fn lemma_schnorr_response(alpha: nat, c: nat, x: nat)
    requires
        alpha < group_order(),
    ensures
        (c * x + sub_mod(alpha, mul_mod(c, x))) % group_order() == alpha,
{
    let l = group_order() as int;
    let m = (c * x) % (l as nat);
    let q = (c * x) as int / l;
    lemma_fundamental_div_mod((c * x) as int, l);
    assert((c * x) as int == l * q + m);
    lemma_add_mod_noop_right((c * x) as int, alpha + l - m, l);
    assert(c * x + (alpha + l - m) == l * (q + 1) + alpha) by (nonlinear_arith)
        requires
            (c * x) as int == l * q + m,
    ;
    lemma_mod_multiples_vanish(q + 1, alpha as int, l);
    lemma_small_mod(alpha, l as nat);
}

impl RingSig {
    /// Every scalar of the signature is reduced.
    pub open spec fn wf(&self) -> bool {
        self.c.wf() && scalars_wf(self.s_vec@)
    }

    /// The challenge and all responses are different from 0.
    pub open spec fn nonzero(&self) -> bool {
        &&& self.c@ != 0
        &&& forall|j: int| 0 <= j < self.s_vec@.len() ==> (#[trigger] self.s_vec@[j])@ != 0
    }

    /// The signature verifies for the message `message·B` and the ring of keys
    /// `pk[j]·B`: the ring has at least two keys, there is one response per
    /// key, no scalar is 0, and the chain started at position 0 with `c` ends
    /// in `c`.
    pub open spec fn verifies(&self, message: nat, pk: Seq<nat>) -> bool {
        &&& well_shaped(self.s_vec@, self.c, pk.len())
        &&& ring_chain(
            transcript_prefix(pk, message),
            pk,
            scalar_values(self.s_vec@),
            self.c@,
            0,
            pk.len() as int,
        ) == self.c@
    }

    /// The signature is the one that the secret key `x` at position `index`
    /// yields with the nonce `alpha` and the responses `s` for the other
    /// positions (`s[index]` is not used).
    pub open spec fn signed_with(
        &self,
        message: nat,
        pk: Seq<nat>,
        x: nat,
        index: int,
        alpha: nat,
        s: Seq<nat>,
    ) -> bool {
        let prefix = transcript_prefix(pk, message);
        &&& self.c@ == ring_anchor(prefix, pk, s, index, alpha)
        &&& scalar_values(self.s_vec@) == s.update(
            index,
            sub_mod(alpha, mul_mod(ring_closing(prefix, pk, s, index, alpha), x)),
        )
    }

    /// The signature is accepted for `message` and the ring `pk`: all
    /// encodings are valid and the signature verifies for the group elements
    /// that they stand for.
    pub open spec fn accepts(&self, message: Point, pk: Seq<Point>) -> bool {
        &&& self.wf()
        &&& message.wf()
        &&& points_wf(pk)
        &&& self.verifies(message@, point_values(pk))
    }

    /// Checks that every scalar of the signature is reduced.
    pub fn is_valid(&self) -> (r: bool)
        ensures
            r == self.wf(),
    {
        self.c.is_canonical() && scalars_valid(self.s_vec.as_slice())
    }

    /// A signature with `n` responses, all of them and the challenge equal to 1.
    pub fn initialize(n: usize) -> (sig: RingSig)
        ensures
            sig.wf(),
            sig.c@ == 1,
            sig.s_vec@.len() == n,
            forall|j: int| 0 <= j < n ==> (#[trigger] sig.s_vec@[j])@ == 1,
    {
        let mut s_vec: Vec<Scalar> = Vec::new();
        let mut i: usize = 0;
        while i < n
            invariant
                i <= n,
                s_vec@.len() == i,
                scalars_wf(s_vec@),
                forall|j: int| 0 <= j < i ==> (#[trigger] s_vec@[j])@ == 1,
            decreases n - i,
        {
            s_vec.push(Scalar::one());
            i = i + 1;
        }
        RingSig { s_vec, c: Scalar::one() }
    }

    /// Verifies the signature for `message` and the ring `pk`. A signature
    /// that is not accepted is rejected with `MProveSigsError`, whether an
    /// encoding is not valid, the shape is wrong or the chain does not close.
    pub fn ver_RingSig(&self, message: Point, pk: &[Point]) -> (r: Result<(), Errors>)
        ensures
            r is Ok <==> self.accepts(message, pk@),
            r is Err ==> r == Err::<(), Errors>(Errors::MProveSigsError),
    {
        let n = pk.len();
        if !self.is_valid() || !message.is_valid() || !points_valid(pk) {
            return Err(Errors::MProveSigsError);
        }
        if !check_shape(self.s_vec.as_slice(), &self.c, n) {
            return Err(Errors::MProveSigsError);
        }
        let t = build_prefix(pk, &message);
        let ghost keys = point_values(pk@);
        let ghost prefix = transcript_prefix(keys, message@);
        let ghost s = scalar_values(self.s_vec@);
        let mut c_old = self.c;
        let mut j: usize = 0;
        while j < n
            invariant
                j <= n,
                n == pk@.len(),
                n == self.s_vec@.len(),
                self.wf(),
                points_wf(pk@),
                keys == point_values(pk@),
                s == scalar_values(self.s_vec@),
                t@ == prefix,
                c_old.wf(),
                c_old@ == ring_chain(prefix, keys, s, self.c@, 0, j as int),
            decreases n - j,
        {
            let l = Point::vartime_double_scalar_mul_basepoint(&c_old, &pk[j], &self.s_vec[j]);
            c_old = ring_challenge(&t, &l);
            j = j + 1;
        }
        closing_verdict(&self.c, &c_old)
    }

    /// Signs `message` for the ring `pk` with the secret key `x` of position
    /// `index`, using `alpha` as the nonce and `s_vec` as the responses of the
    /// other positions.
    ///
    /// Where `pk[index]` is `x·B` and no scalar of the result is 0, the
    /// signature verifies.
    pub fn gen_RingSig_with(
        message: Point,
        pk: &[Point],
        x: Scalar,
        index: usize,
        alpha: Scalar,
        s_vec: Vec<Scalar>,
    ) -> (sig: RingSig)
        requires
            pk@.len() >= 2,
            index < pk@.len(),
            s_vec@.len() == pk@.len(),
            message.wf(),
            points_wf(pk@),
            x.wf(),
            alpha.wf(),
            scalars_wf(s_vec@),
        ensures
            sig.wf(),
            sig.s_vec@.len() == pk@.len(),
            sig.signed_with(
                message@,
                point_values(pk@),
                x@,
                index as int,
                alpha@,
                scalar_values(s_vec@),
            ),
            pk@[index as int]@ == x@ && sig.nonzero() ==> sig.accepts(message, pk@),
    {
        let n = pk.len();
        let mut s_vec = s_vec;
        let ghost s = scalar_values(s_vec@);
        let ghost keys = point_values(pk@);
        let ghost prefix = transcript_prefix(keys, message@);
        let l_start = Point::basepoint().mul(&alpha);
        let t = build_prefix(pk, &message);
        let mut c_old = ring_challenge(&t, &l_start);
        let ghost opening = ring_opening(prefix, alpha@);
        let ghost anchor = ring_anchor(prefix, keys, s, index as int, alpha@);

        let mut j: usize = if index + 1 == n { 0 } else { index + 1 };
        let mut c = Scalar::one();
        if j == 0 {
            c = c_old;
        }
        while j != index
            invariant
                j < n,
                index < n,
                n == pk@.len(),
                n == s_vec@.len(),
                points_wf(pk@),
                keys == point_values(pk@),
                scalars_wf(s_vec@),
                s == scalar_values(s_vec@),
                t@ == prefix,
                opening == ring_opening(prefix, alpha@),
                anchor == ring_anchor(prefix, keys, s, index as int, alpha@),
                c_old.wf(),
                c.wf(),
                j > index ==> c_old@ == ring_chain(
                    prefix,
                    keys,
                    s,
                    opening,
                    index as int + 1,
                    j as int,
                ),
                j <= index ==> c@ == anchor && c_old@ == ring_chain(
                    prefix,
                    keys,
                    s,
                    anchor,
                    0,
                    j as int,
                ),
            decreases (if j > index { n - j + index + 1 } else { index - j }),
        {
            let l = Point::vartime_double_scalar_mul_basepoint(&c_old, &pk[j], &s_vec[j]);
            c_old = ring_challenge(&t, &l);
            j = if j + 1 == n { 0 } else { j + 1 };
            if j == 0 {
                c = c_old;
            }
        }
        let response = alpha.sub(&c_old.mul(&x));
        s_vec.set(index, response);
        let sig = RingSig { s_vec, c };
        proof {
            assert(scalar_values(sig.s_vec@) =~= s.update(
                index as int,
                sub_mod(alpha@, mul_mod(ring_closing(prefix, keys, s, index as int, alpha@), x@)),
            ));
            if pk@[index as int]@ == x@ && sig.nonzero() {
                lemma_ring_signature_verifies(message@, keys, x@, index as int, alpha@, s, sig);
            }
        }
        sig
    }

    /// Signs `message` for the ring `pk` with the secret key `x` of position
    /// `index`. The nonce and the responses of the other positions are drawn
    /// at random.
    pub fn gen_RingSig(message: Point, pk: &[Point], x: Scalar, index: usize) -> (sig: RingSig)
        requires
            pk@.len() >= 2,
            index < pk@.len(),
            message.wf(),
            points_wf(pk@),
            x.wf(),
        ensures
            sig.wf(),
            sig.s_vec@.len() == pk@.len(),
            exists|alpha: nat, s: Seq<nat>|
                alpha < group_order() && s.len() == pk@.len() && #[trigger] sig.signed_with(
                    message@,
                    point_values(pk@),
                    x@,
                    index as int,
                    alpha,
                    s,
                ),
            pk@[index as int]@ == x@ && sig.nonzero() ==> sig.accepts(message, pk@),
    {
        let n = pk.len();
        let alpha = Scalar::random();
        let s_vec = random_scalars(n);
        let ghost s = scalar_values(s_vec@);
        let sig = RingSig::gen_RingSig_with(message, pk, x, index, alpha, s_vec);
        assert(sig.signed_with(message@, point_values(pk@), x@, index as int, alpha@, s));
        sig
    }
}

impl RingSig {
    /// Signs as [`RingSig::gen_RingSig`] does, for any input: `None` exactly
    /// when the ring has fewer than two keys, `index` is not a position of
    /// the ring, or an encoding is not valid.
    pub fn try_gen_RingSig(message: Point, pk: &[Point], x: Scalar, index: usize) -> (r: Option<
        RingSig,
    >)
        ensures
            r is Some <==> pk@.len() >= 2 && index < pk@.len() && message.wf() && points_wf(pk@)
                && x.wf(),
            r matches Some(sig) ==> {
                &&& sig.wf()
                &&& sig.s_vec@.len() == pk@.len()
                &&& exists|alpha: nat, s: Seq<nat>|
                    alpha < group_order() && s.len() == pk@.len() && #[trigger] sig.signed_with(
                        message@,
                        point_values(pk@),
                        x@,
                        index as int,
                        alpha,
                        s,
                    )
                &&& pk@[index as int]@ == x@ && sig.nonzero() ==> sig.accepts(message, pk@)
            },
    {
        if pk.len() < 2 || index >= pk.len() {
            return None;
        }
        if !message.is_valid() || !points_valid(pk) || !x.is_canonical() {
            return None;
        }
        Some(RingSig::gen_RingSig(message, pk, x, index))
    }
}

/// `n` scalars drawn at random.
pub fn random_scalars(n: usize) -> (v: Vec<Scalar>)
    ensures
        v@.len() == n,
        scalars_wf(v@),
{
    let mut v: Vec<Scalar> = Vec::new();
    let mut i: usize = 0;
    while i < n
        invariant
            i <= n,
            v@.len() == i,
            scalars_wf(v@),
        decreases n - i,
    {
        v.push(Scalar::random());
        i = i + 1;
    }
    v
}

/// A ring signature made with the secret key of one of the ring's keys
/// verifies for the same ring and message, unless one of its scalars is 0.
pub proof fn lemma_ring_signature_verifies(
    message: nat,
    pk: Seq<nat>,
    x: nat,
    index: int,
    alpha: nat,
    s: Seq<nat>,
    sig: RingSig,
)
    requires
        pk.len() >= 2,
        0 <= index < pk.len(),
        s.len() == pk.len(),
        alpha < group_order(),
        pk[index] == x,
        sig.signed_with(message, pk, x, index, alpha, s),
        sig.nonzero(),
    ensures
        sig.verifies(message, pk),
{
    let n = pk.len() as int;
    let prefix = transcript_prefix(pk, message);
    let opening = ring_opening(prefix, alpha);
    let anchor = ring_anchor(prefix, pk, s, index, alpha);
    let closing = ring_closing(prefix, pk, s, index, alpha);
    let response = sub_mod(alpha, mul_mod(closing, x));
    let sv = scalar_values(sig.s_vec@);
    assert(sv == s.update(index, response));
    assert(sig.s_vec@.len() == sv.len());
    // up to the signer's position the verifier repeats the signer's steps
    lemma_ring_chain_agree(prefix, pk, sv, s, anchor, 0, index);
    // at the signer's position the commitment is the signer's own
    lemma_schnorr_response(alpha, closing, x);
    lemma_small_mod(alpha, group_order());
    assert(ring_chain(prefix, pk, sv, anchor, 0, index + 1) == opening);
    // behind it the verifier repeats the signer's first steps
    lemma_ring_chain_split(prefix, pk, sv, anchor, 0, index + 1, n);
    lemma_ring_chain_agree(prefix, pk, sv, s, opening, index + 1, n);
}


/// The point to which the key `pk` is hashed, as a multiple of `B`.
pub open spec fn key_base(pk: nat) -> nat {
    keccak512_point(ristretto_compress(pk))
}

/// The key image of the secret key `x` for the public key `pk`:
/// `x` times the point to which `pk` is hashed.
pub open spec fn key_image(x: nat, pk: nat) -> nat {
    mul_mod(x, key_base(pk))
}

/// The challenge that follows challenge `c` at a ring position with key `pk`
/// and response `s` under the key image `image`: the hash of the transcript
/// whose two commitments are `s·B + c·pk` and `s·H + c·image`, where `H` is
/// the point to which `pk` is hashed.
pub open spec fn lsag_step(prefix: Seq<u8>, c: nat, pk: nat, s: nat, image: nat) -> nat {
    keccak512_scalar(
        prefix + ristretto_compress((c * pk + s) % group_order()) + ristretto_compress(
            (s * key_base(pk) + c * image) % group_order(),
        ),
    )
}

/// The challenge reached from `c` by stepping through positions `from`, ...,
/// `to - 1` of the ring.
pub open spec fn lsag_chain(
    prefix: Seq<u8>,
    pk: Seq<nat>,
    s: Seq<nat>,
    image: nat,
    c: nat,
    from: int,
    to: int,
) -> nat
    decreases to - from,
{
    if to <= from {
        c
    } else {
        lsag_step(
            prefix,
            lsag_chain(prefix, pk, s, image, c, from, to - 1),
            pk[to - 1],
            s[to - 1],
            image,
        )
    }
}

/// The challenge that opens the signer's chain: the hash of the transcript
/// whose commitments are `alpha·B` and `alpha·H`, where `H` is the point to
/// which the signer's key `pk` is hashed.
pub open spec fn lsag_opening(prefix: Seq<u8>, pk: nat, alpha: nat) -> nat {
    keccak512_scalar(
        prefix + ristretto_compress(mul_mod(alpha, 1)) + ristretto_compress(
            mul_mod(alpha, key_base(pk)),
        ),
    )
}

/// The challenge at position 0 of a signature made at `index` with the nonce
/// `alpha` and the responses `s`.
pub open spec fn lsag_anchor(
    prefix: Seq<u8>,
    pk: Seq<nat>,
    s: Seq<nat>,
    image: nat,
    index: int,
    alpha: nat,
) -> nat {
    lsag_chain(
        prefix,
        pk,
        s,
        image,
        lsag_opening(prefix, pk[index], alpha),
        index + 1,
        pk.len() as int,
    )
}

/// The challenge that arrives at the signer's own position.
pub open spec fn lsag_closing(
    prefix: Seq<u8>,
    pk: Seq<nat>,
    s: Seq<nat>,
    image: nat,
    index: int,
    alpha: nat,
) -> nat {
    lsag_chain(prefix, pk, s, image, lsag_anchor(prefix, pk, s, image, index, alpha), 0, index)
}

/// A linkable ring signature: one response per ring position, the challenge
/// at position 0, and the key image of the signer's key.
#[derive(Clone, Debug)]
pub struct LSAGSig {
    pub s_vec: Vec<Scalar>,
    pub c: Scalar,
    pub I: Point,
}

/// The hash of the transcript `prefix ‖ l ‖ r`.
fn lsag_challenge(prefix: &Transcript, l: &Point, r: &Point) -> (c: Scalar)
    ensures
        c.wf(),
        c@ == keccak512_scalar(prefix@ + l.bytes@ + r.bytes@),
{
    let mut t = prefix.fork();
    t.absorb(l.bytes.as_slice());
    t.absorb(r.bytes.as_slice());
    t.challenge()
}

/// The second commitment of a position: `s·h + c·image`.
fn lsag_commitment(s: &Scalar, h: &Point, c: &Scalar, image: &Point) -> (r: Point)
    requires
        s.wf(),
        h.wf(),
        c.wf(),
        image.wf(),
    ensures
        r.wf(),
        r@ == (s@ * h@ + c@ * image@) % group_order(),
{
    let mut scalars: Vec<Scalar> = Vec::new();
    scalars.push(*s);
    scalars.push(*c);
    let mut points: Vec<Point> = Vec::new();
    points.push(*h);
    points.push(*image);
    proof {
        let sc = scalars@;
        let pt = points@;
        assert(sc.drop_last() =~= seq![*s]);
        assert(pt.drop_last() =~= seq![*h]);
        assert(sc.drop_last().drop_last() =~= Seq::<Scalar>::empty());
        assert(linear_combination(sc.drop_last().drop_last(), pt.drop_last().drop_last()) == 0);
        assert(linear_combination(sc.drop_last(), pt.drop_last()) == 0 + s@ * h@);
        assert(linear_combination(sc, pt) == s@ * h@ + c@ * image@);
    }
    Point::vartime_multiscalar_mul(scalars.as_slice(), points.as_slice())
}

/// A chain depends only on the responses of the positions it steps through.
proof fn lemma_lsag_chain_agree(
    prefix: Seq<u8>,
    pk: Seq<nat>,
    s1: Seq<nat>,
    s2: Seq<nat>,
    image: nat,
    c: nat,
    from: int,
    to: int,
)
    requires
        forall|k: int| from <= k < to ==> s1[k] == s2[k],
    ensures
        lsag_chain(prefix, pk, s1, image, c, from, to) == lsag_chain(
            prefix,
            pk,
            s2,
            image,
            c,
            from,
            to,
        ),
    decreases to - from,
{
    if to > from {
        lemma_lsag_chain_agree(prefix, pk, s1, s2, image, c, from, to - 1);
    }
}

/// Stepping from `from` to `to` is stepping to `mid` and on from there.
proof fn lemma_lsag_chain_split(
    prefix: Seq<u8>,
    pk: Seq<nat>,
    s: Seq<nat>,
    image: nat,
    c: nat,
    from: int,
    mid: int,
    to: int,
)
    requires
        from <= mid <= to,
    ensures
        lsag_chain(prefix, pk, s, image, c, from, to) == lsag_chain(
            prefix,
            pk,
            s,
            image,
            lsag_chain(prefix, pk, s, image, c, from, mid),
            mid,
            to,
        ),
    decreases to - mid,
{
    if to > mid {
        lemma_lsag_chain_split(prefix, pk, s, image, c, from, mid, to - 1);
    }
}

/// The identity that closes the second commitment of an LSAG chain: with the
/// response `alpha - c·x` and the key image `x·H`, the commitment
/// `s·H + c·image` is `alpha·H` again.
proof fn lemma_lsag_response(alpha: nat, c: nat, x: nat, h: nat)
    requires
        alpha < group_order(),
    ensures
        (sub_mod(alpha, mul_mod(c, x)) * h + c * mul_mod(x, h)) % group_order() == mul_mod(
            alpha,
            h,
        ),
{
    let l = group_order() as int;
    let s = sub_mod(alpha, mul_mod(c, x)) as int;
    let image = mul_mod(x, h) as int;
    lemma_schnorr_response(alpha, c, x);
    // c·x + s = alpha + k·l
    let k = (c * x + s) as int / l;
    lemma_fundamental_div_mod((c * x + s) as int, l);
    assert(c * x + s == l * k + alpha);
    // image = x·h - q·l
    let q = (x * h) as int / l;
    lemma_fundamental_div_mod((x * h) as int, l);
    assert(x * h == l * q + image);
    assert(s * h + c * image == l * (k * h - c * q) + alpha * h) by (nonlinear_arith)
        requires
            c * x + s == l * k + alpha,
            x * h == l * q + image,
    ;
    lemma_mod_multiples_vanish(k * h - c * q, (alpha * h) as int, l);
}

impl LSAGSig {
    /// Every scalar of the signature is reduced and the key image is a group
    /// element.
    pub open spec fn wf(&self) -> bool {
        self.c.wf() && scalars_wf(self.s_vec@) && self.I.wf()
    }

    /// The challenge and all responses are different from 0.
    pub open spec fn nonzero(&self) -> bool {
        &&& self.c@ != 0
        &&& forall|j: int| 0 <= j < self.s_vec@.len() ==> (#[trigger] self.s_vec@[j])@ != 0
    }

    /// The signature verifies for the message `message·B` and the ring of keys
    /// `pk[j]·B`: the ring has at least two keys, there is one response per
    /// key, no scalar is 0, and the chain started at position 0 with `c` ends
    /// in `c`.
    pub open spec fn verifies(&self, message: nat, pk: Seq<nat>) -> bool {
        &&& well_shaped(self.s_vec@, self.c, pk.len())
        &&& lsag_chain(
            transcript_prefix(pk, message),
            pk,
            scalar_values(self.s_vec@),
            self.I@,
            self.c@,
            0,
            pk.len() as int,
        ) == self.c@
    }

    /// The signature is the one that the secret key `x` at position `index`
    /// yields with the nonce `alpha` and the responses `s` for the other
    /// positions (`s[index]` is not used).
    pub open spec fn signed_with(
        &self,
        message: nat,
        pk: Seq<nat>,
        x: nat,
        index: int,
        alpha: nat,
        s: Seq<nat>,
    ) -> bool {
        let prefix = transcript_prefix(pk, message);
        let image = key_image(x, pk[index]);
        &&& self.I@ == image
        &&& self.c@ == lsag_anchor(prefix, pk, s, image, index, alpha)
        &&& scalar_values(self.s_vec@) == s.update(
            index,
            sub_mod(alpha, mul_mod(lsag_closing(prefix, pk, s, image, index, alpha), x)),
        )
    }

    /// The signature is accepted for `message` and the ring `pk`: all
    /// encodings are valid and the signature verifies for the group elements
    /// that they stand for.
    pub open spec fn accepts(&self, message: Point, pk: Seq<Point>) -> bool {
        &&& self.wf()
        &&& message.wf()
        &&& points_wf(pk)
        &&& self.verifies(message@, point_values(pk))
    }

    /// Checks that every scalar of the signature is reduced and that the key
    /// image is a group element.
    pub fn is_valid(&self) -> (r: bool)
        ensures
            r == self.wf(),
    {
        self.c.is_canonical() && scalars_valid(self.s_vec.as_slice()) && self.I.is_valid()
    }

    /// A signature with `n` responses, all of them and the challenge equal to
    /// 1, and the basepoint as key image.
    pub fn initialize(n: usize) -> (sig: LSAGSig)
        ensures
            sig.wf(),
            sig.c@ == 1,
            sig.I@ == 1,
            sig.s_vec@.len() == n,
            forall|j: int| 0 <= j < n ==> (#[trigger] sig.s_vec@[j])@ == 1,
    {
        let base = RingSig::initialize(n);
        LSAGSig { s_vec: base.s_vec, c: base.c, I: Point::basepoint() }
    }

    /// Verifies the signature for `message` and the ring `pk`. A signature
    /// that is not accepted is rejected with `MProveSigsError`, whether an
    /// encoding is not valid, the shape is wrong or the chain does not close.
    pub fn ver_LSAG(&self, message: Point, pk: &[Point]) -> (r: Result<(), Errors>)
        ensures
            r is Ok <==> self.accepts(message, pk@),
            r is Err ==> r == Err::<(), Errors>(Errors::MProveSigsError),
    {
        let n = pk.len();
        if !self.is_valid() || !message.is_valid() || !points_valid(pk) {
            return Err(Errors::MProveSigsError);
        }
        if !check_shape(self.s_vec.as_slice(), &self.c, n) {
            return Err(Errors::MProveSigsError);
        }
        let t = build_prefix(pk, &message);
        let ghost keys = point_values(pk@);
        let ghost prefix = transcript_prefix(keys, message@);
        let ghost s = scalar_values(self.s_vec@);
        let mut c_old = self.c;
        let mut j: usize = 0;
        while j < n
            invariant
                j <= n,
                n == pk@.len(),
                n == self.s_vec@.len(),
                self.wf(),
                points_wf(pk@),
                keys == point_values(pk@),
                s == scalar_values(self.s_vec@),
                t@ == prefix,
                c_old.wf(),
                c_old@ == lsag_chain(prefix, keys, s, self.I@, self.c@, 0, j as int),
            decreases n - j,
        {
            let l = Point::vartime_double_scalar_mul_basepoint(&c_old, &pk[j], &self.s_vec[j]);
            let h = Point::hash_from_bytes(pk[j].bytes.as_slice());
            let r = lsag_commitment(&self.s_vec[j], &h, &c_old, &self.I);
            c_old = lsag_challenge(&t, &l, &r);
            j = j + 1;
        }
        closing_verdict(&self.c, &c_old)
    }

    /// Signs `message` for the ring `pk` with the secret key `x` of position
    /// `index`, using `alpha` as the nonce and `s_vec` as the responses of the
    /// other positions. The key image is `x` times the point to which
    /// `pk[index]` is hashed.
    ///
    /// Where `pk[index]` is `x·B` and no scalar of the result is 0, the
    /// signature verifies.
    pub fn gen_LSAG_with(
        message: Point,
        pk: &[Point],
        x: Scalar,
        index: usize,
        alpha: Scalar,
        s_vec: Vec<Scalar>,
    ) -> (sig: LSAGSig)
        requires
            pk@.len() >= 2,
            index < pk@.len(),
            s_vec@.len() == pk@.len(),
            message.wf(),
            points_wf(pk@),
            x.wf(),
            alpha.wf(),
            scalars_wf(s_vec@),
        ensures
            sig.wf(),
            sig.s_vec@.len() == pk@.len(),
            sig.signed_with(
                message@,
                point_values(pk@),
                x@,
                index as int,
                alpha@,
                scalar_values(s_vec@),
            ),
            pk@[index as int]@ == x@ && sig.nonzero() ==> sig.accepts(message, pk@),
    {
        let n = pk.len();
        let mut s_vec = s_vec;
        let ghost s = scalar_values(s_vec@);
        let ghost keys = point_values(pk@);
        let ghost prefix = transcript_prefix(keys, message@);

        let h_index = Point::hash_from_bytes(pk[index].bytes.as_slice());
        let image = h_index.mul(&x);
        let l_start = Point::basepoint().mul(&alpha);
        let r_start = h_index.mul(&alpha);

        let t = build_prefix(pk, &message);
        let mut c_old = lsag_challenge(&t, &l_start, &r_start);
        let ghost opening = lsag_opening(prefix, keys[index as int], alpha@);
        let ghost anchor = lsag_anchor(prefix, keys, s, image@, index as int, alpha@);

        let mut j: usize = if index + 1 == n { 0 } else { index + 1 };
        let mut c = Scalar::one();
        if j == 0 {
            c = c_old;
        }
        while j != index
            invariant
                j < n,
                index < n,
                n == pk@.len(),
                n == s_vec@.len(),
                points_wf(pk@),
                keys == point_values(pk@),
                scalars_wf(s_vec@),
                image.wf(),
                s == scalar_values(s_vec@),
                t@ == prefix,
                opening == lsag_opening(prefix, keys[index as int], alpha@),
                anchor == lsag_anchor(prefix, keys, s, image@, index as int, alpha@),
                c_old.wf(),
                c.wf(),
                j > index ==> c_old@ == lsag_chain(
                    prefix,
                    keys,
                    s,
                    image@,
                    opening,
                    index as int + 1,
                    j as int,
                ),
                j <= index ==> c@ == anchor && c_old@ == lsag_chain(
                    prefix,
                    keys,
                    s,
                    image@,
                    anchor,
                    0,
                    j as int,
                ),
            decreases (if j > index { n - j + index + 1 } else { index - j }),
        {
            let l = Point::vartime_double_scalar_mul_basepoint(&c_old, &pk[j], &s_vec[j]);
            let h = Point::hash_from_bytes(pk[j].bytes.as_slice());
            let r = lsag_commitment(&s_vec[j], &h, &c_old, &image);
            c_old = lsag_challenge(&t, &l, &r);
            j = if j + 1 == n { 0 } else { j + 1 };
            if j == 0 {
                c = c_old;
            }
        }
        let response = alpha.sub(&c_old.mul(&x));
        s_vec.set(index, response);
        let sig = LSAGSig { s_vec, c, I: image };
        proof {
            assert(scalar_values(sig.s_vec@) =~= s.update(
                index as int,
                sub_mod(
                    alpha@,
                    mul_mod(lsag_closing(prefix, keys, s, image@, index as int, alpha@), x@),
                ),
            ));
            if pk@[index as int]@ == x@ && sig.nonzero() {
                lemma_lsag_signature_verifies(message@, keys, x@, index as int, alpha@, s, sig);
            }
        }
        sig
    }

    /// Signs `message` for the ring `pk` with the secret key `x` of position
    /// `index`. The nonce and the responses of the other positions are drawn
    /// at random.
    pub fn gen_LSAG(message: Point, pk: &[Point], x: Scalar, index: usize) -> (sig: LSAGSig)
        requires
            pk@.len() >= 2,
            index < pk@.len(),
            message.wf(),
            points_wf(pk@),
            x.wf(),
        ensures
            sig.wf(),
            sig.s_vec@.len() == pk@.len(),
            exists|alpha: nat, s: Seq<nat>|
                alpha < group_order() && s.len() == pk@.len() && #[trigger] sig.signed_with(
                    message@,
                    point_values(pk@),
                    x@,
                    index as int,
                    alpha,
                    s,
                ),
            pk@[index as int]@ == x@ && sig.nonzero() ==> sig.accepts(message, pk@),
    {
        let n = pk.len();
        let alpha = Scalar::random();
        let s_vec = random_scalars(n);
        let ghost s = scalar_values(s_vec@);
        let sig = LSAGSig::gen_LSAG_with(message, pk, x, index, alpha, s_vec);
        assert(sig.signed_with(message@, point_values(pk@), x@, index as int, alpha@, s));
        sig
    }
}

impl LSAGSig {
    /// Signs as [`LSAGSig::gen_LSAG`] does, for any input: `None` exactly
    /// when the ring has fewer than two keys, `index` is not a position of
    /// the ring, or an encoding is not valid.
    pub fn try_gen_LSAG(message: Point, pk: &[Point], x: Scalar, index: usize) -> (r: Option<
        LSAGSig,
    >)
        ensures
            r is Some <==> pk@.len() >= 2 && index < pk@.len() && message.wf() && points_wf(pk@)
                && x.wf(),
            r matches Some(sig) ==> {
                &&& sig.wf()
                &&& sig.s_vec@.len() == pk@.len()
                &&& exists|alpha: nat, s: Seq<nat>|
                    alpha < group_order() && s.len() == pk@.len() && #[trigger] sig.signed_with(
                        message@,
                        point_values(pk@),
                        x@,
                        index as int,
                        alpha,
                        s,
                    )
                &&& pk@[index as int]@ == x@ && sig.nonzero() ==> sig.accepts(message, pk@)
            },
    {
        if pk.len() < 2 || index >= pk.len() {
            return None;
        }
        if !message.is_valid() || !points_valid(pk) || !x.is_canonical() {
            return None;
        }
        Some(LSAGSig::gen_LSAG(message, pk, x, index))
    }
}

/// A linkable ring signature made with the secret key of one of the ring's
/// keys verifies for the same ring and message, unless one of its scalars is 0.
pub proof fn lemma_lsag_signature_verifies(
    message: nat,
    pk: Seq<nat>,
    x: nat,
    index: int,
    alpha: nat,
    s: Seq<nat>,
    sig: LSAGSig,
)
    requires
        pk.len() >= 2,
        0 <= index < pk.len(),
        s.len() == pk.len(),
        alpha < group_order(),
        pk[index] == x,
        sig.signed_with(message, pk, x, index, alpha, s),
        sig.nonzero(),
    ensures
        sig.verifies(message, pk),
{
    let n = pk.len() as int;
    let prefix = transcript_prefix(pk, message);
    let image = key_image(x, pk[index]);
    let opening = lsag_opening(prefix, pk[index], alpha);
    let anchor = lsag_anchor(prefix, pk, s, image, index, alpha);
    let closing = lsag_closing(prefix, pk, s, image, index, alpha);
    let response = sub_mod(alpha, mul_mod(closing, x));
    let sv = scalar_values(sig.s_vec@);
    assert(sv == s.update(index, response));
    assert(sig.s_vec@.len() == sv.len());
    // up to the signer's position the verifier repeats the signer's steps
    lemma_lsag_chain_agree(prefix, pk, sv, s, image, anchor, 0, index);
    // at the signer's position both commitments are the signer's own
    lemma_schnorr_response(alpha, closing, x);
    lemma_lsag_response(alpha, closing, x, key_base(pk[index]));
    lemma_small_mod(alpha, group_order());
    assert(lsag_chain(prefix, pk, sv, image, anchor, 0, index + 1) == opening);
    // behind it the verifier repeats the signer's first steps
    lemma_lsag_chain_split(prefix, pk, sv, image, anchor, 0, index + 1, n);
    lemma_lsag_chain_agree(prefix, pk, sv, s, image, opening, index + 1, n);
}

/// Two linkable signatures made with the same key pair carry the same key
/// image, whatever their rings, positions, messages and nonces.
pub proof fn lemma_key_image_links(
    x: nat,
    sig1: LSAGSig,
    message1: nat,
    pk1: Seq<nat>,
    index1: int,
    alpha1: nat,
    s1: Seq<nat>,
    sig2: LSAGSig,
    message2: nat,
    pk2: Seq<nat>,
    index2: int,
    alpha2: nat,
    s2: Seq<nat>,
)
    requires
        0 <= index1 < pk1.len(),
        0 <= index2 < pk2.len(),
        pk1[index1] == x,
        pk2[index2] == x,
        sig1.I.wf(),
        sig2.I.wf(),
        sig1.signed_with(message1, pk1, x, index1, alpha1, s1),
        sig2.signed_with(message2, pk2, x, index2, alpha2, s2),
    ensures
        sig1.I@ == sig2.I@,
        sig1.I.bytes@ == sig2.I.bytes@,
{
}

} // verus!
