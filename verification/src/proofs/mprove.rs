//! The proof of reserves.
//!
//! The statement is a ring of commitments `C` and a ring of addresses `P`. For
//! every position the prover publishes an auxiliary commitment `C'`; the
//! difference `D = C' - C` enters two one-out-of-two ring signatures: a plain
//! one for the keys `(C', D)` and a linkable one for the keys `(P, D)`. At a
//! position that the prover owns, `C'` is a multiple `z·G` of the generator and
//! the prover signs with `z` and with the address key. Elsewhere `C'` is
//! `z·G + C`, so that `D` is `z·G`, and the prover signs both with `z`. The sum
//! of all differences is the reserve commitment.

use vstd::prelude::*;
use rand::Rng;
use vstd::arithmetic::div_mod::{
    lemma_fundamental_div_mod, lemma_mod_multiples_vanish, lemma_small_mod,
};
use crate::point::{add_mod, keccak512_point, linear_combination, ristretto_compress, Point};
use crate::proofs::mprove_sigs::{
    lemma_lsag_signature_verifies, lemma_ring_signature_verifies, point_values, points_valid,
    points_wf, scalar_values, scalars_valid, scalars_wf, LSAGSig, RingSig,
};
use crate::scalar::{group_order, mul_mod, sub_mod, Scalar};
use crate::Errors;

verus! {

/// An entry of the ownership bitmap marks its position as owned when its
/// lowest bit is set.
pub open spec fn is_owned(e: u64) -> bool {
    e % 2 == 1
}

/// The number of owned positions in a bitmap.
pub open spec fn owned_count(bitmap: Seq<u64>) -> nat
    decreases bitmap.len(),
{
    if bitmap.len() == 0 {
        0
    } else {
        owned_count(bitmap.drop_last()) + if is_owned(bitmap.last()) {
            1nat
        } else {
            0nat
        }
    }
}

/// The sum of a sequence of numbers.
pub open spec fn seq_sum(values: Seq<nat>) -> nat
    decreases values.len(),
{
    if values.len() == 0 {
        0
    } else {
        seq_sum(values.drop_last()) + values.last()
    }
}

/// The auxiliary commitment of a position with commitment `c` and blinding
/// factor `z`, for the generator `g`.
pub open spec fn aux_commitment(g: nat, c: nat, z: nat, owned: bool) -> nat {
    if owned {
        mul_mod(z, g)
    } else {
        add_mod(mul_mod(z, g), c)
    }
}

/// The difference point that the prover signs for at a position.
pub open spec fn signed_difference(g: nat, c: nat, z: nat, owned: bool) -> nat {
    if owned {
        sub_mod(mul_mod(z, g), c)
    } else {
        mul_mod(z, g)
    }
}

/// The random choices that go into one position of a proof: the blinding
/// factor `z`, and for each of the two signatures its nonce and the response
/// of the key that does not sign.
#[derive(Clone, Copy, Debug)]
pub struct PositionNonces {
    pub z: Scalar,
    pub gamma_alpha: Scalar,
    pub gamma_s: Scalar,
    pub sigma_alpha: Scalar,
    pub sigma_s: Scalar,
}

impl PositionNonces {
    /// Every scalar is reduced.
    pub open spec fn wf(&self) -> bool {
        &&& self.z.wf()
        &&& self.gamma_alpha.wf()
        &&& self.gamma_s.wf()
        &&& self.sigma_alpha.wf()
        &&& self.sigma_s.wf()
    }

    /// Fresh random choices for one position.
    pub fn random() -> (r: PositionNonces)
        ensures
            r.wf(),
    {
        PositionNonces {
            z: Scalar::random(),
            gamma_alpha: Scalar::random(),
            gamma_s: Scalar::random(),
            sigma_alpha: Scalar::random(),
            sigma_s: Scalar::random(),
        }
    }
}

/// All the nonces of a vector are well formed.
pub open spec fn nonces_wf(nonces: Seq<PositionNonces>) -> bool {
    forall|i: int| 0 <= i < nonces.len() ==> (#[trigger] nonces[i]).wf()
}

/// What a prover publishes for one position with commitment `c` and address
/// `p`, from the generator `g`, the bitmap entry `e`, the address key `x` (read
/// only where the position is owned) and the random choices `nonces`.
#[verifier::opaque]
pub open spec fn position_proved(
    c_prime: nat,
    gamma: RingSig,
    sigma: LSAGSig,
    message: nat,
    g: nat,
    c: nat,
    p: nat,
    x: nat,
    e: u64,
    nonces: PositionNonces,
) -> bool {
    let owned = is_owned(e);
    let d = signed_difference(g, c, nonces.z@, owned);
    let index = if owned {
        0int
    } else {
        1int
    };
    &&& c_prime == aux_commitment(g, c, nonces.z@, owned)
    &&& gamma.signed_with(
        message,
        seq![c_prime, d],
        nonces.z@,
        index,
        nonces.gamma_alpha@,
        seq![nonces.gamma_s@, nonces.gamma_s@],
    )
    &&& sigma.signed_with(
        message,
        seq![p, d],
        if owned {
            x
        } else {
            nonces.z@
        },
        index,
        nonces.sigma_alpha@,
        seq![nonces.sigma_s@, nonces.sigma_s@],
    )
}

/// Both signatures of a position are accepted for the difference
/// `c_prime - c`.
#[verifier::opaque]
pub open spec fn position_verifies(
    c_prime: nat,
    c: nat,
    p: nat,
    gamma: RingSig,
    sigma: LSAGSig,
    message: nat,
) -> bool {
    let d = sub_mod(c_prime, c);
    gamma.verifies(message, seq![c_prime, d]) && sigma.verifies(message, seq![p, d])
}

/// A statement and a witness that a proof can be made for: every encoding is
/// valid, the three rings have the same length, and there is one secret key per
/// owned position.
pub open spec fn inputs_fit(
    g: Point,
    commitments: Seq<Point>,
    addresses: Seq<Point>,
    keys: Seq<Scalar>,
    bitmap: Seq<u64>,
) -> bool {
    &&& g.wf()
    &&& points_wf(commitments)
    &&& points_wf(addresses)
    &&& scalars_wf(keys)
    &&& commitments.len() == addresses.len()
    &&& bitmap.len() == addresses.len()
    &&& keys.len() == owned_count(bitmap)
}

/// Counts the owned positions of a bitmap.
pub fn count_owned(bitmap: &[u64]) -> (r: usize)
    ensures
        r == owned_count(bitmap@),
{
    let mut count: usize = 0;
    let mut i: usize = 0;
    while i < bitmap.len()
        invariant
            i <= bitmap.len(),
            count <= i,
            count == owned_count(bitmap@.take(i as int)),
        decreases bitmap.len() - i,
    {
        proof {
            lemma_owned_count_step(bitmap@, i as int);
        }
        if bitmap[i] % 2 == 1 {
            count = count + 1;
        }
        i = i + 1;
    }
    assert(bitmap@.take(bitmap.len() as int) =~= bitmap@);
    count
}

/// The second generator `H`, to which amounts are committed: the point to
/// which the encoding of the basepoint is hashed.
pub open spec fn amount_generator() -> nat {
    keccak512_point(ristretto_compress(1))
}

/// `c` is a commitment `r·B + a·H` to a 32-bit amount `a`.
pub open spec fn is_amount_commitment(c: nat) -> bool {
    exists|r: nat, a: nat|
        r < group_order() && a <= u32::MAX && c == #[trigger] add_mod(
            mul_mod(r, 1),
            mul_mod(a, amount_generator()),
        )
}

/// The witness fits the statement: the generator is the basepoint, there is
/// one secret key per owned position, in the order of the positions, and the
/// address of an owned position is the public key of its secret key.
pub open spec fn witness_well_formed(
    g: nat,
    addresses: Seq<Point>,
    keys: Seq<Scalar>,
    bitmap: Seq<u64>,
) -> bool {
    &&& g == 1
    &&& addresses.len() == bitmap.len()
    &&& keys.len() == owned_count(bitmap)
    &&& forall|i: int|
        0 <= i < bitmap.len() && is_owned(#[trigger] bitmap[i]) ==> addresses[i]@ == keys[owned_count(
            bitmap.take(i),
        ) as int]@
}

/// `Rng::gen_range` from 0 to `bound` with the thread-local generator of
/// `rand`, which panics unless 0 is below `bound` and returns a number from 0
/// up to, and not including, `bound`.
#[verifier::external_body]
fn rand_below(bound: usize) -> (r: usize)
    requires
        bound > 0,
    ensures
        r < bound,
{
    rand::thread_rng().gen_range(0, bound)
}

/// `Rng::gen::<u32>` with the thread-local generator of `rand`: any `u32`.
#[verifier::external_body]
fn rand_u32() -> u32 {
    rand::thread_rng().gen::<u32>()
}

/// A proof of reserves.
#[derive(Clone, Debug)]
pub struct MProve {
    pub C_vec: Vec<Point>,
    pub P_vec: Vec<Point>,
    pub C_prime_vec: Vec<Point>,
    pub C_res: Point,
    pub gamma_vec: Vec<RingSig>,
    pub sigma_vec: Vec<LSAGSig>,
    pub message: Point,
}

/// Adding a position to a bitmap adds one to the count where it is owned.
proof fn lemma_owned_count_step(bitmap: Seq<u64>, i: int)
    requires
        0 <= i < bitmap.len(),
    ensures
        owned_count(bitmap.take(i + 1)) == owned_count(bitmap.take(i)) + if is_owned(bitmap[i]) {
            1nat
        } else {
            0nat
        },
{
    assert(bitmap.take(i + 1).drop_last() =~= bitmap.take(i));
}

/// A prefix of a bitmap has no more owned positions than the whole.
proof fn lemma_owned_count_prefix(bitmap: Seq<u64>, i: int)
    requires
        0 <= i <= bitmap.len(),
    ensures
        owned_count(bitmap.take(i)) <= owned_count(bitmap),
    decreases bitmap.len() - i,
{
    if i < bitmap.len() {
        lemma_owned_count_step(bitmap, i);
        lemma_owned_count_prefix(bitmap, i + 1);
    } else {
        assert(bitmap.take(i) =~= bitmap);
    }
}

/// Adding `c` and taking it away again gives back `d`.
proof fn lemma_add_then_sub(d: nat, c: nat)
    requires
        d < group_order(),
        c < group_order(),
    ensures
        sub_mod(add_mod(d, c), c) == d,
{
    let l = group_order() as int;
    let a = add_mod(d, c) as int;
    let k = (d + c) as int / l;
    lemma_fundamental_div_mod((d + c) as int, l);
    assert(d + c == l * k + a);
    assert(a + l - c == l * (1 - k) + d);
    lemma_mod_multiples_vanish(1 - k, d as int, l);
    lemma_small_mod(d, l as nat);
}

/// With unit scalars a linear combination is the sum of the points.
proof fn lemma_unit_combination(scalars: Seq<Scalar>, points: Seq<Point>)
    requires
        scalars.len() == points.len(),
        forall|i: int| 0 <= i < scalars.len() ==> (#[trigger] scalars[i])@ == 1,
    ensures
        linear_combination(scalars, points) == seq_sum(point_values(points)),
    decreases scalars.len(),
{
    if scalars.len() > 0 {
        lemma_unit_combination(scalars.drop_last(), points.drop_last());
        assert(point_values(points).drop_last() =~= point_values(points.drop_last()));
    }
}

/// What the prover publishes for a position is accepted by the verifier,
/// where the witness fits and no scalar of the two signatures is 0.
proof fn lemma_position_verifies(
    c_prime: nat,
    gamma: RingSig,
    sigma: LSAGSig,
    message: nat,
    c: nat,
    p: nat,
    x: nat,
    e: u64,
    nonces: PositionNonces,
)
    requires
        position_proved(c_prime, gamma, sigma, message, 1, c, p, x, e, nonces),
        nonces.wf(),
        c < group_order(),
        is_owned(e) ==> p == x,
        gamma.nonzero(),
        sigma.nonzero(),
    ensures
        position_verifies(c_prime, c, p, gamma, sigma, message),
        sub_mod(c_prime, c) == signed_difference(1, c, nonces.z@, is_owned(e)),
{
    reveal(position_proved);
    reveal(position_verifies);
    let z = nonces.z@;
    let owned = is_owned(e);
    let d = signed_difference(1, c, z, owned);
    lemma_small_mod(z, group_order());
    assert(mul_mod(z, 1) == z);
    if !owned {
        lemma_add_then_sub(z, c);
    }
    assert(sub_mod(c_prime, c) == d);
    let index = if owned {
        0int
    } else {
        1int
    };
    let ring_gamma = seq![c_prime, d];
    let ring_sigma = seq![p, d];
    assert(ring_gamma[index] == z);
    lemma_ring_signature_verifies(
        message,
        ring_gamma,
        z,
        index,
        nonces.gamma_alpha@,
        seq![nonces.gamma_s@, nonces.gamma_s@],
        gamma,
    );
    let key = if owned {
        x
    } else {
        z
    };
    assert(ring_sigma[index] == key);
    lemma_lsag_signature_verifies(
        message,
        ring_sigma,
        key,
        index,
        nonces.sigma_alpha@,
        seq![nonces.sigma_s@, nonces.sigma_s@],
        sigma,
    );
}

impl MProve {
    /// The number of ring positions.
    pub open spec fn ring_size(&self) -> nat {
        self.P_vec@.len()
    }

    /// Every point of the proof is a group element and every scalar is
    /// reduced.
    pub open spec fn wf(&self) -> bool {
        &&& points_wf(self.C_vec@)
        &&& points_wf(self.P_vec@)
        &&& points_wf(self.C_prime_vec@)
        &&& self.C_res.wf()
        &&& self.message.wf()
        &&& forall|i: int| 0 <= i < self.gamma_vec@.len() ==> (#[trigger] self.gamma_vec@[i]).wf()
        &&& forall|i: int| 0 <= i < self.sigma_vec@.len() ==> (#[trigger] self.sigma_vec@[i]).wf()
    }

    /// The five vectors of the proof have the same length.
    pub open spec fn consistent(&self) -> bool {
        &&& self.C_vec@.len() == self.ring_size()
        &&& self.C_prime_vec@.len() == self.ring_size()
        &&& self.gamma_vec@.len() == self.ring_size()
        &&& self.sigma_vec@.len() == self.ring_size()
    }

    /// The differences `C'[i] - C[i]`.
    pub open spec fn differences(&self) -> Seq<nat> {
        Seq::new(self.ring_size(), |i: int| sub_mod(self.C_prime_vec@[i]@, self.C_vec@[i]@))
    }

    /// Both signatures of position `i` are accepted.
    pub open spec fn verifies_at(&self, i: int) -> bool {
        position_verifies(
            self.C_prime_vec@[i]@,
            self.C_vec@[i]@,
            self.P_vec@[i]@,
            self.gamma_vec@[i],
            self.sigma_vec@[i],
            self.message@,
        )
    }

    /// The signatures of all positions are accepted.
    pub open spec fn signatures_verify(&self) -> bool {
        forall|i: int| 0 <= i < self.ring_size() ==> #[trigger] self.verifies_at(i)
    }

    /// The reserve commitment is the sum of the differences.
    pub open spec fn reserve_matches(&self) -> bool {
        self.C_res@ == seq_sum(self.differences()) % group_order()
    }

    /// The proof verifies: its vectors agree in length, all signatures are
    /// accepted and the reserve commitment is the sum of the differences.
    pub open spec fn verifies(&self) -> bool {
        self.consistent() && self.signatures_verify() && self.reserve_matches()
    }

    /// The proof is accepted: all encodings are valid and the proof verifies.
    pub open spec fn accepted(&self) -> bool {
        self.wf() && self.verifies()
    }

    /// No scalar of any signature of the proof is 0.
    pub open spec fn nonzero(&self) -> bool {
        &&& forall|i: int|
            0 <= i < self.gamma_vec@.len() ==> (#[trigger] self.gamma_vec@[i]).nonzero()
        &&& forall|i: int|
            0 <= i < self.sigma_vec@.len() ==> (#[trigger] self.sigma_vec@[i]).nonzero()
    }

    /// The proof is the one that the witness `(keys, bitmap)` yields for the
    /// statement `(commitments, addresses)` with the generator `g`, the given
    /// message, and the random choices `nonces`.
    pub open spec fn proved_with(
        &self,
        g: nat,
        commitments: Seq<Point>,
        addresses: Seq<Point>,
        keys: Seq<Scalar>,
        bitmap: Seq<u64>,
        message: Point,
        nonces: Seq<PositionNonces>,
    ) -> bool {
        &&& self.C_vec@ == commitments
        &&& self.P_vec@ == addresses
        &&& self.message == message
        &&& self.consistent()
        &&& forall|i: int|
            0 <= i < self.ring_size() ==> position_proved(
                (#[trigger] self.C_prime_vec@[i])@,
                self.gamma_vec@[i],
                self.sigma_vec@[i],
                message@,
                g,
                commitments[i]@,
                addresses[i]@,
                keys[owned_count(bitmap.take(i)) as int]@,
                bitmap[i],
                nonces[i],
            )
        &&& self.C_res@ == seq_sum(
            Seq::new(
                self.ring_size(),
                |i: int| signed_difference(g, commitments[i]@, nonces[i].z@, is_owned(bitmap[i])),
            ),
        ) % group_order()
    }

    /// Makes up a statement and a witness that fits it, for a ring of
    /// `anon_size` positions of which `own_size` are owned: the generator,
    /// the commitments, the addresses, the secret keys of the owned positions
    /// and the ownership bitmap.
    ///
    /// The ring is cut into `own_size` stretches of equal length (what is left
    /// over stays unowned) and one position of each stretch, picked at random,
    /// is owned. An owned position gets a fresh key pair as its address and a
    /// commitment `r·G + a·H` to a random 32-bit amount `a`, where `H` is the
    /// point to which the encoding of `G` is hashed. Every other position gets
    /// a random address and a random commitment.
    pub fn gen_params(anon_size: usize, own_size: usize) -> (r: (
        Point,
        Vec<Point>,
        Vec<Point>,
        Vec<Scalar>,
        Vec<u64>,
    ))
        requires
            own_size <= anon_size,
        ensures
            r.0.wf(),
            points_wf(r.1@),
            points_wf(r.2@),
            scalars_wf(r.3@),
            r.1@.len() == anon_size,
            r.2@.len() == anon_size,
            r.3@.len() == own_size,
            r.4@.len() == anon_size,
            forall|i: int| 0 <= i < anon_size ==> #[trigger] r.4@[i] <= 1,
            forall|i: int|
                0 <= i < anon_size && is_owned(r.4@[i]) ==> is_amount_commitment(
                    (#[trigger] r.1@[i])@,
                ),
            witness_well_formed(r.0@, r.2@, r.3@, r.4@),
    {
        let g = Point::basepoint();
        let h = Point::hash_from_bytes(g.bytes.as_slice());
        let n = anon_size;
        let s = own_size;
        let stretch: usize = if s == 0 {
            0
        } else {
            n / s
        };
        assert(s > 0 ==> stretch >= 1 && stretch * s <= n) by (nonlinear_arith)
            requires
                s <= n,
                s > 0 ==> stretch == n / s,
        ;
        let mut next: usize = 0;
        if s > 0 {
            next = rand_below(stretch);
        }
        let mut c_vec: Vec<Point> = Vec::new();
        let mut p_vec: Vec<Point> = Vec::new();
        let mut x_vec: Vec<Scalar> = Vec::new();
        let mut e_vec: Vec<u64> = Vec::new();
        let mut index: usize = 0;
        let mut i: usize = 0;
        while i < n
            invariant
                i <= n,
                s <= n,
                index <= s,
                s > 0 ==> stretch >= 1 && stretch * s <= n,
                g.wf(),
                g@ == 1,
                h.wf(),
                h@ == amount_generator(),
                forall|k: int|
                    0 <= k < i && is_owned(e_vec@[k]) ==> is_amount_commitment(
                        (#[trigger] c_vec@[k])@,
                    ),
                c_vec@.len() == i,
                p_vec@.len() == i,
                e_vec@.len() == i,
                x_vec@.len() == index,
                points_wf(c_vec@),
                points_wf(p_vec@),
                scalars_wf(x_vec@),
                index == owned_count(e_vec@),
                index < s ==> i <= next && index * stretch <= next < (index + 1) * stretch,
                forall|k: int| 0 <= k < i ==> #[trigger] e_vec@[k] <= 1,
                forall|k: int|
                    0 <= k < i && is_owned(#[trigger] e_vec@[k]) ==> owned_count(e_vec@.take(k))
                        < index && p_vec@[k]@ == x_vec@[owned_count(e_vec@.take(k)) as int]@,
            decreases n - i,
        {
            let ghost e_old = e_vec@;
            if index < s && i == next {
                let x = Scalar::random();
                let r = Scalar::random();
                let a = Scalar::from_u64(rand_u32() as u64);
                let c = g.mul(&r).add(&h.mul(&a));
                let p = g.mul(&x);
                proof {
                    lemma_small_mod(x@, group_order());
                    assert(c@ == add_mod(mul_mod(r@, 1), mul_mod(a@, amount_generator())));
                    assert(is_amount_commitment(c@));
                }
                c_vec.push(c);
                p_vec.push(p);
                x_vec.push(x);
                e_vec.push(1);
                index = index + 1;
                if index < s {
                    assert(index * stretch + stretch <= s * stretch) by (nonlinear_arith)
                        requires
                            index < s,
                    ;
                    next = index * stretch + rand_below(stretch);
                    assert((index + 1) * stretch == index * stretch + stretch)
                        by (nonlinear_arith);
                    assert((index - 1 + 1) * stretch == index * stretch) by (nonlinear_arith);
                }
            } else {
                c_vec.push(Point::random());
                p_vec.push(Point::random());
                e_vec.push(0);
            }
            proof {
                assert(e_vec@.drop_last() =~= e_old);
                assert(e_vec@.take(i as int) =~= e_old);
                assert forall|k: int| 0 <= k < i + 1 && is_owned(
                    #[trigger] e_vec@[k],
                ) implies owned_count(e_vec@.take(k)) < index && p_vec@[k]@ == x_vec@[owned_count(
                    e_vec@.take(k),
                ) as int]@ by {
                    if k < i {
                        assert(e_vec@.take(k) =~= e_old.take(k));
                        assert(e_vec@[k] == e_old[k]);
                    }
                }
            }
            i = i + 1;
        }
        proof {
            assert forall|k: int| 0 <= k < n && is_owned(#[trigger] e_vec@[k]) implies p_vec@[k]@
                == x_vec@[owned_count(e_vec@.take(k)) as int]@ by {}
            if index < s {
                assert((index + 1) * stretch <= s * stretch) by (nonlinear_arith)
                    requires
                        index < s,
                ;
            }
        }
        (g, c_vec, p_vec, x_vec, e_vec)
    }

    /// Proves reserves for the statement `(C_vec, P_vec)` with the witness
    /// `(x_vec, E_vec)`: `E_vec` marks the owned positions and `x_vec` holds
    /// their secret keys, in the order of the positions. `message` is bound
    /// into every signature and `nonces` holds the random choices of each
    /// position.
    ///
    /// The reserve commitment of the result is the sum of its differences.
    /// Where the witness fits the statement and no scalar of the result is 0,
    /// the result is accepted by [`MProve::verify`].
    pub fn prove_with(
        G: &Point,
        C_vec: &[Point],
        P_vec: &[Point],
        x_vec: &[Scalar],
        E_vec: &[u64],
        message: Point,
        nonces: &[PositionNonces],
    ) -> (p: MProve)
        requires
            inputs_fit(*G, C_vec@, P_vec@, x_vec@, E_vec@),
            message.wf(),
            nonces_wf(nonces@),
            nonces@.len() == P_vec@.len(),
        ensures
            p.wf(),
            p.proved_with(G@, C_vec@, P_vec@, x_vec@, E_vec@, message, nonces@),
            p.consistent(),
            p.reserve_matches(),
            witness_well_formed(G@, P_vec@, x_vec@, E_vec@) && p.nonzero() ==> p.accepted(),
    {
        let n = P_vec.len();
        let mut c_out: Vec<Point> = Vec::new();
        let mut p_out: Vec<Point> = Vec::new();
        let mut c_prime_vec: Vec<Point> = Vec::new();
        let mut gamma_vec: Vec<RingSig> = Vec::new();
        let mut sigma_vec: Vec<LSAGSig> = Vec::new();
        let mut d_vec: Vec<Point> = Vec::new();
        let mut one_vec: Vec<Scalar> = Vec::new();
        let mut index: usize = 0;
        let mut i: usize = 0;
        while i < n
            invariant
                i <= n,
                n == P_vec@.len(),
                n == C_vec@.len(),
                n == E_vec@.len(),
                n == nonces@.len(),
                x_vec@.len() == owned_count(E_vec@),
                G.wf(),
                message.wf(),
                points_wf(C_vec@),
                points_wf(P_vec@),
                scalars_wf(x_vec@),
                nonces_wf(nonces@),
                index == owned_count(E_vec@.take(i as int)),
                c_out@ == C_vec@.take(i as int),
                p_out@ == P_vec@.take(i as int),
                c_prime_vec@.len() == i,
                gamma_vec@.len() == i,
                sigma_vec@.len() == i,
                d_vec@.len() == i,
                one_vec@.len() == i,
                points_wf(c_prime_vec@),
                points_wf(d_vec@),
                scalars_wf(one_vec@),
                forall|k: int| 0 <= k < i ==> (#[trigger] gamma_vec@[k]).wf(),
                forall|k: int| 0 <= k < i ==> (#[trigger] sigma_vec@[k]).wf(),
                forall|k: int| 0 <= k < i ==> (#[trigger] one_vec@[k])@ == 1,
                forall|k: int|
                    0 <= k < i ==> position_proved(
                        (#[trigger] c_prime_vec@[k])@,
                        gamma_vec@[k],
                        sigma_vec@[k],
                        message@,
                        G@,
                        C_vec@[k]@,
                        P_vec@[k]@,
                        x_vec@[owned_count(E_vec@.take(k)) as int]@,
                        E_vec@[k],
                        nonces@[k],
                    ),
                forall|k: int|
                    0 <= k < i ==> (#[trigger] d_vec@[k])@ == signed_difference(
                        G@,
                        C_vec@[k]@,
                        nonces@[k].z@,
                        is_owned(E_vec@[k]),
                    ) && d_vec@[k]@ == sub_mod(c_prime_vec@[k]@, C_vec@[k]@),
            decreases n - i,
        {
            let nz = nonces[i];
            let owned = E_vec[i] % 2 == 1;
            proof {
                lemma_owned_count_step(E_vec@, i as int);
                lemma_owned_count_prefix(E_vec@, i as int + 1);
            }
            let zg = G.mul(&nz.z);
            let c_prime: Point;
            let d: Point;
            let signer: usize;
            let key: Scalar;
            if owned {
                c_prime = zg;
                d = c_prime.sub(&C_vec[i]);
                signer = 0;
                key = x_vec[index];
                index = index + 1;
            } else {
                d = zg;
                c_prime = d.add(&C_vec[i]);
                signer = 1;
                key = nz.z;
                proof {
                    lemma_add_then_sub(d@, C_vec@[i as int]@);
                }
            }
            let mut pk_gamma: Vec<Point> = Vec::new();
            pk_gamma.push(c_prime);
            pk_gamma.push(d);
            let mut pk_sigma: Vec<Point> = Vec::new();
            pk_sigma.push(P_vec[i]);
            pk_sigma.push(d);
            let mut s_gamma: Vec<Scalar> = Vec::new();
            s_gamma.push(nz.gamma_s);
            s_gamma.push(nz.gamma_s);
            let mut s_sigma: Vec<Scalar> = Vec::new();
            s_sigma.push(nz.sigma_s);
            s_sigma.push(nz.sigma_s);
            assert(point_values(pk_gamma@) =~= seq![c_prime@, d@]);
            assert(point_values(pk_sigma@) =~= seq![P_vec@[i as int]@, d@]);
            assert(scalar_values(s_gamma@) =~= seq![nz.gamma_s@, nz.gamma_s@]);
            assert(scalar_values(s_sigma@) =~= seq![nz.sigma_s@, nz.sigma_s@]);
            let gamma = RingSig::gen_RingSig_with(
                message,
                pk_gamma.as_slice(),
                nz.z,
                signer,
                nz.gamma_alpha,
                s_gamma,
            );
            let sigma = LSAGSig::gen_LSAG_with(
                message,
                pk_sigma.as_slice(),
                key,
                signer,
                nz.sigma_alpha,
                s_sigma,
            );
            assert(position_proved(
                c_prime@,
                gamma,
                sigma,
                message@,
                G@,
                C_vec@[i as int]@,
                P_vec@[i as int]@,
                x_vec@[owned_count(E_vec@.take(i as int)) as int]@,
                E_vec@[i as int],
                nonces@[i as int],
            )) by {
                reveal(position_proved);
            }
            c_out.push(C_vec[i]);
            p_out.push(P_vec[i]);
            c_prime_vec.push(c_prime);
            gamma_vec.push(gamma);
            sigma_vec.push(sigma);
            d_vec.push(d);
            one_vec.push(Scalar::one());
            assert(C_vec@.take(i + 1) =~= C_vec@.take(i as int).push(C_vec@[i as int]));
            assert(P_vec@.take(i + 1) =~= P_vec@.take(i as int).push(P_vec@[i as int]));
            i = i + 1;
        }
        let c_res = Point::vartime_multiscalar_mul(one_vec.as_slice(), d_vec.as_slice());
        let p = MProve {
            C_vec: c_out,
            P_vec: p_out,
            C_prime_vec: c_prime_vec,
            C_res: c_res,
            gamma_vec,
            sigma_vec,
            message,
        };
        proof {
            assert(C_vec@.take(n as int) =~= C_vec@);
            assert(P_vec@.take(n as int) =~= P_vec@);
            lemma_unit_combination(one_vec@, d_vec@);
            assert(point_values(d_vec@) =~= p.differences());
            assert(point_values(d_vec@) =~= Seq::new(
                p.ring_size(),
                |i: int|
                    signed_difference(G@, C_vec@[i]@, nonces@[i].z@, is_owned(E_vec@[i])),
            ));
            assert(p.proved_with(G@, C_vec@, P_vec@, x_vec@, E_vec@, message, nonces@));
            if witness_well_formed(G@, P_vec@, x_vec@, E_vec@) && p.nonzero() {
                lemma_proof_verifies(p, C_vec@, P_vec@, x_vec@, E_vec@, message, nonces@);
            }
        }
        p
    }

    /// Proves reserves for the statement `(C_vec, P_vec)` with the witness
    /// `(x_vec, E_vec)`, which have to fit together. The message and the
    /// random choices of every position are drawn at random.
    pub fn prove(
        G: &Point,
        C_vec: &[Point],
        P_vec: &[Point],
        x_vec: &[Scalar],
        E_vec: &[u64],
    ) -> (p: MProve)
        requires
            inputs_fit(*G, C_vec@, P_vec@, x_vec@, E_vec@),
        ensures
            p.wf(),
            exists|message: Point, nonces: Seq<PositionNonces>|
                message.wf() && nonces.len() == P_vec@.len() && nonces_wf(nonces)
                    && #[trigger] p.proved_with(
                    G@,
                    C_vec@,
                    P_vec@,
                    x_vec@,
                    E_vec@,
                    message,
                    nonces,
                ),
            p.consistent(),
            p.reserve_matches(),
            witness_well_formed(G@, P_vec@, x_vec@, E_vec@) && p.nonzero() ==> p.accepted(),
    {
        let n = P_vec.len();
        let message = Point::random();
        let mut nonces: Vec<PositionNonces> = Vec::new();
        let mut i: usize = 0;
        while i < n
            invariant
                i <= n,
                nonces@.len() == i,
                nonces_wf(nonces@),
            decreases n - i,
        {
            nonces.push(PositionNonces::random());
            i = i + 1;
        }
        let p = MProve::prove_with(G, C_vec, P_vec, x_vec, E_vec, message, nonces.as_slice());
        assert(p.proved_with(G@, C_vec@, P_vec@, x_vec@, E_vec@, message, nonces@));
        p
    }

    /// Proves reserves as [`MProve::prove`] does, for any input: `None`
    /// exactly when the statement and the witness do not fit together.
    pub fn try_prove(
        G: &Point,
        C_vec: &[Point],
        P_vec: &[Point],
        x_vec: &[Scalar],
        E_vec: &[u64],
    ) -> (r: Option<MProve>)
        ensures
            r is Some <==> inputs_fit(*G, C_vec@, P_vec@, x_vec@, E_vec@),
            r matches Some(p) ==> {
                &&& p.wf()
                &&& exists|message: Point, nonces: Seq<PositionNonces>|
                    message.wf() && nonces.len() == P_vec@.len() && nonces_wf(nonces)
                        && #[trigger] p.proved_with(
                        G@,
                        C_vec@,
                        P_vec@,
                        x_vec@,
                        E_vec@,
                        message,
                        nonces,
                    )
                &&& p.consistent()
                &&& p.reserve_matches()
                &&& witness_well_formed(G@, P_vec@, x_vec@, E_vec@) && p.nonzero()
                    ==> p.accepted()
            },
    {
        if !G.is_valid() || !points_valid(C_vec) || !points_valid(P_vec) || !scalars_valid(x_vec) {
            return None;
        }
        if C_vec.len() != P_vec.len() || E_vec.len() != P_vec.len() || x_vec.len() != count_owned(
            E_vec,
        ) {
            return None;
        }
        Some(MProve::prove(G, C_vec, P_vec, x_vec, E_vec))
    }

    /// Checks that every point of the proof is a group element and every
    /// scalar is reduced.
    pub fn is_valid(&self) -> (r: bool)
        ensures
            r == self.wf(),
    {
        if !points_valid(self.C_vec.as_slice()) || !points_valid(self.P_vec.as_slice())
            || !points_valid(self.C_prime_vec.as_slice()) || !self.C_res.is_valid()
            || !self.message.is_valid() {
            return false;
        }
        let mut i: usize = 0;
        while i < self.gamma_vec.len()
            invariant
                i <= self.gamma_vec@.len(),
                forall|k: int| 0 <= k < i ==> (#[trigger] self.gamma_vec@[k]).wf(),
            decreases self.gamma_vec@.len() - i,
        {
            if !self.gamma_vec[i].is_valid() {
                return false;
            }
            i = i + 1;
        }
        let mut j: usize = 0;
        while j < self.sigma_vec.len()
            invariant
                j <= self.sigma_vec@.len(),
                forall|k: int| 0 <= k < j ==> (#[trigger] self.sigma_vec@[k]).wf(),
            decreases self.sigma_vec@.len() - j,
        {
            if !self.sigma_vec[j].is_valid() {
                return false;
            }
            j = j + 1;
        }
        true
    }

    /// Verifies the proof: every encoding is valid, the vectors agree in
    /// length, both signatures of every position are accepted for the
    /// difference `C'[i] - C[i]`, and the reserve commitment is the sum of the
    /// differences.
    ///
    /// A proof with an encoding that is not valid or with vectors that
    /// disagree in length is rejected with `MProveError`, one with a
    /// signature that is not accepted with `MProveSigsError`, and one whose
    /// signatures are accepted but whose reserve commitment is not the sum
    /// with `MProveError`.
    pub fn verify(&self) -> (r: Result<(), Errors>)
        ensures
            r is Ok <==> self.accepted(),
            r == Err::<(), Errors>(Errors::MProveSigsError) <==> self.wf() && self.consistent()
                && !self.signatures_verify(),
            r == Err::<(), Errors>(Errors::MProveError) <==> !self.wf() || !self.consistent() || (
            self.signatures_verify() && !self.reserve_matches()),
    {
        let n = self.P_vec.len();
        if !self.is_valid() {
            return Err(Errors::MProveError);
        }
        if self.C_vec.len() != n || self.C_prime_vec.len() != n || self.gamma_vec.len() != n
            || self.sigma_vec.len() != n {
            return Err(Errors::MProveError);
        }
        let mut sub_vec: Vec<Point> = Vec::new();
        let mut one_vec: Vec<Scalar> = Vec::new();
        let mut i: usize = 0;
        while i < n
            invariant
                i <= n,
                n == self.ring_size(),
                self.consistent(),
                self.wf(),
                sub_vec@.len() == i,
                one_vec@.len() == i,
                points_wf(sub_vec@),
                scalars_wf(one_vec@),
                forall|k: int| 0 <= k < i ==> (#[trigger] one_vec@[k])@ == 1,
                forall|k: int| 0 <= k < i ==> (#[trigger] sub_vec@[k])@ == self.differences()[k],
                forall|k: int| 0 <= k < i ==> #[trigger] self.verifies_at(k),
            decreases n - i,
        {
            let d = self.C_prime_vec[i].sub(&self.C_vec[i]);
            let mut pk_gamma: Vec<Point> = Vec::new();
            pk_gamma.push(self.C_prime_vec[i]);
            pk_gamma.push(d);
            let mut pk_sigma: Vec<Point> = Vec::new();
            pk_sigma.push(self.P_vec[i]);
            pk_sigma.push(d);
            assert(point_values(pk_gamma@) =~= seq![self.C_prime_vec@[i as int]@, d@]);
            assert(point_values(pk_sigma@) =~= seq![self.P_vec@[i as int]@, d@]);
            let ring_res = self.gamma_vec[i].ver_RingSig(self.message, pk_gamma.as_slice());
            let lsag_res = self.sigma_vec[i].ver_LSAG(self.message, pk_sigma.as_slice());
            proof {
                reveal(position_verifies);
            }
            if ring_res.is_err() || lsag_res.is_err() {
                assert(!self.verifies_at(i as int));
                return Err(Errors::MProveSigsError);
            }
            assert(self.verifies_at(i as int));
            sub_vec.push(d);
            one_vec.push(Scalar::one());
            i = i + 1;
        }
        let c_res_comp = Point::vartime_multiscalar_mul(one_vec.as_slice(), sub_vec.as_slice());
        proof {
            lemma_unit_combination(one_vec@, sub_vec@);
            assert(point_values(sub_vec@) =~= self.differences());
        }
        if c_res_comp.equals(&self.C_res) {
            Ok(())
        } else {
            Err(Errors::MProveError)
        }
    }
}

/// Position `i` of a proof made with a witness that fits is accepted, and
/// its difference is the point that the prover signed for.
proof fn lemma_proof_verifies_at(
    p: MProve,
    commitments: Seq<Point>,
    addresses: Seq<Point>,
    keys: Seq<Scalar>,
    bitmap: Seq<u64>,
    message: Point,
    nonces: Seq<PositionNonces>,
    i: int,
)
    requires
        points_wf(commitments),
        nonces_wf(nonces),
        commitments.len() == addresses.len(),
        nonces.len() == addresses.len(),
        witness_well_formed(1, addresses, keys, bitmap),
        p.proved_with(1, commitments, addresses, keys, bitmap, message, nonces),
        p.nonzero(),
        0 <= i < p.ring_size(),
    ensures
        p.verifies_at(i),
        p.differences()[i] == signed_difference(
            1,
            commitments[i]@,
            nonces[i].z@,
            is_owned(bitmap[i]),
        ),
{
    let c_prime = p.C_prime_vec@[i];
    let gamma = p.gamma_vec@[i];
    let sigma = p.sigma_vec@[i];
    let x = keys[owned_count(bitmap.take(i)) as int]@;
    assert(position_proved(
        c_prime@,
        gamma,
        sigma,
        message@,
        1,
        commitments[i]@,
        addresses[i]@,
        x,
        bitmap[i],
        nonces[i],
    ));
    assert(commitments[i].wf());
    assert(nonces[i].wf());
    assert(gamma.nonzero());
    assert(sigma.nonzero());
    assert(is_owned(bitmap[i]) ==> addresses[i]@ == x);
    lemma_position_verifies(
        c_prime@,
        gamma,
        sigma,
        message@,
        commitments[i]@,
        addresses[i]@,
        x,
        bitmap[i],
        nonces[i],
    );
}

/// A proof made for a statement with a witness that fits it is accepted,
/// unless one of the scalars of its signatures is 0.
pub proof fn lemma_proof_verifies(
    p: MProve,
    commitments: Seq<Point>,
    addresses: Seq<Point>,
    keys: Seq<Scalar>,
    bitmap: Seq<u64>,
    message: Point,
    nonces: Seq<PositionNonces>,
)
    requires
        points_wf(commitments),
        nonces_wf(nonces),
        commitments.len() == addresses.len(),
        nonces.len() == addresses.len(),
        witness_well_formed(1, addresses, keys, bitmap),
        p.proved_with(1, commitments, addresses, keys, bitmap, message, nonces),
        p.nonzero(),
    ensures
        p.verifies(),
{
    let signed = Seq::new(
        p.ring_size(),
        |i: int| signed_difference(1, commitments[i]@, nonces[i].z@, is_owned(bitmap[i])),
    );
    assert forall|i: int| 0 <= i < p.ring_size() implies #[trigger] p.verifies_at(i) by {
        lemma_proof_verifies_at(p, commitments, addresses, keys, bitmap, message, nonces, i);
    }
    assert forall|i: int| 0 <= i < p.ring_size() implies #[trigger] p.differences()[i]
        == signed[i] by {
        lemma_proof_verifies_at(p, commitments, addresses, keys, bitmap, message, nonces, i);
    }
    assert(p.differences() =~= signed);
}

/// A proof that is accepted is rejected once its reserve commitment alone is
/// replaced by another group element.
pub proof fn lemma_reserve_is_bound(p: MProve, q: MProve)
    requires
        p.verifies(),
        q.C_vec == p.C_vec,
        q.P_vec == p.P_vec,
        q.C_prime_vec == p.C_prime_vec,
        q.gamma_vec == p.gamma_vec,
        q.sigma_vec == p.sigma_vec,
        q.message == p.message,
        q.C_res@ != p.C_res@,
    ensures
        !q.verifies(),
        q.consistent() && q.signatures_verify() && !q.reserve_matches(),
{
    assert(q.differences() =~= p.differences());
    assert forall|i: int| 0 <= i < q.ring_size() implies #[trigger] q.verifies_at(i) by {
        assert(p.verifies_at(i));
    }
}

} // verus!
