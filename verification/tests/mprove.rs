use curve25519_dalek::constants::RISTRETTO_BASEPOINT_POINT;
use curve25519_dalek::ristretto::RistrettoPoint;
use curve25519_dalek::scalar::Scalar as DalekScalar;
use mprove_ristretto::point::Point;
use mprove_ristretto::proofs::mprove::{count_owned, MProve, PositionNonces};
use mprove_ristretto::scalar::Scalar;
use mprove_ristretto::Errors;
use rand::distributions::{Distribution, Uniform};
use rand::Rng;
use sha2::Sha512;
use std::time::Instant;

fn to_point(p: &RistrettoPoint) -> Point {
    Point::from_bytes(p.compress().to_bytes()).unwrap()
}

fn to_scalar(s: &DalekScalar) -> Scalar {
    Scalar::from_canonical_bytes(s.to_bytes()).unwrap()
}

fn dalek_scalar(s: &Scalar) -> DalekScalar {
    DalekScalar::from_canonical_bytes(s.to_bytes()).unwrap()
}

fn second_generator() -> RistrettoPoint {
    RistrettoPoint::hash_from_bytes::<Sha512>(RISTRETTO_BASEPOINT_POINT.compress().as_bytes())
}

/// A statement with the owned positions `owned` (increasing), and its witness.
struct Params {
    g: Point,
    c_vec: Vec<Point>,
    p_vec: Vec<Point>,
    x_vec: Vec<Scalar>,
    e_vec: Vec<u64>,
    r_vec: Vec<DalekScalar>,
    a_vec: Vec<DalekScalar>,
}

fn make_params(n: usize, owned: &[usize]) -> Params {
    let mut rng = rand::thread_rng();
    let g = RISTRETTO_BASEPOINT_POINT;
    let h = second_generator();
    let mut c_vec = Vec::new();
    let mut p_vec = Vec::new();
    let mut x_vec = Vec::new();
    let mut e_vec = Vec::new();
    let mut r_vec = Vec::new();
    let mut a_vec = Vec::new();
    let mut index = 0;
    for i in 0..n {
        if index < owned.len() && i == owned[index] {
            let a = DalekScalar::from(rng.gen::<u32>());
            let r = DalekScalar::random(&mut rng);
            let x = DalekScalar::random(&mut rng);
            c_vec.push(to_point(&(g * r + h * a)));
            p_vec.push(to_point(&(g * x)));
            x_vec.push(to_scalar(&x));
            r_vec.push(r);
            a_vec.push(a);
            e_vec.push(1);
            index += 1;
        } else {
            c_vec.push(to_point(&RistrettoPoint::random(&mut rng)));
            p_vec.push(to_point(&RistrettoPoint::random(&mut rng)));
            e_vec.push(0);
        }
    }
    assert_eq!(index, owned.len());
    Params { g: to_point(&g), c_vec, p_vec, x_vec, e_vec, r_vec, a_vec }
}

fn random_nonces(n: usize) -> Vec<PositionNonces> {
    (0..n).map(|_| PositionNonces::random()).collect()
}

fn test_mprove(n: usize, s: usize) {
    let mut rng = rand::thread_rng();

    // one owned position in each of `s` stretches of the ring
    let setsize = n / s;
    let mut start_idx = 0;
    let mut end_idx = std::cmp::max(1, setsize - 1);
    let idx = (0..s)
        .map(|_| {
            let dist1 = Uniform::from(start_idx..end_idx);
            start_idx = setsize + start_idx;
            end_idx = std::cmp::min(n - 1, end_idx + setsize);
            dist1.sample(&mut rng)
        })
        .collect::<Vec<usize>>();

    let params = make_params(n, &idx);

    println!("(n={}, s={})", n, s);
    let start = Instant::now();
    let mprove_sample =
        MProve::prove(&params.g, &params.c_vec, &params.p_vec, &params.x_vec, &params.e_vec);
    let duration = start.elapsed();
    println!("MProve gen time: {:?}", duration);

    let start = Instant::now();
    let result = mprove_sample.verify();
    let duration = start.elapsed();
    println!("MProve ver time: {:?}\n", duration);

    assert!(result.is_ok());
}

#[test]
fn sim_mprove() {
    test_mprove(1000, 100);
}

#[test]
fn small_simulations_verify() {
    test_mprove(20, 4);
    test_mprove(20, 16);
}

#[test]
fn smallest_proof_verifies_and_has_the_expected_reserve() {
    // n = 2, s = 1, E = [1, 0]
    let params = make_params(2, &[0]);
    assert_eq!(params.e_vec, vec![1, 0]);
    let nonces = random_nonces(2);
    let message = Point::random();
    let proof = MProve::prove_with(
        &params.g,
        &params.c_vec,
        &params.p_vec,
        &params.x_vec,
        &params.e_vec,
        message,
        &nonces,
    );
    assert_eq!(proof.verify(), Ok(()));
    // both signatures of both positions verify for the keys (C', C' - C) and (P, C' - C)
    for i in 0..2 {
        let d = to_point(&(dalek_point(&proof.C_prime_vec[i]) - dalek_point(&params.c_vec[i])));
        let pk_gamma = [proof.C_prime_vec[i], d];
        let pk_sigma = [params.p_vec[i], d];
        assert_eq!(proof.gamma_vec[i].ver_RingSig(message, &pk_gamma), Ok(()));
        assert_eq!(proof.sigma_vec[i].ver_LSAG(message, &pk_sigma), Ok(()));
    }

    // C_res = (z_0 - r_0)·G - a_0·H + z_1·G
    let z0 = dalek_scalar(&nonces[0].z);
    let z1 = dalek_scalar(&nonces[1].z);
    let g = RISTRETTO_BASEPOINT_POINT;
    let expected = g * (z0 - params.r_vec[0]) - second_generator() * params.a_vec[0] + g * z1;
    assert_eq!(proof.C_res.to_bytes(), expected.compress().to_bytes());
}

fn dalek_point(p: &Point) -> RistrettoPoint {
    curve25519_dalek::ristretto::CompressedRistretto(p.to_bytes()).decompress().unwrap()
}

#[test]
fn proof_with_every_position_owned_verifies() {
    // n = 4, s = 4
    let params = make_params(4, &[0, 1, 2, 3]);
    let proof =
        MProve::prove(&params.g, &params.c_vec, &params.p_vec, &params.x_vec, &params.e_vec);
    assert_eq!(proof.verify(), Ok(()));
    // on the owned branch the linkable signature carries the key image of
    // the address key
    for i in 0..4 {
        let h = RistrettoPoint::hash_from_bytes::<sha3::Keccak512>(&params.p_vec[i].to_bytes());
        let image = h * dalek_scalar(&params.x_vec[i]);
        assert_eq!(proof.sigma_vec[i].I.to_bytes(), image.compress().to_bytes());
    }
}

#[test]
fn proof_with_no_position_owned_verifies_and_sums_the_blinding_factors() {
    // n = 4, s = 0: C_res = Σ z_i · G
    let params = make_params(4, &[]);
    assert!(params.x_vec.is_empty());
    let nonces = random_nonces(4);
    let proof = MProve::prove_with(
        &params.g,
        &params.c_vec,
        &params.p_vec,
        &params.x_vec,
        &params.e_vec,
        Point::random(),
        &nonces,
    );
    assert_eq!(proof.verify(), Ok(()));
    let z_sum: DalekScalar = nonces.iter().map(|nz| dalek_scalar(&nz.z)).sum();
    let expected = RISTRETTO_BASEPOINT_POINT * z_sum;
    assert_eq!(proof.C_res.to_bytes(), expected.compress().to_bytes());
    for i in 0..4 {
        let zi_g = RISTRETTO_BASEPOINT_POINT * dalek_scalar(&nonces[i].z);
        let c_prime = zi_g + dalek_point(&params.c_vec[i]);
        assert_eq!(proof.C_prime_vec[i].to_bytes(), c_prime.compress().to_bytes());
    }
}

#[test]
fn replaced_auxiliary_commitment_is_rejected_as_a_signature_failure() {
    // (n, s) = (8, 3)
    let params = make_params(8, &[1, 4, 6]);
    let mut proof =
        MProve::prove(&params.g, &params.c_vec, &params.p_vec, &params.x_vec, &params.e_vec);
    assert_eq!(proof.verify(), Ok(()));
    proof.C_prime_vec[0] = Point::random();
    assert_eq!(proof.verify(), Err(Errors::MProveSigsError));
}

#[test]
fn replaced_reserve_commitment_is_rejected() {
    let params = make_params(5, &[0, 3]);
    let mut proof =
        MProve::prove(&params.g, &params.c_vec, &params.p_vec, &params.x_vec, &params.e_vec);
    assert_eq!(proof.verify(), Ok(()));
    let good = proof.C_res;
    proof.C_res = Point::random();
    assert_eq!(proof.verify(), Err(Errors::MProveError));
    proof.C_res = good.add(&Point::basepoint());
    assert_eq!(proof.verify(), Err(Errors::MProveError));
    proof.C_res = good;
    assert_eq!(proof.verify(), Ok(()));
}

#[test]
fn reserve_commitment_is_the_sum_of_the_differences() {
    let params = make_params(6, &[2, 5]);
    let proof =
        MProve::prove(&params.g, &params.c_vec, &params.p_vec, &params.x_vec, &params.e_vec);
    let mut sum = RistrettoPoint::default();
    for i in 0..6 {
        sum += dalek_point(&proof.C_prime_vec[i]) - dalek_point(&proof.C_vec[i]);
    }
    assert_eq!(proof.C_res.to_bytes(), sum.compress().to_bytes());
}

#[test]
fn proofs_sharing_an_owned_key_expose_the_same_key_image() {
    let a = make_params(6, &[3]);
    let mut b = make_params(6, &[3]);
    // the second statement owns the same address with the same key
    b.p_vec[3] = a.p_vec[3];
    b.x_vec[0] = a.x_vec[0];
    let proof_a = MProve::prove(&a.g, &a.c_vec, &a.p_vec, &a.x_vec, &a.e_vec);
    let proof_b = MProve::prove(&b.g, &b.c_vec, &b.p_vec, &b.x_vec, &b.e_vec);
    assert_eq!(proof_a.verify(), Ok(()));
    assert_eq!(proof_b.verify(), Ok(()));
    assert_eq!(proof_a.sigma_vec[3].I.to_bytes(), proof_b.sigma_vec[3].I.to_bytes());
    // positions signed with a blinding factor do not link
    assert_ne!(proof_a.sigma_vec[0].I.to_bytes(), proof_b.sigma_vec[0].I.to_bytes());
    // the key image is x times the point to which the address is hashed
    let h = RistrettoPoint::hash_from_bytes::<sha3::Keccak512>(&a.p_vec[3].to_bytes());
    let image = h * dalek_scalar(&a.x_vec[0]);
    assert_eq!(proof_a.sigma_vec[3].I.to_bytes(), image.compress().to_bytes());
}

#[test]
fn proof_with_vectors_of_different_length_is_rejected() {
    let params = make_params(3, &[1]);
    let proof =
        MProve::prove(&params.g, &params.c_vec, &params.p_vec, &params.x_vec, &params.e_vec);
    let mut short = proof.clone();
    short.C_prime_vec.pop();
    assert_eq!(short.verify(), Err(Errors::MProveError));
    let mut short = proof.clone();
    short.gamma_vec.pop();
    assert_eq!(short.verify(), Err(Errors::MProveError));
    let mut short = proof.clone();
    short.sigma_vec.pop();
    assert_eq!(short.verify(), Err(Errors::MProveError));
    let mut short = proof.clone();
    short.C_vec.pop();
    assert_eq!(short.verify(), Err(Errors::MProveError));
}

#[test]
fn empty_proof_is_accepted_with_the_identity_as_reserve() {
    let g = Point::basepoint();
    let proof = MProve::prove(&g, &[], &[], &[], &[]);
    assert_eq!(proof.C_res.to_bytes(), [0u8; 32]);
    assert_eq!(proof.verify(), Ok(()));
}

#[test]
fn swapped_signatures_are_rejected() {
    let params = make_params(4, &[0, 2]);
    let mut proof =
        MProve::prove(&params.g, &params.c_vec, &params.p_vec, &params.x_vec, &params.e_vec);
    proof.gamma_vec.swap(0, 1);
    assert_eq!(proof.verify(), Err(Errors::MProveSigsError));
}

#[test]
fn proving_is_determined_by_the_message_and_the_nonces() {
    let params = make_params(3, &[1]);
    let nonces = random_nonces(3);
    let message = Point::random();
    let one = MProve::prove_with(
        &params.g,
        &params.c_vec,
        &params.p_vec,
        &params.x_vec,
        &params.e_vec,
        message,
        &nonces,
    );
    let two = MProve::prove_with(
        &params.g,
        &params.c_vec,
        &params.p_vec,
        &params.x_vec,
        &params.e_vec,
        message,
        &nonces,
    );
    assert_eq!(one.C_res.to_bytes(), two.C_res.to_bytes());
    assert_eq!(one.message.to_bytes(), message.to_bytes());
    for i in 0..3 {
        assert_eq!(one.C_vec[i].to_bytes(), params.c_vec[i].to_bytes());
        assert_eq!(one.P_vec[i].to_bytes(), params.p_vec[i].to_bytes());
        assert_eq!(one.C_prime_vec[i].to_bytes(), two.C_prime_vec[i].to_bytes());
        assert_eq!(one.gamma_vec[i].c.to_bytes(), two.gamma_vec[i].c.to_bytes());
        assert_eq!(one.sigma_vec[i].c.to_bytes(), two.sigma_vec[i].c.to_bytes());
        assert_eq!(one.sigma_vec[i].I.to_bytes(), two.sigma_vec[i].I.to_bytes());
        for j in 0..2 {
            assert_eq!(one.gamma_vec[i].s_vec[j].to_bytes(), two.gamma_vec[i].s_vec[j].to_bytes());
            assert_eq!(one.sigma_vec[i].s_vec[j].to_bytes(), two.sigma_vec[i].s_vec[j].to_bytes());
        }
    }
    // the response of the key that does not sign is the one handed in
    assert_eq!(one.gamma_vec[1].s_vec[1].to_bytes(), nonces[1].gamma_s.to_bytes());
    assert_eq!(one.gamma_vec[0].s_vec[0].to_bytes(), nonces[0].gamma_s.to_bytes());
    assert_eq!(one.sigma_vec[1].s_vec[1].to_bytes(), nonces[1].sigma_s.to_bytes());
    assert_eq!(one.sigma_vec[0].s_vec[0].to_bytes(), nonces[0].sigma_s.to_bytes());
}

#[test]
fn only_the_lowest_bit_of_a_bitmap_entry_counts() {
    let mut params = make_params(3, &[0, 2]);
    params.e_vec = vec![7, 4, 1];
    let proof =
        MProve::prove(&params.g, &params.c_vec, &params.p_vec, &params.x_vec, &params.e_vec);
    assert_eq!(proof.verify(), Ok(()));
}

#[test]
fn generated_parameters_fit_together() {
    for &(n, s) in [(2usize, 1usize), (4, 4), (4, 0), (8, 3), (1, 1), (0, 0)].iter()
    {
        let (g, c_vec, p_vec, x_vec, e_vec) = MProve::gen_params(n, s);
        assert_eq!(g.to_bytes(), RISTRETTO_BASEPOINT_POINT.compress().to_bytes());
        assert_eq!(c_vec.len(), n);
        assert_eq!(p_vec.len(), n);
        assert_eq!(e_vec.len(), n);
        assert_eq!(x_vec.len(), s);
        assert!(e_vec.iter().all(|&e| e <= 1));
        assert_eq!(e_vec.iter().filter(|&&e| e == 1).count(), s);
        let mut index = 0;
        for i in 0..n {
            if e_vec[i] == 1 {
                let public = RISTRETTO_BASEPOINT_POINT * dalek_scalar(&x_vec[index]);
                assert_eq!(p_vec[i].to_bytes(), public.compress().to_bytes());
                index += 1;
            }
        }
        let proof = MProve::prove(&g, &c_vec, &p_vec, &x_vec, &e_vec);
        assert_eq!(proof.verify(), Ok(()));
    }
}

#[test]
fn proof_with_an_invalid_encoding_is_rejected() {
    let params = make_params(3, &[1]);
    let proof =
        MProve::prove(&params.g, &params.c_vec, &params.p_vec, &params.x_vec, &params.e_vec);
    assert!(proof.is_valid());
    let not_a_point = Point { bytes: [0xff; 32] };
    let not_a_scalar = Scalar { bytes: [0xff; 32] };

    let mut bad = proof.clone();
    bad.C_res = not_a_point;
    assert!(!bad.is_valid());
    assert_eq!(bad.verify(), Err(Errors::MProveError));
    let mut bad = proof.clone();
    bad.message = not_a_point;
    assert_eq!(bad.verify(), Err(Errors::MProveError));
    let mut bad = proof.clone();
    bad.C_vec[2] = not_a_point;
    assert_eq!(bad.verify(), Err(Errors::MProveError));
    let mut bad = proof.clone();
    bad.P_vec[0] = not_a_point;
    assert_eq!(bad.verify(), Err(Errors::MProveError));
    let mut bad = proof.clone();
    bad.C_prime_vec[1] = not_a_point;
    assert_eq!(bad.verify(), Err(Errors::MProveError));
    let mut bad = proof.clone();
    bad.gamma_vec[0].s_vec[1] = not_a_scalar;
    assert!(!bad.is_valid());
    assert_eq!(bad.verify(), Err(Errors::MProveError));
    let mut bad = proof.clone();
    bad.sigma_vec[2].c = not_a_scalar;
    assert_eq!(bad.verify(), Err(Errors::MProveError));
    let mut bad = proof.clone();
    bad.sigma_vec[1].I = not_a_point;
    assert_eq!(bad.verify(), Err(Errors::MProveError));

    assert_eq!(proof.verify(), Ok(()));
}

#[test]
fn replaced_address_is_rejected_as_a_signature_failure() {
    let params = make_params(4, &[0, 3]);
    let mut proof =
        MProve::prove(&params.g, &params.c_vec, &params.p_vec, &params.x_vec, &params.e_vec);
    proof.P_vec[3] = Point::random();
    assert_eq!(proof.verify(), Err(Errors::MProveSigsError));
}

#[test]
fn owned_positions_are_counted_by_their_lowest_bit() {
    assert_eq!(count_owned(&[]), 0);
    assert_eq!(count_owned(&[0, 0]), 0);
    assert_eq!(count_owned(&[1, 0, 1]), 2);
    assert_eq!(count_owned(&[1, 0, 3, 4, 5, u64::MAX, u64::MAX - 1]), 4);
}

#[test]
fn inputs_that_do_not_fit_are_refused() {
    let params = make_params(4, &[1, 2]);
    let Params { g, c_vec, p_vec, x_vec, e_vec, .. } = params;
    let proof = MProve::try_prove(&g, &c_vec, &p_vec, &x_vec, &e_vec).unwrap();
    assert_eq!(proof.verify(), Ok(()));

    // a key too few, a key too many
    assert!(MProve::try_prove(&g, &c_vec, &p_vec, &x_vec[..1], &e_vec).is_none());
    let mut more = x_vec.clone();
    more.push(Scalar::random());
    assert!(MProve::try_prove(&g, &c_vec, &p_vec, &more, &e_vec).is_none());
    // rings of different length
    assert!(MProve::try_prove(&g, &c_vec[..3], &p_vec, &x_vec, &e_vec).is_none());
    assert!(MProve::try_prove(&g, &c_vec, &p_vec[..3], &x_vec, &e_vec).is_none());
    assert!(MProve::try_prove(&g, &c_vec, &p_vec, &x_vec, &e_vec[..3]).is_none());
    // encodings that are not valid
    let not_a_point = Point { bytes: [0xff; 32] };
    let not_a_scalar = Scalar { bytes: [0xff; 32] };
    assert!(MProve::try_prove(&not_a_point, &c_vec, &p_vec, &x_vec, &e_vec).is_none());
    let mut bad = c_vec.clone();
    bad[0] = not_a_point;
    assert!(MProve::try_prove(&g, &bad, &p_vec, &x_vec, &e_vec).is_none());
    let mut bad = p_vec.clone();
    bad[3] = not_a_point;
    assert!(MProve::try_prove(&g, &c_vec, &bad, &x_vec, &e_vec).is_none());
    let mut bad = x_vec.clone();
    bad[1] = not_a_scalar;
    assert!(MProve::try_prove(&g, &c_vec, &p_vec, &bad, &e_vec).is_none());
}

#[test]
fn proof_for_a_witness_that_does_not_fit_is_rejected() {
    // the key of the owned position is not the key of its address
    let mut params = make_params(3, &[1]);
    params.x_vec[0] = Scalar::random();
    let proof =
        MProve::prove(&params.g, &params.c_vec, &params.p_vec, &params.x_vec, &params.e_vec);
    assert_eq!(proof.verify(), Err(Errors::MProveSigsError));
    // another generator than the basepoint
    let params = make_params(3, &[1]);
    let g = Point::random();
    let proof = MProve::prove(&g, &params.c_vec, &params.p_vec, &params.x_vec, &params.e_vec);
    assert_eq!(proof.verify(), Err(Errors::MProveSigsError));
}
