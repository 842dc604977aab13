use pvss_core::polling::interpolate::{interpolate_g1, interpolate_scalar, lagrange_coefficients_at_zero, InterpolationError};
use pvss_core::polling::nizk_commit_or::{
    prove_nizk_pedersen_or_relation_one, prove_nizk_pedersen_or_relation_zero, verify_nizk_pedersen_or_relation,
    ZkInstancePedersenOr, ZkWitnessPedersenOr,
};
use pvss_core::polling::nizk_commit_zero::{
    prove_nizk_pedersen_zero, prove_nizk_pedersen_zero_with_nonce, verify_nizk_pedersen_zero, ZkInstancePedersenZero,
    ZkWitnessPedersenZero,
};
use pvss_core::polling::polynomial::Polynomial;
use pvss_core::polling::public_evals::PublicEvals;
use pvss_core::polling::serde_types::{bytes_to_ristretto_point, bytes_to_scalar, compute_ibe_identity};
use pvss_core::polling::share_commitment::{compute_commited_shares, pedersen_commit};
use pvss_core::polling::vote::{create_vote, create_vote_with, verify_vote, verify_vote_sum, ChoiceRandomness};
use pvss_core::polling::ZkProofError;
use pvss_core::ristretto::{pedersen_gens, Point, Scalar};
use rand::rngs::StdRng;
use rand::SeedableRng;

fn evaluate_integer_polynomial(x: u32, polynomial: &[u32]) -> u32 {
    let mut ans = 0u32;
    let mut power = 1u32;
    for coefficient in polynomial {
        ans += power * coefficient;
        power *= x;
    }
    ans
}

fn uint_to_g1(num: u32) -> Point {
    Point::mul_base(&Scalar::from_u64(num as u64))
}

fn fresh() -> StdRng {
    StdRng::from_entropy()
}

fn rng() -> StdRng {
    StdRng::seed_from_u64(7)
}

#[test]
fn test_g1_interpolation_is_correct() {
    let polynomial = [2, 4, 9];
    let x_5 = (Scalar::from_u64(5), uint_to_g1(evaluate_integer_polynomial(5, &polynomial)));
    let x_3 = (Scalar::from_u64(3), uint_to_g1(evaluate_integer_polynomial(3, &polynomial)));
    let x_8 = (Scalar::from_u64(8), uint_to_g1(evaluate_integer_polynomial(8, &polynomial)));

    let random_points = [x_5, x_3, x_8];
    let interpolated_polynomial_at_0 = interpolate_g1(&random_points).expect("Failed to interpolate");
    assert!(interpolated_polynomial_at_0.equals(&uint_to_g1(2)));
}

#[test]
fn test_scalar_interpolation_is_correct() {
    let polynomial = [2, 4, 9];
    let x_5 = (Scalar::from_u64(5), Scalar::from_u64(evaluate_integer_polynomial(5, &polynomial) as u64));
    let x_3 = (Scalar::from_u64(3), Scalar::from_u64(evaluate_integer_polynomial(3, &polynomial) as u64));
    let x_8 = (Scalar::from_u64(8), Scalar::from_u64(evaluate_integer_polynomial(8, &polynomial) as u64));

    let random_points = [x_5, x_3, x_8];
    let interpolated_polynomial_at_0 = interpolate_scalar(&random_points).expect("Failed to interpolate");
    assert!(interpolated_polynomial_at_0.equals(&Scalar::from_u64(2)));
}

#[test]
fn interpolation_rejects_duplicate_points() {
    let samples = [
        (Scalar::from_u64(3), Scalar::from_u64(1)),
        (Scalar::from_u64(4), Scalar::from_u64(2)),
        (Scalar::from_u64(3), Scalar::from_u64(5)),
    ];
    assert_eq!(interpolate_scalar(&samples).unwrap_err(), InterpolationError::DuplicateX);
    let xs = [Scalar::from_u64(9), Scalar::from_u64(9)];
    assert_eq!(lagrange_coefficients_at_zero(&xs).unwrap_err(), InterpolationError::DuplicateX);
}

#[test]
fn lagrange_coefficients_small_cases() {
    assert_eq!(lagrange_coefficients_at_zero(&[]).unwrap().len(), 0);
    let one = lagrange_coefficients_at_zero(&[Scalar::from_u64(17)]).unwrap();
    assert!(one[0].equals(&Scalar::one()));
    // points 1 and 2: w_1 = 2 / (2 - 1) = 2, w_2 = 1 / (1 - 2) = -1
    let w = lagrange_coefficients_at_zero(&[Scalar::from_u64(1), Scalar::from_u64(2)]).unwrap();
    assert!(w[0].equals(&Scalar::from_u64(2)));
    assert!(w[1].equals(&Scalar::one().neg()));
}

#[test]
fn polynomial_evaluation_and_trimming() {
    let p = Polynomial::from_coefficients(vec![
        Scalar::from_u64(2),
        Scalar::from_u64(4),
        Scalar::from_u64(9),
        Scalar::zero(),
        Scalar::zero(),
    ]);
    assert_eq!(p.coefficients.len(), 3);
    assert!(p.evaluate_at(&Scalar::from_u64(3)).equals(&Scalar::from_u64(2 + 12 + 81)));
    let evals = p.get_n_evals(3);
    assert!(evals[0].equals(&Scalar::from_u64(15)));
    assert!(evals[1].equals(&Scalar::from_u64(2 + 8 + 36)));
    assert!(evals[2].equals(&Scalar::from_u64(2 + 12 + 81)));
    assert!(Polynomial::zero().evaluate_at(&Scalar::from_u64(5)).is_zero());
    assert!(Polynomial::random(4, &mut fresh()).coefficients.len() <= 4);
}

#[test]
fn scalar_and_point_arithmetic() {
    let a = Scalar::from_u64(6);
    let b = Scalar::from_u64(7);
    assert!(a.add(&b).equals(&Scalar::from_u64(13)));
    assert!(b.sub(&a).equals(&Scalar::one()));
    assert!(a.mul(&b).equals(&Scalar::from_u64(42)));
    assert!(a.mul(&a.invert()).equals(&Scalar::one()));
    assert!(a.add(&a.neg()).is_zero());
    let h1 = Scalar::hash_from_bytes(&vec![1, 2, 3]);
    let h2 = Scalar::hash_from_bytes(&vec![1, 2, 3]);
    let h3 = Scalar::hash_from_bytes(&vec![1, 2, 4]);
    assert!(h1.equals(&h2));
    assert!(!h1.equals(&h3));
    let g = Point::mul_base(&Scalar::one());
    assert!(g.add(&g).equals(&Point::mul_base(&Scalar::from_u64(2))));
    assert!(g.mul(&a).equals(&Point::mul_base(&a)));
    assert!(g.sub(&g).is_identity());
    let m = Point::multiscalar_mul(&vec![a, b], &vec![g, g]);
    assert!(m.equals(&Point::mul_base(&Scalar::from_u64(13))));
    let mut bytes = [0u8; 32];
    bytes[0] = 5;
    assert!(Scalar::from_bytes_mod_order(bytes).equals(&Scalar::from_u64(5)));
    assert_eq!(Scalar::from_u64(5).to_bytes(), bytes);
}

fn zero_instance() -> (ZkInstancePedersenZero, Scalar) {
    let mut rng = rng();
    let r = Scalar::random(&mut rng);
    let (g, h) = pedersen_gens();
    let commitment = pedersen_commit(&Scalar::zero(), &r);
    (ZkInstancePedersenZero { g, h, commitment }, r)
}

#[test]
fn nizk_should_verify() {
    let (instance, r) = zero_instance();
    let witness = ZkWitnessPedersenZero { commitment_r: r };
    let nizk_proof = prove_nizk_pedersen_zero(&instance, &witness, &mut fresh()).unwrap();
    assert_eq!(Ok(()), verify_nizk_pedersen_zero(&instance, &nizk_proof), "verify_nizk_pedersen_zero verifies NIZK proof");
}

#[test]
fn nizk_commit_zero_prover_should_panic_on_invalid_instance() {
    let (instance, r) = zero_instance();
    let bad = ZkInstancePedersenZero { g: instance.g, h: Point::identity(), commitment: instance.commitment };
    let witness = ZkWitnessPedersenZero { commitment_r: r };
    assert!(prove_nizk_pedersen_zero(&bad, &witness, &mut fresh()).is_err());
}

#[test]
fn nizk_should_fail_on_invalid_proof() {
    let (instance, r) = zero_instance();
    let witness = ZkWitnessPedersenZero { commitment_r: r };
    let mut invalid = prove_nizk_pedersen_zero(&instance, &witness, &mut fresh()).unwrap();
    invalid.z = Scalar::random(&mut StdRng::seed_from_u64(99));
    assert!(verify_nizk_pedersen_zero(&instance, &invalid).is_err());
}

#[test]
fn zero_proof_with_fixed_nonce_round_trips_and_rejects_wrong_opening() {
    let (instance, r) = zero_instance();
    let alpha = Scalar::from_u64(123456789);
    let proof = prove_nizk_pedersen_zero_with_nonce(&instance, &ZkWitnessPedersenZero { commitment_r: r }, &alpha).unwrap();
    assert_eq!(verify_nizk_pedersen_zero(&instance, &proof), Ok(()));
    let wrong = prove_nizk_pedersen_zero_with_nonce(
        &instance,
        &ZkWitnessPedersenZero { commitment_r: r.add(&Scalar::one()) },
        &alpha,
    )
    .unwrap();
    assert_eq!(verify_nizk_pedersen_zero(&instance, &wrong), Err(ZkProofError::InvalidProof));
    let bad = ZkInstancePedersenZero { g: instance.g, h: instance.h, commitment: Point::identity() };
    assert_eq!(verify_nizk_pedersen_zero(&bad, &proof), Err(ZkProofError::InvalidInstance));
}

fn or_instance(m: u64) -> (ZkInstancePedersenOr, Scalar) {
    let mut rng = StdRng::seed_from_u64(11 + m);
    let r = Scalar::random(&mut rng);
    let (g, h) = pedersen_gens();
    let c = pedersen_commit(&Scalar::from_u64(m), &r);
    let d = c.sub(&g);
    (ZkInstancePedersenOr { g, h, c, d }, r)
}

#[test]
fn nizk_should_verify_zero() {
    let (instance, r) = or_instance(0);
    let witness = ZkWitnessPedersenOr { r };
    let proof = prove_nizk_pedersen_or_relation_zero(&instance, &witness, &mut fresh()).unwrap();
    assert_eq!(Ok(()), verify_nizk_pedersen_or_relation(&instance, &proof));
}

#[test]
fn nizk_should_verify_one() {
    let (instance, r) = or_instance(1);
    let witness = ZkWitnessPedersenOr { r };
    let proof = prove_nizk_pedersen_or_relation_one(&instance, &witness, &mut fresh()).unwrap();
    assert_eq!(Ok(()), verify_nizk_pedersen_or_relation(&instance, &proof));
}

#[test]
fn nizk_commit_or_prover_should_panic_on_invalid_instance() {
    let (instance, r) = or_instance(0);
    let bad = ZkInstancePedersenOr { g: instance.g, h: Point::identity(), c: instance.c, d: instance.d };
    let witness = ZkWitnessPedersenOr { r };
    assert!(prove_nizk_pedersen_or_relation_one(&bad, &witness, &mut fresh()).is_err());
    assert!(prove_nizk_pedersen_or_relation_zero(&bad, &witness, &mut fresh()).is_err());
}

#[test]
fn nizk_should_fail_on_invalid_proof_a() {
    let (instance, r) = or_instance(1);
    let witness = ZkWitnessPedersenOr { r };
    let invalid = prove_nizk_pedersen_or_relation_zero(&instance, &witness, &mut fresh()).unwrap();
    assert_eq!(Err(ZkProofError::InvalidProof), verify_nizk_pedersen_or_relation(&instance, &invalid));
}

#[test]
fn nizk_should_fail_on_invalid_proof_b() {
    let (instance, r) = or_instance(0);
    let witness = ZkWitnessPedersenOr { r };
    let invalid = prove_nizk_pedersen_or_relation_one(&instance, &witness, &mut fresh()).unwrap();
    assert_eq!(Err(ZkProofError::InvalidProof), verify_nizk_pedersen_or_relation(&instance, &invalid));
}

#[test]
fn or_proof_for_message_two_is_rejected() {
    let (instance, r) = or_instance(2);
    let witness = ZkWitnessPedersenOr { r };
    let p0 = prove_nizk_pedersen_or_relation_zero(&instance, &witness, &mut fresh()).unwrap();
    let p1 = prove_nizk_pedersen_or_relation_one(&instance, &witness, &mut fresh()).unwrap();
    assert!(verify_nizk_pedersen_or_relation(&instance, &p0).is_err());
    assert!(verify_nizk_pedersen_or_relation(&instance, &p1).is_err());
}

#[test]
fn test_low_deg_test() {
    let g = Point::mul_base(&Scalar::one());
    let n = 5;
    let t = 3;

    let poly = Polynomial::random(t as usize, &mut fresh());
    let evals: Vec<Scalar> = (0..n + 1).map(|i| poly.evaluate_at(&Scalar::from_u64(i as u64))).collect();
    let public_evals = PublicEvals::from_evals(&evals, &g);
    assert!(public_evals.perform_low_degree_test(n, t, &mut fresh()));

    let poly_high_deg = Polynomial::random((t + 1) as usize, &mut fresh());
    let evals_high_deg: Vec<Scalar> = (0..n).map(|i| poly_high_deg.evaluate_at(&Scalar::from_u64(i as u64))).collect();
    let public_evals_high_deg = PublicEvals::from_evals(&evals_high_deg, &g);
    assert!(!public_evals_high_deg.perform_low_degree_test(n, t, &mut fresh()));
}

fn random_evals_fail(seed: u64, trials: usize) {
    let (g, _h) = pedersen_gens();
    let mut rng = StdRng::seed_from_u64(seed);
    for _ in 0..trials {
        let random: Vec<Scalar> = (0..21).map(|_| Scalar::random(&mut rng)).collect();
        let pe = PublicEvals::from_evals(&random, &g);
        assert!(!pe.perform_low_degree_test(20, 10, &mut fresh()));
    }
}

#[test]
fn low_degree_test_twenty_commitments() {
    // genuine degree-9 polynomial, evaluated at 0..=20, threshold 10
    let (g, _h) = pedersen_gens();
    let poly = Polynomial::from_coefficients((0..10).map(|i| Scalar::from_u64(3 * i + 1)).collect());
    let evals: Vec<Scalar> = (0..21).map(|i| poly.evaluate_at(&Scalar::from_u64(i))).collect();
    let genuine = PublicEvals::from_evals(&evals, &g);
    for _ in 0..5 {
        assert!(genuine.perform_low_degree_test(20, 10, &mut fresh()));
    }
    random_evals_fail(3, 25);
}

#[test]
fn low_degree_test_random_values_fail_a() {
    random_evals_fail(4, 25);
}

#[test]
fn low_degree_test_random_values_fail_b() {
    random_evals_fail(5, 25);
}

#[test]
fn low_degree_test_random_values_fail_c() {
    random_evals_fail(6, 25);
}

#[test]
fn low_degree_test_with_precomputed_codeword() {
    let g = Point::mul_base(&Scalar::one());
    let poly = Polynomial::from_coefficients(vec![Scalar::from_u64(5), Scalar::from_u64(1)]);
    let evals: Vec<Scalar> = (0..7).map(|i| poly.evaluate_at(&Scalar::from_u64(i))).collect();
    let pe = PublicEvals::from_evals_parallelized(&evals, &g);
    assert!(pe.equals(&PublicEvals::from_evals(&evals, &g)));
    let cw = PublicEvals::get_dual_codeword(1, 6, &mut fresh());
    assert_eq!(cw.len(), 6);
    assert!(pe.perform_low_degree_test_with_precomputation(6, 2, &cw));
    let short = vec![cw[0]];
    assert!(!pe.perform_low_degree_test_with_precomputation(6, 2, &short));
    assert!(pe.perform_low_degree_test_with_precomputation(6, 6, &short));
}

#[test]
fn linear_combinations_of_public_evals() {
    let g = Point::mul_base(&Scalar::one());
    let a = PublicEvals::from_evals(&vec![Scalar::from_u64(1), Scalar::from_u64(2)], &g);
    let b = PublicEvals::from_evals(&vec![Scalar::from_u64(10), Scalar::from_u64(20)], &g);
    let sum = a.duplicate().add(&b);
    assert!(sum.equals(&PublicEvals::from_evals(&vec![Scalar::from_u64(11), Scalar::from_u64(22)], &g)));
    let tripled = b.mul(Scalar::from_u64(3));
    assert!(tripled.equals(&PublicEvals::from_evals(&vec![Scalar::from_u64(30), Scalar::from_u64(60)], &g)));
    let mut acc = a.duplicate();
    acc.add_assign(&tripled);
    let mut c = a.duplicate();
    c.add_linear_combination_with_coeff(&b, Scalar::from_u64(3));
    assert!(c.equals(&acc));
    assert!(c.equals(&PublicEvals::from_evals(&vec![Scalar::from_u64(31), Scalar::from_u64(62)], &g)));
    let many = PublicEvals::linear_combination_of_many(&[a.duplicate(), b.duplicate()], &[Scalar::from_u64(2), Scalar::one()]);
    assert!(many.equals(&PublicEvals::from_evals(&vec![Scalar::from_u64(12), Scalar::from_u64(24)], &g)));
    let mut rng = rng();
    let mut d = a.duplicate();
    let r = d.add_random_linear_combination(&b, &mut rng);
    let expected = PublicEvals::from_evals(
        &vec![Scalar::from_u64(1).add(&Scalar::from_u64(10).mul(&r)), Scalar::from_u64(2).add(&Scalar::from_u64(20).mul(&r))],
        &g,
    );
    assert!(d.equals(&expected));
    let mut e = a.duplicate();
    let rs = e.add_random_linear_combination_many(&[b.duplicate()], &mut rng);
    assert_eq!(rs.len(), 1);
    let mut e2 = a.duplicate();
    e2.add_linear_combination_with_coeff(&b, rs[0]);
    assert!(e.equals(&e2));
}

#[test]
fn committed_shares_open_and_lie_on_a_polynomial() {
    let (g, _h) = pedersen_gens();
    let x = Scalar::one();
    let (r, xs, rs, comms) = compute_commited_shares(&x, 6, 3, &mut fresh());
    assert_eq!(xs.len(), 6);
    assert_eq!(rs.len(), 6);
    assert_eq!(comms.len(), 7);
    assert!(comms[0].equals(&pedersen_commit(&x, &r)));
    for i in 0..6 {
        assert!(comms[i + 1].equals(&pedersen_commit(&xs[i], &rs[i])));
    }
    let samples: Vec<(Scalar, Scalar)> = (0..3).map(|i| (Scalar::from_u64(i as u64 + 1), xs[i])).collect();
    assert!(interpolate_scalar(&samples).unwrap().equals(&x));
    let pe = PublicEvals { g, evals: comms };
    assert!(pe.perform_low_degree_test(6, 3, &mut fresh()));
}

#[test]
fn vote_one_hot_opens_to_one() {
    for k in 1..4 {
        for chosen in 0..k {
            let mut answers = vec![0u16; k];
            answers[chosen] = 1;
            let vote = create_vote(&answers, 4, 2, &mut fresh()).unwrap();
            assert!(verify_vote_sum(&vote));
            assert!(verify_vote(&vote));
            assert_eq!(vote.shares.len(), 4 * k);
        }
    }
}

#[test]
fn vote_all_zero_or_multi_hot_fails() {
    let vote = create_vote(&vec![0u16, 0, 0], 4, 2, &mut fresh()).unwrap();
    assert!(!verify_vote_sum(&vote));
    assert!(!verify_vote(&vote));
    let vote = create_vote(&vec![1u16, 1, 0], 4, 2, &mut fresh()).unwrap();
    assert!(!verify_vote_sum(&vote));
    assert!(!verify_vote(&vote));
}

#[test]
fn deserializing_points_and_scalars() {
    let p = Point::mul_base(&Scalar::from_u64(77));
    let bytes = p.to_bytes().to_vec();
    assert!(bytes_to_ristretto_point(&bytes).unwrap().equals(&p));
    assert!(bytes_to_ristretto_point(&vec![1u8; 31]).is_err());
    assert!(bytes_to_ristretto_point(&vec![0xffu8; 32]).is_err());
    let mut sb = vec![0u8; 32];
    sb[1] = 1;
    assert!(bytes_to_scalar(&sb).unwrap().equals(&Scalar::from_u64(256)));
    assert!(bytes_to_scalar(&vec![0u8; 33]).is_err());
}

#[test]
fn ibe_identity_layout() {
    let p = Point::mul_base(&Scalar::from_u64(3));
    let id = compute_ibe_identity(&p, 10, 0x0102);
    assert_eq!(id.len(), 48);
    assert_eq!(&id[..32], &p.to_bytes()[..]);
    assert_eq!(&id[32..40], &10u64.to_le_bytes()[..]);
    assert_eq!(&id[40..48], &0x0102u64.to_le_bytes()[..]);
}

#[test]
fn error_messages() {
    assert_eq!(ZkProofError::InvalidProof.message(), "Invalid proof provided");
    assert_eq!(ZkProofError::InvalidInstance.message(), "Invalid instance data");
}

#[test]
fn vote_from_given_values_is_deterministic_and_accepted() {
    let choice = |r: u64| ChoiceRandomness {
        x_coeffs: vec![Scalar::from_u64(r + 1)],
        r_coeffs: vec![Scalar::from_u64(r + 2)],
        r: Scalar::from_u64(r + 3),
        sim_response: Scalar::from_u64(r + 4),
        sim_challenge: Scalar::from_u64(r + 5),
        nonce: Scalar::from_u64(r + 6),
    };
    let answers = vec![0u16, 1, 0];
    let choices = vec![choice(10), choice(20), choice(30)];
    let v1 = create_vote_with(&answers, 3, &choices, &Scalar::from_u64(99), &Scalar::from_u64(7)).unwrap();
    let v2 = create_vote_with(&answers, 3, &choices, &Scalar::from_u64(99), &Scalar::from_u64(7)).unwrap();
    assert!(verify_vote(&v1));
    assert!(v1.commit_pad.equals(&v2.commit_pad));
    assert!(v1.commitment_r_sum.equals(&Scalar::from_u64(99 + 13 + 23 + 33)));
    assert_eq!(v1.shares.len(), 9);
    // party 1's share of choice 1 is 1 + 21 * 1
    assert!(v1.shares[3].0.equals(&Scalar::from_u64(22)));
}

#[test]
fn dual_codeword_of_a_given_polynomial() {
    let f = Polynomial::from_coefficients(vec![Scalar::one()]);
    let cw = PublicEvals::dual_codeword_from(&f, 3);
    // points 0, 1, 2: denominators (0-1)(0-2) = 2, (1-0)(1-2) = -1, (2-0)(2-1) = 2
    assert!(cw[0].mul(&Scalar::from_u64(2)).equals(&Scalar::one()));
    assert!(cw[1].add(&Scalar::one()).is_zero());
    assert!(cw[2].mul(&Scalar::from_u64(2)).equals(&Scalar::one()));
    let g = Point::mul_base(&Scalar::one());
    let line = PublicEvals::from_evals(&vec![Scalar::from_u64(9), Scalar::from_u64(4), Scalar::from_u64(5), Scalar::from_u64(6)], &g);
    assert!(line.perform_low_degree_test_with_precomputation(3, 2, &cw));
    let bent = PublicEvals::from_evals(&vec![Scalar::from_u64(9), Scalar::from_u64(4), Scalar::from_u64(5), Scalar::from_u64(7)], &g);
    assert!(!bent.perform_low_degree_test_with_precomputation(3, 2, &cw));
}
