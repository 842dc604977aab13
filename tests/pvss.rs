use pvss_core::bls::{evaluate, Fr, G1};
use pvss_core::pvss::pedcom::{commit, compute_scrape_coefficient, degree_check, setup};
use pvss_core::pvss::prot_pvss_hash_ibe;
use pvss_core::pvss::prot_pvss_pedcom_ibe;
use pvss_core::pvss::sss::{recover, share, share_with};
use pvss_core::pvss::utils::{bytes_to_bits_be, deserialize, digest_sha256, poly_eval_mult_c, sample_poly, serialize};
use pvss_core::pvss::PVSSError;
use rand::rngs::StdRng;
use rand::SeedableRng;

fn rng() -> StdRng {
    StdRng::seed_from_u64(42)
}

#[test]
fn sample_scrape_test() {
    let d = 10;
    let n = 20;
    let mut rng = rng();
    let p: Vec<Fr> = (0..=d).map(|_| Fr::random(&mut rng)).collect();
    let z: Vec<Fr> = (0..=(n - d - 2)).map(|_| Fr::random(&mut rng)).collect();
    let mut sum = Fr::zero();
    for i in 1..=n {
        let scrape_coeff = compute_scrape_coefficient(n, i);
        let x = Fr::from_u64(i);
        sum = sum.add(&evaluate(&p, &x).mul(&evaluate(&z, &x)).mul(&scrape_coeff));
    }
    assert!(sum.equals(&Fr::zero()), "The sum should be zero for the scrape test");
}

#[test]
fn scrape_coefficient_values() {
    // n = 3: lambda_1 = 1/((1-2)(1-3)) = 1/2, lambda_2 = 1/((2-1)(2-3)) = -1
    let l1 = compute_scrape_coefficient(3, 1);
    assert!(l1.mul(&Fr::from_u64(2)).equals(&Fr::one()));
    let l2 = compute_scrape_coefficient(3, 2);
    assert!(l2.add(&Fr::one()).is_zero());
}

#[test]
fn test_shamir_correctness() {
    let mut rng = rng();
    let secret = Fr::from_u64(42);
    let shares = share(&secret, (3, 5), &mut rng);
    let recovered = recover(shares).unwrap();
    assert!(secret.equals(&recovered));
}

#[test]
fn shamir_any_t_shares_recover_and_fewer_do_not() {
    let mut rng = StdRng::seed_from_u64(5);
    for (t, n) in [(2u64, 2u64), (3, 7), (5, 9)] {
        let secret = Fr::random(&mut rng);
        let shares = share(&secret, (t, n), &mut rng);
        assert_eq!(shares.len(), n as usize);
        for start in 0..=(n - t) as usize {
            let subset: Vec<(Fr, Fr)> = shares[start..start + t as usize].to_vec();
            assert!(recover(subset).unwrap().equals(&secret));
        }
        let fewer: Vec<(Fr, Fr)> = shares[..(t - 1) as usize].to_vec();
        assert!(!recover(fewer).unwrap().equals(&secret));
    }
}

#[test]
fn shamir_rejects_duplicate_points() {
    let s = (Fr::from_u64(1), Fr::from_u64(2));
    assert!(matches!(recover(vec![s, s]), Err(PVSSError::DuplicateEvaluationPoint)));
}

#[test]
fn pedersen_commitments_are_homomorphic() {
    let params = setup().unwrap();
    let (m1, r1, m2, r2) = (Fr::from_u64(3), Fr::from_u64(11), Fr::from_u64(4), Fr::from_u64(100));
    let sum = commit(&params, m1, r1).add(&commit(&params, m2, r2));
    assert!(sum.equals(&commit(&params, m1.add(&m2), r1.add(&r2))));
    assert!(params.0.equals(&G1::generator()));
    assert!(!params.1.equals(&params.0));
    assert!(!params.1.is_zero());
}

#[test]
fn scrape_test_on_twenty_commitments() {
    let params = setup().unwrap();
    let mut rng = rng();
    let p: Vec<Fr> = (0..10).map(|_| Fr::random(&mut rng)).collect();
    let q: Vec<Fr> = (0..10).map(|_| Fr::random(&mut rng)).collect();
    let comms: Vec<G1> = (1..=20u64)
        .map(|i| commit(&params, evaluate(&p, &Fr::from_u64(i)), evaluate(&q, &Fr::from_u64(i))))
        .collect();
    assert!(degree_check(&comms, 9, &mut rng));
    let random: Vec<G1> = (0..20).map(|_| G1::generator().mul(&Fr::random(&mut rng))).collect();
    assert!(!degree_check(&random, 9, &mut rng));
    // too few commitments for the degree: vacuously accepted
    assert!(degree_check(&random[..10], 9, &mut rng));
}

#[test]
fn prot_pvss_hash_ibe_test_share_basic() {
    let n = 128;
    let t = 64;
    let secret = [42u8; 32];
    let sharing = prot_pvss_hash_ibe::share(&secret, (t, n), &mut rng()).unwrap();
    let block = sharing.blocks[0];
    assert_eq!(prot_pvss_hash_ibe::verify(&sharing, (t, n), 0, &block).unwrap(), ());
}

#[test]
fn hash_sharing_every_party_verifies_and_corruption_is_local() {
    let n = 128;
    let t = 64;
    let secret = [42u8; 32];
    let sharing = prot_pvss_hash_ibe::share(&secret, (t, n), &mut rng()).unwrap();
    assert_eq!(sharing.committed_secret.len(), t as usize);
    for i in 0..n as usize {
        assert!(prot_pvss_hash_ibe::verify(&sharing, (t, n), i, &sharing.blocks[i]).is_ok());
    }
    let mut corrupted = sharing.blocks[5];
    corrupted[3] ^= 0x01;
    assert!(matches!(
        prot_pvss_hash_ibe::verify(&sharing, (t, n), 5, &corrupted),
        Err(PVSSError::InvalidOpening)
    ));
    assert!(prot_pvss_hash_ibe::verify(&sharing, (t, n), 4, &sharing.blocks[4]).is_ok());
    assert!(prot_pvss_hash_ibe::verify(&sharing, (t, n), 6, &sharing.blocks[6]).is_ok());
    assert!(matches!(
        prot_pvss_hash_ibe::verify(&sharing, (t - 1, n), 0, &sharing.blocks[0]),
        Err(PVSSError::ThresholdViolation)
    ));
    assert!(matches!(
        prot_pvss_hash_ibe::verify(&sharing, (t, n), n as usize, &sharing.blocks[0]),
        Err(PVSSError::DimensionMismatch)
    ));
    let mut noncanonical = sharing.blocks[0];
    for b in noncanonical[64..96].iter_mut() {
        *b = 0xff;
    }
    assert!(matches!(
        prot_pvss_hash_ibe::verify(&sharing, (t, n), 0, &noncanonical),
        Err(PVSSError::DeserializationError)
    ));
}

#[test]
fn prot_pvss_pedcom_ibe_test_share_basic() {
    let pedcom_params = setup().unwrap();
    let n = 1000;
    let t = 500;
    let secret = [42u8; 32];
    let sharing = prot_pvss_pedcom_ibe::share(&pedcom_params, &secret, (t, n), &mut rng()).unwrap();
    let block = sharing.blocks[0];
    assert!(prot_pvss_pedcom_ibe::verify(&pedcom_params, &sharing, (t, n), 0, &block, &mut rng()).is_ok());
    assert_eq!(sharing.commitments.len(), n as usize);
    assert_eq!(sharing.blocks.len(), n as usize);
}

#[test]
fn pedcom_sharing_corruption_is_local() {
    let params = setup().unwrap();
    let (t, n) = (3u64, 8u64);
    let sharing = prot_pvss_pedcom_ibe::share(&params, &[7u8; 32], (t, n), &mut rng()).unwrap();
    for i in 0..n as usize {
        assert!(prot_pvss_pedcom_ibe::verify(&params, &sharing, (t, n), i, &sharing.blocks[i], &mut rng()).is_ok());
    }
    let mut corrupted = sharing.blocks[2];
    corrupted[40] ^= 0x10;
    assert!(matches!(
        prot_pvss_pedcom_ibe::verify(&params, &sharing, (t, n), 2, &corrupted, &mut rng()),
        Err(PVSSError::InvalidOpening)
    ));
    assert!(prot_pvss_pedcom_ibe::verify(&params, &sharing, (t, n), 3, &sharing.blocks[3], &mut rng()).is_ok());
    assert!(matches!(
        prot_pvss_pedcom_ibe::verify(&params, &sharing, (t, n), 8, &sharing.blocks[0], &mut rng()),
        Err(PVSSError::DimensionMismatch)
    ));
    // commitments of a higher-degree sharing fail the test for a lower degree
    assert!(matches!(
        prot_pvss_pedcom_ibe::verify(&params, &sharing, (1, n), 0, &sharing.blocks[0], &mut rng()),
        Err(PVSSError::ThresholdViolation)
    ));
}

#[test]
fn secret_above_the_field_order_is_refused() {
    let params = setup().unwrap();
    assert!(matches!(
        prot_pvss_hash_ibe::share(&[0xffu8; 32], (2, 4), &mut rng()),
        Err(PVSSError::DeserializationError)
    ));
    assert!(matches!(
        prot_pvss_pedcom_ibe::share(&params, &[0xffu8; 32], (2, 4), &mut rng()),
        Err(PVSSError::DeserializationError)
    ));
    assert!(matches!(sample_poly(Some(&[0xffu8; 32]), 3, &mut rng()), Err(PVSSError::DeserializationError)));
}

#[test]
fn utilities() {
    assert_eq!(bytes_to_bits_be(&[0b1010_0001]), vec![true, false, true, false, false, false, false, true]);
    let mut secret = [0u8; 32];
    secret[31] = 9;
    let poly = sample_poly(Some(&secret), 3, &mut rng()).unwrap();
    assert_eq!(poly.len(), 4);
    assert!(poly[0].equals(&Fr::from_u64(9)));
    let scaled = poly_eval_mult_c(&vec![Fr::from_u64(2), Fr::from_u64(5)], &Fr::from_u64(3));
    assert!(scaled[0].equals(&Fr::from_u64(6)) && scaled[1].equals(&Fr::from_u64(15)));
    let ser = serialize(&Fr::from_u64(258));
    assert_eq!(ser.len(), 32);
    assert_eq!(&ser[..3], &[2, 1, 0]);
    assert!(deserialize(&ser).unwrap().equals(&Fr::from_u64(258)));
    assert!(deserialize(&[0xffu8; 32]).is_none());
    assert!(deserialize(&[0u8; 31]).is_none());
    let d = digest_sha256(&vec![b"a".to_vec(), b"bc".to_vec()]);
    assert_eq!(
        d[..4],
        [0xba, 0x78, 0x16, 0xbf]
    );
    assert!(evaluate(&vec![Fr::from_u64(2), Fr::from_u64(4), Fr::from_u64(9)], &Fr::from_u64(3)).equals(&Fr::from_u64(95)));
    let a = Fr::from_u64(6);
    assert!(a.mul(&a.inverse()).equals(&Fr::one()));
    assert!(a.sub(&Fr::from_u64(7)).add(&Fr::one()).is_zero());
}

#[test]
fn shamir_shares_from_given_values() {
    let secret = Fr::from_u64(5);
    let coeffs = vec![Fr::from_u64(2), Fr::from_u64(1)];
    let xs = vec![Fr::from_u64(1), Fr::from_u64(3), Fr::from_u64(4)];
    let shares = share_with(&secret, &coeffs, &xs);
    // f(x) = 5 + 2x + x^2
    assert!(shares[0].0.equals(&Fr::from_u64(1)) && shares[0].1.equals(&Fr::from_u64(8)));
    assert!(shares[1].1.equals(&Fr::from_u64(20)));
    assert!(shares[2].1.equals(&Fr::from_u64(29)));
    assert!(recover(shares).unwrap().equals(&secret));
}

#[test]
fn pedcom_verify_errors_by_cause() {
    let params = setup().unwrap();
    let (t, n) = (2u64, 5u64);
    let sharing = prot_pvss_pedcom_ibe::share(&params, &[1u8; 32], (t, n), &mut rng()).unwrap();
    let mut noncanonical = sharing.blocks[1];
    for b in noncanonical[0..32].iter_mut() {
        *b = 0xff;
    }
    assert!(matches!(
        prot_pvss_pedcom_ibe::verify(&params, &sharing, (t, n), 1, &noncanonical, &mut rng()),
        Err(PVSSError::DeserializationError)
    ));
    // the block of party 2 does not open party 1's commitment
    assert!(matches!(
        prot_pvss_pedcom_ibe::verify(&params, &sharing, (t, n), 1, &sharing.blocks[2], &mut rng()),
        Err(PVSSError::InvalidOpening)
    ));
}
