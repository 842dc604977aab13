//! Pedersen commitments `m * G + r * H` over BLS12-381 `G1`, and the SCRAPE test that
//! committed values lie on a polynomial of bounded degree.
use vstd::prelude::*;
use vstd::string::StringSliceAdditionalSpecFns;
use crate::bls::{Fr, G1, modr, field_order, fr_poly_value, fr_inverse_of, g1_hash_log, hash_to_g1, lemma_fr_range, dense_evaluate};
use crate::pvss::PVSSError;
use rand::rngs::StdRng;

verus! {

broadcast use lemma_fr_range;

/// Commitment parameters `(G, H)`.
pub type PedComParams = (G1, G1);

pub type PedComCommitment = G1;

pub type PedComMessage = Fr;

pub type PedComRandomness = Fr;

/// Domain separation tag of the hash to `G1`.
pub const DST_G1: &'static str = "BLS_SIG_BLS12381G1_XMD:SHA-256_SSWU_RO_POP_";

/// The input hashed to the generator `H`.
pub const PEDERSEN_GENERATOR_LABEL: &'static str = "Pedersen Commitment Generator";

fn hash_to_curve(msg: &[u8]) -> (r: Result<G1, PVSSError>)
    ensures
        r is Ok,
        r matches Ok(p) ==> p.log() == g1_hash_log(DST_G1.spec_bytes(), msg@),
{
    match hash_to_g1(DST_G1.as_bytes(), msg) {
        Ok(p) => Ok(p),
        Err(e) => Err(PVSSError::HashingError(e)),
    }
}

/// The parameters: `G` the generator of `G1`, `H` hashed from a fixed label.
pub fn setup() -> (r: Result<PedComParams, PVSSError>)
    ensures
        r matches Ok(params) ==> params.0.log() == 1
            && params.1.log() == g1_hash_log(DST_G1.spec_bytes(), PEDERSEN_GENERATOR_LABEL.spec_bytes()),
        r is Ok,
{
    let g = G1::generator();
    let h = hash_to_curve(PEDERSEN_GENERATOR_LABEL.as_bytes())?;
    Ok((g, h))
}

/// The logarithm of `m * G + r * H`.
pub open spec fn commitment_log(params: PedComParams, m: int, r: int) -> int {
    modr(modr(params.0.log() * m) + modr(params.1.log() * r))
}

/// `m * G + r * H`.
pub fn commit(params: &PedComParams, m: PedComMessage, r: PedComRandomness) -> (c: PedComCommitment)
    ensures
        c.log() == commitment_log(*params, m.value(), r.value()),
{
    let (g, h) = params;
    g.mul(&m).add(&h.mul(&r))
}

/// `prod_{1 <= j <= k, j != i} (i - j)`.
pub open spec fn scrape_denominator_upto(i: int, k: int) -> int
    decreases k,
{
    if k <= 0 {
        1
    } else if k == i {
        scrape_denominator_upto(i, k - 1)
    } else {
        scrape_denominator_upto(i, k - 1) * (i - k)
    }
}

/// `lambda_i = 1 / prod_{1 <= j <= n, j != i} (i - j)`, as a reduced value; zero
/// stands for a product that vanishes modulo `r` (which, `r` being a prime larger
/// than every factor, does not happen).
pub open spec fn scrape_coefficient(n: int, i: int) -> int {
    let d = modr(scrape_denominator_upto(i, n));
    if d == 0 {
        0
    } else {
        fr_inverse_of(d)
    }
}

/// The SCRAPE coefficient `lambda_i` of party `i` among `1..n`.
pub fn compute_scrape_coefficient(n: u64, i: u64) -> (r: Fr)
    requires
        n < u64::MAX,
    ensures
        r.value() == scrape_coefficient(n as int, i as int),
{
    let x_i = Fr::from_u64(i);
    let mut denom = Fr::one();
    let mut j: u64 = 1;
    proof {
        vstd::arithmetic::div_mod::lemma_small_mod(1, field_order() as nat);
    }
    while j <= n
        invariant
            1 <= j <= n + 1,
            n < u64::MAX,
            x_i.value() == i,
            denom.value() == modr(scrape_denominator_upto(i as int, (j - 1) as int)),
        decreases n + 1 - j,
    {
        if j != i {
            let ghost d0 = scrape_denominator_upto(i as int, (j - 1) as int);
            let diff = x_i.sub(&Fr::from_u64(j));
            denom = denom.mul(&diff);
            proof {
                vstd::arithmetic::div_mod::lemma_mul_mod_noop_general(d0, i - j, field_order());
            }
        }
        j = j + 1;
    }
    if denom.is_zero() {
        Fr::zero()
    } else {
        denom.inverse()
    }
}

/// `sum_{1 <= i <= k} log(v_i) * (z(i) * lambda_i)`, reduced at each step.
pub open spec fn scrape_sum_upto(vs: Seq<G1>, z: Seq<Fr>, n: int, k: int) -> int
    decreases k,
{
    if k <= 0 {
        0
    } else {
        modr(
            scrape_sum_upto(vs, z, n, k - 1) + modr(
                vs[k - 1].log() * modr(modr(fr_poly_value(z, k)) * scrape_coefficient(n, k)),
            ),
        )
    }
}

/// With check polynomial `z`, the weighted sum of the commitments vanishes.
pub open spec fn scrape_check_passes(vs: Seq<G1>, z: Seq<Fr>) -> bool {
    scrape_sum_upto(vs, z, vs.len() as int, vs.len() as int) == 0
}

/// The SCRAPE test with a given check polynomial `z`: accepts when there are fewer
/// than `degree + 2` commitments, else when `sum_i lambda_i * z(i) * v_i` is the identity.
pub fn degree_check_with(commitments: &[PedComCommitment], degree: u64, z: &Vec<Fr>) -> (r: bool)
    requires
        commitments@.len() < u64::MAX,
        degree < u64::MAX - 2,
    ensures
        r == (commitments@.len() < degree + 2 || scrape_check_passes(commitments@, z@)),
{
    let n = commitments.len() as u64;
    if n < degree + 2 {
        return true;
    }
    let mut sum = G1::zero();
    let mut i: u64 = 1;
    while i <= n
        invariant
            commitments@.len() == n,
            n < u64::MAX,
            1 <= i <= n + 1,
            sum.log() == scrape_sum_upto(commitments@, z@, n as int, (i - 1) as int),
        decreases n + 1 - i,
    {
        let scrape_coeff_i = compute_scrape_coefficient(n, i);
        let v_i = commitments[(i - 1) as usize];
        let z_i = dense_evaluate(z, &Fr::from_u64(i));
        sum = sum.add(&v_i.mul(&z_i.mul(&scrape_coeff_i)));
        i = i + 1;
    }
    sum.is_zero()
}

/// The SCRAPE test that the commitments lie on a polynomial of degree at most
/// `degree`, with a freshly drawn check polynomial of degree `n - degree - 2`.
pub fn degree_check(commitments: &[PedComCommitment], degree: u64, rng: &mut StdRng) -> (r: bool)
    requires
        commitments@.len() < u64::MAX,
        degree < u64::MAX - 2,
    ensures
        commitments@.len() < degree + 2 ==> r,
        commitments@.len() >= degree + 2 ==> exists|z: Seq<Fr>|
            z.len() == commitments@.len() - degree - 1 && r == scrape_check_passes(commitments@, z),
{
    let n = commitments.len() as u64;
    if n < degree + 2 {
        return true;
    }
    let mut z: Vec<Fr> = Vec::new();
    let mut k: u64 = 0;
    while k < n - degree - 1
        invariant
            n >= degree + 2,
            k <= n - degree - 1,
            z@.len() == k,
        decreases n - degree - 1 - k,
    {
        z.push(Fr::random(rng));
        k = k + 1;
    }
    degree_check_with(commitments, degree, &z)
}

} // verus!
