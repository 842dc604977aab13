//! The scalar field `Fr` and the group `G1` of the BLS12-381 curve, as used by the
//! publicly verifiable secret sharing protocols.
//!
//! As for Ristretto, a field element is kept as its canonical 32-byte little-endian
//! encoding and read as an integer modulo the group order `r`, and a group element is
//! kept as its uncompressed encoding and read as its discrete logarithm with respect
//! to the standard generator of `G1`, a group of prime order `r`.
use vstd::prelude::*;
use ark_ec::AffineRepr;
use ark_ec::CurveGroup;
use ark_ec::hashing::HashToCurve;
use ark_ff::BigInteger;
use ark_ff::Field;
use ark_ff::PrimeField;
use ark_ff::UniformRand;
use ark_poly::Polynomial;
use ark_serialize::CanonicalDeserialize;
use ark_serialize::CanonicalSerialize;
use ark_ec::hashing::HashToCurveError;
use rand::rngs::StdRng;
use sha2::Digest;
use crate::ristretto::le_value;

verus! {

/// The order `r` of the BLS12-381 group `G1`, and of its scalar field.
pub open spec fn field_order() -> int {
    (0x73eda753299d7d483339d80809a1d805 * 0x10000000000000000 * 0x10000000000000000
        + 0x53bda402fffe5bfeffffffff00000001) as int
}

/// Canonical representative of `x` modulo `r`.
pub open spec fn modr(x: int) -> int {
    x % field_order()
}

/// The uncompressed encoding of `k * G`, `G` the generator of `G1`: what
/// `G1Affine::generator() * k` followed by `serialize_uncompressed` gives.
pub uninterp spec fn g1_encoding(k: int) -> Seq<u8>;

/// The uncompressed encoding of the point that hashing `msg` to `G1` under the domain
/// separation tag `dst` gives (the WB map with the SHA-256 field hasher).
pub uninterp spec fn g1_hash_encoding(dst: Seq<u8>, msg: Seq<u8>) -> Seq<u8>;

/// The SHA-256 digest of a byte string.
pub uninterp spec fn sha256_of(input: Seq<u8>) -> Seq<u8>;

/// The field element that `Field::inverse` returns for a nonzero element of this value.
pub uninterp spec fn fr_inverse_of(v: int) -> int;

/// `b` is the encoding of `k * G`, for a `k` in `[0, r)`.
pub open spec fn g1_encodes_multiple(b: Seq<u8>, k: int) -> bool {
    0 <= k < field_order() && g1_encoding(k) == b
}

/// The little-endian integer of the first 32 bytes of `buf`.
pub open spec fn leading_word_value(buf: Seq<u8>) -> nat {
    le_value(buf.subrange(0, 32))
}

/// `buf` starts with the canonical encoding of a field element.
pub open spec fn is_canonical_word(buf: Seq<u8>) -> bool {
    buf.len() >= 32 && leading_word_value(buf) < field_order()
}

/// The integer of a big-endian bit string.
pub open spec fn be_bits_value(bits: Seq<bool>) -> nat
    decreases bits.len(),
{
    if bits.len() == 0 {
        0
    } else {
        2 * be_bits_value(bits.drop_last()) + if bits.last() { 1nat } else { 0nat }
    }
}

/// `sum_i cs[i] * x^i` over the integers, in nested form.
pub open spec fn fr_poly_value(cs: Seq<Fr>, x: int) -> int
    decreases cs.len(),
{
    if cs.len() == 0 {
        0
    } else {
        cs[0].value() + x * fr_poly_value(cs.drop_first(), x)
    }
}

/// For reduced `a` and `b`, `a - b` vanishes modulo `r` exactly when `a == b`.
pub proof fn lemma_modr_diff_zero(a: int, b: int)
    requires
        0 <= a < field_order(),
        0 <= b < field_order(),
    ensures
        (modr(a - b) == 0) == (a == b),
{
    let m = field_order();
    if a >= b {
        vstd::arithmetic::div_mod::lemma_small_mod((a - b) as nat, m as nat);
    } else {
        vstd::arithmetic::div_mod::lemma_mod_add_multiples_vanish(a - b, m);
        vstd::arithmetic::div_mod::lemma_small_mod((a - b + m) as nat, m as nat);
    }
}

/// `a` and `b` are congruent modulo `r`.
pub open spec fn congruent_r(a: int, b: int) -> bool {
    modr(a) == modr(b)
}

pub proof fn lemma_congruent_r_modr(x: int)
    ensures
        congruent_r(modr(x), x),
{
    vstd::arithmetic::div_mod::lemma_mod_twice(x, field_order());
}

pub proof fn lemma_congruent_r_add(a: int, a2: int, b: int, b2: int)
    requires
        congruent_r(a, a2),
        congruent_r(b, b2),
    ensures
        congruent_r(a + b, a2 + b2),
{
    vstd::arithmetic::div_mod::lemma_add_mod_noop(a, b, field_order());
    vstd::arithmetic::div_mod::lemma_add_mod_noop(a2, b2, field_order());
}

pub proof fn lemma_congruent_r_mul(a: int, a2: int, b: int, b2: int)
    requires
        congruent_r(a, a2),
        congruent_r(b, b2),
    ensures
        congruent_r(a * b, a2 * b2),
{
    vstd::arithmetic::div_mod::lemma_mul_mod_noop_general(a, b, field_order());
    vstd::arithmetic::div_mod::lemma_mul_mod_noop_general(a2, b2, field_order());
}

pub proof fn lemma_congruent_r_neg(a: int, b: int)
    requires
        congruent_r(a, b),
    ensures
        congruent_r(-a, -b),
{
    lemma_congruent_r_mul(-1, -1, a, b);
    assert(-1 * a == -a && -1 * b == -b);
}

#[verifier::external_type_specification]
#[verifier::external_body]
pub struct ExHashToCurveError(HashToCurveError);

/// An element of the scalar field of BLS12-381.
#[derive(Clone, Copy, Debug)]
pub struct Fr {
    bytes: [u8; 32],
}

/// An element of the group `G1` of BLS12-381.
#[derive(Clone, Copy, Debug)]
pub struct G1 {
    bytes: [u8; 96],
}

pub broadcast proof fn lemma_fr_range(s: Fr)
    ensures
        0 <= #[trigger] s.value() < field_order(),
{
    vstd::arithmetic::div_mod::lemma_mod_pos_bound(le_value(s.bytes@) as int, field_order());
}

/// Relies on `Fr::from(u64)`.
#[verifier::external_body]
fn fr_from_u64(n: u64) -> (r: Fr)
    ensures
        r.value() == n as int,
{
    let mut out = [0u8; 32];
    ark_bls12_381::Fr::from(n).serialize_compressed(&mut out[..]).unwrap();
    Fr { bytes: out }
}

/// Relies on `Add for Fr`: the sum modulo `r`.
#[verifier::external_body]
fn fr_add(a: &Fr, b: &Fr) -> (r: Fr)
    ensures
        r.value() == modr(a.value() + b.value()),
{
    let x = ark_bls12_381::Fr::from_le_bytes_mod_order(&a.bytes) + ark_bls12_381::Fr::from_le_bytes_mod_order(&b.bytes);
    let mut out = [0u8; 32];
    x.serialize_compressed(&mut out[..]).unwrap();
    Fr { bytes: out }
}

/// Relies on `Sub for Fr`: the difference modulo `r`.
#[verifier::external_body]
fn fr_sub(a: &Fr, b: &Fr) -> (r: Fr)
    ensures
        r.value() == modr(a.value() - b.value()),
{
    let x = ark_bls12_381::Fr::from_le_bytes_mod_order(&a.bytes) - ark_bls12_381::Fr::from_le_bytes_mod_order(&b.bytes);
    let mut out = [0u8; 32];
    x.serialize_compressed(&mut out[..]).unwrap();
    Fr { bytes: out }
}

/// Relies on `Mul for Fr`: the product modulo `r`.
#[verifier::external_body]
fn fr_mul(a: &Fr, b: &Fr) -> (r: Fr)
    ensures
        r.value() == modr(a.value() * b.value()),
{
    let x = ark_bls12_381::Fr::from_le_bytes_mod_order(&a.bytes) * ark_bls12_381::Fr::from_le_bytes_mod_order(&b.bytes);
    let mut out = [0u8; 32];
    x.serialize_compressed(&mut out[..]).unwrap();
    Fr { bytes: out }
}

/// Relies on `Field::inverse`, which is `Some` for every nonzero element: the
/// multiplicative inverse modulo the prime `r`.
#[verifier::external_body]
fn fr_inverse(a: &Fr) -> (r: Fr)
    requires
        a.value() != 0,
    ensures
        r.value() == fr_inverse_of(a.value()),
        modr(a.value() * r.value()) == 1,
{
    let x = ark_bls12_381::Fr::from_le_bytes_mod_order(&a.bytes).inverse().unwrap();
    let mut out = [0u8; 32];
    x.serialize_compressed(&mut out[..]).unwrap();
    Fr { bytes: out }
}

/// Relies on `UniformRand for Fr`: an element drawn from the generator.
#[verifier::external_body]
fn fr_random(rng: &mut StdRng) -> (r: Fr) {
    let mut out = [0u8; 32];
    ark_bls12_381::Fr::rand(rng).serialize_compressed(&mut out[..]).unwrap();
    Fr { bytes: out }
}

/// Relies on `Fr`'s `==`.
#[verifier::external_body]
fn fr_eq(a: &Fr, b: &Fr) -> (r: bool)
    ensures
        r == (a.value() == b.value()),
{
    ark_bls12_381::Fr::from_le_bytes_mod_order(&a.bytes) == ark_bls12_381::Fr::from_le_bytes_mod_order(&b.bytes)
}

/// Relies on `BigInteger::from_bits_be` (at most 256 bits fit `Fr`'s big integer) and
/// `PrimeField::from_bigint`, which is `None` exactly for integers not below `r`.
#[verifier::external_body]
fn fr_from_bits_be(bits: &Vec<bool>) -> (r: Option<Fr>)
    requires
        bits@.len() <= 256,
    ensures
        r is Some <==> be_bits_value(bits@) < field_order(),
        r matches Some(f) ==> f.value() == be_bits_value(bits@),
{
    let big = <ark_bls12_381::Fr as PrimeField>::BigInt::from_bits_be(bits.as_slice());
    let x = ark_bls12_381::Fr::from_bigint(big)?;
    let mut out = [0u8; 32];
    x.serialize_compressed(&mut out[..]).unwrap();
    Some(Fr { bytes: out })
}

/// Relies on `CanonicalSerialize for Fr`: 32 bytes, the value in little-endian order.
#[verifier::external_body]
pub(crate) fn fr_serialize(a: &Fr) -> (r: Vec<u8>)
    ensures
        r@.len() == 32,
        le_value(r@) == a.value(),
{
    let mut buf = Vec::new();
    ark_bls12_381::Fr::from_le_bytes_mod_order(&a.bytes).serialize_compressed(&mut buf).unwrap();
    buf
}

/// Relies on `CanonicalDeserialize for Fr`: it reads 32 little-endian bytes and
/// refuses an integer that is not below `r`.
#[verifier::external_body]
pub(crate) fn fr_deserialize(buf: &[u8]) -> (r: Option<Fr>)
    ensures
        r is Some <==> is_canonical_word(buf@),
        r matches Some(f) ==> f.value() == leading_word_value(buf@),
{
    let x = ark_bls12_381::Fr::deserialize_compressed(buf).ok()?;
    let mut out = [0u8; 32];
    x.serialize_compressed(&mut out[..]).unwrap();
    Some(Fr { bytes: out })
}

/// Relies on `DensePolynomial::evaluate` of ark-poly: the value of the polynomial with
/// these coefficients at `x`.
#[verifier::external_body]
pub(crate) fn dense_evaluate(coeffs: &Vec<Fr>, x: &Fr) -> (r: Fr)
    ensures
        r.value() == modr(fr_poly_value(coeffs@, x.value())),
{
    let cs: Vec<ark_bls12_381::Fr> = coeffs.iter().map(|c| ark_bls12_381::Fr::from_le_bytes_mod_order(&c.bytes)).collect();
    let p = ark_poly::univariate::DensePolynomial { coeffs: cs };
    let v = p.evaluate(&ark_bls12_381::Fr::from_le_bytes_mod_order(&x.bytes));
    let mut out = [0u8; 32];
    v.serialize_compressed(&mut out[..]).unwrap();
    Fr { bytes: out }
}

/// Relies on `Sha256` of sha2.
#[verifier::external_body]
pub(crate) fn sha256(input: &Vec<u8>) -> (r: [u8; 32])
    ensures
        r@ == sha256_of(input@),
{
    sha2::Sha256::digest(input.as_slice()).into()
}

/// Relies on `AffineRepr::generator` for `G1Affine`: the encoding of `1 * G`.
#[verifier::external_body]
fn g1_generator() -> (r: G1)
    ensures
        r.log() == 1,
        r.bytes@ == g1_encoding(1),
{
    let mut out = [0u8; 96];
    ark_bls12_381::G1Affine::generator().serialize_uncompressed(&mut out[..]).unwrap();
    G1 { bytes: out }
}

/// Relies on `AffineRepr::zero` for `G1Affine`: the identity, `0 * G`.
#[verifier::external_body]
fn g1_zero() -> (r: G1)
    ensures
        r.log() == 0,
{
    let mut out = [0u8; 96];
    ark_bls12_381::G1Affine::zero().serialize_uncompressed(&mut out[..]).unwrap();
    G1 { bytes: out }
}

/// Relies on `Add for G1Affine`: logarithms add modulo `r`.
#[verifier::external_body]
fn g1_add(a: &G1, b: &G1) -> (r: G1)
    ensures
        r.log() == modr(a.log() + b.log()),
{
    let x = ark_bls12_381::G1Affine::deserialize_uncompressed_unchecked(&a.bytes[..]).unwrap();
    let y = ark_bls12_381::G1Affine::deserialize_uncompressed_unchecked(&b.bytes[..]).unwrap();
    let mut out = [0u8; 96];
    (x + y).into_affine().serialize_uncompressed(&mut out[..]).unwrap();
    G1 { bytes: out }
}

/// Relies on `Mul<Fr> for G1Affine`: the logarithm is multiplied by the scalar.
#[verifier::external_body]
fn g1_mul(a: &G1, s: &Fr) -> (r: G1)
    ensures
        r.log() == modr(a.log() * s.value()),
{
    let x = ark_bls12_381::G1Affine::deserialize_uncompressed_unchecked(&a.bytes[..]).unwrap();
    let k = ark_bls12_381::Fr::from_le_bytes_mod_order(&s.bytes);
    let mut out = [0u8; 96];
    (x * k).into_affine().serialize_uncompressed(&mut out[..]).unwrap();
    G1 { bytes: out }
}

/// Relies on `MapToCurveBasedHasher::new` and `hash` of ark-ec, with the WB map to
/// `G1` and the SHA-256 field hasher, under the domain separation tag `dst`. They fail
/// only in the configuration checks of `WBMap::new` and `SWUMap::new`, which do not
/// depend on `dst` or `msg` and which the BLS12-381 `G1` configuration passes.
#[verifier::external_body]
fn g1_hash_to_curve(dst: &[u8], msg: &[u8]) -> (r: Result<G1, HashToCurveError>)
    ensures
        r is Ok,
        r matches Ok(p) ==> p.bytes@ == g1_hash_encoding(dst@, msg@),
{
    let mapper = ark_ec::hashing::map_to_curve_hasher::MapToCurveBasedHasher::<
        ark_ec::short_weierstrass::Projective<ark_bls12_381::g1::Config>,
        ark_ff::field_hashers::DefaultFieldHasher<sha2::Sha256, 128>,
        ark_ec::hashing::curve_maps::wb::WBMap<ark_bls12_381::g1::Config>,
    >::new(dst)?;
    let p = mapper.hash(msg)?;
    let mut out = [0u8; 96];
    p.serialize_uncompressed(&mut out[..]).unwrap();
    Ok(G1 { bytes: out })
}

fn bytes_eq96(a: &[u8; 96], b: &[u8; 96]) -> (r: bool)
    ensures
        r == (a@ == b@),
{
    let mut i: usize = 0;
    while i < 96
        invariant
            0 <= i <= 96,
            a@.len() == 96,
            b@.len() == 96,
            forall|j: int| 0 <= j < i ==> a@[j] == b@[j],
        decreases 96 - i,
    {
        if a[i] != b[i] {
            return false;
        }
        i = i + 1;
    }
    assert(a@ =~= b@);
    true
}

impl Fr {
    /// The value of the element, in `[0, r)`.
    pub closed spec fn value(self) -> int {
        modr(le_value(self.bytes@) as int)
    }

    pub fn zero() -> (r: Fr)
        ensures
            r.value() == 0,
    {
        fr_from_u64(0)
    }

    pub fn one() -> (r: Fr)
        ensures
            r.value() == 1,
    {
        fr_from_u64(1)
    }

    pub fn from_u64(n: u64) -> (r: Fr)
        ensures
            r.value() == n as int,
    {
        fr_from_u64(n)
    }

    pub fn random(rng: &mut StdRng) -> (r: Fr) {
        fr_random(rng)
    }

    pub fn add(&self, o: &Fr) -> (r: Fr)
        ensures
            r.value() == modr(self.value() + o.value()),
    {
        fr_add(self, o)
    }

    pub fn sub(&self, o: &Fr) -> (r: Fr)
        ensures
            r.value() == modr(self.value() - o.value()),
    {
        fr_sub(self, o)
    }

    pub fn mul(&self, o: &Fr) -> (r: Fr)
        ensures
            r.value() == modr(self.value() * o.value()),
    {
        fr_mul(self, o)
    }

    /// The inverse of a nonzero element.
    pub fn inverse(&self) -> (r: Fr)
        requires
            self.value() != 0,
        ensures
            r.value() == fr_inverse_of(self.value()),
            modr(self.value() * r.value()) == 1,
    {
        fr_inverse(self)
    }

    pub fn equals(&self, o: &Fr) -> (r: bool)
        ensures
            r == (self.value() == o.value()),
    {
        fr_eq(self, o)
    }

    pub fn is_zero(&self) -> (r: bool)
        ensures
            r == (self.value() == 0),
    {
        let z = fr_from_u64(0);
        fr_eq(self, &z)
    }

    /// The element of a big-endian bit string of at most 256 bits, if it is below `r`.
    pub fn from_bits_be(bits: &Vec<bool>) -> (r: Option<Fr>)
        requires
            bits@.len() <= 256,
        ensures
            r is Some <==> be_bits_value(bits@) < field_order(),
            r matches Some(f) ==> f.value() == be_bits_value(bits@),
    {
        fr_from_bits_be(bits)
    }
}

impl G1 {
    #[verifier::type_invariant]
    closed spec fn well_formed(self) -> bool {
        exists|k: int| g1_encodes_multiple(self.bytes@, k)
    }

    /// The discrete logarithm of the element with respect to the generator, in `[0, r)`.
    pub closed spec fn log(self) -> int {
        choose|k: int| g1_encodes_multiple(self.bytes@, k)
    }

    pub fn generator() -> (r: G1)
        ensures
            r.log() == 1,
    {
        g1_generator()
    }

    pub fn zero() -> (r: G1)
        ensures
            r.log() == 0,
    {
        g1_zero()
    }

    pub fn add(&self, o: &G1) -> (r: G1)
        ensures
            r.log() == modr(self.log() + o.log()),
    {
        g1_add(self, o)
    }

    pub fn mul(&self, s: &Fr) -> (r: G1)
        ensures
            r.log() == modr(self.log() * s.value()),
    {
        g1_mul(self, s)
    }

    pub fn equals(&self, o: &G1) -> (r: bool)
        ensures
            r == (self.log() == o.log()),
    {
        proof {
            use_type_invariant(self);
            use_type_invariant(o);
        }
        bytes_eq96(&self.bytes, &o.bytes)
    }

    pub fn is_zero(&self) -> (r: bool)
        ensures
            r == (self.log() == 0),
    {
        let z = g1_zero();
        self.equals(&z)
    }
}

/// The logarithm of the point that hashing `msg` to `G1` gives; nobody knows its value.
pub open spec fn g1_hash_log(dst: Seq<u8>, msg: Seq<u8>) -> int {
    choose|k: int| g1_encodes_multiple(g1_hash_encoding(dst, msg), k)
}

/// Hashes `msg` to `G1` under the domain separation tag `dst`.
pub fn hash_to_g1(dst: &[u8], msg: &[u8]) -> (r: Result<G1, HashToCurveError>)
    ensures
        r is Ok,
        r matches Ok(p) ==> p.log() == g1_hash_log(dst@, msg@),
{
    let r = g1_hash_to_curve(dst, msg);
    match r {
        Ok(p) => {
            proof {
                use_type_invariant(&p);
            }
            Ok(p)
        },
        Err(e) => Err(e),
    }
}

/// The value at `x` of the polynomial with coefficients `coeffs`.
pub fn evaluate(coeffs: &Vec<Fr>, x: &Fr) -> (r: Fr)
    ensures
        r.value() == modr(fr_poly_value(coeffs@, x.value())),
{
    dense_evaluate(coeffs, x)
}

} // verus!
