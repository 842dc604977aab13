//! Scalars and group elements of the Ristretto prime-order group, as used by the
//! polling primitives.
//!
//! A scalar is kept as its 32-byte little-endian encoding and is read, in
//! specifications, as an integer modulo the group order `ell`. A group element is
//! kept as its canonical compressed encoding and is read as its discrete logarithm
//! with respect to the standard basepoint: the group is cyclic of prime order
//! `ell`, so this number identifies the element, and addition and scalar
//! multiplication of elements become addition and multiplication of logarithms
//! modulo `ell`.
use vstd::prelude::*;
use curve25519_dalek::traits::Identity;
use curve25519_dalek::traits::MultiscalarMul;
use rand::rngs::StdRng;

verus! {

/// The order `ell` of the Ristretto group, `2^252 + 27742317777372353535851937790883648493`.
pub open spec fn group_order() -> int {
    (85070591730234615865843651857942052864 * 85070591730234615865843651857942052864
        + 27742317777372353535851937790883648493) as int
}

/// The unsigned integer that a little-endian byte string encodes.
pub open spec fn le_value(b: Seq<u8>) -> nat
    decreases b.len(),
{
    if b.len() == 0 {
        0
    } else {
        b[0] as nat + 256 * le_value(b.drop_first())
    }
}

/// The 32-byte little-endian encoding of `v`.
pub open spec fn le_encoding32(v: int) -> Seq<u8> {
    choose|s: Seq<u8>| s.len() == 32 && le_value(s) == v
}

/// Two byte strings of one length with the same little-endian value are equal.
pub proof fn lemma_le_value_injective(a: Seq<u8>, b: Seq<u8>)
    requires
        a.len() == b.len(),
        le_value(a) == le_value(b),
    ensures
        a == b,
    decreases a.len(),
{
    if a.len() > 0 {
        let x = le_value(a.drop_first());
        let y = le_value(b.drop_first());
        let a0 = a[0] as int;
        let b0 = b[0] as int;
        assert(a0 == b0 && x == y) by (nonlinear_arith)
            requires
                a0 + 256 * x == b0 + 256 * y,
                0 <= a0 < 256,
                0 <= b0 < 256,
                x >= 0,
                y >= 0,
        ;
        lemma_le_value_injective(a.drop_first(), b.drop_first());
        assert(a =~= seq![a[0]] + a.drop_first());
        assert(b =~= seq![b[0]] + b.drop_first());
    } else {
        assert(a =~= b);
    }
}

/// A 32-byte string is the encoding of its value.
pub proof fn lemma_le_encoding32(s: Seq<u8>)
    requires
        s.len() == 32,
    ensures
        le_encoding32(le_value(s) as int) == s,
{
    let e = le_encoding32(le_value(s) as int);
    assert(s.len() == 32 && le_value(s) == le_value(s) as int);
    lemma_le_value_injective(e, s);
}

/// The compressed encoding of `k * B`, where `B` is the Ristretto basepoint: what
/// `RistrettoPoint::mul_base` followed by `compress` returns.
pub uninterp spec fn ristretto_encoding(k: int) -> Seq<u8>;

/// The scalar that `Scalar::invert` returns for a scalar of this value.
pub uninterp spec fn scalar_inverse(v: int) -> int;

/// The scalar that `Scalar::hash_from_bytes::<Sha512>` derives from a byte string.
pub uninterp spec fn sha512_scalar(input: Seq<u8>) -> int;

/// The compressed encoding of the point that `RistrettoPoint::hash_from_bytes::<Sha3_512>`
/// derives from a byte string (the Pedersen blinding generator is one such point).
pub uninterp spec fn ristretto_hash_encoding(input: Seq<u8>) -> Seq<u8>;

/// `b` is the encoding of `k * B`, for a `k` in `[0, ell)`.
pub open spec fn encodes_multiple(b: Seq<u8>, k: int) -> bool {
    0 <= k < group_order() && ristretto_encoding(k) == b
}

/// Canonical representative of `x` modulo the group order.
pub open spec fn modl(x: int) -> int {
    x % group_order()
}

/// A value already in `[0, ell)` is its own representative.
pub proof fn lemma_modl_small(x: int)
    requires
        0 <= x < group_order(),
    ensures
        modl(x) == x,
{
    vstd::arithmetic::div_mod::lemma_small_mod(x as nat, group_order() as nat);
}

/// `a` and `b` are congruent modulo the group order.
pub open spec fn congruent(a: int, b: int) -> bool {
    modl(a) == modl(b)
}

pub proof fn lemma_congruent_modl(x: int)
    ensures
        congruent(modl(x), x),
{
    vstd::arithmetic::div_mod::lemma_mod_twice(x, group_order());
}

pub proof fn lemma_congruent_add(a: int, a2: int, b: int, b2: int)
    requires
        congruent(a, a2),
        congruent(b, b2),
    ensures
        congruent(a + b, a2 + b2),
{
    vstd::arithmetic::div_mod::lemma_add_mod_noop(a, b, group_order());
    vstd::arithmetic::div_mod::lemma_add_mod_noop(a2, b2, group_order());
}

pub proof fn lemma_congruent_mul(a: int, a2: int, b: int, b2: int)
    requires
        congruent(a, a2),
        congruent(b, b2),
    ensures
        congruent(a * b, a2 * b2),
{
    vstd::arithmetic::div_mod::lemma_mul_mod_noop_general(a, b, group_order());
    vstd::arithmetic::div_mod::lemma_mul_mod_noop_general(a2, b2, group_order());
}

/// An element of the scalar field of the Ristretto group.
#[derive(Clone, Copy, Debug)]
pub struct Scalar {
    bytes: [u8; 32],
}

/// An element of the Ristretto group.
#[derive(Clone, Copy, Debug)]
pub struct Point {
    bytes: [u8; 32],
}

pub broadcast proof fn lemma_scalar_range(s: Scalar)
    ensures
        0 <= #[trigger] s.value() < group_order(),
{
    vstd::arithmetic::div_mod::lemma_mod_pos_bound(le_value(s.bytes@) as int, group_order());
}

/// Relies on `Scalar::from(u64)`: the scalar with that integer value.
#[verifier::external_body]
fn scalar_from_u64(n: u64) -> (r: Scalar)
    ensures
        r.value() == n as int,
{
    Scalar { bytes: curve25519_dalek::Scalar::from(n).to_bytes() }
}

/// Relies on `Scalar::from_bytes_mod_order`: the bytes read as a little-endian
/// integer and reduced modulo the group order.
#[verifier::external_body]
fn scalar_from_bytes_mod_order(b: [u8; 32]) -> (r: Scalar)
    ensures
        r.value() == modl(le_value(b@) as int),
{
    Scalar { bytes: curve25519_dalek::Scalar::from_bytes_mod_order(b).to_bytes() }
}

/// Relies on `Add for Scalar`: the sum modulo the group order.
#[verifier::external_body]
fn scalar_add(a: &Scalar, b: &Scalar) -> (r: Scalar)
    ensures
        r.value() == modl(a.value() + b.value()),
{
    let x = curve25519_dalek::Scalar::from_bytes_mod_order(a.bytes);
    let y = curve25519_dalek::Scalar::from_bytes_mod_order(b.bytes);
    Scalar { bytes: (x + y).to_bytes() }
}

/// Relies on `Sub for Scalar`: the difference modulo the group order.
#[verifier::external_body]
fn scalar_sub(a: &Scalar, b: &Scalar) -> (r: Scalar)
    ensures
        r.value() == modl(a.value() - b.value()),
{
    let x = curve25519_dalek::Scalar::from_bytes_mod_order(a.bytes);
    let y = curve25519_dalek::Scalar::from_bytes_mod_order(b.bytes);
    Scalar { bytes: (x - y).to_bytes() }
}

/// Relies on `Mul for Scalar`: the product modulo the group order.
#[verifier::external_body]
fn scalar_mul(a: &Scalar, b: &Scalar) -> (r: Scalar)
    ensures
        r.value() == modl(a.value() * b.value()),
{
    let x = curve25519_dalek::Scalar::from_bytes_mod_order(a.bytes);
    let y = curve25519_dalek::Scalar::from_bytes_mod_order(b.bytes);
    Scalar { bytes: (x * y).to_bytes() }
}

/// Relies on `Scalar::invert`: for a nonzero scalar, its multiplicative inverse
/// modulo the (prime) group order.
#[verifier::external_body]
fn scalar_invert(a: &Scalar) -> (r: Scalar)
    ensures
        r.value() == scalar_inverse(a.value()),
        a.value() != 0 ==> modl(a.value() * r.value()) == 1,
{
    Scalar { bytes: curve25519_dalek::Scalar::from_bytes_mod_order(a.bytes).invert().to_bytes() }
}

/// Relies on `Scalar::random`: a scalar drawn from the generator; nothing is known of it.
#[verifier::external_body]
fn scalar_random(rng: &mut StdRng) -> (r: Scalar) {
    Scalar { bytes: curve25519_dalek::Scalar::random(rng).to_bytes() }
}

/// Relies on `Scalar::hash_from_bytes::<Sha512>`, which depends on the input alone.
#[verifier::external_body]
fn scalar_hash_from_bytes(input: &Vec<u8>) -> (r: Scalar)
    ensures
        r.value() == modl(sha512_scalar(input@)),
{
    Scalar { bytes: curve25519_dalek::Scalar::hash_from_bytes::<sha2::Sha512>(input.as_slice()).to_bytes() }
}

/// Relies on `Scalar`'s `==`: equal exactly when the reduced values are.
#[verifier::external_body]
fn scalar_eq(a: &Scalar, b: &Scalar) -> (r: bool)
    ensures
        r == (a.value() == b.value()),
{
    curve25519_dalek::Scalar::from_bytes_mod_order(a.bytes)
        == curve25519_dalek::Scalar::from_bytes_mod_order(b.bytes)
}

/// Relies on `Scalar::to_bytes`: the canonical little-endian encoding.
#[verifier::external_body]
fn scalar_to_bytes(a: &Scalar) -> (r: [u8; 32])
    ensures
        le_value(r@) == a.value(),
        r@.len() == 32,
{
    curve25519_dalek::Scalar::from_bytes_mod_order(a.bytes).to_bytes()
}

impl Scalar {
    /// The value of the scalar, in `[0, ell)`.
    pub closed spec fn value(self) -> int {
        modl(le_value(self.bytes@) as int)
    }

    pub fn zero() -> (r: Scalar)
        ensures
            r.value() == 0,
    {
        scalar_from_u64(0)
    }

    pub fn one() -> (r: Scalar)
        ensures
            r.value() == 1,
    {
        scalar_from_u64(1)
    }

    pub fn from_u64(n: u64) -> (r: Scalar)
        ensures
            r.value() == n as int,
    {
        scalar_from_u64(n)
    }

    /// The little-endian integer of `b`, reduced modulo the group order.
    pub fn from_bytes_mod_order(b: [u8; 32]) -> (r: Scalar)
        ensures
            r.value() == modl(le_value(b@) as int),
    {
        scalar_from_bytes_mod_order(b)
    }

    /// The canonical 32-byte little-endian encoding.
    pub fn to_bytes(&self) -> (r: [u8; 32])
        ensures
            le_value(r@) == self.value(),
    {
        scalar_to_bytes(self)
    }

    pub fn random(rng: &mut StdRng) -> (r: Scalar) {
        scalar_random(rng)
    }

    /// The scalar derived from `input` by SHA-512.
    pub fn hash_from_bytes(input: &Vec<u8>) -> (r: Scalar)
        ensures
            r.value() == modl(sha512_scalar(input@)),
    {
        scalar_hash_from_bytes(input)
    }

    pub fn add(&self, o: &Scalar) -> (r: Scalar)
        ensures
            r.value() == modl(self.value() + o.value()),
    {
        scalar_add(self, o)
    }

    pub fn sub(&self, o: &Scalar) -> (r: Scalar)
        ensures
            r.value() == modl(self.value() - o.value()),
    {
        scalar_sub(self, o)
    }

    pub fn mul(&self, o: &Scalar) -> (r: Scalar)
        ensures
            r.value() == modl(self.value() * o.value()),
    {
        scalar_mul(self, o)
    }

    pub fn neg(&self) -> (r: Scalar)
        ensures
            r.value() == modl(-self.value()),
    {
        let z = scalar_from_u64(0);
        scalar_sub(&z, self)
    }

    /// The inverse of a nonzero scalar.
    pub fn invert(&self) -> (r: Scalar)
        ensures
            r.value() == scalar_inverse(self.value()),
            self.value() != 0 ==> modl(self.value() * r.value()) == 1,
    {
        scalar_invert(self)
    }

    pub fn equals(&self, o: &Scalar) -> (r: bool)
        ensures
            r == (self.value() == o.value()),
    {
        scalar_eq(self, o)
    }

    pub fn is_zero(&self) -> (r: bool)
        ensures
            r == (self.value() == 0),
    {
        let z = scalar_from_u64(0);
        scalar_eq(self, &z)
    }
}

/// Relies on `RistrettoPoint::identity` and `compress`: the encoding of `0 * B`.
#[verifier::external_body]
fn point_identity() -> (r: Point)
    ensures
        r.log() == 0,
        r.bytes@ == ristretto_encoding(0),
{
    Point { bytes: curve25519_dalek::RistrettoPoint::identity().compress().to_bytes() }
}

/// Relies on `RistrettoPoint::mul_base` and `compress`: the encoding of `s * B`.
#[verifier::external_body]
fn point_mul_base(s: &Scalar) -> (r: Point)
    ensures
        r.log() == s.value(),
        r.bytes@ == ristretto_encoding(s.value()),
{
    let x = curve25519_dalek::Scalar::from_bytes_mod_order(s.bytes);
    Point { bytes: curve25519_dalek::RistrettoPoint::mul_base(&x).compress().to_bytes() }
}

/// Relies on `Add for RistrettoPoint`: logarithms add modulo the group order.
#[verifier::external_body]
fn point_add(a: &Point, b: &Point) -> (r: Point)
    ensures
        r.log() == modl(a.log() + b.log()),
{
    let x = curve25519_dalek::ristretto::CompressedRistretto(a.bytes).decompress().unwrap();
    let y = curve25519_dalek::ristretto::CompressedRistretto(b.bytes).decompress().unwrap();
    Point { bytes: (x + y).compress().to_bytes() }
}

/// Relies on `Sub for RistrettoPoint`: logarithms subtract modulo the group order.
#[verifier::external_body]
fn point_sub(a: &Point, b: &Point) -> (r: Point)
    ensures
        r.log() == modl(a.log() - b.log()),
{
    let x = curve25519_dalek::ristretto::CompressedRistretto(a.bytes).decompress().unwrap();
    let y = curve25519_dalek::ristretto::CompressedRistretto(b.bytes).decompress().unwrap();
    Point { bytes: (x - y).compress().to_bytes() }
}

/// Relies on `Mul<Scalar> for RistrettoPoint`: the logarithm is multiplied by the scalar.
#[verifier::external_body]
fn point_mul(a: &Point, s: &Scalar) -> (r: Point)
    ensures
        r.log() == modl(a.log() * s.value()),
{
    let x = curve25519_dalek::ristretto::CompressedRistretto(a.bytes).decompress().unwrap();
    let k = curve25519_dalek::Scalar::from_bytes_mod_order(s.bytes);
    Point { bytes: (x * k).compress().to_bytes() }
}

/// Relies on `RistrettoPoint::multiscalar_mul`: the sum of `scalars[i] * points[i]`.
#[verifier::external_body]
fn point_multiscalar_mul(scalars: &Vec<Scalar>, points: &Vec<Point>) -> (r: Point)
    requires
        scalars@.len() == points@.len(),
    ensures
        r.log() == modl(weighted_log_sum(scalars@, points@)),
{
    let ks: Vec<curve25519_dalek::Scalar> =
        scalars.iter().map(|s| curve25519_dalek::Scalar::from_bytes_mod_order(s.bytes)).collect();
    let ps: Vec<curve25519_dalek::RistrettoPoint> = points.iter()
        .map(|p| curve25519_dalek::ristretto::CompressedRistretto(p.bytes).decompress().unwrap()).collect();
    Point { bytes: curve25519_dalek::RistrettoPoint::multiscalar_mul(&ks, &ps).compress().to_bytes() }
}

/// Relies on `CompressedRistretto::decompress`: it succeeds exactly on the canonical
/// encodings of group elements, and every element is a multiple of the basepoint.
#[verifier::external_body]
fn point_decompress(b: [u8; 32]) -> (r: Option<Point>)
    ensures
        r.is_some() == (exists|k: int| encodes_multiple(b@, k)),
        r.is_some() ==> encodes_multiple(b@, r.unwrap().log()),
{
    match curve25519_dalek::ristretto::CompressedRistretto(b).decompress() {
        Some(p) => Some(Point { bytes: p.compress().to_bytes() }),
        None => None,
    }
}

/// Relies on `PedersenGens::default` of bulletproofs: the basepoint `B`, and the
/// blinding generator hashed (SHA3-512) from the basepoint's encoding.
#[verifier::external_body]
fn pedersen_generators() -> (r: (Point, Point))
    ensures
        r.0.log() == 1,
        r.1.bytes@ == ristretto_hash_encoding(ristretto_encoding(1)),
{
    let gens = bulletproofs::PedersenGens::default();
    (Point { bytes: gens.B.compress().to_bytes() }, Point { bytes: gens.B_blinding.compress().to_bytes() })
}

/// `sum_i s[i] * log(p[i])`, over the integers.
pub open spec fn weighted_log_sum(s: Seq<Scalar>, p: Seq<Point>) -> int
    decreases s.len(),
{
    if s.len() == 0 || p.len() == 0 {
        0
    } else {
        weighted_log_sum(s.drop_last(), p.drop_last()) + s.last().value() * p.last().log()
    }
}

fn bytes_eq(a: &[u8; 32], b: &[u8; 32]) -> (r: bool)
    ensures
        r == (a@ == b@),
{
    let mut i: usize = 0;
    while i < 32
        invariant
            0 <= i <= 32,
            a@.len() == 32,
            b@.len() == 32,
            forall|j: int| 0 <= j < i ==> a@[j] == b@[j],
        decreases 32 - i,
    {
        if a[i] != b[i] {
            return false;
        }
        i = i + 1;
    }
    assert(a@ =~= b@);
    true
}

impl Point {
    #[verifier::type_invariant]
    closed spec fn well_formed(self) -> bool {
        exists|k: int| encodes_multiple(self.bytes@, k)
    }

    /// The discrete logarithm of the element with respect to the basepoint, in `[0, ell)`.
    pub closed spec fn log(self) -> int {
        choose|k: int| encodes_multiple(self.bytes@, k)
    }

    /// The group identity.
    pub fn identity() -> (r: Point)
        ensures
            r.log() == 0,
    {
        point_identity()
    }

    /// `s * B` for the basepoint `B`.
    pub fn mul_base(s: &Scalar) -> (r: Point)
        ensures
            r.log() == s.value(),
    {
        point_mul_base(s)
    }

    pub fn add(&self, o: &Point) -> (r: Point)
        ensures
            r.log() == modl(self.log() + o.log()),
    {
        point_add(self, o)
    }

    pub fn sub(&self, o: &Point) -> (r: Point)
        ensures
            r.log() == modl(self.log() - o.log()),
    {
        point_sub(self, o)
    }

    pub fn mul(&self, s: &Scalar) -> (r: Point)
        ensures
            r.log() == modl(self.log() * s.value()),
    {
        point_mul(self, s)
    }

    /// `sum_i scalars[i] * points[i]`.
    pub fn multiscalar_mul(scalars: &Vec<Scalar>, points: &Vec<Point>) -> (r: Point)
        requires
            scalars@.len() == points@.len(),
        ensures
            r.log() == modl(weighted_log_sum(scalars@, points@)),
    {
        point_multiscalar_mul(scalars, points)
    }

    /// The canonical compressed encoding.
    pub fn to_bytes(&self) -> (r: [u8; 32])
        ensures
            encodes_multiple(r@, self.log()),
    {
        proof {
            use_type_invariant(self);
        }
        self.bytes
    }

    /// The element that `b` encodes, if `b` is the canonical encoding of one.
    pub fn from_bytes(b: [u8; 32]) -> (r: Option<Point>)
        ensures
            r.is_some() == (exists|k: int| encodes_multiple(b@, k)),
            r.is_some() ==> encodes_multiple(b@, r.unwrap().log()),
    {
        point_decompress(b)
    }

    pub fn equals(&self, o: &Point) -> (r: bool)
        ensures
            r == (self.log() == o.log()),
    {
        proof {
            use_type_invariant(self);
            use_type_invariant(o);
        }
        bytes_eq(&self.bytes, &o.bytes)
    }

    pub fn is_identity(&self) -> (r: bool)
        ensures
            r == (self.log() == 0),
    {
        let z = point_identity();
        proof {
            use_type_invariant(&z);
        }
        self.equals(&z)
    }
}

/// The logarithm of the Pedersen blinding generator `H`; nobody knows its value.
pub open spec fn blinding_log() -> int {
    choose|k: int| encodes_multiple(ristretto_hash_encoding(ristretto_encoding(1)), k)
}

/// The two Pedersen generators `(G, H)`: `G` is the basepoint and `H` is hashed from
/// its encoding, so that nobody knows the logarithm of `H`.
pub fn pedersen_gens() -> (r: (Point, Point))
    ensures
        r.0.log() == 1,
        r.1.log() == blinding_log(),
{
    pedersen_generators()
}

} // verus!
