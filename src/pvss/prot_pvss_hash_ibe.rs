//! Sharing with hash commitments: from polynomials `s` (holding the secret), `r`, `b`
//! and `q`, party `i` (numbered from 1) gets `(s(i), r(i), q(i))`; everybody sees the
//! digests `H(s(i), r(i))` and `H(b(i), q(i))` and the polynomial `w = b - c * s` for
//! the fixed public constant `c`, from which party `i` recomputes `b(i) = w(i) + c * s(i)`.
//!
//! The per-party blocks are returned in the clear; the caller encrypts block `i`
//! under party `i`'s identity and hands the decrypted block back to `verify`.
use vstd::prelude::*;
use crate::bls::{
    Fr, modr, field_order, fr_poly_value, be_bits_value, is_canonical_word, sha256_of, lemma_fr_range, dense_evaluate,
    leading_word_value, congruent_r, lemma_congruent_r_modr, lemma_congruent_r_add, lemma_congruent_r_mul,
    lemma_congruent_r_neg,
};
use crate::ristretto::{le_value, le_encoding32, lemma_le_encoding32};
use crate::pvss::PVSSError;
use crate::pvss::utils::{sample_poly, serialize, deserialize, bits_be, word_of, block_word, put_word, digest_sha256, poly_eval_mult_c, concat_all};
use rand::rngs::StdRng;

verus! {

broadcast use lemma_fr_range;

/// The fixed public challenge of the sharing.
pub const CHALLENGE: u64 = 42;

/// A 32-byte digest.
pub type Hash = [u8; 32];

/// A sharing: the coefficients of `w`, the two digests of each party, and one
/// plaintext block per party.
pub struct Sharing {
    pub committed_secret: Vec<Fr>,
    pub csh: Vec<Hash>,
    pub cpt: Vec<Hash>,
    pub blocks: Vec<[u8; 96]>,
}

/// Coefficient `i` of `cs`, zero beyond its end.
pub open spec fn coef(cs: Seq<Fr>, i: int) -> int {
    if 0 <= i < cs.len() {
        cs[i].value()
    } else {
        0
    }
}

pub open spec fn max_len(a: Seq<Fr>, b: Seq<Fr>) -> int {
    if a.len() >= b.len() {
        a.len() as int
    } else {
        b.len() as int
    }
}

/// `d` is `a - b` coefficient by coefficient, with trailing zeros removed.
pub open spec fn is_poly_difference(d: Seq<Fr>, a: Seq<Fr>, b: Seq<Fr>) -> bool {
    &&& d.len() <= max_len(a, b)
    &&& forall|i: int| 0 <= i < d.len() ==> #[trigger] d[i].value() == modr(coef(a, i) - coef(b, i))
    &&& forall|i: int| d.len() <= i < max_len(a, b) ==> #[trigger] modr(coef(a, i) - coef(b, i)) == 0
    &&& (d.len() == 0 || d.last().value() != 0)
}

/// `a - b` for polynomials given by their coefficients.
pub fn poly_sub(a: &Vec<Fr>, b: &Vec<Fr>) -> (d: Vec<Fr>)
    ensures
        is_poly_difference(d@, a@, b@),
{
    let m = if a.len() >= b.len() { a.len() } else { b.len() };
    let zero = Fr::zero();
    let mut d: Vec<Fr> = Vec::new();
    let mut i: usize = 0;
    while i < m
        invariant
            m == max_len(a@, b@),
            i <= m,
            zero.value() == 0,
            d@.len() == i,
            forall|k: int| 0 <= k < i ==> #[trigger] d@[k].value() == modr(coef(a@, k) - coef(b@, k)),
        decreases m - i,
    {
        let x = if i < a.len() { a[i] } else { zero };
        let y = if i < b.len() { b[i] } else { zero };
        d.push(x.sub(&y));
        i = i + 1;
    }
    let mut len = m;
    while len > 0 && d[len - 1].is_zero()
        invariant
            m == max_len(a@, b@),
            d@.len() == m,
            len <= m,
            forall|k: int| 0 <= k < m ==> #[trigger] d@[k].value() == modr(coef(a@, k) - coef(b@, k)),
            forall|k: int| len <= k < m ==> #[trigger] modr(coef(a@, k) - coef(b@, k)) == 0,
        decreases len,
    {
        len = len - 1;
    }
    d.truncate(len);
    d
}

/// The block of a party: words `s_i`, `r_i`, `q_i`, little-endian.
pub open spec fn block_holds(msg: Seq<u8>, s: int, r: int, q: int) -> bool {
    &&& msg.len() == 96
    &&& le_value(word_of(msg, 0)) == s
    &&& le_value(word_of(msg, 1)) == r
    &&& le_value(word_of(msg, 2)) == q
}

/// `poly(x)` at party `i`'s point `i + 1`, reduced.
pub open spec fn at_party(p: Seq<Fr>, i: int) -> int {
    modr(fr_poly_value(p, i + 1))
}

/// The sharing is made of the polynomials `sp`, `rp`, `bp`, `qp`, with `scaled` the
/// coefficients of `c * s`.
pub open spec fn sharing_of(
    sh: Sharing,
    sp: Seq<Fr>,
    rp: Seq<Fr>,
    bp: Seq<Fr>,
    qp: Seq<Fr>,
    scaled: Seq<Fr>,
    n: int,
) -> bool {
    &&& sh.csh@.len() == n
    &&& sh.cpt@.len() == n
    &&& sh.blocks@.len() == n
    &&& scaled.len() == sp.len()
    &&& forall|j: int| 0 <= j < sp.len() ==> #[trigger] scaled[j].value() == modr(sp[j].value() * CHALLENGE)
    &&& is_poly_difference(sh.committed_secret@, bp, scaled)
    &&& forall|i: int| 0 <= i < n ==> #[trigger] block_holds(
        sh.blocks@[i]@,
        at_party(sp, i),
        at_party(rp, i),
        at_party(qp, i),
    )
    &&& forall|i: int| 0 <= i < n ==> #[trigger] sh.csh@[i]@ == sha256_of(
        le_encoding32(at_party(sp, i)) + le_encoding32(at_party(rp, i)),
    )
    &&& forall|i: int| 0 <= i < n ==> #[trigger] sh.cpt@[i]@ == sha256_of(
        le_encoding32(at_party(bp, i)) + le_encoding32(at_party(qp, i)),
    )
}

fn digest_pair(a: &Vec<u8>, b: &Vec<u8>) -> (r: Hash)
    ensures
        r@ == sha256_of(a@ + b@),
{
    let mut data: Vec<Vec<u8>> = Vec::new();
    data.push(a.clone());
    data.push(b.clone());
    proof {
        reveal_with_fuel(concat_all, 3);
        assert(data@.drop_last().drop_last().len() == 0);
        assert(concat_all(data@) =~= a@ + b@);
    }
    digest_sha256(&data)
}

fn serialize_word(x: &Fr) -> (w: Vec<u8>)
    ensures
        w@ == le_encoding32(x.value()),
        w@.len() == 32,
        le_value(w@) == x.value(),
{
    let w = serialize(x);
    proof {
        lemma_le_encoding32(w@);
    }
    w
}

/// Shares the 32-byte `secret` (a big-endian integer below the field order) with
/// `access = (t, n)`: polynomials of degree `t - 1`, values at `1..n`.
pub fn share(secret: &[u8; 32], access: (u64, u64), rng: &mut StdRng) -> (r: Result<Sharing, PVSSError>)
    requires
        1 <= access.0 < usize::MAX,
        access.1 < u64::MAX,
    ensures
        r is Err <==> be_bits_value(bits_be(secret@)) >= field_order(),
        r is Err ==> r matches Err(PVSSError::DeserializationError),
        r matches Ok(sh) ==> exists|sp: Seq<Fr>, rp: Seq<Fr>, bp: Seq<Fr>, qp: Seq<Fr>, scaled: Seq<Fr>|
            sp.len() == access.0 && rp.len() == access.0 && bp.len() == access.0
                && qp.len() == access.0 && sp[0].value() == be_bits_value(bits_be(secret@))
                && sharing_of(sh, sp, rp, bp, qp, scaled, access.1 as int),
{
    let (t, n) = access;
    let s_poly = sample_poly(Some(secret), t - 1, rng)?;
    let r_poly = match sample_poly(None, t - 1, rng) {
        Ok(p) => p,
        Err(e) => {
            return Err(e);
        },
    };
    let b_poly = match sample_poly(None, t - 1, rng) {
        Ok(p) => p,
        Err(e) => {
            return Err(e);
        },
    };
    let q_poly = match sample_poly(None, t - 1, rng) {
        Ok(p) => p,
        Err(e) => {
            return Err(e);
        },
    };
    let mut csh: Vec<Hash> = Vec::new();
    let mut cpt: Vec<Hash> = Vec::new();
    let mut blocks: Vec<[u8; 96]> = Vec::new();
    let mut i: u64 = 0;
    while i < n
        invariant
            i <= n,
            n < u64::MAX,
            csh@.len() == i,
            cpt@.len() == i,
            blocks@.len() == i,
            forall|k: int| 0 <= k < i ==> #[trigger] block_holds(
                blocks@[k]@,
                at_party(s_poly@, k),
                at_party(r_poly@, k),
                at_party(q_poly@, k),
            ),
            forall|k: int| 0 <= k < i ==> #[trigger] csh@[k]@ == sha256_of(
                le_encoding32(at_party(s_poly@, k)) + le_encoding32(at_party(r_poly@, k)),
            ),
            forall|k: int| 0 <= k < i ==> #[trigger] cpt@[k]@ == sha256_of(
                le_encoding32(at_party(b_poly@, k)) + le_encoding32(at_party(q_poly@, k)),
            ),
        decreases n - i,
    {
        let x = Fr::from_u64(i + 1);
        let s_i = serialize_word(&dense_evaluate(&s_poly, &x));
        let r_i = serialize_word(&dense_evaluate(&r_poly, &x));
        let b_i = serialize_word(&dense_evaluate(&b_poly, &x));
        let q_i = serialize_word(&dense_evaluate(&q_poly, &x));
        csh.push(digest_pair(&s_i, &r_i));
        cpt.push(digest_pair(&b_i, &q_i));
        let mut msg: [u8; 96] = [0; 96];
        put_word(&mut msg, 0, &s_i);
        let ghost after0 = msg@;
        put_word(&mut msg, 1, &r_i);
        let ghost after1 = msg@;
        put_word(&mut msg, 2, &q_i);
        proof {
            assert(word_of(msg@, 0) =~= word_of(after0, 0));
            assert(word_of(msg@, 1) =~= word_of(after1, 1));
            lemma_le_encoding32(s_i@);
            assert(block_holds(msg@, at_party(s_poly@, i as int), at_party(r_poly@, i as int), at_party(q_poly@, i as int)));
        }
        blocks.push(msg);
        i = i + 1;
    }
    let chal = Fr::from_u64(CHALLENGE);
    let scaled = poly_eval_mult_c(&s_poly, &chal);
    let w_poly = poly_sub(&b_poly, &scaled);
    let sh = Sharing { committed_secret: w_poly, csh, cpt, blocks };
    assert(sharing_of(sh, s_poly@, r_poly@, b_poly@, q_poly@, scaled@, n as int));
    let res: Result<Sharing, PVSSError> = Ok(sh);
    assert(res matches Ok(v) && sharing_of(v, s_poly@, r_poly@, b_poly@, q_poly@, scaled@, n as int));
    res
}

/// The value `w(i + 1) + c * s` that party `i` recomputes as `b(i + 1)`.
pub open spec fn recomputed_b(sh: Sharing, index: int, s: int) -> int {
    modr(modr(fr_poly_value(sh.committed_secret@, index + 1)) + modr(CHALLENGE * s))
}

/// Party `index`'s block `msg` is accepted.
pub open spec fn block_accepted(sh: Sharing, t: int, index: int, msg: Seq<u8>) -> bool {
    &&& sh.committed_secret@.len() <= t
    &&& index < sh.csh@.len()
    &&& index < sh.cpt@.len()
    &&& is_canonical_word(word_of(msg, 0))
    &&& is_canonical_word(word_of(msg, 1))
    &&& is_canonical_word(word_of(msg, 2))
    &&& sh.csh@[index]@ == sha256_of(word_of(msg, 0) + word_of(msg, 1))
    &&& sh.cpt@[index]@ == sha256_of(
        le_encoding32(recomputed_b(sh, index, le_value(word_of(msg, 0)) as int)) + word_of(msg, 2),
    )
}

fn hash_eq(a: &Hash, b: &Hash) -> (r: bool)
    ensures
        r == (a@ == b@),
{
    let mut i: usize = 0;
    while i < 32
        invariant
            0 <= i <= 32,
            a@.len() == 32,
            b@.len() == 32,
            forall|j: int| 0 <= j < i ==> a@[j] == b@[j],
        decreases 32 - i,
    {
        if a[i] != b[i] {
            return false;
        }
        i = i + 1;
    }
    assert(a@ =~= b@);
    true
}

/// The three words of the block are canonical field elements.
pub open spec fn block_canonical(msg: Seq<u8>) -> bool {
    &&& is_canonical_word(word_of(msg, 0))
    &&& is_canonical_word(word_of(msg, 1))
    &&& is_canonical_word(word_of(msg, 2))
}

/// Checks party `index`'s decrypted block `msg` against the sharing: `w` must have
/// degree at most `t - 1`, the block must hold three canonical field elements
/// `(s, r, q)`, `H(s, r)` must be the party's first digest and `H(w(i) + c * s, q)` its
/// second.
pub fn verify(sharing: &Sharing, access: (u64, u64), index: usize, msg: &[u8; 96]) -> (r: Result<(), PVSSError>)
    requires
        access.0 < u64::MAX,
        index < u64::MAX,
    ensures
        r is Ok <==> block_accepted(*sharing, access.0 as int, index as int, msg@),
        r matches Err(PVSSError::ThresholdViolation) <==> sharing.committed_secret@.len() > access.0,
        r matches Err(PVSSError::DimensionMismatch) <==> sharing.committed_secret@.len() <= access.0
            && (index >= sharing.csh@.len() || index >= sharing.cpt@.len()),
        r matches Err(PVSSError::DeserializationError) <==> sharing.committed_secret@.len() <= access.0
            && index < sharing.csh@.len() && index < sharing.cpt@.len() && !block_canonical(msg@),
        r matches Err(PVSSError::InvalidOpening) <==> sharing.committed_secret@.len() <= access.0
            && index < sharing.csh@.len() && index < sharing.cpt@.len() && block_canonical(msg@)
            && !block_accepted(*sharing, access.0 as int, index as int, msg@),
{
    let (t, _n) = access;
    if sharing.committed_secret.len() as u64 > t {
        return Err(PVSSError::ThresholdViolation);
    }
    if index >= sharing.csh.len() || index >= sharing.cpt.len() {
        return Err(PVSSError::DimensionMismatch);
    }
    let w0 = block_word(msg, 0);
    let w1 = block_word(msg, 1);
    let w2 = block_word(msg, 2);
    proof {
        assert(w0@.subrange(0, 32) =~= w0@);
        assert(w1@.subrange(0, 32) =~= w1@);
        assert(w2@.subrange(0, 32) =~= w2@);
    }
    let s = match deserialize(w0.as_slice()) {
        Some(v) => v,
        None => {
            return Err(PVSSError::DeserializationError);
        },
    };
    if deserialize(w1.as_slice()).is_none() || deserialize(w2.as_slice()).is_none() {
        return Err(PVSSError::DeserializationError);
    }
    let chal = Fr::from_u64(CHALLENGE);
    let x = Fr::from_u64(index as u64 + 1);
    let lhs = dense_evaluate(&sharing.committed_secret, &x).add(&chal.mul(&s));
    if !hash_eq(&sharing.csh[index], &digest_pair(&w0, &w1)) {
        return Err(PVSSError::InvalidOpening);
    }
    if !hash_eq(&sharing.cpt[index], &digest_pair(&serialize_word(&lhs), &w2)) {
        return Err(PVSSError::InvalidOpening);
    }
    Ok(())
}

/// `sum_{k <= j < len} c(j) * x^(j - k)`, in nested form.
pub open spec fn coef_poly(c: spec_fn(int) -> int, k: int, len: int, x: int) -> int
    decreases len - k,
{
    if k >= len {
        0
    } else {
        c(k) + x * coef_poly(c, k + 1, len, x)
    }
}

proof fn lemma_coef_poly_of_seq(cs: Seq<Fr>, k: int, x: int)
    requires
        0 <= k <= cs.len(),
    ensures
        fr_poly_value(cs.subrange(k, cs.len() as int), x) == coef_poly(|j: int| coef(cs, j), k, cs.len() as int, x),
    decreases cs.len() - k,
{
    if k < cs.len() {
        lemma_coef_poly_of_seq(cs, k + 1, x);
        assert(cs.subrange(k, cs.len() as int).drop_first() =~= cs.subrange(k + 1, cs.len() as int));
    }
}

proof fn lemma_coef_poly_zero_tail(c: spec_fn(int) -> int, k: int, len2: int, x: int)
    requires
        forall|j: int| k <= j < len2 ==> congruent_r(#[trigger] c(j), 0),
    ensures
        congruent_r(coef_poly(c, k, len2, x), 0),
    decreases len2 - k,
{
    if k < len2 {
        lemma_coef_poly_zero_tail(c, k + 1, len2, x);
        lemma_congruent_r_mul(x, x, coef_poly(c, k + 1, len2, x), 0);
        lemma_congruent_r_add(c(k), 0, x * coef_poly(c, k + 1, len2, x), x * 0);
    }
}

/// Coefficients that vanish modulo `r` beyond `len` do not change the value.
proof fn lemma_coef_poly_extend(c: spec_fn(int) -> int, k: int, len: int, len2: int, x: int)
    requires
        k <= len <= len2,
        forall|j: int| len <= j < len2 ==> congruent_r(#[trigger] c(j), 0),
    ensures
        congruent_r(coef_poly(c, k, len, x), coef_poly(c, k, len2, x)),
    decreases len - k,
{
    if k < len {
        lemma_coef_poly_extend(c, k + 1, len, len2, x);
        lemma_congruent_r_mul(x, x, coef_poly(c, k + 1, len, x), coef_poly(c, k + 1, len2, x));
        lemma_congruent_r_add(c(k), c(k), x * coef_poly(c, k + 1, len, x), x * coef_poly(c, k + 1, len2, x));
    } else {
        lemma_coef_poly_zero_tail(c, len, len2, x);
    }
}

/// Coefficients congruent one by one give congruent values.
proof fn lemma_coef_poly_congruent(c: spec_fn(int) -> int, d: spec_fn(int) -> int, k: int, len: int, x: int)
    requires
        forall|j: int| k <= j < len ==> congruent_r(#[trigger] c(j), d(j)),
    ensures
        congruent_r(coef_poly(c, k, len, x), coef_poly(d, k, len, x)),
    decreases len - k,
{
    if k < len {
        lemma_coef_poly_congruent(c, d, k + 1, len, x);
        lemma_congruent_r_mul(x, x, coef_poly(c, k + 1, len, x), coef_poly(d, k + 1, len, x));
        lemma_congruent_r_add(c(k), d(k), x * coef_poly(c, k + 1, len, x), x * coef_poly(d, k + 1, len, x));
    }
}

/// The value of `a - m * b` is the value of `a` minus `m` times the value of `b`.
proof fn lemma_coef_poly_linear(a: spec_fn(int) -> int, b: spec_fn(int) -> int, m: int, k: int, len: int, x: int)
    ensures
        coef_poly(|j: int| a(j) - m * b(j), k, len, x) == coef_poly(a, k, len, x) - m * coef_poly(b, k, len, x),
    decreases len - k,
{
    if k < len {
        lemma_coef_poly_linear(a, b, m, k + 1, len, x);
        let pa = coef_poly(a, k + 1, len, x);
        let pb = coef_poly(b, k + 1, len, x);
        assert((a(k) - m * b(k)) + x * (pa - m * pb) == (a(k) + x * pa) - m * (b(k) + x * pb)) by (nonlinear_arith);
    }
}

proof fn lemma_value_of(cs: Seq<Fr>, x: int)
    ensures
        fr_poly_value(cs, x) == coef_poly(|j: int| coef(cs, j), 0, cs.len() as int, x),
{
    lemma_coef_poly_of_seq(cs, 0, x);
    assert(cs.subrange(0, cs.len() as int) =~= cs);
}

/// `w = b - c * s` evaluates to `b(x) - c * s(x)` modulo `r`.
proof fn lemma_difference_value(w: Seq<Fr>, bp: Seq<Fr>, sp: Seq<Fr>, scaled: Seq<Fr>, x: int)
    requires
        scaled.len() == sp.len(),
        forall|j: int| 0 <= j < sp.len() ==> #[trigger] scaled[j].value() == modr(sp[j].value() * CHALLENGE),
        is_poly_difference(w, bp, scaled),
    ensures
        congruent_r(fr_poly_value(w, x), fr_poly_value(bp, x) - CHALLENGE * fr_poly_value(sp, x)),
{
    let m = max_len(bp, scaled);
    let cw = |j: int| coef(w, j);
    let cb = |j: int| coef(bp, j);
    let cs = |j: int| coef(sp, j);
    let target = |j: int| cb(j) - CHALLENGE * cs(j);
    lemma_value_of(w, x);
    lemma_value_of(bp, x);
    lemma_value_of(sp, x);
    // w, extended by zeros to the common length
    assert forall|j: int| w.len() <= j < m implies congruent_r(#[trigger] cw(j), 0) by {}
    lemma_coef_poly_extend(cw, 0, w.len() as int, m, x);
    // coefficient by coefficient, w is b - c * s
    assert forall|j: int| 0 <= j < m implies congruent_r(#[trigger] cw(j), target(j)) by {
        let d = coef(bp, j) - coef(scaled, j);
        let e = coef(bp, j) - coef(sp, j) * CHALLENGE;
        if j < sp.len() {
            lemma_congruent_r_modr(coef(sp, j) * CHALLENGE);
        } else {
            assert(coef(scaled, j) == 0 && coef(sp, j) == 0);
        }
        lemma_congruent_r_neg(coef(scaled, j), coef(sp, j) * CHALLENGE);
        lemma_congruent_r_add(coef(bp, j), coef(bp, j), -coef(scaled, j), -(coef(sp, j) * CHALLENGE));
        lemma_congruent_r_modr(d);
        if j >= w.len() {
            vstd::arithmetic::div_mod::lemma_small_mod(0, field_order() as nat);
        }
        vstd::arithmetic::mul::lemma_mul_is_commutative(CHALLENGE as int, coef(sp, j));
        assert(target(j) == e);
    }
    lemma_coef_poly_congruent(cw, target, 0, m, x);
    lemma_coef_poly_linear(cb, cs, CHALLENGE as int, 0, m, x);
    assert(forall|j: int| bp.len() <= j < m ==> congruent_r(#[trigger] cb(j), 0));
    assert(forall|j: int| sp.len() <= j < m ==> congruent_r(#[trigger] cs(j), 0));
    lemma_coef_poly_extend(cb, 0, bp.len() as int, m, x);
    lemma_coef_poly_extend(cs, 0, sp.len() as int, m, x);
    let pb = coef_poly(cb, 0, bp.len() as int, x);
    let pb2 = coef_poly(cb, 0, m, x);
    let ps = coef_poly(cs, 0, sp.len() as int, x);
    let ps2 = coef_poly(cs, 0, m, x);
    lemma_congruent_r_mul(CHALLENGE as int, CHALLENGE as int, ps2, ps);
    lemma_congruent_r_neg(CHALLENGE * ps2, CHALLENGE * ps);
    lemma_congruent_r_add(pb2, pb, -(CHALLENGE * ps2), -(CHALLENGE * ps));
    assert(pb2 - CHALLENGE * ps2 == pb2 + -(CHALLENGE * ps2));
}

proof fn lemma_word_canonical(msg: Seq<u8>, k: int, v: int)
    requires
        msg.len() == 96,
        0 <= k < 3,
        le_value(word_of(msg, k)) == v,
        0 <= v < field_order(),
    ensures
        is_canonical_word(word_of(msg, k)),
        le_encoding32(v) == word_of(msg, k),
{
    let w = word_of(msg, k);
    assert(w.subrange(0, 32) =~= w);
    lemma_le_encoding32(w);
}

/// Every honest party's block is accepted: for a sharing made of polynomials of
/// degree `t - 1`, `verify` accepts block `i` for each party `i`.
pub proof fn lemma_honest_blocks_accepted(
    sh: Sharing,
    sp: Seq<Fr>,
    rp: Seq<Fr>,
    bp: Seq<Fr>,
    qp: Seq<Fr>,
    scaled: Seq<Fr>,
    t: int,
    n: int,
    i: int,
)
    requires
        sharing_of(sh, sp, rp, bp, qp, scaled, n),
        sp.len() == t,
        bp.len() == t,
        0 <= i < n,
    ensures
        block_accepted(sh, t, i, sh.blocks@[i]@),
{
    let msg = sh.blocks@[i]@;
    let s_i = at_party(sp, i);
    let b_i = at_party(bp, i);
    let x = i + 1;
    assert(block_holds(msg, s_i, at_party(rp, i), at_party(qp, i)));
    vstd::arithmetic::div_mod::lemma_mod_bound(fr_poly_value(sp, x), field_order());
    vstd::arithmetic::div_mod::lemma_mod_bound(fr_poly_value(rp, x), field_order());
    vstd::arithmetic::div_mod::lemma_mod_bound(fr_poly_value(qp, x), field_order());
    vstd::arithmetic::div_mod::lemma_mod_bound(fr_poly_value(bp, x), field_order());
    lemma_word_canonical(msg, 0, s_i);
    lemma_word_canonical(msg, 1, at_party(rp, i));
    lemma_word_canonical(msg, 2, at_party(qp, i));
    // w(x) + c * s(x) = b(x) modulo r
    let pw = fr_poly_value(sh.committed_secret@, x);
    let pb = fr_poly_value(bp, x);
    let ps = fr_poly_value(sp, x);
    lemma_difference_value(sh.committed_secret@, bp, sp, scaled, x);
    lemma_congruent_r_modr(pw);
    lemma_congruent_r_modr(ps);
    lemma_congruent_r_mul(CHALLENGE as int, CHALLENGE as int, s_i, ps);
    lemma_congruent_r_modr(CHALLENGE * s_i);
    lemma_congruent_r_add(modr(pw), pb - CHALLENGE * ps, modr(CHALLENGE * s_i), CHALLENGE * ps);
    assert(pb - CHALLENGE * ps + CHALLENGE * ps == pb);
    assert(recomputed_b(sh, i, s_i) == b_i);
}

} // verus!
