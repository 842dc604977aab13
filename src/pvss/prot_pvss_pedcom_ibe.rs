//! Sharing with Pedersen commitments: party `i` (numbered from 1) gets `(s(i), r(i))`
//! of a secret polynomial `s` and a blinding polynomial `r`, and everybody sees the
//! commitments `s(i) * G + r(i) * H`, which must pass the SCRAPE test.
//!
//! The per-party blocks are returned in the clear; the caller encrypts block `i`
//! under party `i`'s identity and hands the decrypted block back to `verify`.
use vstd::prelude::*;
use crate::bls::{Fr, G1, modr, field_order, fr_poly_value, be_bits_value, is_canonical_word, leading_word_value, lemma_fr_range, dense_evaluate};
use crate::ristretto::le_value;
use crate::pvss::PVSSError;
use crate::pvss::pedcom::{PedComParams, PedComCommitment, commit, commitment_log, degree_check, scrape_check_passes};
use crate::pvss::utils::{sample_poly, serialize, deserialize, bits_be, word_of, block_word, put_word};
use rand::rngs::StdRng;

verus! {

broadcast use lemma_fr_range;

/// A sharing: one commitment and one plaintext block per party.
pub struct Sharing {
    pub commitments: Vec<PedComCommitment>,
    pub blocks: Vec<[u8; 96]>,
}

/// Block of a party: words `s_i` and `r_i`, little-endian, then zeros.
pub open spec fn block_holds(msg: Seq<u8>, s: int, r: int) -> bool {
    &&& msg.len() == 96
    &&& le_value(word_of(msg, 0)) == s
    &&& le_value(word_of(msg, 1)) == r
    &&& forall|j: int| 64 <= j < 96 ==> #[trigger] msg[j] == 0u8
}

/// The sharing is made of the polynomials `sp` and `rp`.
pub open spec fn sharing_of(params: PedComParams, sh: Sharing, sp: Seq<Fr>, rp: Seq<Fr>, n: int) -> bool {
    &&& sh.commitments@.len() == n
    &&& sh.blocks@.len() == n
    &&& forall|i: int| 0 <= i < n ==> #[trigger] sh.commitments@[i].log() == commitment_log(
        params,
        modr(fr_poly_value(sp, i + 1)),
        modr(fr_poly_value(rp, i + 1)),
    )
    &&& forall|i: int| 0 <= i < n ==> #[trigger] block_holds(
        sh.blocks@[i]@,
        modr(fr_poly_value(sp, i + 1)),
        modr(fr_poly_value(rp, i + 1)),
    )
}

/// Shares the 32-byte `secret` (a big-endian integer below the field order) with
/// `access = (t, n)`: polynomials of degree `t - 1`, values at `1..n`.
pub fn share(pedcom_params: &PedComParams, secret: &[u8; 32], access: (u64, u64), rng: &mut StdRng) -> (r: Result<Sharing, PVSSError>)
    requires
        1 <= access.0 < usize::MAX,
        access.1 < u64::MAX,
    ensures
        r is Err <==> be_bits_value(bits_be(secret@)) >= field_order(),
        r is Err ==> r matches Err(PVSSError::DeserializationError),
        r matches Ok(sh) ==> exists|sp: Seq<Fr>, rp: Seq<Fr>|
            sp.len() == access.0 && rp.len() == access.0
                && sp[0].value() == be_bits_value(bits_be(secret@))
                && sharing_of(*pedcom_params, sh, sp, rp, access.1 as int),
{
    let (t, n) = access;
    let secret_poly = sample_poly(Some(secret), t - 1, rng)?;
    let random_poly = match sample_poly(None, t - 1, rng) {
        Ok(p) => p,
        Err(e) => {
            return Err(e);
        },
    };
    let mut commitments: Vec<PedComCommitment> = Vec::new();
    let mut blocks: Vec<[u8; 96]> = Vec::new();
    let mut i: u64 = 0;
    while i < n
        invariant
            i <= n,
            n < u64::MAX,
            commitments@.len() == i,
            blocks@.len() == i,
            forall|k: int| 0 <= k < i ==> #[trigger] commitments@[k].log() == commitment_log(
                *pedcom_params,
                modr(fr_poly_value(secret_poly@, k + 1)),
                modr(fr_poly_value(random_poly@, k + 1)),
            ),
            forall|k: int| 0 <= k < i ==> #[trigger] block_holds(
                blocks@[k]@,
                modr(fr_poly_value(secret_poly@, k + 1)),
                modr(fr_poly_value(random_poly@, k + 1)),
            ),
        decreases n - i,
    {
        let x = Fr::from_u64(i + 1);
        let secret_y = dense_evaluate(&secret_poly, &x);
        let random_y = dense_evaluate(&random_poly, &x);
        commitments.push(commit(pedcom_params, secret_y, random_y));
        let mut msg: [u8; 96] = [0; 96];
        let ghost zeros = msg@;
        assert(forall|j: int| 0 <= j < 96 ==> #[trigger] zeros[j] == 0u8);
        let sw = serialize(&secret_y);
        let rw = serialize(&random_y);
        put_word(&mut msg, 0, &sw);
        let ghost after0 = msg@;
        put_word(&mut msg, 1, &rw);
        proof {
            assert(word_of(msg@, 0) =~= word_of(after0, 0));
            assert(forall|j: int| 64 <= j < 96 ==> #[trigger] msg@[j] == 0u8);
            assert(block_holds(msg@, modr(fr_poly_value(secret_poly@, i + 1)), modr(fr_poly_value(random_poly@, i + 1))));
        }
        blocks.push(msg);
        i = i + 1;
    }
    let sh = Sharing { commitments, blocks };
    assert(sharing_of(*pedcom_params, sh, secret_poly@, random_poly@, n as int));
    let res: Result<Sharing, PVSSError> = Ok(sh);
    assert(res matches Ok(v) && sharing_of(*pedcom_params, v, secret_poly@, random_poly@, n as int));
    res
}

/// Party `index`'s block holds two canonical field elements that open the party's
/// commitment.
pub open spec fn block_opens(params: PedComParams, sharing: Sharing, index: int, msg: Seq<u8>) -> bool {
    &&& is_canonical_word(word_of(msg, 0))
    &&& is_canonical_word(word_of(msg, 1))
    &&& sharing.commitments@[index].log() == commitment_log(
        params,
        le_value(word_of(msg, 0)) as int,
        le_value(word_of(msg, 1)) as int,
    )
}

/// Checks party `index`'s decrypted block `msg` against the sharing: the block must
/// hold two canonical field elements `(s, r)`, the party's commitment must be
/// `s * G + r * H`, and the commitments must pass the SCRAPE test for degree `t - 1`
/// with a check polynomial drawn from `rng`.
pub fn verify(
    pedcom_params: &PedComParams,
    sharing: &Sharing,
    access: (u64, u64),
    index: usize,
    msg: &[u8; 96],
    rng: &mut StdRng,
) -> (r: Result<(), PVSSError>)
    requires
        sharing.commitments@.len() < u64::MAX,
        1 <= access.0 < u64::MAX - 2,
    ensures
        r matches Err(PVSSError::DimensionMismatch) <==> index >= sharing.commitments@.len(),
        r matches Err(PVSSError::DeserializationError) <==> index < sharing.commitments@.len()
            && !(is_canonical_word(word_of(msg@, 0)) && is_canonical_word(word_of(msg@, 1))),
        r matches Err(PVSSError::InvalidOpening) <==> index < sharing.commitments@.len()
            && is_canonical_word(word_of(msg@, 0)) && is_canonical_word(word_of(msg@, 1))
            && !block_opens(*pedcom_params, *sharing, index as int, msg@),
        index < sharing.commitments@.len() && block_opens(*pedcom_params, *sharing, index as int, msg@)
            ==> (r is Ok || r matches Err(PVSSError::ThresholdViolation)),
        index < sharing.commitments@.len() && block_opens(*pedcom_params, *sharing, index as int, msg@)
            && sharing.commitments@.len() < access.0 + 1 ==> r is Ok,
        r is Ok ==> index < sharing.commitments@.len() && block_opens(*pedcom_params, *sharing, index as int, msg@)
            && (sharing.commitments@.len() < access.0 + 1 || exists|z: Seq<Fr>|
                z.len() == sharing.commitments@.len() - access.0 && scrape_check_passes(sharing.commitments@, z)),
{
    let (t, _n) = access;
    if index >= sharing.commitments.len() {
        return Err(PVSSError::DimensionMismatch);
    }
    let w0 = block_word(msg, 0);
    let w1 = block_word(msg, 1);
    proof {
        assert(w0@.subrange(0, 32) =~= w0@);
        assert(w1@.subrange(0, 32) =~= w1@);
    }
    let s = match deserialize(w0.as_slice()) {
        Some(v) => v,
        None => {
            return Err(PVSSError::DeserializationError);
        },
    };
    let r = match deserialize(w1.as_slice()) {
        Some(v) => v,
        None => {
            return Err(PVSSError::DeserializationError);
        },
    };
    if !sharing.commitments[index].equals(&commit(pedcom_params, s, r)) {
        return Err(PVSSError::InvalidOpening);
    }
    if !degree_check(sharing.commitments.as_slice(), t - 1, rng) {
        return Err(PVSSError::ThresholdViolation);
    }
    Ok(())
}

/// Every honest party's block opens its commitment: for a sharing made of these
/// polynomials, block `i` holds two canonical field elements `(s, r)` and commitment
/// `i` is `s * G + r * H`, so `verify` can fail for it only in the SCRAPE test.
pub proof fn lemma_honest_blocks_open(params: PedComParams, sh: Sharing, sp: Seq<Fr>, rp: Seq<Fr>, n: int, i: int)
    requires
        sharing_of(params, sh, sp, rp, n),
        0 <= i < n,
    ensures
        is_canonical_word(word_of(sh.blocks@[i]@, 0)),
        is_canonical_word(word_of(sh.blocks@[i]@, 1)),
        sh.commitments@[i].log() == commitment_log(
            params,
            le_value(word_of(sh.blocks@[i]@, 0)) as int,
            le_value(word_of(sh.blocks@[i]@, 1)) as int,
        ),
{
    let msg = sh.blocks@[i]@;
    assert(block_holds(msg, modr(fr_poly_value(sp, i + 1)), modr(fr_poly_value(rp, i + 1))));
    vstd::arithmetic::div_mod::lemma_mod_bound(fr_poly_value(sp, i + 1), field_order());
    vstd::arithmetic::div_mod::lemma_mod_bound(fr_poly_value(rp, i + 1), field_order());
    assert(word_of(msg, 0).subrange(0, 32) =~= word_of(msg, 0));
    assert(word_of(msg, 1).subrange(0, 32) =~= word_of(msg, 1));
}

} // verus!
