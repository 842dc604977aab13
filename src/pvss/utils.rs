//! Helpers of the sharing protocols: bit strings, sampling and scaling polynomials,
//! digests and the serialization of field elements.
use vstd::prelude::*;
use crate::bls::{Fr, modr, be_bits_value, field_order, sha256_of, is_canonical_word, leading_word_value, lemma_fr_range};
use crate::ristretto::le_value;
use crate::pvss::PVSSError;
use rand::rngs::StdRng;

verus! {

broadcast use lemma_fr_range;

/// The bits of `x`, most significant bit of each byte first.
pub open spec fn bits_be(x: Seq<u8>) -> Seq<bool> {
    Seq::new(8 * x.len(), |k: int| (x[k / 8] >> ((7 - k % 8) as u8)) & 1u8 == 1u8)
}

/// The concatenation of the byte strings of `data`.
pub open spec fn concat_all(data: Seq<Vec<u8>>) -> Seq<u8>
    decreases data.len(),
{
    if data.len() == 0 {
        Seq::empty()
    } else {
        concat_all(data.drop_last()) + data.last()@
    }
}

/// Converts bytes to bits, most significant bit of each byte first.
pub fn bytes_to_bits_be(x: &[u8]) -> (output: Vec<bool>)
    requires
        8 * x@.len() <= usize::MAX,
    ensures
        output@ == bits_be(x@),
{
    let mut output: Vec<bool> = Vec::new();
    let mut k: usize = 0;
    while k < x.len()
        invariant
            8 * x@.len() <= usize::MAX,
            k <= x@.len(),
            output@.len() == 8 * k,
            forall|q: int| 0 <= q < 8 * k ==> #[trigger] output@[q] == bits_be(x@)[q],
        decreases x@.len() - k,
    {
        let byte = x[k];
        let mut i: u8 = 8;
        while i > 0
            invariant
                8 * x@.len() <= usize::MAX,
                k < x@.len(),
                byte == x@[k as int],
                i <= 8,
                output@.len() == 8 * k + (8 - i),
                forall|q: int| 0 <= q < 8 * k + (8 - i) ==> #[trigger] output@[q] == bits_be(x@)[q],
            decreases i,
        {
            i = i - 1;
            let bit = ((byte >> i) & 1) == 1;
            proof {
                let q = 8 * k + (7 - i);
                assert(q / 8 == k && q % 8 == 7 - i) by (nonlinear_arith)
                    requires q == 8 * k + (7 - i), 0 <= i < 8;
            }
            output.push(bit);
        }
        k = k + 1;
    }
    assert(output@ =~= bits_be(x@));
    output
}

/// The coefficients of a random polynomial of degree `degree`; with a secret, the
/// constant coefficient is the secret read as a big-endian integer, which must be
/// below the field order.
pub fn sample_poly(secret: Option<&[u8; 32]>, degree: u64, rng: &mut StdRng) -> (r: Result<Vec<Fr>, PVSSError>)
    requires
        degree < usize::MAX,
    ensures
        r is Err <==> (secret matches Some(s) && be_bits_value(bits_be(s@)) >= field_order()),
        r is Err ==> r matches Err(PVSSError::DeserializationError),
        r matches Ok(cs) ==> cs@.len() == degree + 1,
        r matches Ok(cs) ==> (secret matches Some(s) ==> cs@[0].value() == be_bits_value(bits_be(s@))),
{
    let mut coeffs: Vec<Fr> = Vec::new();
    let mut i: u64 = 0;
    while i <= degree
        invariant
            degree < usize::MAX,
            i <= degree + 1,
            coeffs@.len() == i,
        decreases degree + 1 - i,
    {
        coeffs.push(Fr::random(rng));
        i = i + 1;
    }
    match secret {
        Some(s) => {
            let bits = bytes_to_bits_be(s.as_slice());
            match Fr::from_bits_be(&bits) {
                Some(v) => {
                    coeffs.set(0, v);
                },
                None => {
                    return Err(PVSSError::DeserializationError);
                },
            }
        },
        None => {},
    }
    Ok(coeffs)
}

/// The polynomial `c * f(x)`: each coefficient multiplied by `c`.
pub fn poly_eval_mult_c(f: &Vec<Fr>, c: &Fr) -> (r: Vec<Fr>)
    ensures
        r@.len() == f@.len(),
        forall|i: int| 0 <= i < f@.len() ==> #[trigger] r@[i].value() == modr(f@[i].value() * c.value()),
{
    let mut out: Vec<Fr> = Vec::new();
    let mut i: usize = 0;
    while i < f.len()
        invariant
            i <= f@.len(),
            out@.len() == i,
            forall|k: int| 0 <= k < i ==> #[trigger] out@[k].value() == modr(f@[k].value() * c.value()),
        decreases f@.len() - i,
    {
        out.push(f[i].mul(c));
        i = i + 1;
    }
    out
}

/// The SHA-256 digest of the concatenation of `data`.
pub fn digest_sha256(data: &Vec<Vec<u8>>) -> (r: [u8; 32])
    ensures
        r@ == sha256_of(concat_all(data@)),
{
    let mut input: Vec<u8> = Vec::new();
    let mut i: usize = 0;
    while i < data.len()
        invariant
            i <= data@.len(),
            input@ == concat_all(data@.subrange(0, i as int)),
        decreases data@.len() - i,
    {
        crate::polling::push_bytes(&mut input, data[i].as_slice());
        i = i + 1;
        assert(data@.subrange(0, i as int).drop_last() =~= data@.subrange(0, i - 1));
    }
    assert(data@.subrange(0, data@.len() as int) =~= data@);
    crate::bls::sha256(&input)
}

/// Word `k` (32 bytes) of a 96-byte block.
pub open spec fn word_of(msg: Seq<u8>, k: int) -> Seq<u8> {
    msg.subrange(32 * k, 32 * k + 32)
}

/// Copies word `k` of the block.
pub fn block_word(msg: &[u8; 96], k: usize) -> (w: Vec<u8>)
    requires
        k < 3,
    ensures
        w@ == word_of(msg@, k as int),
{
    let mut w: Vec<u8> = Vec::new();
    let mut i: usize = 0;
    while i < 32
        invariant
            k < 3,
            i <= 32,
            msg@.len() == 96,
            w@ == msg@.subrange(32 * k, 32 * k + i),
        decreases 32 - i,
    {
        w.push(msg[32 * k + i]);
        i = i + 1;
        assert(w@ =~= msg@.subrange(32 * k, 32 * k + i));
    }
    w
}

/// Writes the 32 bytes `w` as word `k` of the block.
pub fn put_word(msg: &mut [u8; 96], k: usize, w: &Vec<u8>)
    requires
        k < 3,
        w@.len() == 32,
    ensures
        word_of(final(msg)@, k as int) == w@,
        forall|j: int| 0 <= j < 96 && !(32 * k <= j < 32 * k + 32) ==> #[trigger] final(msg)@[j] == old(msg)@[j],
{
    let mut i: usize = 0;
    while i < 32
        invariant
            k < 3,
            i <= 32,
            w@.len() == 32,
            msg@.len() == 96,
            forall|j: int| 0 <= j < i ==> #[trigger] msg@[32 * k + j] == w@[j],
            forall|j: int| 0 <= j < 96 && !(32 * k <= j < 32 * k + i) ==> #[trigger] msg@[j] == old(msg)@[j],
        decreases 32 - i,
    {
        msg.set(32 * k + i, w[i]);
        i = i + 1;
    }
    assert forall|j: int| 0 <= j < 32 implies #[trigger] word_of(msg@, k as int)[j] == w@[j] by {
        assert(msg@[32 * k + j] == w@[j]);
    }
    assert(word_of(msg@, k as int) =~= w@);
}

/// The serialization of a field element: 32 little-endian bytes.
pub fn serialize(t: &Fr) -> (r: Vec<u8>)
    ensures
        r@.len() == 32,
        le_value(r@) == t.value(),
{
    crate::bls::fr_serialize(t)
}

/// The field element that the first 32 bytes of `buf` encode, if they are canonical.
pub fn deserialize(buf: &[u8]) -> (r: Option<Fr>)
    ensures
        r is Some <==> is_canonical_word(buf@),
        r matches Some(f) ==> f.value() == leading_word_value(buf@),
{
    crate::bls::fr_deserialize(buf)
}

} // verus!
