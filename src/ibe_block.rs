//! The fixed-size blocks that the lattice IBE encrypts: a message or an identity is a
//! vector of `N0` small integers. A byte block is spread over it one bit per entry,
//! least significant bit first; an identity one byte per entry.
use vstd::prelude::*;

verus! {

/// Length of the IBE's message and identity vectors.
pub const N0: usize = 1024;

/// Bit `k` (0 = least significant) of `b`, as an entry of a message vector.
pub open spec fn bit_of(b: u8, k: u8) -> i64 {
    ((b >> k) & 1u8) as i64
}

/// `msg` spreads `bytes` one bit per entry, zero beyond.
pub open spec fn spreads_bits(bytes: Seq<u8>, msg: Seq<i64>) -> bool {
    &&& msg.len() == N0
    &&& forall|i: int| 0 <= i < 8 * bytes.len() ==> #[trigger] msg[i] == bit_of(bytes[i / 8], (i % 8) as u8)
    &&& forall|i: int| 8 * bytes.len() <= i < N0 ==> #[trigger] msg[i] == 0
}

/// The byte gathered from entries `8 * k .. 8 * k + upto` of `msg`, keeping the lowest
/// bit of each entry.
pub open spec fn gathered_byte(msg: Seq<i64>, k: int, upto: int) -> u8
    decreases upto,
{
    if upto <= 0 {
        0
    } else {
        gathered_byte(msg, k, upto - 1) | ((((msg[8 * k + upto - 1] & 1) as u8) << ((upto - 1) as u8)) as u8)
    }
}

/// `id` copied entry by entry, zero beyond.
pub open spec fn spreads_bytes(id: Seq<u8>, msg: Seq<i64>) -> bool {
    &&& msg.len() == N0
    &&& forall|i: int| 0 <= i < id.len() ==> #[trigger] msg[i] == id[i] as i64
    &&& forall|i: int| id.len() <= i < N0 ==> #[trigger] msg[i] == 0
}

pub fn spread_bits(bytes: &[u8]) -> (msg: [i64; N0])
    requires
        8 * bytes@.len() <= N0,
    ensures
        spreads_bits(bytes@, msg@),
{
    let mut msg = [0i64; N0];
    let mut byte_idx: usize = 0;
    while byte_idx < bytes.len()
        invariant
            8 * bytes@.len() <= N0,
            byte_idx <= bytes@.len(),
            msg@.len() == N0,
            forall|i: int| 0 <= i < 8 * byte_idx ==> #[trigger] msg@[i] == bit_of(bytes@[i / 8], (i % 8) as u8),
            forall|i: int| 8 * byte_idx <= i < N0 ==> #[trigger] msg@[i] == 0,
        decreases bytes@.len() - byte_idx,
    {
        let b = bytes[byte_idx];
        let base = byte_idx * 8;
        let mut bit: u8 = 0;
        while bit < 8
            invariant
                8 * bytes@.len() <= N0,
                byte_idx < bytes@.len(),
                base == 8 * byte_idx,
                b == bytes@[byte_idx as int],
                bit <= 8,
                msg@.len() == N0,
                forall|i: int| 0 <= i < base + bit ==> #[trigger] msg@[i] == bit_of(bytes@[i / 8], (i % 8) as u8),
                forall|i: int| base + bit <= i < N0 ==> #[trigger] msg@[i] == 0,
            decreases 8 - bit,
        {
            let bitval = (b >> bit) & 1;
            msg.set(base + bit as usize, bitval as i64);
            proof {
                let i = base + bit;
                assert(i / 8 == byte_idx && i % 8 == bit) by (nonlinear_arith)
                    requires i == 8 * byte_idx + bit, bit < 8;
            }
            bit = bit + 1;
        }
        byte_idx = byte_idx + 1;
    }
    msg
}

pub fn gather_bits(msg: &[i64; N0], out: &mut [u8])
    requires
        8 * old(out)@.len() <= N0,
    ensures
        final(out)@.len() == old(out)@.len(),
        forall|k: int| 0 <= k < old(out)@.len() ==> #[trigger] final(out)@[k] == gathered_byte(msg@, k, 8),
{
    let len = out.len();
    let mut byte: usize = 0;
    while byte < len
        invariant
            len == out@.len(),
            8 * len <= N0,
            msg@.len() == N0,
            byte <= len,
            forall|k: int| 0 <= k < byte ==> #[trigger] out@[k] == gathered_byte(msg@, k, 8),
        decreases len - byte,
    {
        let mut acc: u8 = 0;
        let mut offset: usize = 0;
        while offset < 8
            invariant
                byte < len,
                8 * len <= N0,
                msg@.len() == N0,
                offset <= 8,
                acc == gathered_byte(msg@, byte as int, offset as int),
            decreases 8 - offset,
        {
            let coef = msg[byte * 8 + offset] & 1;
            acc = acc | (((coef as u8) << (offset as u8)) as u8);
            offset = offset + 1;
        }
        out[byte] = acc;
        byte = byte + 1;
    }
}

pub fn spread_bytes(id: &[u8]) -> (msg: [i64; N0])
    requires
        id@.len() <= N0,
    ensures
        spreads_bytes(id@, msg@),
{
    let mut msg = [0i64; N0];
    let mut i: usize = 0;
    while i < id.len()
        invariant
            id@.len() <= N0,
            i <= id@.len(),
            msg@.len() == N0,
            forall|j: int| 0 <= j < i ==> #[trigger] msg@[j] == id@[j] as i64,
            forall|j: int| i <= j < N0 ==> #[trigger] msg@[j] == 0,
        decreases id@.len() - i,
    {
        msg.set(i, id[i] as i64);
        i = i + 1;
    }
    msg
}

/// The low `j` bits of `b`.
pub open spec fn low_bits(b: u8, j: u8) -> u8 {
    b & (((1u16 << j) - 1u16) as u8)
}

proof fn lemma_gather_step(b: u8, acc: u8, o: u8)
    requires
        o < 8,
        acc == low_bits(b, o),
    ensures
        (acc | (((((((b >> o) & 1u8) as i64) & 1) as u8) << o) as u8)) == low_bits(b, (o + 1) as u8),
{
    assert(o < 8 && acc == b & (((1u16 << o) - 1u16) as u8) ==> (acc | (((((((b >> o) & 1u8) as i64) & 1) as u8) << o) as u8))
        == b & (((1u16 << ((o + 1) as u8)) - 1u16) as u8)) by (bit_vector);
}

proof fn lemma_gathered_prefix(bytes: Seq<u8>, msg: Seq<i64>, k: int, j: int)
    requires
        spreads_bits(bytes, msg),
        0 <= k < bytes.len(),
        0 <= j <= 8,
    ensures
        gathered_byte(msg, k, j) == low_bits(bytes[k], j as u8),
    decreases j,
{
    let b = bytes[k];
    if j == 0 {
        assert(b & (((1u16 << 0u8) - 1u16) as u8) == 0) by (bit_vector);
    } else {
        lemma_gathered_prefix(bytes, msg, k, j - 1);
        let o = (j - 1) as u8;
        assert((8 * k + o) / 8 == k && (8 * k + o) % 8 == o) by (nonlinear_arith)
            requires 0 <= o < 8;
        assert(msg[8 * k + j - 1] == bit_of(b, o));
        lemma_gather_step(b, gathered_byte(msg, k, j - 1), o);
    }
}

/// Gathering the bits of a spread byte gives the byte back.
pub proof fn lemma_gather_spread_byte(bytes: Seq<u8>, msg: Seq<i64>, k: int)
    requires
        spreads_bits(bytes, msg),
        0 <= k < bytes.len(),
    ensures
        gathered_byte(msg, k, 8) == bytes[k],
{
    lemma_gathered_prefix(bytes, msg, k, 8);
    let b = bytes[k];
    assert(b & (((1u16 << 8u8) - 1u16) as u8) == b) by (bit_vector);
}

/// Decoding an encoded block gives the block back: gathering every byte of a
/// message vector that spreads `bytes` yields `bytes`.
pub proof fn lemma_block_round_trip(bytes: Seq<u8>, msg: Seq<i64>, out: Seq<u8>)
    requires
        spreads_bits(bytes, msg),
        out.len() == bytes.len(),
        forall|k: int| 0 <= k < out.len() ==> #[trigger] out[k] == gathered_byte(msg, k, 8),
    ensures
        out == bytes,
{
    assert forall|k: int| 0 <= k < out.len() implies out[k] == bytes[k] by {
        lemma_gather_spread_byte(bytes, msg, k);
    }
    assert(out =~= bytes);
}

} // verus!
