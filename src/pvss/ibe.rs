//! Maps a 96-byte block of three field elements, and a party identity, to the message
//! and identity vectors of the lattice IBE, and back.
use vstd::prelude::*;
use crate::ibe_block::{N0, spread_bits, gather_bits, spread_bytes, spreads_bits, spreads_bytes, gathered_byte};

verus! {

/// Bytes to message coefficients (encrypt direction): entry `8 * i + k` is bit `k` of
/// `bytes[i]`, least significant first; the rest is zero.
pub fn scalar_bytes_to_encryption_input(bytes: &[u8; 96]) -> (msg: [i64; N0])
    ensures
        spreads_bits(bytes@, msg@),
{
    spread_bits(bytes.as_slice())
}

/// Message coefficients to bytes (decrypt direction): byte `i` gathers the lowest bit
/// of entries `8 * i .. 8 * i + 8`.
pub fn decryption_output_to_scalar_bytes(msg: &[i64; N0]) -> (bytes: [u8; 96])
    ensures
        forall|k: int| 0 <= k < 96 ==> #[trigger] bytes@[k] == gathered_byte(msg@, k, 8),
{
    let mut bytes = [0u8; 96];
    gather_bits(msg, &mut bytes);
    bytes
}

/// The identity vector: one byte per entry, zero beyond.
pub fn convert_id_to_ibe_format(id: &[u8; 96]) -> (msg: [i64; N0])
    ensures
        spreads_bytes(id@, msg@),
{
    spread_bytes(id.as_slice())
}

} // verus!
