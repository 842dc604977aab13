//! Reading scalars and group elements from bytes, and the IBE identity of a server.
use vstd::prelude::*;
use crate::ristretto::{Scalar, Point, modl, le_value, encodes_multiple, ristretto_encoding};
use crate::polling::error::PrivatePollingError;

verus! {

/// The 8 little-endian bytes of `x`.
pub open spec fn le_bytes_u64(x: u64) -> Seq<u8> {
    Seq::new(8, |i: int| ((x >> (8 * i) as u64) & 0xff) as u8)
}

fn to_array32(bytes: &Vec<u8>) -> (r: [u8; 32])
    requires
        bytes@.len() == 32,
    ensures
        r@ == bytes@,
{
    let mut arr = [0u8; 32];
    let mut i: usize = 0;
    while i < 32
        invariant
            bytes@.len() == 32,
            i <= 32,
            arr@.len() == 32,
            forall|j: int| 0 <= j < i ==> arr@[j] == bytes@[j],
        decreases 32 - i,
    {
        arr.set(i, bytes[i]);
        i = i + 1;
    }
    assert(arr@ =~= bytes@);
    arr
}

/// The group element that `bytes` canonically encode.
pub fn bytes_to_ristretto_point(bytes: &Vec<u8>) -> (r: Result<Point, PrivatePollingError>)
    ensures
        r is Ok <==> (bytes@.len() == 32 && exists|k: int| encodes_multiple(bytes@, k)),
        r matches Ok(p) ==> encodes_multiple(bytes@, p.log()),
        r matches Err(e) ==> e is DeserializationError,
{
    if bytes.len() == 32 {
        let arr = to_array32(bytes);
        match Point::from_bytes(arr) {
            Some(p) => {
                return Ok(p);
            },
            None => {},
        }
    }
    Err(PrivatePollingError::DeserializationError(String::from_str("Could not deserialize Ristretto point")))
}

/// The scalar that 32 little-endian bytes encode, reduced modulo the group order.
pub fn bytes_to_scalar(bytes: &Vec<u8>) -> (r: Result<Scalar, PrivatePollingError>)
    ensures
        r is Ok <==> bytes@.len() == 32,
        r matches Ok(s) ==> s.value() == modl(le_value(bytes@) as int),
        r matches Err(e) ==> e is DeserializationError,
{
    if bytes.len() == 32 {
        let arr = to_array32(bytes);
        Ok(Scalar::from_bytes_mod_order(arr))
    } else {
        Err(PrivatePollingError::DeserializationError(String::from_str("Could not deserialize Scalar")))
    }
}

fn push_u64_le(id: &mut Vec<u8>, x: u64)
    ensures
        final(id)@ == old(id)@ + le_bytes_u64(x),
{
    let ghost start = id@;
    let mut i: u64 = 0;
    while i < 8
        invariant
            i <= 8,
            id@ == start + le_bytes_u64(x).subrange(0, i as int),
        decreases 8 - i,
    {
        id.push(((x >> (8 * i)) & 0xff) as u8);
        i = i + 1;
        assert(id@ =~= start + le_bytes_u64(x).subrange(0, i as int));
    }
    assert(le_bytes_u64(x).subrange(0, 8) =~= le_bytes_u64(x));
}

/// The identity under which a server's share of a voter's ballot is encrypted: the
/// voter's key, then the poll id and the server id as 8 little-endian bytes each.
pub fn compute_ibe_identity(vk: &Point, poll_id: u64, server_id: u64) -> (id: Vec<u8>)
    ensures
        id@ == ristretto_encoding(vk.log()) + le_bytes_u64(poll_id) + le_bytes_u64(server_id),
{
    let mut id: Vec<u8> = Vec::new();
    crate::polling::push_bytes(&mut id, vk.to_bytes().as_slice());
    push_u64_le(&mut id, poll_id);
    push_u64_le(&mut id, server_id);
    id
}

} // verus!
