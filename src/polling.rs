//! Primitives of the private polling scheme, over the Ristretto group.
pub mod polynomial;
pub mod interpolate;
pub mod nizk_commit_zero;
pub mod nizk_commit_or;
pub mod public_evals;
pub mod share_commitment;
pub mod vote;
pub mod ibe_encryption;
pub mod serde_types;
pub mod error;

use vstd::prelude::*;

verus! {

/// Why a zero-knowledge proof could not be made or was not accepted.
#[derive(Clone, Copy, Debug, PartialEq, Eq, Structural)]
pub enum ZkProofError {
    InvalidProof,
    InvalidInstance,
    DeserializationError,
}

/// Appends `b` to the transcript `t`.
pub fn push_bytes(t: &mut Vec<u8>, b: &[u8])
    ensures
        final(t)@ == old(t)@ + b@,
{
    let ghost start = t@;
    let mut i: usize = 0;
    while i < b.len()
        invariant
            i <= b@.len(),
            t@ == start + b@.subrange(0, i as int),
        decreases b@.len() - i,
    {
        t.push(b[i]);
        i = i + 1;
        assert(t@ =~= start + b@.subrange(0, i as int));
    }
    assert(b@.subrange(0, b@.len() as int) =~= b@);
}

impl ZkProofError {
    /// A short description of the error.
    pub fn message(&self) -> (r: String)
        ensures
            *self == ZkProofError::InvalidProof ==> r@ == "Invalid proof provided"@,
            *self == ZkProofError::InvalidInstance ==> r@ == "Invalid instance data"@,
            *self == ZkProofError::DeserializationError ==> r@ == "Deserialization Error"@,
    {
        match self {
            ZkProofError::InvalidProof => String::from_str("Invalid proof provided"),
            ZkProofError::InvalidInstance => String::from_str("Invalid instance data"),
            ZkProofError::DeserializationError => String::from_str("Deserialization Error"),
        }
    }
}

} // verus!
