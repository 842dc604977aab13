//! Publicly verifiable secret sharing over BLS12-381: Shamir sharing, Pedersen
//! commitments with the SCRAPE low-degree test, and two sharing protocols whose
//! per-party blocks travel under identity-based encryption.
pub mod utils;
pub mod ibe;
pub mod sss;
pub mod pedcom;
pub mod prot_pvss_pedcom_ibe;
pub mod prot_pvss_hash_ibe;

use vstd::prelude::*;
use ark_ec::hashing::HashToCurveError;

verus! {

/// Why a sharing could not be made or was not accepted.
#[derive(Debug)]
pub enum PVSSError {
    /// Hashing to the curve failed.
    HashingError(HashToCurveError),
    /// A decrypted share does not match its published commitment or digest.
    InvalidOpening,
    /// The published values do not lie on a polynomial of the claimed degree.
    ThresholdViolation,
    /// An index or a length does not fit the sharing.
    DimensionMismatch,
    /// Bytes are not the canonical encoding of a field element.
    DeserializationError,
    /// Two interpolation points coincide.
    DuplicateEvaluationPoint,
}

} // verus!
