//! Threshold cryptography primitives: polynomials and Lagrange interpolation,
//! Pedersen commitments with a low-degree test, Sigma-protocol proofs that a
//! commitment opens to zero or to a bit, and the sharing protocols built on them.
mod entropy;
pub mod ristretto;
pub mod polling;
pub mod ibe_block;
pub mod bls;
pub mod pvss;
