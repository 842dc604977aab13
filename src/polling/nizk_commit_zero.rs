//! Non-interactive proof that a Pedersen commitment `C = 0 * G + r * H` opens to zero,
//! made non-interactive by Fiat-Shamir over SHA-512.
use vstd::prelude::*;
use vstd::string::*;
use rand::rngs::StdRng;
use crate::polling::{ZkProofError, push_bytes};
use crate::ristretto::{Scalar, Point, group_order, modl, ristretto_encoding, sha512_scalar, lemma_scalar_range};

verus! {

broadcast use lemma_scalar_range;

/// Domain separator of the challenge hash.
pub const DOMAIN_NIZK_PROOF_OF_PEDERSEN_ZERO_CHALLENGE: &'static str = "crypto-ristretto-zk-proof-of-pedersen-zero-challenge";

/// Public statement: `commitment` is `r * h` for some `r` known to the prover.
#[derive(Clone, Copy, Debug)]
pub struct ZkInstancePedersenZero {
    pub g: Point,
    pub h: Point,
    pub commitment: Point,
}

/// The prover's opening: the commitment's randomness.
#[derive(Clone, Copy, Debug)]
pub struct ZkWitnessPedersenZero {
    pub commitment_r: Scalar,
}

/// The proof: response `z` and challenge `c`.
#[derive(Clone, Copy, Debug)]
pub struct ZkProofPedersenZero {
    pub z: Scalar,
    pub c: Scalar,
}

/// Neither `h` nor the commitment is the identity.
pub open spec fn zero_instance_valid(inst: ZkInstancePedersenZero) -> bool {
    inst.h.log() != 0 && inst.commitment.log() != 0
}

/// The bytes hashed into the challenge, for an instance with logarithms `g`, `h`,
/// `cm` and a first message of logarithm `a`.
pub open spec fn zero_transcript_of(g: int, h: int, cm: int, a: int) -> Seq<u8> {
    DOMAIN_NIZK_PROOF_OF_PEDERSEN_ZERO_CHALLENGE.spec_bytes()
        + "g".spec_bytes() + ristretto_encoding(g)
        + "h".spec_bytes() + ristretto_encoding(h)
        + "commitment".spec_bytes() + ristretto_encoding(cm)
        + "A".spec_bytes() + ristretto_encoding(a)
}

pub open spec fn zero_transcript(inst: ZkInstancePedersenZero, a: int) -> Seq<u8> {
    zero_transcript_of(inst.g.log(), inst.h.log(), inst.commitment.log(), a)
}

pub open spec fn zero_challenge(inst: ZkInstancePedersenZero, a: int) -> int {
    modl(sha512_scalar(zero_transcript(inst, a)))
}

/// The first message that the verifier recomputes: `z * h - c * commitment`.
pub open spec fn zero_recomputed_commitment(inst: ZkInstancePedersenZero, z: int, c: int) -> int {
    modl(modl(inst.h.log() * z) - modl(inst.commitment.log() * c))
}

/// The verifier accepts the challenge `c` and response `z` for a valid instance.
pub open spec fn zero_proof_accepts(inst: ZkInstancePedersenZero, c: int, z: int) -> bool {
    c == zero_challenge(inst, zero_recomputed_commitment(inst, z, c))
}

/// The instance with logarithms `g`, `h`, `cm` is valid and the verifier accepts the
/// challenge `c` and response `z` for it.
pub open spec fn zero_accepts_logs(g: int, h: int, cm: int, c: int, z: int) -> bool {
    &&& h != 0
    &&& cm != 0
    &&& c == modl(sha512_scalar(zero_transcript_of(g, h, cm, modl(modl(h * z) - modl(cm * c)))))
}

/// The challenge of the honest prover with nonce `alpha`.
pub open spec fn honest_zero_challenge(inst: ZkInstancePedersenZero, alpha: int) -> int {
    zero_challenge(inst, modl(inst.h.log() * alpha))
}

/// The response of the honest prover with nonce `alpha` and opening `r`.
pub open spec fn honest_zero_response(inst: ZkInstancePedersenZero, r: int, alpha: int) -> int {
    modl(alpha + modl(honest_zero_challenge(inst, alpha) * r))
}

impl ZkInstancePedersenZero {
    pub fn check_instance(&self) -> (r: Result<(), ZkProofError>)
        ensures
            r == (if zero_instance_valid(*self) {
                Ok::<(), ZkProofError>(())
            } else {
                Err(ZkProofError::InvalidInstance)
            }),
    {
        if self.h.is_identity() || self.commitment.is_identity() {
            return Err(ZkProofError::InvalidInstance);
        }
        Ok(())
    }
}

fn zk_pedersen_zero_proof_challenge(instance: &ZkInstancePedersenZero, aa: &Point) -> (r: Scalar)
    ensures
        r.value() == zero_challenge(*instance, aa.log()),
{
    let mut transcript: Vec<u8> = Vec::new();
    push_bytes(&mut transcript, DOMAIN_NIZK_PROOF_OF_PEDERSEN_ZERO_CHALLENGE.as_bytes());
    push_bytes(&mut transcript, "g".as_bytes());
    push_bytes(&mut transcript, instance.g.to_bytes().as_slice());
    push_bytes(&mut transcript, "h".as_bytes());
    push_bytes(&mut transcript, instance.h.to_bytes().as_slice());
    push_bytes(&mut transcript, "commitment".as_bytes());
    push_bytes(&mut transcript, instance.commitment.to_bytes().as_slice());
    push_bytes(&mut transcript, "A".as_bytes());
    push_bytes(&mut transcript, aa.to_bytes().as_slice());
    assert(transcript@ =~= zero_transcript(*instance, aa.log()));
    Scalar::hash_from_bytes(&transcript)
}

/// The proof with a given nonce `alpha`: `A = alpha * h`, `c = Hash(.., A)`,
/// `z = alpha + c * r`.
pub fn prove_nizk_pedersen_zero_with_nonce(
    instance: &ZkInstancePedersenZero,
    witness: &ZkWitnessPedersenZero,
    alpha: &Scalar,
) -> (r: Result<ZkProofPedersenZero, ZkProofError>)
    ensures
        r is Err <==> !zero_instance_valid(*instance),
        r is Err ==> r == Err::<ZkProofPedersenZero, ZkProofError>(ZkProofError::InvalidInstance),
        r is Ok ==> r.unwrap().c.value() == honest_zero_challenge(*instance, alpha.value())
            && r.unwrap().z.value() == honest_zero_response(
            *instance,
            witness.commitment_r.value(),
            alpha.value(),
        ),
{
    instance.check_instance()?;
    let aa = instance.h.mul(alpha);
    let challenge = zk_pedersen_zero_proof_challenge(instance, &aa);
    let z = alpha.add(&challenge.mul(&witness.commitment_r));
    Ok(ZkProofPedersenZero { z, c: challenge })
}

/// Proves that the instance's commitment opens to zero, with a fresh random nonce.
pub fn prove_nizk_pedersen_zero(
    instance: &ZkInstancePedersenZero,
    witness: &ZkWitnessPedersenZero,
    rng: &mut StdRng,
) -> (r: Result<ZkProofPedersenZero, ZkProofError>)
    ensures
        r is Err <==> !zero_instance_valid(*instance),
        r is Err ==> r == Err::<ZkProofPedersenZero, ZkProofError>(ZkProofError::InvalidInstance),
        r is Ok ==> exists|alpha: int|
            r.unwrap().c.value() == honest_zero_challenge(*instance, alpha)
                && r.unwrap().z.value() == honest_zero_response(
                *instance,
                witness.commitment_r.value(),
                alpha,
            ),
{
    let alpha = Scalar::random(rng);
    prove_nizk_pedersen_zero_with_nonce(instance, witness, &alpha)
}

/// Checks a proof: recomputes `A' = z * h - c * commitment` and accepts exactly when
/// `c = Hash(.., A')`.
pub fn verify_nizk_pedersen_zero(
    instance: &ZkInstancePedersenZero,
    nizk: &ZkProofPedersenZero,
) -> (r: Result<(), ZkProofError>)
    ensures
        r == (if !zero_instance_valid(*instance) {
            Err(ZkProofError::InvalidInstance)
        } else if zero_proof_accepts(*instance, nizk.c.value(), nizk.z.value()) {
            Ok(())
        } else {
            Err(ZkProofError::InvalidProof)
        }),
{
    instance.check_instance()?;
    let a_prime = instance.h.mul(&nizk.z).sub(&instance.commitment.mul(&nizk.c));
    let challenge_prime = zk_pedersen_zero_proof_challenge(instance, &a_prime);
    if !nizk.c.equals(&challenge_prime) {
        return Err(ZkProofError::InvalidProof);
    }
    Ok(())
}

/// Completeness: for a valid instance whose commitment is `r * h`, the honest proof
/// with any nonce is accepted by the verifier.
pub proof fn lemma_zero_proof_complete(inst: ZkInstancePedersenZero, r: int, alpha: int)
    requires
        zero_instance_valid(inst),
        inst.commitment.log() == modl(inst.h.log() * r),
    ensures
        zero_proof_accepts(
            inst,
            honest_zero_challenge(inst, alpha),
            honest_zero_response(inst, r, alpha),
        ),
{
    let m = group_order();
    let hl = inst.h.log();
    let c = honest_zero_challenge(inst, alpha);
    let z = honest_zero_response(inst, r, alpha);
    // z * h = (alpha + c * r) * h and c * C = c * r * h, modulo m.
    vstd::arithmetic::div_mod::lemma_mul_mod_noop_right(hl, alpha + modl(c * r), m);
    vstd::arithmetic::div_mod::lemma_add_mod_noop_right(alpha, c * r, m);
    vstd::arithmetic::div_mod::lemma_mul_mod_noop_right(hl, alpha + c * r, m);
    vstd::arithmetic::div_mod::lemma_mul_mod_noop_left(hl * r, c, m);
    vstd::arithmetic::div_mod::lemma_sub_mod_noop(hl * (alpha + c * r), hl * r * c, m);
    assert(hl * (alpha + c * r) - hl * r * c == hl * alpha) by (nonlinear_arith);
    assert(zero_recomputed_commitment(inst, z, c) == modl(hl * alpha));
}

} // verus!
