//! Non-interactive proof that a Pedersen commitment `C` opens to zero or to one,
//! without revealing which: an OR-composition of two proofs that `C` resp.
//! `D = C - G` is a multiple of `H`, one proven honestly and one simulated.
use vstd::prelude::*;
use vstd::string::*;
use rand::rngs::StdRng;
use crate::polling::{ZkProofError, push_bytes};
use crate::ristretto::{
    Scalar, Point, group_order, modl, ristretto_encoding, sha512_scalar, weighted_log_sum,
    lemma_scalar_range, congruent, lemma_congruent_modl, lemma_congruent_add, lemma_congruent_mul,
};

verus! {

broadcast use lemma_scalar_range;

/// Domain separator of the challenge hash.
pub const DOMAIN_NIZK_PROOF_OF_OR_PEDERSEN_CHALLENGE: &'static str = "crypto-zk-proof-of-or-pedersen-challenge";

/// Public statement: `c` or `d` (where `d = c - g`) is a multiple of `h`.
#[derive(Clone, Copy, Debug)]
pub struct ZkInstancePedersenOr {
    pub g: Point,
    pub h: Point,
    pub c: Point,
    pub d: Point,
}

/// The prover's opening: the commitment's randomness.
#[derive(Clone, Copy, Debug)]
pub struct ZkWitnessPedersenOr {
    pub r: Scalar,
}

/// The proof: one challenge and one response per branch.
#[derive(Clone, Copy, Debug)]
pub struct ZkProofPedersenOr {
    pub challenge_1: Scalar,
    pub challenge_2: Scalar,
    pub z1: Scalar,
    pub z2: Scalar,
}

/// None of `h`, `c`, `d` is the identity.
pub open spec fn or_instance_valid(inst: ZkInstancePedersenOr) -> bool {
    inst.h.log() != 0 && inst.c.log() != 0 && inst.d.log() != 0
}

/// The bytes hashed into the challenge, for an instance with logarithms `g`, `h`,
/// `c`, `d` and first messages of logarithms `a1`, `a2`.
pub open spec fn or_transcript_of(g: int, h: int, c: int, d: int, a1: int, a2: int) -> Seq<u8> {
    DOMAIN_NIZK_PROOF_OF_OR_PEDERSEN_CHALLENGE.spec_bytes()
        + "g".spec_bytes() + ristretto_encoding(g)
        + "h".spec_bytes() + ristretto_encoding(h)
        + "c".spec_bytes() + ristretto_encoding(c)
        + "d".spec_bytes() + ristretto_encoding(d)
        + "A1".spec_bytes() + ristretto_encoding(a1)
        + "A2".spec_bytes() + ristretto_encoding(a2)
}

pub open spec fn or_transcript(inst: ZkInstancePedersenOr, a1: int, a2: int) -> Seq<u8> {
    or_transcript_of(inst.g.log(), inst.h.log(), inst.c.log(), inst.d.log(), a1, a2)
}

pub open spec fn or_challenge(inst: ZkInstancePedersenOr, a1: int, a2: int) -> int {
    modl(sha512_scalar(or_transcript(inst, a1, a2)))
}

/// The logarithm of `z * h - ch * p`, for `h` of logarithm `h_log` and `p` of logarithm `p_log`.
pub open spec fn branch_commitment_of(h_log: int, z: int, ch: int, p_log: int) -> int {
    modl(z * h_log + modl(-ch) * p_log)
}

/// The logarithm of `z * h - ch * p`, for `p` of logarithm `p_log`.
pub open spec fn branch_commitment(inst: ZkInstancePedersenOr, z: int, ch: int, p_log: int) -> int {
    branch_commitment_of(inst.h.log(), z, ch, p_log)
}

/// The verifier accepts challenges `c1`, `c2` and responses `z1`, `z2`.
pub open spec fn or_proof_accepts(inst: ZkInstancePedersenOr, c1: int, c2: int, z1: int, z2: int) -> bool {
    modl(c1 + c2) == or_challenge(
        inst,
        branch_commitment(inst, z1, c1, inst.c.log()),
        branch_commitment(inst, z2, c2, inst.d.log()),
    )
}

/// The instance with logarithms `g`, `h`, `c`, `d` is valid and the verifier accepts
/// challenges `c1`, `c2` and responses `z1`, `z2` for it.
pub open spec fn or_accepts_logs(g: int, h: int, c: int, d: int, c1: int, c2: int, z1: int, z2: int) -> bool {
    &&& h != 0
    &&& c != 0
    &&& d != 0
    &&& modl(c1 + c2) == modl(sha512_scalar(or_transcript_of(
        g,
        h,
        c,
        d,
        branch_commitment_of(h, z1, c1, c),
        branch_commitment_of(h, z2, c2, d),
    )))
}

/// The values `(c1, c2, z1, z2)` of the proof for message zero: branch two simulated
/// with response `z2` and challenge `c2`, branch one answered with nonce `alpha`.
pub open spec fn honest_or_zero(inst: ZkInstancePedersenOr, r: int, z2: int, c2: int, alpha: int) -> (
    int,
    int,
    int,
    int,
) {
    let c = or_challenge(inst, modl(inst.h.log() * alpha), branch_commitment(inst, z2, c2, inst.d.log()));
    let c1 = modl(c - c2);
    (c1, c2, modl(alpha + modl(c1 * r)), z2)
}

/// The values `(c1, c2, z1, z2)` of the proof for message one: branch one simulated
/// with response `z1` and challenge `c1`, branch two answered with nonce `alpha`.
pub open spec fn honest_or_one(inst: ZkInstancePedersenOr, r: int, z1: int, c1: int, alpha: int) -> (
    int,
    int,
    int,
    int,
) {
    let c = or_challenge(inst, branch_commitment(inst, z1, c1, inst.c.log()), modl(inst.h.log() * alpha));
    let c2 = modl(c - c1);
    (c1, c2, z1, modl(alpha + modl(c2 * r)))
}

pub open spec fn proof_values(p: ZkProofPedersenOr) -> (int, int, int, int) {
    (p.challenge_1.value(), p.challenge_2.value(), p.z1.value(), p.z2.value())
}

impl ZkInstancePedersenOr {
    pub fn check_instance(&self) -> (r: Result<(), ZkProofError>)
        ensures
            r == (if or_instance_valid(*self) {
                Ok::<(), ZkProofError>(())
            } else {
                Err(ZkProofError::InvalidInstance)
            }),
    {
        if self.h.is_identity() || self.c.is_identity() || self.d.is_identity() {
            return Err(ZkProofError::InvalidInstance);
        }
        Ok(())
    }
}

//challenge = H(G,H,C,D,A1,A2)
fn zk_pedersen_or_proof_challenge(instance: &ZkInstancePedersenOr, aa1: &Point, aa2: &Point) -> (r: Scalar)
    ensures
        r.value() == or_challenge(*instance, aa1.log(), aa2.log()),
{
    let mut transcript: Vec<u8> = Vec::new();
    push_bytes(&mut transcript, DOMAIN_NIZK_PROOF_OF_OR_PEDERSEN_CHALLENGE.as_bytes());
    push_bytes(&mut transcript, "g".as_bytes());
    push_bytes(&mut transcript, instance.g.to_bytes().as_slice());
    push_bytes(&mut transcript, "h".as_bytes());
    push_bytes(&mut transcript, instance.h.to_bytes().as_slice());
    push_bytes(&mut transcript, "c".as_bytes());
    push_bytes(&mut transcript, instance.c.to_bytes().as_slice());
    push_bytes(&mut transcript, "d".as_bytes());
    push_bytes(&mut transcript, instance.d.to_bytes().as_slice());
    push_bytes(&mut transcript, "A1".as_bytes());
    push_bytes(&mut transcript, aa1.to_bytes().as_slice());
    push_bytes(&mut transcript, "A2".as_bytes());
    push_bytes(&mut transcript, aa2.to_bytes().as_slice());
    assert(transcript@ =~= or_transcript(*instance, aa1.log(), aa2.log()));
    Scalar::hash_from_bytes(&transcript)
}

/// `z * h - ch * p`, by a two-term multiscalar multiplication.
fn branch_point(instance: &ZkInstancePedersenOr, z: &Scalar, ch: &Scalar, p: &Point) -> (r: Point)
    ensures
        r.log() == branch_commitment(*instance, z.value(), ch.value(), p.log()),
{
    let scalars = vec![*z, ch.neg()];
    let points = vec![instance.h, *p];
    proof {
        reveal_with_fuel(weighted_log_sum, 3);
        assert(scalars@.drop_last().drop_last().len() == 0);
    }
    Point::multiscalar_mul(&scalars, &points)
}

/// The proof for message zero (`c = r * h`), given the simulated branch's response
/// `z2` and challenge `challenge_2`, and the nonce `alpha_1` of the real branch.
pub fn prove_nizk_pedersen_or_relation_zero_with(
    instance: &ZkInstancePedersenOr,
    witness: &ZkWitnessPedersenOr,
    z2: &Scalar,
    challenge_2: &Scalar,
    alpha_1: &Scalar,
) -> (r: Result<ZkProofPedersenOr, ZkProofError>)
    ensures
        r is Err <==> !or_instance_valid(*instance),
        r is Err ==> r == Err::<ZkProofPedersenOr, ZkProofError>(ZkProofError::InvalidInstance),
        r is Ok ==> proof_values(r.unwrap()) == honest_or_zero(
            *instance,
            witness.r.value(),
            z2.value(),
            challenge_2.value(),
            alpha_1.value(),
        ),
{
    instance.check_instance()?;
    // Simulated branch 2 (m = 1): A2 = z2*H - c2*D
    let a2 = branch_point(instance, z2, challenge_2, &instance.d);
    // Real branch 1 (m = 0): A1 = alpha1*H
    let a1 = instance.h.mul(alpha_1);
    let challenge = zk_pedersen_or_proof_challenge(instance, &a1, &a2);
    let challenge_1 = challenge.sub(challenge_2);
    let z1 = alpha_1.add(&challenge_1.mul(&witness.r));
    Ok(ZkProofPedersenOr { challenge_1, challenge_2: *challenge_2, z1, z2: *z2 })
}

/// The proof for message one (`d = r * h`), given the simulated branch's response
/// `z1` and challenge `challenge_1`, and the nonce `alpha_2` of the real branch.
pub fn prove_nizk_pedersen_or_relation_one_with(
    instance: &ZkInstancePedersenOr,
    witness: &ZkWitnessPedersenOr,
    z1: &Scalar,
    challenge_1: &Scalar,
    alpha_2: &Scalar,
) -> (r: Result<ZkProofPedersenOr, ZkProofError>)
    ensures
        r is Err <==> !or_instance_valid(*instance),
        r is Err ==> r == Err::<ZkProofPedersenOr, ZkProofError>(ZkProofError::InvalidInstance),
        r is Ok ==> proof_values(r.unwrap()) == honest_or_one(
            *instance,
            witness.r.value(),
            z1.value(),
            challenge_1.value(),
            alpha_2.value(),
        ),
{
    instance.check_instance()?;
    // Simulated branch 1 (m = 0): A1 = z1*H - c1*C
    let a1 = branch_point(instance, z1, challenge_1, &instance.c);
    // Real branch 2 (m = 1): A2 = alpha2*H
    let a2 = instance.h.mul(alpha_2);
    let challenge = zk_pedersen_or_proof_challenge(instance, &a1, &a2);
    let challenge_2 = challenge.sub(challenge_1);
    let z2 = alpha_2.add(&challenge_2.mul(&witness.r));
    Ok(ZkProofPedersenOr { challenge_1: *challenge_1, challenge_2, z1: *z1, z2 })
}

/// Proves that the commitment opens to zero, with fresh random simulation values and nonce.
pub fn prove_nizk_pedersen_or_relation_zero(
    instance: &ZkInstancePedersenOr,
    witness: &ZkWitnessPedersenOr,
    rng: &mut StdRng,
) -> (r: Result<ZkProofPedersenOr, ZkProofError>)
    ensures
        r is Err <==> !or_instance_valid(*instance),
        r is Err ==> r == Err::<ZkProofPedersenOr, ZkProofError>(ZkProofError::InvalidInstance),
        r is Ok ==> exists|z2: int, c2: int, alpha: int|
            proof_values(r.unwrap()) == honest_or_zero(*instance, witness.r.value(), z2, c2, alpha),
{
    let z2 = Scalar::random(rng);
    let challenge_2 = Scalar::random(rng);
    let alpha_1 = Scalar::random(rng);
    prove_nizk_pedersen_or_relation_zero_with(instance, witness, &z2, &challenge_2, &alpha_1)
}

/// Proves that the commitment opens to one, with fresh random simulation values and nonce.
pub fn prove_nizk_pedersen_or_relation_one(
    instance: &ZkInstancePedersenOr,
    witness: &ZkWitnessPedersenOr,
    rng: &mut StdRng,
) -> (r: Result<ZkProofPedersenOr, ZkProofError>)
    ensures
        r is Err <==> !or_instance_valid(*instance),
        r is Err ==> r == Err::<ZkProofPedersenOr, ZkProofError>(ZkProofError::InvalidInstance),
        r is Ok ==> exists|z1: int, c1: int, alpha: int|
            proof_values(r.unwrap()) == honest_or_one(*instance, witness.r.value(), z1, c1, alpha),
{
    let z1 = Scalar::random(rng);
    let challenge_1 = Scalar::random(rng);
    let alpha_2 = Scalar::random(rng);
    prove_nizk_pedersen_or_relation_one_with(instance, witness, &z1, &challenge_1, &alpha_2)
}

/// Checks a proof: recomputes `A1' = z1 * h - c1 * c` and `A2' = z2 * h - c2 * d` and
/// accepts exactly when `c1 + c2 = Hash(.., A1', A2')`.
pub fn verify_nizk_pedersen_or_relation(
    instance: &ZkInstancePedersenOr,
    nizk: &ZkProofPedersenOr,
) -> (r: Result<(), ZkProofError>)
    ensures
        r == (if !or_instance_valid(*instance) {
            Err(ZkProofError::InvalidInstance)
        } else if or_proof_accepts(
            *instance,
            nizk.challenge_1.value(),
            nizk.challenge_2.value(),
            nizk.z1.value(),
            nizk.z2.value(),
        ) {
            Ok(())
        } else {
            Err(ZkProofError::InvalidProof)
        }),
{
    instance.check_instance()?;
    let a1 = branch_point(instance, &nizk.z1, &nizk.challenge_1, &instance.c);
    let a2 = branch_point(instance, &nizk.z2, &nizk.challenge_2, &instance.d);
    let challenge = nizk.challenge_1.add(&nizk.challenge_2);
    let challenge_prime = zk_pedersen_or_proof_challenge(instance, &a1, &a2);
    if !challenge.equals(&challenge_prime) {
        return Err(ZkProofError::InvalidProof);
    }
    Ok(())
}

/// The real branch recomputes to the prover's first message: for `p = r * h`,
/// `(alpha + ch * r) * h - ch * p = alpha * h`.
proof fn lemma_real_branch(inst: ZkInstancePedersenOr, p_log: int, r: int, ch: int, alpha: int)
    requires
        p_log == modl(inst.h.log() * r),
    ensures
        branch_commitment(inst, modl(alpha + modl(ch * r)), ch, p_log) == modl(inst.h.log() * alpha),
{
    let hl = inst.h.log();
    let z = modl(alpha + modl(ch * r));
    lemma_congruent_modl(ch * r);
    lemma_congruent_add(alpha, alpha, modl(ch * r), ch * r);
    lemma_congruent_modl(alpha + modl(ch * r));
    lemma_congruent_mul(z, alpha + ch * r, hl, hl);
    lemma_congruent_modl(-ch);
    lemma_congruent_modl(hl * r);
    lemma_congruent_mul(modl(-ch), -ch, p_log, hl * r);
    lemma_congruent_add(z * hl, (alpha + ch * r) * hl, modl(-ch) * p_log, -ch * (hl * r));
    assert((alpha + ch * r) * hl + -ch * (hl * r) == hl * alpha) by (nonlinear_arith);
}

/// Splitting the challenge: `(c - c') + c' = c` for a reduced `c`.
proof fn lemma_challenge_split(c: int, c2: int)
    requires
        0 <= c < group_order(),
    ensures
        modl(modl(c - c2) + c2) == c,
{
    lemma_congruent_modl(c - c2);
    lemma_congruent_add(modl(c - c2), c - c2, c2, c2);
    vstd::arithmetic::div_mod::lemma_small_mod(c as nat, group_order() as nat);
}

/// Completeness for message zero: when `c = r * h`, the proof for message zero is
/// accepted, whatever the simulation values and nonce.
pub proof fn lemma_or_proof_zero_complete(inst: ZkInstancePedersenOr, r: int, z2: int, c2: int, alpha: int)
    requires
        inst.c.log() == modl(inst.h.log() * r),
    ensures
        ({
            let p = honest_or_zero(inst, r, z2, c2, alpha);
            or_proof_accepts(inst, p.0, p.1, p.2, p.3)
        }),
{
    let p = honest_or_zero(inst, r, z2, c2, alpha);
    let a2 = branch_commitment(inst, z2, c2, inst.d.log());
    let c = or_challenge(inst, modl(inst.h.log() * alpha), a2);
    lemma_real_branch(inst, inst.c.log(), r, p.0, alpha);
    vstd::arithmetic::div_mod::lemma_mod_bound(
        sha512_scalar(or_transcript(inst, modl(inst.h.log() * alpha), a2)),
        group_order(),
    );
    lemma_challenge_split(c, c2);
}

/// The proof for message zero run on an instance whose commitment opens to one
/// (`c = g + r * h`, `g` the basepoint) makes the verifier recompute the first
/// branch's message as `alpha * h - c1 * g`, which is the prover's `alpha * h` only
/// when the derived challenge `c1` is zero.
pub proof fn lemma_zero_prover_on_one_shifts_first_branch(inst: ZkInstancePedersenOr, r: int, z2: int, c2: int, alpha: int)
    requires
        inst.g.log() == 1,
        inst.c.log() == modl(1 + inst.h.log() * r),
    ensures
        ({
            let p = honest_or_zero(inst, r, z2, c2, alpha);
            &&& branch_commitment(inst, p.2, p.0, inst.c.log()) == modl(modl(inst.h.log() * alpha) - p.0)
            &&& (branch_commitment(inst, p.2, p.0, inst.c.log()) == modl(inst.h.log() * alpha) <==> p.0 == 0)
        }),
{
    let p = honest_or_zero(inst, r, z2, c2, alpha);
    let hl = inst.h.log();
    let ch = p.0;
    let z = p.2;
    let cl = inst.c.log();
    let m = group_order();
    assert(0 <= ch < m) by {
        vstd::arithmetic::div_mod::lemma_mod_bound(
            or_challenge(inst, modl(hl * alpha), branch_commitment(inst, z2, c2, inst.d.log())) - c2,
            m,
        );
    }
    // z = alpha + ch * r and c = 1 + h * r, modulo m
    lemma_congruent_modl(ch * r);
    lemma_congruent_add(alpha, alpha, modl(ch * r), ch * r);
    lemma_congruent_modl(alpha + modl(ch * r));
    lemma_congruent_mul(z, alpha + ch * r, hl, hl);
    lemma_congruent_modl(-ch);
    lemma_congruent_modl(1 + hl * r);
    lemma_congruent_mul(modl(-ch), -ch, cl, 1 + hl * r);
    lemma_congruent_add(z * hl, (alpha + ch * r) * hl, modl(-ch) * cl, -ch * (1 + hl * r));
    assert((alpha + ch * r) * hl + -ch * (1 + hl * r) == hl * alpha - ch) by (nonlinear_arith);
    lemma_congruent_modl(hl * alpha);
    lemma_congruent_add(modl(hl * alpha), hl * alpha, -ch, -ch);
    lemma_congruent_modl(modl(hl * alpha) - ch);
    // the shift vanishes exactly when ch does
    let x = modl(hl * alpha);
    if modl(x - ch) == x {
        lemma_congruent_modl(x);
        lemma_congruent_add(x - ch, x, -x, -x);
        assert(x - ch + -x == -ch && x + -x == 0);
        lemma_congruent_mul(-ch, 0, -1, -1);
        assert(-ch * -1 == ch);
        vstd::arithmetic::div_mod::lemma_small_mod(ch as nat, m as nat);
        vstd::arithmetic::div_mod::lemma_small_mod(0, m as nat);
    }
    if ch == 0 {
        lemma_congruent_modl(x);
        vstd::arithmetic::div_mod::lemma_mod_bound(hl * alpha, m);
        vstd::arithmetic::div_mod::lemma_small_mod(x as nat, m as nat);
    }
}

/// Completeness for message one: when `d = r * h`, the proof for message one is
/// accepted, whatever the simulation values and nonce.
pub proof fn lemma_or_proof_one_complete(inst: ZkInstancePedersenOr, r: int, z1: int, c1: int, alpha: int)
    requires
        inst.d.log() == modl(inst.h.log() * r),
    ensures
        ({
            let p = honest_or_one(inst, r, z1, c1, alpha);
            or_proof_accepts(inst, p.0, p.1, p.2, p.3)
        }),
{
    let p = honest_or_one(inst, r, z1, c1, alpha);
    let a1 = branch_commitment(inst, z1, c1, inst.c.log());
    let c = or_challenge(inst, a1, modl(inst.h.log() * alpha));
    lemma_real_branch(inst, inst.d.log(), r, p.1, alpha);
    vstd::arithmetic::div_mod::lemma_mod_bound(
        sha512_scalar(or_transcript(inst, a1, modl(inst.h.log() * alpha))),
        group_order(),
    );
    lemma_challenge_split(c, c1);
    assert(modl(c1 + modl(c - c1)) == modl(modl(c - c1) + c1));
}

} // verus!
