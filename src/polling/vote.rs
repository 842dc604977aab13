//! A poll vote: one committed, shared bit per choice with a proof that it is 0 or 1,
//! and a padding commitment to zero, such that the sum of all choice commitments and
//! the padding opens to one exactly when one choice is selected.
use vstd::prelude::*;
use crate::ristretto::{
    Scalar, Point, modl, pedersen_gens, blinding_log, lemma_scalar_range, congruent,
    lemma_congruent_modl, lemma_congruent_add, lemma_congruent_mul, group_order,
};
use crate::polling::ZkProofError;
use rand::rngs::StdRng;
use crate::polling::share_commitment::{compute_commited_shares_with, pedersen_commit, pedersen_value};
use crate::polling::nizk_commit_or::{
    or_accepts_logs, or_instance_valid, proof_values, honest_or_zero, honest_or_one,
    lemma_or_proof_zero_complete, lemma_or_proof_one_complete,
    ZkInstancePedersenOr, ZkWitnessPedersenOr, ZkProofPedersenOr, prove_nizk_pedersen_or_relation_zero_with,
    prove_nizk_pedersen_or_relation_one_with, verify_nizk_pedersen_or_relation,
};
use crate::polling::nizk_commit_zero::{
    zero_accepts_logs, honest_zero_challenge, honest_zero_response, lemma_zero_proof_complete,
    ZkInstancePedersenZero, ZkWitnessPedersenZero, ZkProofPedersenZero, prove_nizk_pedersen_zero_with_nonce,
    verify_nizk_pedersen_zero,
};

verus! {

broadcast use lemma_scalar_range;

/// A vote. `commited_shares[i][0]` commits to the bit of choice `i` and
/// `commited_shares[i][j + 1]` to party `j`'s share of it; `shares[i * n + j]` is
/// party `j`'s opening `(x_share, r_share)` of choice `i`, to be sent to that party
/// encrypted.
pub struct Vote {
    pub commited_shares: Vec<Vec<Point>>,
    pub nizk_commit_zero_or_one: Vec<ZkProofPedersenOr>,
    pub shares: Vec<(Scalar, Scalar)>,
    pub commit_pad: Point,
    pub commitment_r_sum: Scalar,
    pub nizk_commit_pad_zero: ZkProofPedersenZero,
}

/// `sum_{i < k} xs[i]`.
pub open spec fn sum_upto(xs: Seq<int>, k: int) -> int
    decreases k,
{
    if k <= 0 {
        0
    } else {
        sum_upto(xs, k - 1) + xs[k - 1]
    }
}

pub open spec fn answer_values(answers: Seq<u16>) -> Seq<int> {
    answers.map_values(|a: u16| a as int)
}

/// The logarithms of the choice commitments `commited_shares[i][0]`.
pub open spec fn choice_logs(cs: Seq<Vec<Point>>) -> Seq<int> {
    cs.map_values(|c: Vec<Point>| c@[0].log())
}

/// The vote's choice commitments open to `answers` with randomness `rs`, its padding
/// to zero with randomness `r_pad`, and it publishes `r_pad + sum(rs)`.
pub open spec fn vote_opens_to(vote: Vote, answers: Seq<u16>, rs: Seq<int>, r_pad: int) -> bool {
    &&& vote.commited_shares@.len() == answers.len()
    &&& rs.len() == answers.len()
    &&& forall|i: int| 0 <= i < answers.len() ==> #[trigger] vote.commited_shares@[i]@.len() >= 1
    &&& forall|i: int| 0 <= i < answers.len() ==>
        #[trigger] vote.commited_shares@[i]@[0].log() == pedersen_value(answers[i] as int, rs[i])
    &&& vote.commit_pad.log() == pedersen_value(0, r_pad)
    &&& vote.commitment_r_sum.value() == modl(r_pad + sum_upto(rs, rs.len() as int))
}

/// The aggregate check: the choice commitments and the padding sum to the commitment
/// to one with the published randomness.
pub open spec fn vote_sum_opens_to_one(vote: Vote) -> bool {
    let cs = vote.commited_shares@;
    &&& forall|i: int| 0 <= i < cs.len() ==> #[trigger] cs[i]@.len() >= 1
    &&& modl(sum_upto(choice_logs(cs), cs.len() as int) + vote.commit_pad.log())
        == pedersen_value(1, vote.commitment_r_sum.value())
}

/// Each choice carries an accepted proof that its commitment opens to 0 or 1, and
/// the padding an accepted proof that it opens to 0, over the Pedersen generators.
pub open spec fn vote_proofs_accepted(vote: Vote) -> bool {
    let cs = vote.commited_shares@;
    let ps = vote.nizk_commit_zero_or_one@;
    &&& zero_accepts_logs(
        1,
        blinding_log(),
        vote.commit_pad.log(),
        vote.nizk_commit_pad_zero.c.value(),
        vote.nizk_commit_pad_zero.z.value(),
    )
    &&& ps.len() == cs.len()
    &&& forall|i: int| 0 <= i < cs.len() ==> #[trigger] cs[i]@.len() >= 1
    &&& forall|i: int| 0 <= i < cs.len() ==> #[trigger] or_accepts_logs(
        1,
        blinding_log(),
        cs[i]@[0].log(),
        modl(cs[i]@[0].log() - 1),
        ps[i].challenge_1.value(),
        ps[i].challenge_2.value(),
        ps[i].z1.value(),
        ps[i].z2.value(),
    )
}

/// Every answer is 0 or 1.
pub open spec fn all_bits(answers: Seq<u16>) -> bool {
    forall|i: int| 0 <= i < answers.len() ==> #[trigger] answers[i] == 0 || answers[i] == 1
}

/// The OR-proof of an honestly committed bit is accepted.
proof fn lemma_choice_proof_accepted(
    instance: ZkInstancePedersenOr,
    r: int,
    a: int,
    p: ZkProofPedersenOr,
)
    requires
        instance.g.log() == 1,
        instance.h.log() == blinding_log(),
        instance.c.log() == pedersen_value(a, r),
        instance.d.log() == modl(instance.c.log() - 1),
        or_instance_valid(instance),
        a == 0 ==> exists|z2: int, c2: int, alpha: int| proof_values(p) == honest_or_zero(instance, r, z2, c2, alpha),
        a == 1 ==> exists|z1: int, c1: int, alpha: int| proof_values(p) == honest_or_one(instance, r, z1, c1, alpha),
        a == 0 || a == 1,
    ensures
        or_accepts_logs(
            1,
            blinding_log(),
            instance.c.log(),
            modl(instance.c.log() - 1),
            p.challenge_1.value(),
            p.challenge_2.value(),
            p.z1.value(),
            p.z2.value(),
        ),
{
    let hb = blinding_log();
    vstd::arithmetic::mul::lemma_mul_is_commutative(r, hb);
    if a == 0 {
        let (z2, c2, alpha) = choose|z2: int, c2: int, alpha: int| proof_values(p) == honest_or_zero(instance, r, z2, c2, alpha);
        assert(instance.c.log() == modl(hb * r));
        lemma_or_proof_zero_complete(instance, r, z2, c2, alpha);
    } else {
        let (z1, c1, alpha) = choose|z1: int, c1: int, alpha: int| proof_values(p) == honest_or_one(instance, r, z1, c1, alpha);
        lemma_congruent_modl(1 + r * hb);
        lemma_congruent_add(modl(1 + r * hb), 1 + r * hb, -1, -1);
        assert(1 + r * hb + -1 == r * hb);
        assert(instance.d.log() == modl(hb * r));
        lemma_or_proof_one_complete(instance, r, z1, c1, alpha);
    }
}

/// The values that a vote draws for one choice: the coefficients of degree `1, 2, ...`
/// of the sharing polynomials of the answer and of the commitment randomness `r`, and
/// the simulated response, simulated challenge and nonce of the choice's OR-proof.
pub struct ChoiceRandomness {
    pub x_coeffs: Vec<Scalar>,
    pub r_coeffs: Vec<Scalar>,
    pub r: Scalar,
    pub sim_response: Scalar,
    pub sim_challenge: Scalar,
    pub nonce: Scalar,
}

pub open spec fn choice_rs(choices: Seq<ChoiceRandomness>) -> Seq<int> {
    choices.map_values(|c: ChoiceRandomness| c.r.value())
}

/// A proof instance of the vote is degenerate: `H` is the identity, a choice's
/// commitment `C` or its shift `C - G` is the identity, or the padding commitment is.
pub open spec fn vote_degenerate(answers: Seq<u16>, rs: Seq<int>, r_pad: int) -> bool {
    ||| blinding_log() == 0
    ||| exists|i: int| 0 <= i < answers.len() && (#[trigger] pedersen_value(answers[i] as int, rs[i]) == 0
        || pedersen_value(answers[i] as int, rs[i]) == 1)
    ||| pedersen_value(0, r_pad) == 0
}

proof fn lemma_shift_vanishes(a: int)
    requires
        0 <= a < group_order(),
    ensures
        (modl(a - 1) == 0) == (a == 1),
{
    let m = group_order();
    if a >= 1 {
        vstd::arithmetic::div_mod::lemma_small_mod((a - 1) as nat, m as nat);
    } else {
        vstd::arithmetic::div_mod::lemma_mod_add_multiples_vanish(a - 1, m);
        vstd::arithmetic::div_mod::lemma_small_mod((a - 1 + m) as nat, m as nat);
    }
}

/// Builds a vote for `answers` (one entry per choice, 1 for selected) for `num_nodes`
/// parties, from the drawn values `choices` (one per choice), the padding's
/// randomness `r_pad` and the nonce `pad_nonce` of the padding's proof of zero. It
/// fails exactly when one of the proof instances is degenerate.
pub fn create_vote_with(
    answers: &Vec<u16>,
    num_nodes: u32,
    choices: &Vec<ChoiceRandomness>,
    r_pad: &Scalar,
    pad_nonce: &Scalar,
) -> (r: Result<Vote, ZkProofError>)
    requires
        choices@.len() == answers@.len(),
        forall|i: int| 0 <= i < choices@.len() ==> #[trigger] choices@[i].x_coeffs@.len() == choices@[i].r_coeffs@.len(),
        forall|i: int| 0 <= i < choices@.len() ==> #[trigger] choices@[i].x_coeffs@.len() < usize::MAX,
    ensures
        r is Err <==> vote_degenerate(answers@, choice_rs(choices@), r_pad.value()),
        r matches Err(e) ==> e == ZkProofError::InvalidInstance,
        r matches Ok(v) ==> vote_opens_to(v, answers@, choice_rs(choices@), r_pad.value()),
        r matches Ok(v) ==> v.nizk_commit_zero_or_one@.len() == answers@.len()
            && v.shares@.len() == answers@.len() * num_nodes,
        r matches Ok(v) ==> (all_bits(answers@) ==> vote_proofs_accepted(v)),
{
    let (g, h) = pedersen_gens();
    let ghost all_rs = choice_rs(choices@);
    let mut commited_shares: Vec<Vec<Point>> = Vec::new();
    let mut proofs: Vec<ZkProofPedersenOr> = Vec::new();
    let mut shares: Vec<(Scalar, Scalar)> = Vec::new();
    let mut r_sum = Scalar::zero();
    let ghost mut rs: Seq<int> = Seq::empty();
    let mut i: usize = 0;
    assert(sum_upto(rs, 0) == 0);
    assert(modl(0) == 0);
    while i < answers.len()
        invariant
            i <= answers@.len(),
            choices@.len() == answers@.len(),
            forall|k: int| 0 <= k < choices@.len() ==> #[trigger] choices@[k].x_coeffs@.len() == choices@[k].r_coeffs@.len(),
            forall|k: int| 0 <= k < choices@.len() ==> #[trigger] choices@[k].x_coeffs@.len() < usize::MAX,
            all_rs == choice_rs(choices@),
            rs == all_rs.subrange(0, i as int),
            commited_shares@.len() == i,
            g.log() == 1,
            h.log() == blinding_log(),
            i > 0 ==> blinding_log() != 0,
            forall|k: int| 0 <= k < i ==> !(#[trigger] pedersen_value(answers@[k] as int, all_rs[k]) == 0
                || pedersen_value(answers@[k] as int, all_rs[k]) == 1),
            forall|k: int| 0 <= k < i ==> #[trigger] commited_shares@[k]@.len() >= 1,
            forall|k: int| 0 <= k < i ==>
                #[trigger] commited_shares@[k]@[0].log() == pedersen_value(answers@[k] as int, rs[k]),
            r_sum.value() == modl(sum_upto(rs, i as int)),
            proofs@.len() == i,
            shares@.len() == i * num_nodes,
            forall|k: int| 0 <= k < i && (answers@[k] == 0 || answers@[k] == 1) ==> #[trigger] or_accepts_logs(
                1,
                blinding_log(),
                commited_shares@[k]@[0].log(),
                modl(commited_shares@[k]@[0].log() - 1),
                proofs@[k].challenge_1.value(),
                proofs@[k].challenge_2.value(),
                proofs@[k].z1.value(),
                proofs@[k].z2.value(),
            ),
        decreases answers@.len() - i,
    {
        let choice = &choices[i];
        let x = Scalar::from_u64(answers[i] as u64);
        let r = choice.r;
        let (x_shares, r_shares, comms) = compute_commited_shares_with(&x, &r, &choice.x_coeffs, &choice.r_coeffs, num_nodes);
        let c = comms[0];
        let d = c.sub(&g);
        let instance = ZkInstancePedersenOr { g, h, c, d };
        let witness = ZkWitnessPedersenOr { r };
        proof {
            assert(r.value() == all_rs[i as int]);
            assert(c.log() == pedersen_value(answers@[i as int] as int, all_rs[i as int]));
            vstd::arithmetic::div_mod::lemma_mod_bound(answers@[i as int] as int + all_rs[i as int] * blinding_log(), group_order());
            lemma_shift_vanishes(c.log());
        }
        let attempt = if answers[i] == 1 {
            prove_nizk_pedersen_or_relation_one_with(&instance, &witness, &choice.sim_response, &choice.sim_challenge, &choice.nonce)
        } else {
            prove_nizk_pedersen_or_relation_zero_with(&instance, &witness, &choice.sim_response, &choice.sim_challenge, &choice.nonce)
        };
        let or_proof = match attempt {
            Ok(p) => p,
            Err(e) => {
                proof {
                    assert(0 <= i < answers@.len() && (pedersen_value(answers@[i as int] as int, all_rs[i as int]) == 0
                        || pedersen_value(answers@[i as int] as int, all_rs[i as int]) == 1) || blinding_log() == 0);
                    assert(vote_degenerate(answers@, choice_rs(choices@), r_pad.value()));
                }
                return Err(e);
            },
        };
        proof {
            if answers@[i as int] == 1 {
                let (z1, c1, al) = (choice.sim_response.value(), choice.sim_challenge.value(), choice.nonce.value());
                assert(proof_values(or_proof) == honest_or_one(instance, r.value(), z1, c1, al));
                lemma_choice_proof_accepted(instance, r.value(), 1, or_proof);
            } else if answers@[i as int] == 0 {
                let (z2, c2, al) = (choice.sim_response.value(), choice.sim_challenge.value(), choice.nonce.value());
                assert(proof_values(or_proof) == honest_or_zero(instance, r.value(), z2, c2, al));
                lemma_choice_proof_accepted(instance, r.value(), 0, or_proof);
            }
        }
        proofs.push(or_proof);
        let mut j: usize = 0;
        while j < x_shares.len()
            invariant
                j <= x_shares@.len(),
                x_shares@.len() == r_shares@.len(),
                x_shares@.len() == num_nodes,
                shares@.len() == i * num_nodes + j,
            decreases x_shares@.len() - j,
        {
            shares.push((x_shares[j], r_shares[j]));
            j = j + 1;
        }
        let ghost prev = r_sum.value();
        r_sum = r_sum.add(&r);
        proof {
            lemma_congruent_modl(sum_upto(rs, i as int));
            lemma_congruent_add(prev, sum_upto(rs, i as int), r.value(), r.value());
            lemma_congruent_modl(prev + r.value());
            let old_rs = rs;
            rs = rs.push(r.value());
            assert(rs =~= all_rs.subrange(0, i + 1));
            lemma_sum_prefix(rs, i as int, i as int);
            assert(rs.subrange(0, i as int) =~= old_rs);
            assert(sum_upto(rs, i + 1) == sum_upto(rs, i as int) + r.value());
        }
        commited_shares.push(comms);
        assert(shares@.len() == (i + 1) * num_nodes) by (nonlinear_arith)
            requires shares@.len() == i * num_nodes + num_nodes;
        i = i + 1;
    }
    assert(rs =~= all_rs);
    let zero = Scalar::zero();
    let commit_zero = pedersen_commit(&zero, r_pad);
    let ghost prev_sum = r_sum.value();
    let commitment_r_sum = r_pad.add(&r_sum);
    let pad_instance = ZkInstancePedersenZero { g, h, commitment: commit_zero };
    let pad_witness = ZkWitnessPedersenZero { commitment_r: *r_pad };
    let nizk_commit_pad_zero = match prove_nizk_pedersen_zero_with_nonce(&pad_instance, &pad_witness, pad_nonce) {
        Ok(p) => p,
        Err(e) => {
            assert(vote_degenerate(answers@, choice_rs(choices@), r_pad.value()));
            return Err(e);
        },
    };
    let vote = Vote {
        commited_shares,
        nizk_commit_zero_or_one: proofs,
        shares,
        commit_pad: commit_zero,
        commitment_r_sum,
        nizk_commit_pad_zero,
    };
    proof {
        let total = sum_upto(rs, rs.len() as int);
        lemma_congruent_modl(total);
        lemma_congruent_add(r_pad.value(), r_pad.value(), prev_sum, total);
        lemma_congruent_modl(r_pad.value() + prev_sum);
        assert(vote_opens_to(vote, answers@, rs, r_pad.value()));
        vstd::arithmetic::mul::lemma_mul_is_commutative(r_pad.value(), blinding_log());
        assert(commit_zero.log() == modl(h.log() * r_pad.value()));
        lemma_zero_proof_complete(pad_instance, r_pad.value(), pad_nonce.value());
        if all_bits(answers@) {
            assert forall|k: int| 0 <= k < answers@.len() implies #[trigger] or_accepts_logs(
                1,
                blinding_log(),
                vote.commited_shares@[k]@[0].log(),
                modl(vote.commited_shares@[k]@[0].log() - 1),
                vote.nizk_commit_zero_or_one@[k].challenge_1.value(),
                vote.nizk_commit_zero_or_one@[k].challenge_2.value(),
                vote.nizk_commit_zero_or_one@[k].z1.value(),
                vote.nizk_commit_zero_or_one@[k].z2.value(),
            ) by {
                assert(answers@[k] == 0 || answers@[k] == 1);
            }
            assert(vote_proofs_accepted(vote));
        }
        assert(!vote_degenerate(answers@, choice_rs(choices@), r_pad.value()));
    }
    let res: Result<Vote, ZkProofError> = Ok(vote);
    assert(res matches Ok(v) && vote_opens_to(v, answers@, choice_rs(choices@), r_pad.value()));
    assert(res matches Ok(v) && (all_bits(answers@) ==> vote_proofs_accepted(v)));
    res
}

/// Builds a vote for `answers` (one entry per choice, 1 for selected), shared among
/// `num_nodes` parties with threshold `threshold`, with values drawn from `rng`.
pub fn create_vote(answers: &Vec<u16>, num_nodes: u32, threshold: u32, rng: &mut StdRng) -> (r: Result<Vote, ZkProofError>)
    requires
        threshold >= 1,
    ensures
        r matches Ok(v) ==> exists|rs: Seq<int>, r_pad: int| vote_opens_to(v, answers@, rs, r_pad),
        r matches Ok(v) ==> v.nizk_commit_zero_or_one@.len() == answers@.len()
            && v.shares@.len() == answers@.len() * num_nodes,
        r matches Ok(v) ==> (all_bits(answers@) ==> vote_proofs_accepted(v)),
        r matches Err(e) ==> e == ZkProofError::InvalidInstance,
        r is Err ==> exists|rs: Seq<int>, r_pad: int| rs.len() == answers@.len() && vote_degenerate(answers@, rs, r_pad),
{
    let mut choices: Vec<ChoiceRandomness> = Vec::new();
    let mut i: usize = 0;
    while i < answers.len()
        invariant
            i <= answers@.len(),
            threshold >= 1,
            choices@.len() == i,
            forall|k: int| 0 <= k < i ==> #[trigger] choices@[k].x_coeffs@.len() == choices@[k].r_coeffs@.len(),
            forall|k: int| 0 <= k < i ==> #[trigger] choices@[k].x_coeffs@.len() < threshold,
        decreases answers@.len() - i,
    {
        let mut x_coeffs: Vec<Scalar> = Vec::new();
        let mut r_coeffs: Vec<Scalar> = Vec::new();
        let mut k: u32 = 1;
        while k < threshold
            invariant
                1 <= k <= threshold,
                x_coeffs@.len() == k - 1,
                r_coeffs@.len() == k - 1,
            decreases threshold - k,
        {
            x_coeffs.push(Scalar::random(rng));
            r_coeffs.push(Scalar::random(rng));
            k = k + 1;
        }
        let r = Scalar::random(rng);
        let sim_response = Scalar::random(rng);
        let sim_challenge = Scalar::random(rng);
        let nonce = Scalar::random(rng);
        choices.push(ChoiceRandomness { x_coeffs, r_coeffs, r, sim_response, sim_challenge, nonce });
        i = i + 1;
    }
    let r_pad = Scalar::random(rng);
    let pad_nonce = Scalar::random(rng);
    let res = create_vote_with(answers, num_nodes, &choices, &r_pad, &pad_nonce);
    proof {
        if res is Err {
            assert(choice_rs(choices@).len() == answers@.len());
        }
    }
    res
}

proof fn lemma_sum_prefix(xs: Seq<int>, n: int, k: int)
    requires
        0 <= k <= n <= xs.len(),
    ensures
        sum_upto(xs.subrange(0, n), k) == sum_upto(xs, k),
    decreases k,
{
    if k > 0 {
        lemma_sum_prefix(xs, n, k - 1);
    }
}

/// The aggregate check of a vote.
pub fn verify_vote_sum(vote: &Vote) -> (r: bool)
    ensures
        r == vote_sum_opens_to_one(*vote),
{
    let mut sum = Point::identity();
    let mut i: usize = 0;
    proof {
        lemma_congruent_modl(0);
    }
    while i < vote.commited_shares.len()
        invariant
            i <= vote.commited_shares@.len(),
            forall|k: int| 0 <= k < i ==> #[trigger] vote.commited_shares@[k]@.len() >= 1,
            sum.log() == modl(sum_upto(choice_logs(vote.commited_shares@), i as int)),
        decreases vote.commited_shares@.len() - i,
    {
        if vote.commited_shares[i].len() == 0 {
            assert(vote.commited_shares@[i as int]@.len() == 0);
            assert(!vote_sum_opens_to_one(*vote));
            return false;
        }
        let ghost s0 = sum_upto(choice_logs(vote.commited_shares@), i as int);
        sum = sum.add(&vote.commited_shares[i][0]);
        proof {
            lemma_congruent_modl(s0);
            lemma_congruent_add(modl(s0), s0, vote.commited_shares@[i as int]@[0].log(), vote.commited_shares@[i as int]@[0].log());
        }
        i = i + 1;
    }
    let ghost s = sum_upto(choice_logs(vote.commited_shares@), vote.commited_shares@.len() as int);
    sum = sum.add(&vote.commit_pad);
    proof {
        lemma_congruent_modl(s);
        lemma_congruent_add(modl(s), s, vote.commit_pad.log(), vote.commit_pad.log());
    }
    let one = Scalar::one();
    let expected = pedersen_commit(&one, &vote.commitment_r_sum);
    sum.equals(&expected)
}

proof fn lemma_choice_sum(cs: Seq<Vec<Point>>, answers: Seq<u16>, rs: Seq<int>, k: int)
    requires
        0 <= k <= answers.len(),
        cs.len() == answers.len(),
        rs.len() == answers.len(),
        forall|i: int| 0 <= i < answers.len() ==>
            #[trigger] cs[i]@[0].log() == pedersen_value(answers[i] as int, rs[i]),
    ensures
        congruent(
            sum_upto(choice_logs(cs), k),
            sum_upto(answer_values(answers), k) + sum_upto(rs, k) * blinding_log(),
        ),
    decreases k,
{
    let hb = blinding_log();
    if k == 0 {
        assert(sum_upto(rs, 0) * hb == 0);
    } else {
        lemma_choice_sum(cs, answers, rs, k - 1);
        let s0 = sum_upto(choice_logs(cs), k - 1);
        let a0 = sum_upto(answer_values(answers), k - 1);
        let r0 = sum_upto(rs, k - 1);
        let a = answers[k - 1] as int;
        let r = rs[k - 1];
        assert(choice_logs(cs)[k - 1] == modl(a + r * hb));
        lemma_congruent_modl(a + r * hb);
        lemma_congruent_add(s0, a0 + r0 * hb, modl(a + r * hb), a + r * hb);
        assert((a0 + r0 * hb) + (a + r * hb) == (a0 + a) + (r0 + r) * hb) by (nonlinear_arith);
    }
}

proof fn lemma_congruent_cancel(a: int, b: int, x: int)
    ensures
        congruent(a + x, b + x) <==> congruent(a, b),
{
    if congruent(a + x, b + x) {
        lemma_congruent_add(a + x, b + x, -x, -x);
        assert(a + x + -x == a && b + x + -x == b);
    }
    if congruent(a, b) {
        lemma_congruent_add(a, b, x, x);
    }
}

/// The aggregate check of an honestly built vote passes exactly when the answers sum
/// to one: a one-hot answer vector passes, an all-zero or multi-hot one fails.
pub proof fn lemma_vote_sum_opens_to_one_iff(vote: Vote, answers: Seq<u16>, rs: Seq<int>, r_pad: int)
    requires
        vote_opens_to(vote, answers, rs, r_pad),
    ensures
        vote_sum_opens_to_one(vote) <==> modl(sum_upto(answer_values(answers), answers.len() as int)) == 1,
{
    let cs = vote.commited_shares@;
    let n = answers.len() as int;
    let hb = blinding_log();
    let s = sum_upto(choice_logs(cs), n);
    let a = sum_upto(answer_values(answers), n);
    let rt = sum_upto(rs, n);
    lemma_choice_sum(cs, answers, rs, n);
    // the padding commits to zero with randomness r_pad
    lemma_congruent_modl(0 + r_pad * hb);
    lemma_congruent_add(s, a + rt * hb, vote.commit_pad.log(), r_pad * hb);
    assert(a + rt * hb + r_pad * hb == a + (rt + r_pad) * hb) by (nonlinear_arith);
    // the published randomness is r_pad + rt
    let x = (rt + r_pad) * hb;
    lemma_congruent_modl(r_pad + rt);
    lemma_congruent_mul(vote.commitment_r_sum.value(), rt + r_pad, hb, hb);
    lemma_congruent_add(1, 1, vote.commitment_r_sum.value() * hb, x);
    lemma_congruent_modl(1 + vote.commitment_r_sum.value() * hb);
    lemma_congruent_cancel(a, 1, x);
    lemma_modl_one();
}

proof fn lemma_modl_one()
    ensures
        modl(1) == 1,
{
    crate::ristretto::lemma_modl_small(1);
}

/// A full check of a vote: the aggregate check, the padding's proof of zero, and each
/// choice's proof that it commits to 0 or 1.
pub fn verify_vote(vote: &Vote) -> (r: bool)
    ensures
        r == (vote_sum_opens_to_one(*vote) && vote_proofs_accepted(*vote)),
{
    if !verify_vote_sum(vote) {
        return false;
    }
    let (g, h) = pedersen_gens();
    let pad_instance = ZkInstancePedersenZero { g, h, commitment: vote.commit_pad };
    if verify_nizk_pedersen_zero(&pad_instance, &vote.nizk_commit_pad_zero).is_err() {
        return false;
    }
    if vote.nizk_commit_zero_or_one.len() != vote.commited_shares.len() {
        return false;
    }
    let ghost cs = vote.commited_shares@;
    let ghost ps = vote.nizk_commit_zero_or_one@;
    let mut i: usize = 0;
    while i < vote.commited_shares.len()
        invariant
            cs == vote.commited_shares@,
            ps == vote.nizk_commit_zero_or_one@,
            i <= cs.len(),
            ps.len() == cs.len(),
            g.log() == 1,
            h.log() == blinding_log(),
            forall|k: int| 0 <= k < i ==> #[trigger] cs[k]@.len() >= 1,
            forall|k: int| 0 <= k < i ==> #[trigger] or_accepts_logs(
                1,
                blinding_log(),
                cs[k]@[0].log(),
                modl(cs[k]@[0].log() - 1),
                ps[k].challenge_1.value(),
                ps[k].challenge_2.value(),
                ps[k].z1.value(),
                ps[k].z2.value(),
            ),
        decreases cs.len() - i,
    {
        if vote.commited_shares[i].len() == 0 {
            assert(!(cs[i as int]@.len() >= 1));
            return false;
        }
        let c = vote.commited_shares[i][0];
        let instance = ZkInstancePedersenOr { g, h, c, d: c.sub(&g) };
        if verify_nizk_pedersen_or_relation(&instance, &vote.nizk_commit_zero_or_one[i]).is_err() {
            assert(!or_accepts_logs(
                1,
                blinding_log(),
                cs[i as int]@[0].log(),
                modl(cs[i as int]@[0].log() - 1),
                ps[i as int].challenge_1.value(),
                ps[i as int].challenge_2.value(),
                ps[i as int].z1.value(),
                ps[i as int].z2.value(),
            ));
            return false;
        }
        i = i + 1;
    }
    true
}

} // verus!
