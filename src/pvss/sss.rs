//! Shamir secret sharing of a field element: shares are points `(x, f(x))` of a random
//! polynomial `f` of `t` coefficients with `f(0)` the secret, and any `t` of them give
//! the secret back by Lagrange interpolation at zero.
use vstd::prelude::*;
use crate::bls::{Fr, modr, field_order, fr_poly_value, fr_inverse_of, lemma_fr_range, lemma_modr_diff_zero, dense_evaluate};
use crate::pvss::PVSSError;
use rand::rngs::StdRng;

verus! {

broadcast use lemma_fr_range;

/// The shares lie on the polynomial `f`.
pub open spec fn shares_on(f: Seq<Fr>, shares: Seq<(Fr, Fr)>) -> bool {
    forall|i: int| 0 <= i < shares.len() ==> #[trigger] shares[i].1.value() == modr(
        fr_poly_value(f, shares[i].0.value()),
    )
}

/// The shares `(xs[i], f(xs[i]))` of the polynomial `f` with constant term `secret`
/// and the further coefficients `coeffs`.
pub fn share_with(secret: &Fr, coeffs: &Vec<Fr>, xs: &Vec<Fr>) -> (shares: Vec<(Fr, Fr)>)
    requires
        coeffs@.len() < usize::MAX,
    ensures
        shares@.len() == xs@.len(),
        forall|i: int| 0 <= i < xs@.len() ==> #[trigger] shares@[i].0 == xs@[i],
        shares_on(seq![*secret] + coeffs@, shares@),
{
    let mut f: Vec<Fr> = Vec::new();
    f.push(*secret);
    let mut i: usize = 0;
    while i < coeffs.len()
        invariant
            i <= coeffs@.len(),
            f@ == seq![*secret] + coeffs@.subrange(0, i as int),
        decreases coeffs@.len() - i,
    {
        f.push(coeffs[i]);
        i = i + 1;
        assert(f@ =~= seq![*secret] + coeffs@.subrange(0, i as int));
    }
    assert(f@ =~= seq![*secret] + coeffs@);
    let mut shares: Vec<(Fr, Fr)> = Vec::new();
    let mut k: usize = 0;
    while k < xs.len()
        invariant
            k <= xs@.len(),
            shares@.len() == k,
            forall|q: int| 0 <= q < k ==> #[trigger] shares@[q].0 == xs@[q],
            shares_on(f@, shares@),
        decreases xs@.len() - k,
    {
        let y = dense_evaluate(&f, &xs[k]);
        shares.push((xs[k], y));
        k = k + 1;
    }
    shares
}

/// Splits `secret` into `n` shares with threshold `t`, for `access = (t, n)`: a random
/// polynomial of `t` coefficients whose constant term is the secret, evaluated at `n`
/// random points.
pub fn share(secret: &Fr, access: (u64, u64), rng: &mut StdRng) -> (shares: Vec<(Fr, Fr)>)
    requires
        1 <= access.0 < usize::MAX,
        access.1 < usize::MAX,
    ensures
        shares@.len() == access.1,
        exists|f: Seq<Fr>| f.len() == access.0 && f[0] == *secret && shares_on(f, shares@),
{
    let (t, n) = access;
    let mut coeffs: Vec<Fr> = Vec::new();
    let mut i: u64 = 1;
    while i < t
        invariant
            1 <= i <= t,
            coeffs@.len() == i - 1,
        decreases t - i,
    {
        coeffs.push(Fr::random(rng));
        i = i + 1;
    }
    let mut xs: Vec<Fr> = Vec::new();
    let mut k: u64 = 0;
    while k < n
        invariant
            k <= n,
            xs@.len() == k,
        decreases n - k,
    {
        xs.push(Fr::random(rng));
        k = k + 1;
    }
    let shares = share_with(secret, &coeffs, &xs);
    proof {
        let f = seq![*secret] + coeffs@;
        assert(f.len() == t && f[0] == *secret && shares_on(f, shares@));
    }
    shares
}

/// The running product `prod_{j < k, j != i} (x - xs[j]) / (xs[i] - xs[j])`, reduced at
/// each step.
pub open spec fn weight_upto(xs: Seq<Fr>, x: int, i: int, k: int) -> int
    decreases k,
{
    if k <= 0 {
        1
    } else if k - 1 == i {
        weight_upto(xs, x, i, k - 1)
    } else {
        modr(
            weight_upto(xs, x, i, k - 1) * modr(
                modr(x - xs[k - 1].value()) * fr_inverse_of(modr(xs[i].value() - xs[k - 1].value())),
            ),
        )
    }
}

/// The Lagrange coefficient at `x` of point `i` among `xs`.
pub open spec fn lagrange_weight_at(xs: Seq<Fr>, x: int, i: int) -> int {
    weight_upto(xs, x, i, xs.len() as int)
}

pub open spec fn distinct_points(xs: Seq<Fr>) -> bool {
    forall|i: int, j: int| 0 <= i < xs.len() && 0 <= j < xs.len() && i != j ==> xs[i].value() != xs[j].value()
}

/// `sum_{i < k} ys[i] * ws[i]`, reduced at each step.
pub open spec fn weighted_sum_upto(ys: Seq<(Fr, Fr)>, ws: Seq<Fr>, k: int) -> int
    decreases k,
{
    if k <= 0 {
        0
    } else {
        modr(weighted_sum_upto(ys, ws, k - 1) + modr(ys[k - 1].1.value() * ws[k - 1].value()))
    }
}

/// The Lagrange coefficients at `x` of the points `xs`: `l_i = prod_{j != i} (x - x_j) / (x_i - x_j)`.
/// Two equal points are refused.
fn lagrange_coefficients(xs: &Vec<Fr>, x: &Fr) -> (r: Result<Vec<Fr>, PVSSError>)
    ensures
        r is Ok <==> distinct_points(xs@),
        r is Err ==> r matches Err(PVSSError::DuplicateEvaluationPoint),
        r matches Ok(ws) ==> ws@.len() == xs@.len() && forall|i: int|
            0 <= i < xs@.len() ==> #[trigger] ws@[i].value() == lagrange_weight_at(xs@, x.value(), i),
{
    let mut output: Vec<Fr> = Vec::new();
    let n = xs.len();
    let mut i: usize = 0;
    while i < n
        invariant
            n == xs@.len(),
            i <= n,
            output@.len() == i,
            forall|a: int, b: int| 0 <= a < i && 0 <= b < n && a != b ==> xs@[a].value() != xs@[b].value(),
            forall|k: int| 0 <= k < i ==> #[trigger] output@[k].value() == lagrange_weight_at(xs@, x.value(), k),
        decreases n - i,
    {
        let x_i = xs[i];
        let mut l_i = Fr::one();
        let mut j: usize = 0;
        proof {
            vstd::arithmetic::div_mod::lemma_small_mod(1, field_order() as nat);
        }
        while j < n
            invariant
                n == xs@.len(),
                i < n,
                j <= n,
                x_i == xs@[i as int],
                forall|b: int| 0 <= b < j && b != i ==> xs@[i as int].value() != xs@[b].value(),
                l_i.value() == weight_upto(xs@, x.value(), i as int, j as int),
            decreases n - j,
        {
            if i != j {
                let diff = x_i.sub(&xs[j]);
                if diff.is_zero() {
                    proof {
                        let a = xs@[i as int].value();
                        let b = xs@[j as int].value();
                        lemma_modr_diff_zero(a, b);
                        assert(!distinct_points(xs@));
                    }
                    return Err(PVSSError::DuplicateEvaluationPoint);
                }
                proof {
                    lemma_modr_diff_zero(xs@[i as int].value(), xs@[j as int].value());
                }
                let num = x.sub(&xs[j]);
                let inv = diff.inverse();
                l_i = l_i.mul(&num.mul(&inv));
            }
            j = j + 1;
        }
        output.push(l_i);
        i = i + 1;
    }
    Ok(output)
}

/// Recovers the secret `f(0)` from shares `(x, f(x))` by Lagrange interpolation.
/// Two shares at the same point are refused.
pub fn recover(shares: Vec<(Fr, Fr)>) -> (r: Result<Fr, PVSSError>)
    ensures
        r is Ok <==> distinct_points(shares@.map_values(|s: (Fr, Fr)| s.0)),
        r is Err ==> r matches Err(PVSSError::DuplicateEvaluationPoint),
        r matches Ok(secret) ==> exists|ws: Seq<Fr>|
            ws.len() == shares@.len()
            && (forall|i: int| 0 <= i < ws.len() ==> #[trigger] ws[i].value() == lagrange_weight_at(
                shares@.map_values(|s: (Fr, Fr)| s.0),
                0,
                i,
            ))
            && secret.value() == weighted_sum_upto(shares@, ws, shares@.len() as int),
{
    let ghost xs_spec = shares@.map_values(|s: (Fr, Fr)| s.0);
    let mut xs: Vec<Fr> = Vec::new();
    let mut k: usize = 0;
    while k < shares.len()
        invariant
            k <= shares@.len(),
            xs_spec == shares@.map_values(|s: (Fr, Fr)| s.0),
            xs@ == xs_spec.subrange(0, k as int),
        decreases shares@.len() - k,
    {
        xs.push(shares[k].0);
        k = k + 1;
        assert(xs@ =~= xs_spec.subrange(0, k as int));
    }
    assert(xs@ =~= xs_spec);
    let zero = Fr::zero();
    let lagrange_coeffs = lagrange_coefficients(&xs, &zero)?;
    let mut secret = Fr::zero();
    let mut i: usize = 0;
    proof {
        vstd::arithmetic::div_mod::lemma_small_mod(0, field_order() as nat);
    }
    while i < shares.len()
        invariant
            i <= shares@.len(),
            lagrange_coeffs@.len() == shares@.len(),
            secret.value() == weighted_sum_upto(shares@, lagrange_coeffs@, i as int),
        decreases shares@.len() - i,
    {
        secret = secret.add(&shares[i].1.mul(&lagrange_coeffs[i]));
        i = i + 1;
    }
    Ok(secret)
}

} // verus!
