//! Pedersen commitments `m * G + r * H` and the committed shares of one poll answer.
use vstd::prelude::*;
use crate::ristretto::{Scalar, Point, modl, blinding_log, pedersen_gens, weighted_log_sum, lemma_scalar_range};
use crate::polling::polynomial::{Polynomial, poly_value};
use rand::rngs::StdRng;

verus! {

broadcast use lemma_scalar_range;

/// The logarithm of the Pedersen commitment to `m` with randomness `r`.
pub open spec fn pedersen_value(m: int, r: int) -> int {
    modl(m + r * blinding_log())
}

/// `m * G + r * H` over the standard Pedersen generators.
pub fn pedersen_commit(m: &Scalar, r: &Scalar) -> (c: Point)
    ensures
        c.log() == pedersen_value(m.value(), r.value()),
{
    let (g, h) = pedersen_gens();
    let scalars = vec![*m, *r];
    let points = vec![g, h];
    proof {
        reveal_with_fuel(weighted_log_sum, 3);
        assert(scalars@.drop_last().drop_last().len() == 0);
    }
    Point::multiscalar_mul(&scalars, &points)
}

/// `ys[i]` is the value of `f` at `i + 1`, for each of the `n` parties.
pub open spec fn shares_of(f: Seq<Scalar>, ys: Seq<Scalar>, n: int) -> bool {
    ys.len() == n && forall|i: int| 0 <= i < n ==> #[trigger] ys[i].value() == modl(poly_value(f, i + 1))
}

/// The commitments: `comms[0]` to `(x, r)` and `comms[i + 1]` to party `i`'s shares.
pub open spec fn commitments_of(x: Scalar, r: Scalar, xs: Seq<Scalar>, rs: Seq<Scalar>, comms: Seq<Point>) -> bool {
    comms.len() == xs.len() + 1 && xs.len() == rs.len()
        && comms[0].log() == pedersen_value(x.value(), r.value())
        && forall|i: int| 0 <= i < xs.len() ==> #[trigger] comms[i + 1].log() == pedersen_value(
            xs[i].value(),
            rs[i].value(),
        )
}

/// The shares and commitments for the answer `x`, with the sharing polynomials given:
/// `x_coeffs` and `r_coeffs` are the coefficients of degree `1, 2, ...` of the
/// polynomials whose constant terms are `x` and `r`.
pub fn compute_commited_shares_with(
    x: &Scalar,
    r: &Scalar,
    x_coeffs: &Vec<Scalar>,
    r_coeffs: &Vec<Scalar>,
    n: u32,
) -> (out: (Vec<Scalar>, Vec<Scalar>, Vec<Point>))
    requires
        x_coeffs@.len() == r_coeffs@.len(),
        x_coeffs@.len() < usize::MAX,
    ensures
        shares_of(seq![*x] + x_coeffs@, out.0@, n as int),
        shares_of(seq![*r] + r_coeffs@, out.1@, n as int),
        commitments_of(*x, *r, out.0@, out.1@, out.2@),
{
    let mut xc: Vec<Scalar> = Vec::new();
    xc.push(*x);
    let mut rc: Vec<Scalar> = Vec::new();
    rc.push(*r);
    let mut k: usize = 0;
    while k < x_coeffs.len()
        invariant
            k <= x_coeffs@.len(),
            x_coeffs@.len() == r_coeffs@.len(),
            xc@ == seq![*x] + x_coeffs@.subrange(0, k as int),
            rc@ == seq![*r] + r_coeffs@.subrange(0, k as int),
        decreases x_coeffs@.len() - k,
    {
        xc.push(x_coeffs[k]);
        rc.push(r_coeffs[k]);
        k = k + 1;
        assert(xc@ =~= seq![*x] + x_coeffs@.subrange(0, k as int));
        assert(rc@ =~= seq![*r] + r_coeffs@.subrange(0, k as int));
    }
    assert(xc@ =~= seq![*x] + x_coeffs@);
    assert(rc@ =~= seq![*r] + r_coeffs@);
    let x_poly = Polynomial { coefficients: xc };
    let r_poly = Polynomial { coefficients: rc };
    let x_shares = x_poly.get_n_evals(n as usize);
    let r_shares = r_poly.get_n_evals(n as usize);
    let mut share_comms: Vec<Point> = Vec::new();
    share_comms.push(pedersen_commit(x, r));
    let mut i: usize = 0;
    while i < n as usize
        invariant
            i <= n,
            x_shares@.len() == n,
            r_shares@.len() == n,
            share_comms@.len() == i + 1,
            share_comms@[0].log() == pedersen_value(x.value(), r.value()),
            forall|j: int| 0 <= j < i ==> #[trigger] share_comms@[j + 1].log() == pedersen_value(
                x_shares@[j].value(),
                r_shares@[j].value(),
            ),
        decreases n - i,
    {
        share_comms.push(pedersen_commit(&x_shares[i], &r_shares[i]));
        i = i + 1;
    }
    (x_shares, r_shares, share_comms)
}

/// Shares the answer `x` among `n` parties with threshold `t`: random polynomials of
/// `t` coefficients for `x` and for a random `r`, their values at `1..n`, and the
/// commitments. Returns `(r, x_shares, r_shares, commitments)`.
pub fn compute_commited_shares(x: &Scalar, n: u32, t: u32, rng: &mut StdRng) -> (out: (Scalar, Vec<Scalar>, Vec<Scalar>, Vec<Point>))
    requires
        t >= 1,
    ensures
        exists|fx: Seq<Scalar>, fr: Seq<Scalar>|
            fx.len() == t && fr.len() == t && fx[0] == *x && fr[0] == out.0
                && shares_of(fx, out.1@, n as int) && shares_of(fr, out.2@, n as int),
        commitments_of(*x, out.0, out.1@, out.2@, out.3@),
{
    let mut x_coeffs: Vec<Scalar> = Vec::new();
    let mut r_coeffs: Vec<Scalar> = Vec::new();
    let mut k: u32 = 1;
    while k < t
        invariant
            1 <= k <= t,
            x_coeffs@.len() == k - 1,
            r_coeffs@.len() == k - 1,
        decreases t - k,
    {
        x_coeffs.push(Scalar::random(rng));
        r_coeffs.push(Scalar::random(rng));
        k = k + 1;
    }
    let r = Scalar::random(rng);
    let (x_shares, r_shares, comms) = compute_commited_shares_with(x, &r, &x_coeffs, &r_coeffs, n);
    proof {
        let fx = seq![*x] + x_coeffs@;
        let fr = seq![r] + r_coeffs@;
        assert(fx.len() == t && fr.len() == t && fx[0] == *x && fr[0] == r
            && shares_of(fx, x_shares@, n as int) && shares_of(fr, r_shares@, n as int));
    }
    (r, x_shares, r_shares, comms)
}

} // verus!
