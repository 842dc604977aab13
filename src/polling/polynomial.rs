//! Dense univariate polynomials with scalar coefficients.
use vstd::prelude::*;
use crate::ristretto::{Scalar, group_order, modl, lemma_scalar_range};
use rand::rngs::StdRng;

verus! {

broadcast use lemma_scalar_range;

/// The value of `sum_i cs[i] * x^i` over the integers, in nested (Horner) form.
pub open spec fn poly_value(cs: Seq<Scalar>, x: int) -> int
    decreases cs.len(),
{
    if cs.len() == 0 {
        0
    } else {
        cs[0].value() + x * poly_value(cs.drop_first(), x)
    }
}

/// `cs` has no trailing zero coefficient.
pub open spec fn no_trailing_zero(cs: Seq<Scalar>) -> bool {
    cs.len() == 0 || cs.last().value() != 0
}

/// One step of Horner's rule, modulo the group order.
proof fn lemma_horner_step(p: int, x: int, c: int)
    requires
        0 <= c < group_order(),
    ensures
        modl(modl(modl(p) * x) + c) == modl(c + x * p),
{
    let m = group_order();
    vstd::arithmetic::div_mod::lemma_mul_mod_noop_left(p, x, m);
    vstd::arithmetic::div_mod::lemma_add_mod_noop_right(c, p * x, m);
    vstd::arithmetic::mul::lemma_mul_is_commutative(p, x);
}

/// A univariate polynomial; `coefficients[i]` multiplies `x^i`.
#[derive(Clone, Debug)]
pub struct Polynomial {
    pub coefficients: Vec<Scalar>,
}

impl Polynomial {
    /// The polynomial with constant value zero.
    pub fn zero() -> (r: Polynomial)
        ensures
            r.coefficients@.len() == 0,
    {
        Polynomial { coefficients: Vec::new() }
    }

    /// The polynomial with these coefficients, trailing zeros removed.
    pub fn from_coefficients(coefficients: Vec<Scalar>) -> (r: Polynomial)
        ensures
            no_trailing_zero(r.coefficients@),
            r.coefficients@.len() <= coefficients@.len(),
            r.coefficients@ == coefficients@.subrange(0, r.coefficients@.len() as int),
            forall|i: int|
                r.coefficients@.len() <= i < coefficients@.len() ==> coefficients@[i].value() == 0,
    {
        let mut p = Polynomial { coefficients };
        p.remove_zeros();
        p
    }

    /// Removes trailing zero coefficients, giving the canonical representation.
    pub fn remove_zeros(&mut self)
        ensures
            no_trailing_zero(final(self).coefficients@),
            final(self).coefficients@.len() <= old(self).coefficients@.len(),
            final(self).coefficients@ == old(self).coefficients@.subrange(
                0,
                final(self).coefficients@.len() as int,
            ),
            forall|i: int|
                final(self).coefficients@.len() <= i < old(self).coefficients@.len()
                    ==> old(self).coefficients@[i].value() == 0,
    {
        let ghost orig = self.coefficients@;
        let mut len = self.coefficients.len();
        while len > 0 && self.coefficients[len - 1].is_zero()
            invariant
                self.coefficients@ == orig,
                len <= orig.len(),
                forall|i: int| len <= i < orig.len() ==> orig[i].value() == 0,
            decreases len,
        {
            len = len - 1;
        }
        self.coefficients.truncate(len);
        assert(self.coefficients@ =~= orig.subrange(0, len as int));
    }

    /// A polynomial with `number_of_coefficients` random coefficients, trailing zeros removed.
    pub fn random(number_of_coefficients: usize, rng: &mut StdRng) -> (r: Polynomial)
        ensures
            no_trailing_zero(r.coefficients@),
            r.coefficients@.len() <= number_of_coefficients,
    {
        let mut coefficients: Vec<Scalar> = Vec::new();
        while coefficients.len() < number_of_coefficients
            invariant
                coefficients@.len() <= number_of_coefficients,
            decreases number_of_coefficients - coefficients@.len(),
        {
            coefficients.push(Scalar::random(rng));
        }
        Polynomial::from_coefficients(coefficients)
    }

    /// The value of the polynomial at `x`, by Horner's rule.
    pub fn evaluate_at(&self, x: &Scalar) -> (r: Scalar)
        ensures
            r.value() == modl(poly_value(self.coefficients@, x.value())),
    {
        let cs = &self.coefficients;
        let n = cs.len();
        let mut ans = Scalar::zero();
        let mut i = n;
        assert(cs@.subrange(n as int, n as int) =~= Seq::<Scalar>::empty());
        assert(poly_value(cs@.subrange(n as int, n as int), x.value()) == 0);
        assert(modl(0) == 0);
        while i > 0
            invariant
                i <= n,
                n == cs@.len(),
                ans.value() == modl(poly_value(cs@.subrange(i as int, n as int), x.value())),
            decreases i,
        {
            let ghost rest = cs@.subrange(i as int, n as int);
            let ghost p = poly_value(rest, x.value());
            let t = ans.mul(x);
            ans = t.add(&cs[i - 1]);
            proof {
                assert(cs@.subrange(i - 1, n as int).drop_first() =~= rest);
                lemma_horner_step(p, x.value(), cs@[i - 1].value());
            }
            i = i - 1;
        }
        assert(cs@.subrange(0, n as int) =~= cs@);
        ans
    }

    /// The values of the polynomial at `1, 2, ..., n`.
    pub fn get_n_evals(&self, n: usize) -> (r: Vec<Scalar>)
        requires
            n < u64::MAX,
        ensures
            r@.len() == n,
            forall|i: int|
                0 <= i < n ==> #[trigger] r@[i].value() == modl(
                    poly_value(self.coefficients@, i + 1),
                ),
    {
        let mut n_evals: Vec<Scalar> = Vec::new();
        let mut i: usize = 0;
        while i < n
            invariant
                i <= n,
                n < u64::MAX,
                n_evals@.len() == i,
                forall|j: int|
                    0 <= j < i ==> #[trigger] n_evals@[j].value() == modl(
                        poly_value(self.coefficients@, j + 1),
                    ),
            decreases n - i,
        {
            let x = Scalar::from_u64((i + 1) as u64);
            n_evals.push(self.evaluate_at(&x));
            i = i + 1;
        }
        n_evals
    }
}

} // verus!
