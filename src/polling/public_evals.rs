//! Public evaluations: group elements `v_i = a_i * G` (or commitments) standing for
//! the evaluations `a_i` of a secret polynomial, and the low-degree test on them.
use vstd::prelude::*;
use crate::ristretto::{
    Scalar, Point, group_order, modl, scalar_inverse, weighted_log_sum, lemma_scalar_range,
    lemma_modl_small, lemma_congruent_modl, lemma_congruent_mul, congruent,
};
use crate::polling::polynomial::{Polynomial, poly_value};
use rand::rngs::StdRng;
use rayon::iter::IntoParallelRefIterator;
use rayon::iter::ParallelIterator;

verus! {

broadcast use lemma_scalar_range;

/// Evaluations published as group elements over the generator `g`; `evals[0]`
/// stands for the value at zero and `evals[i]` for the value at `i`.
#[derive(Clone, Debug)]
pub struct PublicEvals {
    pub g: Point,
    pub evals: Vec<Point>,
}

pub open spec fn logs(ps: Seq<Point>) -> Seq<int> {
    ps.map_values(|p: Point| p.log())
}

/// `prod_{j < k, j != i} (i - j)`.
pub open spec fn point_denominator_upto(i: int, k: int) -> int
    decreases k,
{
    if k <= 0 {
        1
    } else if k - 1 == i {
        point_denominator_upto(i, k - 1)
    } else {
        point_denominator_upto(i, k - 1) * (i - (k - 1))
    }
}

/// The Lagrange denominator of point `i` among the points `0, 1, ..., n - 1`.
pub open spec fn point_denominator(n: int, i: int) -> int {
    point_denominator_upto(i, n)
}

/// `cw` is the dual codeword of the check polynomial `f`: `cw[i] = f(i) / prod_{j != i} (i - j)`
/// over the points `0, ..., n - 1`.
pub open spec fn is_dual_codeword_of(cw: Seq<Scalar>, f: Seq<Scalar>, n: int) -> bool {
    cw.len() == n && forall|i: int|
        0 <= i < n ==> #[trigger] cw[i].value() == modl(
            modl(poly_value(f, i)) * scalar_inverse(modl(point_denominator(n, i))),
        )
}

/// `cw` is a dual codeword for degree `degree` over `n` points: the check polynomial
/// has at most `n - degree - 1` coefficients.
pub open spec fn is_dual_codeword(cw: Seq<Scalar>, degree: int, n: int) -> bool {
    exists|f: Seq<Scalar>| f.len() <= n - degree - 1 && is_dual_codeword_of(cw, f, n)
}

/// The inner product of the codeword with the evaluations at `1, ..., n` vanishes.
pub open spec fn codeword_annihilates(cw: Seq<Scalar>, evals: Seq<Point>) -> bool {
    evals.len() >= 1 && cw.len() == evals.len() - 1 && modl(weighted_log_sum(cw, evals.drop_first())) == 0
}

/// The elements of column `i`: `evals_vec[j].evals[i]` for each `j`.
pub open spec fn column(evals_vec: Seq<PublicEvals>, i: int) -> Seq<Point> {
    evals_vec.map_values(|pe: PublicEvals| pe.evals@[i])
}

/// Relies on rayon's `par_iter().map().collect()`, which keeps the order of the items;
/// each item is `g * evals[i]`.
#[verifier::external_body]
fn par_scale(evals: &Vec<Scalar>, g: &Point) -> (r: Vec<Point>)
    ensures
        r@.len() == evals@.len(),
        forall|i: int| 0 <= i < evals@.len() ==> #[trigger] r@[i].log() == modl(g.log() * evals@[i].value()),
{
    evals.par_iter().map(|x| g.mul(x)).collect()
}

impl PublicEvals {
    /// A copy with the same generator and elements.
    pub fn duplicate(&self) -> (r: PublicEvals)
        ensures
            r.g == self.g,
            r.evals@ == self.evals@,
    {
        let mut evals: Vec<Point> = Vec::new();
        let mut i: usize = 0;
        while i < self.evals.len()
            invariant
                i <= self.evals@.len(),
                evals@ == self.evals@.subrange(0, i as int),
            decreases self.evals@.len() - i,
        {
            evals.push(self.evals[i]);
            i = i + 1;
            assert(evals@ =~= self.evals@.subrange(0, i as int));
        }
        assert(evals@ =~= self.evals@);
        PublicEvals { g: self.g, evals }
    }

    /// Equal generators and equal elements.
    pub fn equals(&self, other: &PublicEvals) -> (r: bool)
        ensures
            r == (self.g.log() == other.g.log() && logs(self.evals@) == logs(other.evals@)),
    {
        if !self.g.equals(&other.g) {
            return false;
        }
        if self.evals.len() != other.evals.len() {
            assert(logs(self.evals@).len() != logs(other.evals@).len());
            return false;
        }
        let mut i: usize = 0;
        while i < self.evals.len()
            invariant
                i <= self.evals@.len(),
                self.evals@.len() == other.evals@.len(),
                forall|j: int| 0 <= j < i ==> self.evals@[j].log() == other.evals@[j].log(),
            decreases self.evals@.len() - i,
        {
            if !self.evals[i].equals(&other.evals[i]) {
                assert(logs(self.evals@)[i as int] != logs(other.evals@)[i as int]);
                return false;
            }
            i = i + 1;
        }
        assert(logs(self.evals@) =~= logs(other.evals@));
        true
    }

    /// `self := self + rhs`, element by element.
    pub fn add_assign(&mut self, rhs: &PublicEvals)
        requires
            old(self).g.log() == rhs.g.log(),
            old(self).evals@.len() == rhs.evals@.len(),
        ensures
            final(self).g == old(self).g,
            final(self).evals@.len() == old(self).evals@.len(),
            forall|i: int| 0 <= i < old(self).evals@.len() ==> #[trigger] final(self).evals@[i].log() == modl(
                old(self).evals@[i].log() + rhs.evals@[i].log(),
            ),
    {
        let ghost start = self.evals@;
        let mut i: usize = 0;
        while i < self.evals.len()
            invariant
                i <= self.evals@.len(),
                self.evals@.len() == start.len(),
                start.len() == rhs.evals@.len(),
                self.g == old(self).g,
                start == old(self).evals@,
                forall|k: int| i <= k < start.len() ==> self.evals@[k] == start[k],
                forall|k: int| 0 <= k < i ==> #[trigger] self.evals@[k].log() == modl(start[k].log() + rhs.evals@[k].log()),
            decreases start.len() - i,
        {
            let sum = self.evals[i].add(&rhs.evals[i]);
            self.evals.set(i, sum);
            i = i + 1;
        }
    }

    /// `self + rhs`, element by element.
    pub fn add(self, rhs: &PublicEvals) -> (r: PublicEvals)
        requires
            self.g.log() == rhs.g.log(),
            self.evals@.len() == rhs.evals@.len(),
        ensures
            r.g == self.g,
            r.evals@.len() == self.evals@.len(),
            forall|i: int| 0 <= i < self.evals@.len() ==> #[trigger] r.evals@[i].log() == modl(
                self.evals@[i].log() + rhs.evals@[i].log(),
            ),
    {
        let mut out = self;
        out.add_assign(rhs);
        out
    }

    /// Every element multiplied by `rhs`; the generator is kept.
    pub fn mul(&self, rhs: Scalar) -> (r: PublicEvals)
        ensures
            r.g == self.g,
            r.evals@.len() == self.evals@.len(),
            forall|i: int| 0 <= i < self.evals@.len() ==> #[trigger] r.evals@[i].log() == modl(
                self.evals@[i].log() * rhs.value(),
            ),
    {
        let mut evals: Vec<Point> = Vec::new();
        let mut i: usize = 0;
        while i < self.evals.len()
            invariant
                i <= self.evals@.len(),
                evals@.len() == i,
                forall|k: int| 0 <= k < i ==> #[trigger] evals@[k].log() == modl(self.evals@[k].log() * rhs.value()),
            decreases self.evals@.len() - i,
        {
            evals.push(self.evals[i].mul(&rhs));
            i = i + 1;
        }
        PublicEvals { g: self.g, evals }
    }

    /// The elements `g * evals[i]`.
    pub fn from_evals(evals: &Vec<Scalar>, g: &Point) -> (r: PublicEvals)
        ensures
            r.g == *g,
            r.evals@.len() == evals@.len(),
            forall|i: int| 0 <= i < evals@.len() ==> #[trigger] r.evals@[i].log() == modl(g.log() * evals@[i].value()),
    {
        let mut out: Vec<Point> = Vec::new();
        let mut i: usize = 0;
        while i < evals.len()
            invariant
                i <= evals@.len(),
                out@.len() == i,
                forall|j: int| 0 <= j < i ==> #[trigger] out@[j].log() == modl(g.log() * evals@[j].value()),
            decreases evals@.len() - i,
        {
            out.push(g.mul(&evals[i]));
            i = i + 1;
        }
        PublicEvals { g: *g, evals: out }
    }

    /// As `from_evals`, with the multiplications spread over worker threads.
    pub fn from_evals_parallelized(evals: &Vec<Scalar>, g: &Point) -> (r: PublicEvals)
        ensures
            r.g == *g,
            r.evals@.len() == evals@.len(),
            forall|i: int| 0 <= i < evals@.len() ==> #[trigger] r.evals@[i].log() == modl(g.log() * evals@[i].value()),
    {
        PublicEvals { g: *g, evals: par_scale(evals, g) }
    }

    /// The low-degree test for threshold `t` (degree `t - 1`) over `n` parties, with a
    /// freshly drawn dual codeword. With `t == n` every vector passes.
    pub fn perform_low_degree_test(&self, n: u32, t: u32, rng: &mut StdRng) -> (r: bool)
        requires
            1 <= t <= n,
            self.evals@.len() >= 1,
        ensures
            t == n ==> r,
            t != n ==> exists|cw: Seq<Scalar>|
                is_dual_codeword(cw, t - 1, n as int) && r == codeword_annihilates(cw, self.evals@),
    {
        if t == n {
            return true;
        }
        let degree = (t - 1) as usize;
        let vf = PublicEvals::get_dual_codeword(degree, n as usize, rng);
        self.perform_low_degree_test_with_precomputation(n, t, &vf)
    }

    /// The low-degree test with a given dual codeword: the inner product of the
    /// codeword with `evals[1..]` must be the identity.
    pub fn perform_low_degree_test_with_precomputation(&self, n: u32, t: u32, dual_codeword: &Vec<Scalar>) -> (r: bool)
        requires
            self.evals@.len() >= 1,
        ensures
            r == (t == n || codeword_annihilates(dual_codeword@, self.evals@)),
    {
        if t == n {
            return true;
        }
        let mut evals: Vec<Point> = Vec::new();
        let mut i: usize = 1;
        while i < self.evals.len()
            invariant
                1 <= i <= self.evals@.len(),
                evals@ == self.evals@.subrange(1, i as int),
            decreases self.evals@.len() - i,
        {
            evals.push(self.evals[i]);
            i = i + 1;
            assert(evals@ =~= self.evals@.subrange(1, i as int));
        }
        assert(evals@ =~= self.evals@.drop_first());
        if evals.len() != dual_codeword.len() {
            return false;
        }
        let ip = Point::multiscalar_mul(dual_codeword, &evals);
        ip.is_identity()
    }

    /// The dual codeword of the check polynomial `f` over the points `0, ..., n - 1`:
    /// `f(i) / prod_{j != i} (i - j)`.
    pub fn dual_codeword_from(f: &Polynomial, n: usize) -> (r: Vec<Scalar>)
        requires
            n < u64::MAX,
        ensures
            is_dual_codeword_of(r@, f.coefficients@, n as int),
    {
        let denominators = PublicEvals::all_lagrange_denominators(n);
        let mut vf: Vec<Scalar> = Vec::new();
        let mut i: usize = 0;
        while i < n
            invariant
                i <= n,
                n < u64::MAX,
                denominators@.len() == n,
                forall|k: int| 0 <= k < n ==> #[trigger] denominators@[k].value() == modl(point_denominator(n as int, k)),
                vf@.len() == i,
                forall|k: int| 0 <= k < i ==> #[trigger] vf@[k].value() == modl(
                    modl(poly_value(f.coefficients@, k)) * scalar_inverse(modl(point_denominator(n as int, k))),
                ),
            decreases n - i,
        {
            let f_i = f.evaluate_at(&Scalar::from_u64(i as u64));
            let denom_inv = denominators[i].invert();
            vf.push(f_i.mul(&denom_inv));
            i = i + 1;
        }
        vf
    }

    /// A random dual codeword for degree `degree` over the points `0, ..., n - 1`: the
    /// dual codeword of a random check polynomial of degree at most `n - degree - 2`.
    pub fn get_dual_codeword(degree: usize, n: usize, rng: &mut StdRng) -> (r: Vec<Scalar>)
        requires
            degree + 2 <= n,
            n < u64::MAX,
        ensures
            is_dual_codeword(r@, degree as int, n as int),
    {
        let dual_degree = n - degree - 2;
        let f_poly = Polynomial::random(dual_degree + 1, rng);
        PublicEvals::dual_codeword_from(&f_poly, n)
    }

    /// `prod_{j != i} (i - j)` over `j < n`, for each `i < n`.
    fn all_lagrange_denominators(n: usize) -> (r: Vec<Scalar>)
        requires
            n < u64::MAX,
        ensures
            r@.len() == n,
            forall|k: int| 0 <= k < n ==> #[trigger] r@[k].value() == modl(point_denominator(n as int, k)),
    {
        let mut denominators: Vec<Scalar> = Vec::new();
        let mut i: usize = 0;
        while i < n
            invariant
                i <= n,
                n < u64::MAX,
                denominators@.len() == i,
                forall|k: int| 0 <= k < i ==> #[trigger] denominators@[k].value() == modl(point_denominator(n as int, k)),
            decreases n - i,
        {
            let mut denom = Scalar::one();
            let x_i = Scalar::from_u64(i as u64);
            let mut j: usize = 0;
            proof {
                lemma_modl_small(1);
            }
            while j < n
                invariant
                    i < n,
                    j <= n,
                    n < u64::MAX,
                    x_i.value() == i,
                    denom.value() == modl(point_denominator_upto(i as int, j as int)),
                decreases n - j,
            {
                if i != j {
                    let x_j = Scalar::from_u64(j as u64);
                    let diff = x_i.sub(&x_j);
                    let ghost d0 = point_denominator_upto(i as int, j as int);
                    denom = denom.mul(&diff);
                    proof {
                        lemma_congruent_modl(d0);
                        lemma_congruent_modl(i - j);
                        lemma_congruent_mul(modl(d0), d0, modl(i - j), i - j);
                        lemma_congruent_modl(modl(d0) * modl(i - j));
                    }
                }
                j = j + 1;
            }
            denominators.push(denom);
            i = i + 1;
        }
        denominators
    }

    /// `self := self + coeff * other`, element by element.
    pub fn add_linear_combination_with_coeff(&mut self, other: &PublicEvals, coeff: Scalar)
        requires
            old(self).g == other.g,
            old(self).evals@.len() == other.evals@.len(),
        ensures
            final(self).g == old(self).g,
            final(self).evals@.len() == old(self).evals@.len(),
            forall|i: int| 0 <= i < old(self).evals@.len() ==> #[trigger] final(self).evals@[i].log() == modl(
                old(self).evals@[i].log() + modl(other.evals@[i].log() * coeff.value()),
            ),
    {
        let ghost start = self.evals@;
        let mut i: usize = 0;
        while i < self.evals.len()
            invariant
                i <= self.evals@.len(),
                self.evals@.len() == start.len(),
                start.len() == other.evals@.len(),
                self.g == old(self).g,
                start == old(self).evals@,
                forall|k: int| i <= k < start.len() ==> self.evals@[k] == start[k],
                forall|k: int| 0 <= k < i ==> #[trigger] self.evals@[k].log() == modl(
                    start[k].log() + modl(other.evals@[k].log() * coeff.value()),
                ),
            decreases start.len() - i,
        {
            let a = self.evals[i];
            let b = other.evals[i].mul(&coeff);
            self.evals.set(i, a.add(&b));
            i = i + 1;
        }
    }

    /// `self := self + r * other` for a random `r`, which is returned.
    pub fn add_random_linear_combination(&mut self, other: &PublicEvals, rng: &mut StdRng) -> (r: Scalar)
        requires
            old(self).g == other.g,
            old(self).evals@.len() == other.evals@.len(),
        ensures
            final(self).g == old(self).g,
            final(self).evals@.len() == old(self).evals@.len(),
            forall|i: int| 0 <= i < old(self).evals@.len() ==> #[trigger] final(self).evals@[i].log() == modl(
                old(self).evals@[i].log() + modl(other.evals@[i].log() * r.value()),
            ),
    {
        let r = Scalar::random(rng);
        self.add_linear_combination_with_coeff(other, r);
        r
    }

    /// `sum_j coeffs[j] * evals_vec[j]`, element by element.
    pub fn linear_combination_of_many(evals_vec: &[PublicEvals], coeffs: &[Scalar]) -> (r: PublicEvals)
        requires
            evals_vec@.len() >= 1,
            evals_vec@.len() == coeffs@.len(),
            forall|j: int| 0 <= j < evals_vec@.len() ==> #[trigger] evals_vec@[j].g == evals_vec@[0].g,
            forall|j: int| 0 <= j < evals_vec@.len() ==> #[trigger] evals_vec@[j].evals@.len() == evals_vec@[0].evals@.len(),
        ensures
            r.g == evals_vec@[0].g,
            r.evals@.len() == evals_vec@[0].evals@.len(),
            forall|i: int| 0 <= i < r.evals@.len() ==> #[trigger] r.evals@[i].log() == modl(
                weighted_log_sum(coeffs@, column(evals_vec@, i)),
            ),
    {
        let g = evals_vec[0].g;
        let m = evals_vec[0].evals.len();
        let mut coeff_vec: Vec<Scalar> = Vec::new();
        let mut k: usize = 0;
        while k < coeffs.len()
            invariant
                k <= coeffs@.len(),
                coeff_vec@ == coeffs@.subrange(0, k as int),
            decreases coeffs@.len() - k,
        {
            coeff_vec.push(coeffs[k]);
            k = k + 1;
            assert(coeff_vec@ =~= coeffs@.subrange(0, k as int));
        }
        assert(coeff_vec@ =~= coeffs@);
        let mut out_evals: Vec<Point> = Vec::new();
        let mut i: usize = 0;
        while i < m
            invariant
                i <= m,
                m == evals_vec@[0].evals@.len(),
                coeff_vec@ == coeffs@,
                evals_vec@.len() == coeffs@.len(),
                forall|j: int| 0 <= j < evals_vec@.len() ==> #[trigger] evals_vec@[j].evals@.len() == m,
                out_evals@.len() == i,
                forall|q: int| 0 <= q < i ==> #[trigger] out_evals@[q].log() == modl(
                    weighted_log_sum(coeffs@, column(evals_vec@, q)),
                ),
            decreases m - i,
        {
            let mut points_at_i: Vec<Point> = Vec::new();
            let mut j: usize = 0;
            while j < evals_vec.len()
                invariant
                    j <= evals_vec@.len(),
                    i < m,
                    forall|q: int| 0 <= q < evals_vec@.len() ==> #[trigger] evals_vec@[q].evals@.len() == m,
                    points_at_i@ == column(evals_vec@, i as int).subrange(0, j as int),
                decreases evals_vec@.len() - j,
            {
                points_at_i.push(evals_vec[j].evals[i]);
                j = j + 1;
                assert(points_at_i@ =~= column(evals_vec@, i as int).subrange(0, j as int));
            }
            assert(points_at_i@ =~= column(evals_vec@, i as int));
            let acc = Point::multiscalar_mul(&coeff_vec, &points_at_i);
            out_evals.push(acc);
            i = i + 1;
        }
        PublicEvals { g, evals: out_evals }
    }

    /// `self := self + sum_j r_j * others[j]` for random `r_j`, which are returned.
    pub fn add_random_linear_combination_many(&mut self, others: &[PublicEvals], rng: &mut StdRng) -> (r: Vec<Scalar>)
        requires
            forall|j: int| 0 <= j < others@.len() ==> #[trigger] others@[j].g == old(self).g,
            forall|j: int| 0 <= j < others@.len() ==> #[trigger] others@[j].evals@.len() == old(self).evals@.len(),
        ensures
            r@.len() == others@.len(),
            final(self).g == old(self).g,
            final(self).evals@.len() == old(self).evals@.len(),
            exists|coeffs: Seq<Scalar>| coeffs.len() == others@.len() + 1
                && coeffs[0].value() == 1
                && coeffs.drop_first() == r@
                && forall|i: int| 0 <= i < final(self).evals@.len() ==> #[trigger] final(self).evals@[i].log() == modl(
                    weighted_log_sum(coeffs, column(seq![*old(self)] + others@, i)),
                ),
    {
        let mut all: Vec<PublicEvals> = Vec::new();
        all.push(self.duplicate());
        let mut coeffs: Vec<Scalar> = Vec::new();
        coeffs.push(Scalar::one());
        let mut randoms: Vec<Scalar> = Vec::new();
        let mut k: usize = 0;
        while k < others.len()
            invariant
                k <= others@.len(),
                all@.len() == k + 1,
                all@[0].g == self.g,
                all@[0].evals@ == self.evals@,
                forall|q: int| 0 < q <= k ==> #[trigger] all@[q].g == others@[q - 1].g,
                forall|q: int| 0 < q <= k ==> #[trigger] all@[q].evals@ == others@[q - 1].evals@,
                coeffs@.len() == k + 1,
                coeffs@[0].value() == 1,
                coeffs@.drop_first() == randoms@,
                *self == *old(self),
                forall|j: int| 0 <= j < others@.len() ==> #[trigger] others@[j].g == old(self).g,
                forall|j: int| 0 <= j < others@.len() ==> #[trigger] others@[j].evals@.len() == old(self).evals@.len(),
            decreases others@.len() - k,
        {
            all.push(others[k].duplicate());
            let rk = Scalar::random(rng);
            coeffs.push(rk);
            randoms.push(rk);
            k = k + 1;
            assert(coeffs@.drop_first() =~= randoms@);
        }
        assert(forall|q: int| 0 <= q < all@.len() ==> #[trigger] all@[q].g == self.g);
        assert(forall|q: int| 0 <= q < all@.len() ==> #[trigger] all@[q].evals@.len() == self.evals@.len());
        let ghost joined = seq![*self] + others@;
        assert(joined.len() == all@.len());
        assert(forall|q: int| 0 < q < joined.len() ==> #[trigger] joined[q] == others@[q - 1]);
        assert(joined[0] == *self);
        let combined = PublicEvals::linear_combination_of_many(all.as_slice(), coeffs.as_slice());
        proof {
            assert forall|i: int| 0 <= i < combined.evals@.len() implies column(all@, i) == column(joined, i) by {
                assert forall|q: int| 0 <= q < all@.len() implies column(all@, i)[q] == column(joined, i)[q] by {
                    if q > 0 {
                        assert(joined[q] == others@[q - 1]);
                        assert(all@[q].evals@ == others@[q - 1].evals@);
                    } else {
                        assert(all@[0].evals@ == self.evals@);
                    }
                }
                assert(column(all@, i) =~= column(joined, i));
            }
        }
        *self = combined;
        randoms
    }
}

} // verus!
