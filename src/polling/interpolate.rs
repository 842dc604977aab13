//! Lagrange interpolation at zero, over scalars and over group elements.
use vstd::prelude::*;
use crate::ristretto::{
    Scalar, Point, group_order, modl, scalar_inverse, lemma_scalar_range, lemma_modl_small, congruent,
    lemma_congruent_modl, lemma_congruent_mul,
};

verus! {

broadcast use lemma_scalar_range;

/// Interpolation failed because of duplicate x-coordinates.
#[derive(Clone, Copy, Debug, PartialEq, Eq, Structural)]
pub enum InterpolationError {
    DuplicateX,
}

/// Two of the points have the same value.
pub open spec fn has_duplicates(xs: Seq<Scalar>) -> bool {
    exists|i: int, j: int| 0 <= i < j < xs.len() && xs[i].value() == xs[j].value()
}

/// `prod_{j < k, j != i} xs[j]`.
pub open spec fn numerator_upto(xs: Seq<Scalar>, i: int, k: int) -> int
    decreases k,
{
    if k <= 0 {
        1
    } else if k - 1 == i {
        numerator_upto(xs, i, k - 1)
    } else {
        numerator_upto(xs, i, k - 1) * xs[k - 1].value()
    }
}

/// `prod_{a <= j < b} xs[j]`.
pub open spec fn range_product(xs: Seq<Scalar>, a: int, b: int) -> int
    decreases b - a,
{
    if b <= a {
        1
    } else {
        range_product(xs, a, b - 1) * xs[b - 1].value()
    }
}

/// The product of all points but `i` is the product of those before `i` times the
/// product of those after it.
proof fn lemma_numerator_split(xs: Seq<Scalar>, i: int, k: int)
    requires
        0 <= i,
        0 <= k,
    ensures
        k <= i ==> numerator_upto(xs, i, k) == range_product(xs, 0, k),
        k > i ==> numerator_upto(xs, i, k) == range_product(xs, 0, i) * range_product(xs, i + 1, k),
    decreases k,
{
    if k > 0 {
        lemma_numerator_split(xs, i, k - 1);
        if k > i + 1 {
            let p = range_product(xs, 0, i);
            let q = range_product(xs, i + 1, k - 1);
            let x = xs[k - 1].value();
            assert(p * q * x == p * (q * x)) by (nonlinear_arith);
        }
    }
}

/// Extending a product downwards multiplies by the new first factor.
proof fn lemma_range_product_prepend(xs: Seq<Scalar>, a: int, b: int)
    requires
        1 <= a <= b,
    ensures
        range_product(xs, a - 1, b) == xs[a - 1].value() * range_product(xs, a, b),
    decreases b - a,
{
    if b > a {
        lemma_range_product_prepend(xs, a, b - 1);
        let x = xs[a - 1].value();
        let q = range_product(xs, a, b - 1);
        let y = xs[b - 1].value();
        assert(x * q * y == x * (q * y)) by (nonlinear_arith);
    } else {
        assert(range_product(xs, a - 1, a - 1) == 1);
        assert(range_product(xs, a, a) == 1);
    }
}

/// `prod_{j < k, j != i} (xs[j] - xs[i])`.
pub open spec fn denominator_upto(xs: Seq<Scalar>, i: int, k: int) -> int
    decreases k,
{
    if k <= 0 {
        1
    } else if k - 1 == i {
        denominator_upto(xs, i, k - 1)
    } else {
        denominator_upto(xs, i, k - 1) * (xs[k - 1].value() - xs[i].value())
    }
}

/// The value at zero of the Lagrange basis polynomial of point `i` is
/// `numerator / denominator`, with these two products over all other points.
pub open spec fn lagrange_numerator(xs: Seq<Scalar>, i: int) -> int {
    numerator_upto(xs, i, xs.len() as int)
}

pub open spec fn lagrange_denominator(xs: Seq<Scalar>, i: int) -> int {
    denominator_upto(xs, i, xs.len() as int)
}

pub open spec fn lagrange_weight(xs: Seq<Scalar>, i: int) -> int {
    modl(lagrange_numerator(xs, i) * scalar_inverse(modl(lagrange_denominator(xs, i))))
}

/// Each weight solves `w_i * denominator_i = numerator_i` modulo the group order,
/// which fixes it when the denominator is nonzero.
pub open spec fn weights_solve(xs: Seq<Scalar>) -> bool {
    forall|i: int| 0 <= i < xs.len() ==> #[trigger] modl(lagrange_weight(xs, i) * lagrange_denominator(xs, i))
        == modl(lagrange_numerator(xs, i))
}

proof fn lemma_weight_solves(w: int, n: int, inv: int, d: int)
    requires
        w == modl(n * inv),
        modl(modl(d) * inv) == 1,
    ensures
        modl(w * d) == modl(n),
{
    lemma_congruent_modl(n * inv);
    lemma_congruent_modl(d);
    lemma_congruent_mul(w, n * inv, d, modl(d));
    assert(n * inv * modl(d) == n * (modl(d) * inv)) by (nonlinear_arith);
    lemma_modl_small(1);
    lemma_congruent_mul(n, n, modl(d) * inv, 1);
}

/// The weights that interpolation at zero applies to the samples at `xs`.
pub open spec fn lagrange_weights(xs: Seq<Scalar>) -> Seq<int> {
    if xs.len() == 1 {
        seq![1int]
    } else {
        Seq::new(xs.len(), |i: int| lagrange_weight(xs, i))
    }
}

/// Interpolation at `xs` is refused: two points coincide, or a denominator vanishes
/// (over a prime field the second happens only together with the first).
pub open spec fn lagrange_fails(xs: Seq<Scalar>) -> bool {
    xs.len() >= 2 && (has_duplicates(xs) || exists|i: int|
        0 <= i < xs.len() && modl(lagrange_denominator(xs, i)) == 0)
}

/// `sum_{i < k} ws[i] * vs[i]`.
pub open spec fn dot_upto(ws: Seq<int>, vs: Seq<int>, k: int) -> int
    decreases k,
{
    if k <= 0 {
        0
    } else {
        dot_upto(ws, vs, k - 1) + ws[k - 1] * vs[k - 1]
    }
}

pub open spec fn dot(ws: Seq<int>, vs: Seq<int>) -> int {
    dot_upto(ws, vs, ws.len() as int)
}

pub open spec fn sample_xs<T>(samples: Seq<(Scalar, T)>) -> Seq<Scalar> {
    samples.map_values(|s: (Scalar, T)| s.0)
}

pub open spec fn sample_values(samples: Seq<(Scalar, Scalar)>) -> Seq<int> {
    samples.map_values(|s: (Scalar, Scalar)| s.1.value())
}

pub open spec fn sample_logs(samples: Seq<(Scalar, Point)>) -> Seq<int> {
    samples.map_values(|s: (Scalar, Point)| s.1.log())
}

proof fn lemma_mul_step(a: int, b: int)
    ensures
        modl(modl(a) * modl(b)) == modl(a * b),
{
    vstd::arithmetic::div_mod::lemma_mul_mod_noop_general(a, b, group_order());
}

proof fn lemma_add_product_step(acc: int, w: int, v: int)
    ensures
        modl(modl(acc) + modl(v * w)) == modl(acc + w * v),
{
    vstd::arithmetic::div_mod::lemma_add_mod_noop(acc, v * w, group_order());
    vstd::arithmetic::mul::lemma_mul_is_commutative(v, w);
}

fn contains_duplicates(scalars: &[Scalar]) -> (r: bool)
    ensures
        r == has_duplicates(scalars@),
{
    let n = scalars.len();
    let mut i: usize = 0;
    while i < n
        invariant
            n == scalars@.len(),
            i <= n,
            forall|a: int, b: int|
                0 <= a < i && a < b < n ==> scalars@[a].value() != scalars@[b].value(),
        decreases n - i,
    {
        let mut j: usize = i + 1;
        while j < n
            invariant
                n == scalars@.len(),
                i < n,
                i + 1 <= j <= n,
                forall|a: int, b: int|
                    0 <= a < i && a < b < n ==> scalars@[a].value() != scalars@[b].value(),
                forall|b: int| i < b < j ==> scalars@[i as int].value() != scalars@[b].value(),
            decreases n - j,
        {
            if scalars[i].equals(&scalars[j]) {
                return true;
            }
            j = j + 1;
        }
        i = i + 1;
    }
    false
}

/// The Lagrange coefficients at zero of the points `samples`: weights `w_i` with
/// `sum_i w_i * f(x_i) = f(0)` for every polynomial `f` of degree below their number.
pub fn lagrange_coefficients_at_zero(samples: &[Scalar]) -> (r: Result<Vec<Scalar>, InterpolationError>)
    ensures
        r is Err <==> lagrange_fails(samples@),
        r is Ok ==> r.unwrap()@.len() == samples@.len() && forall|i: int|
            0 <= i < samples@.len() ==> #[trigger] r.unwrap()@[i].value()
                == lagrange_weights(samples@)[i],
        r is Ok && samples@.len() >= 2 ==> weights_solve(samples@),
{
    let len = samples.len();
    if len == 0 {
        return Ok(Vec::new());
    }
    if len == 1 {
        let mut w: Vec<Scalar> = Vec::new();
        w.push(Scalar::one());
        return Ok(w);
    }
    if contains_duplicates(samples) {
        return Err(InterpolationError::DuplicateX);
    }
    let ghost xs = samples@;
    // x_prod[i] = x_0 * ... * x_(i-1), then times x_(i+1) * ... * x_(len-1)
    let mut x_prod: Vec<Scalar> = Vec::new();
    let mut tmp = Scalar::one();
    x_prod.push(tmp);
    let mut k: usize = 0;
    proof {
        lemma_modl_small(1);
    }
    while k < len - 1
        invariant
            len == xs.len(),
            xs == samples@,
            len >= 2,
            k <= len - 1,
            x_prod@.len() == k + 1,
            tmp.value() == modl(range_product(xs, 0, k as int)),
            forall|q: int| 0 <= q <= k ==> #[trigger] x_prod@[q].value() == modl(range_product(xs, 0, q)),
        decreases len - 1 - k,
    {
        let ghost t0 = range_product(xs, 0, k as int);
        tmp = tmp.mul(&samples[k]);
        proof {
            lemma_mul_step(t0, xs[k as int].value());
            lemma_modl_small(xs[k as int].value());
        }
        x_prod.push(tmp);
        k = k + 1;
    }
    tmp = Scalar::one();
    let mut i: usize = len - 1;
    proof {
        lemma_numerator_split(xs, (len - 1) as int, len as int);
        assert(range_product(xs, len as int, len as int) == 1);
    }
    while i > 0
        invariant
            len == xs.len(),
            xs == samples@,
            len >= 2,
            i <= len - 1,
            x_prod@.len() == len,
            tmp.value() == modl(range_product(xs, (i + 1) as int, len as int)),
            forall|q: int| 0 <= q < i ==> #[trigger] x_prod@[q].value() == modl(range_product(xs, 0, q)),
            forall|q: int| i <= q < len ==> #[trigger] x_prod@[q].value() == modl(lagrange_numerator(xs, q)),
        decreases i,
    {
        i = i - 1;
        let ghost t0 = range_product(xs, (i + 2) as int, len as int);
        tmp = tmp.mul(&samples[i + 1]);
        let updated = x_prod[i].mul(&tmp);
        proof {
            lemma_mul_step(t0, xs[i + 1].value());
            lemma_modl_small(xs[i + 1].value());
            lemma_range_product_prepend(xs, (i + 2) as int, len as int);
            vstd::arithmetic::mul::lemma_mul_is_commutative(t0, xs[i + 1].value());
            lemma_mul_step(range_product(xs, 0, i as int), range_product(xs, (i + 1) as int, len as int));
            lemma_numerator_split(xs, i as int, len as int);
        }
        x_prod.set(i, updated);
    }
    let mut out: Vec<Scalar> = Vec::new();
    let mut i: usize = 0;
    while i < len
        invariant
            len == xs.len(),
            xs == samples@,
            len >= 2,
            !has_duplicates(xs),
            i <= len,
            out@.len() == i,
            x_prod@.len() == len,
            forall|q: int| 0 <= q < len ==> #[trigger] x_prod@[q].value() == modl(lagrange_numerator(xs, q)),
            forall|k: int| 0 <= k < i ==> modl(lagrange_denominator(xs, k)) != 0,
            forall|k: int| 0 <= k < i ==> #[trigger] out@[k].value() == lagrange_weight(xs, k),
            forall|k: int| 0 <= k < i ==> #[trigger] modl(lagrange_weight(xs, k) * lagrange_denominator(xs, k))
                == modl(lagrange_numerator(xs, k)),
        decreases len - i,
    {
        let x_i = samples[i];
        let mut den = Scalar::one();
        let mut j: usize = 0;
        proof {
            lemma_modl_small(1);
            assert(denominator_upto(xs, i as int, 0) == 1);
        }
        while j < len
            invariant
                len == xs.len(),
                xs == samples@,
                i < len,
                x_i == xs[i as int],
                j <= len,
                den.value() == modl(denominator_upto(xs, i as int, j as int)),
            decreases len - j,
        {
            if j != i {
                let ghost d0 = denominator_upto(xs, i as int, j as int);
                let diff = samples[j].sub(&x_i);
                den = den.mul(&diff);
                proof {
                    lemma_mul_step(d0, xs[j as int].value() - xs[i as int].value());
                }
            }
            j = j + 1;
        }
        if den.is_zero() {
            assert(modl(lagrange_denominator(xs, i as int)) == 0);
            return Err(InterpolationError::DuplicateX);
        }
        let inv = den.invert();
        let w = x_prod[i].mul(&inv);
        proof {
            vstd::arithmetic::div_mod::lemma_mul_mod_noop_left(
                lagrange_numerator(xs, i as int),
                inv.value(),
                group_order(),
            );
            lemma_weight_solves(
                lagrange_weight(xs, i as int),
                lagrange_numerator(xs, i as int),
                inv.value(),
                lagrange_denominator(xs, i as int),
            );
        }
        out.push(w);
        i = i + 1;
    }
    Ok(out)
}

/// The value at zero of the polynomial through `(x, y)` samples, with `y` scalars.
pub fn interpolate_scalar(samples: &[(Scalar, Scalar)]) -> (r: Result<Scalar, InterpolationError>)
    ensures
        r is Err <==> lagrange_fails(sample_xs(samples@)),
        r is Ok ==> r.unwrap().value() == modl(
            dot(lagrange_weights(sample_xs(samples@)), sample_values(samples@)),
        ),
        r is Ok && samples@.len() >= 2 ==> weights_solve(sample_xs(samples@)),
{
    let mut all_x: Vec<Scalar> = Vec::new();
    let mut k: usize = 0;
    while k < samples.len()
        invariant
            k <= samples@.len(),
            all_x@ == sample_xs(samples@).subrange(0, k as int),
        decreases samples@.len() - k,
    {
        all_x.push(samples[k].0);
        k = k + 1;
        assert(all_x@ =~= sample_xs(samples@).subrange(0, k as int));
    }
    assert(all_x@ =~= sample_xs(samples@));
    let coefficients = lagrange_coefficients_at_zero(all_x.as_slice())?;
    let ghost ws = lagrange_weights(sample_xs(samples@));
    let ghost vs = sample_values(samples@);
    let mut result = Scalar::zero();
    let mut i: usize = 0;
    assert(dot_upto(ws, vs, 0) == 0);
    proof { lemma_modl_small(0); }
    while i < samples.len()
        invariant
            i <= samples@.len(),
            coefficients@.len() == samples@.len(),
            ws.len() == samples@.len(),
            forall|k: int| 0 <= k < samples@.len() ==> #[trigger] coefficients@[k].value() == ws[k],
            vs == sample_values(samples@),
            result.value() == modl(dot_upto(ws, vs, i as int)),
        decreases samples@.len() - i,
    {
        let term = samples[i].1.mul(&coefficients[i]);
        result = result.add(&term);
        proof {
            lemma_add_product_step(dot_upto(ws, vs, i as int), ws[i as int], vs[i as int]);
        }
        i = i + 1;
    }
    Ok(result)
}

/// The value at zero of the polynomial through `(x, y)` samples, with `y` group
/// elements: the group element whose logarithm is that interpolated value.
pub fn interpolate_g1(samples: &[(Scalar, Point)]) -> (r: Result<Point, InterpolationError>)
    ensures
        r is Err <==> lagrange_fails(sample_xs(samples@)),
        r is Ok ==> r.unwrap().log() == modl(
            dot(lagrange_weights(sample_xs(samples@)), sample_logs(samples@)),
        ),
        r is Ok && samples@.len() >= 2 ==> weights_solve(sample_xs(samples@)),
{
    let mut all_x: Vec<Scalar> = Vec::new();
    let mut k: usize = 0;
    while k < samples.len()
        invariant
            k <= samples@.len(),
            all_x@ == sample_xs(samples@).subrange(0, k as int),
        decreases samples@.len() - k,
    {
        all_x.push(samples[k].0);
        k = k + 1;
        assert(all_x@ =~= sample_xs(samples@).subrange(0, k as int));
    }
    assert(all_x@ =~= sample_xs(samples@));
    let coefficients = lagrange_coefficients_at_zero(all_x.as_slice())?;
    let ghost ws = lagrange_weights(sample_xs(samples@));
    let ghost vs = sample_logs(samples@);
    let mut result = Point::identity();
    let mut i: usize = 0;
    assert(dot_upto(ws, vs, 0) == 0);
    proof { lemma_modl_small(0); }
    while i < samples.len()
        invariant
            i <= samples@.len(),
            coefficients@.len() == samples@.len(),
            ws.len() == samples@.len(),
            forall|k: int| 0 <= k < samples@.len() ==> #[trigger] coefficients@[k].value() == ws[k],
            vs == sample_logs(samples@),
            result.log() == modl(dot_upto(ws, vs, i as int)),
        decreases samples@.len() - i,
    {
        let term = samples[i].1.mul(&coefficients[i]);
        result = result.add(&term);
        proof {
            lemma_add_product_step(dot_upto(ws, vs, i as int), ws[i as int], vs[i as int]);
        }
        i = i + 1;
    }
    Ok(result)
}

} // verus!
