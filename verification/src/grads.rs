//! Gradient vectors: the entry-by-entry rules of differentiation.
use crate::scalar::Scalar;
use vstd::prelude::*;

verus! {

/// The entry of the gradient of `v / w` for a zero divisor `w`, given
/// `d = w * w`, where `v` and `w` have gradient entries `g` and `h`.
pub open spec fn quotient_at_zero_entry<F: Scalar>(v: F, g: F, w: F, h: F, d: F) -> F {
    let a = if !g.spec_is_zero() {
        if v.spec_is_zero() {
            F::spec_nan()
        } else {
            g.spec_divide(w)
        }
    } else {
        F::spec_zero()
    };
    if !h.spec_is_zero() {
        a.spec_minus(h.spec_times(v).spec_divide(d))
    } else {
        a
    }
}

/// Not-a-number where `g != 0`, zero elsewhere.
pub open spec fn mask_entry<F: Scalar>(g: F) -> F {
    if !g.spec_equals(F::spec_zero()) {
        F::spec_nan()
    } else {
        F::spec_zero()
    }
}

/// Not-a-number where `a != 0 || b != 0`, zero elsewhere.
pub open spec fn mask_pair_entry<F: Scalar>(a: F, b: F) -> F {
    if !a.spec_equals(F::spec_zero()) || !b.spec_equals(F::spec_zero()) {
        F::spec_nan()
    } else {
        F::spec_zero()
    }
}

/// Not-a-number where `!a.is_zero() || !b.is_zero()`, zero elsewhere.
pub open spec fn mask_pair_nonzero_entry<F: Scalar>(a: F, b: F) -> F {
    if !a.spec_is_zero() || !b.spec_is_zero() {
        F::spec_nan()
    } else {
        F::spec_zero()
    }
}

/// The gradient whose first `n` entries are `f(0)`, ..., `f(n - 1)`.
pub open spec fn tabulate<F: Scalar, const N: usize>(f: spec_fn(int) -> F, n: int) -> [F; N]
    decreases n,
{
    if n <= 0 {
        vstd::array::spec_array_fill_for_copy_type(F::spec_zero())
    } else {
        vstd::array::spec_array_update(tabulate(f, n - 1), n - 1, f(n - 1))
    }
}

/// `tabulate(f, n)` holds `f(i)` at each `i < n`.
pub proof fn lemma_tabulate<F: Scalar, const N: usize>(f: spec_fn(int) -> F, n: int)
    requires
        0 <= n <= N,
    ensures
        forall|i: int| 0 <= i < n ==> #[trigger] tabulate::<F, N>(f, n)[i] == f(i),
    decreases n,
{
    if n > 0 {
        lemma_tabulate::<F, N>(f, n - 1);
        let prev = tabulate::<F, N>(f, n - 1);
        assert(tabulate::<F, N>(f, n)@ == prev@.update(n - 1, f(n - 1)));
    }
}

/// A gradient of zeros.
pub fn zeros<F: Scalar, const N: usize>() -> (r: [F; N])
    ensures
        forall|i: int| 0 <= i < N ==> r[i] == F::spec_zero(),
{
    [F::zero(); N]
}

/// Entry by entry `a[i] + b[i]`.
pub fn sum<F: Scalar, const N: usize>(a: [F; N], b: [F; N]) -> (r: [F; N])
    ensures
        forall|i: int| 0 <= i < N ==> #[trigger] r[i] == a[i].spec_plus(b[i]),
{
    let mut r = a;
    let mut i: usize = 0;
    while i < N
        invariant
            i <= N,
            forall|j: int| 0 <= j < i ==> #[trigger] r[j] == a[j].spec_plus(b[j]),
        decreases N - i,
    {
        r[i] = a[i].plus(b[i]);
        i = i + 1;
    }
    r
}

/// Entry by entry `a[i] - b[i]`.
pub fn difference<F: Scalar, const N: usize>(a: [F; N], b: [F; N]) -> (r: [F; N])
    ensures
        forall|i: int| 0 <= i < N ==> #[trigger] r[i] == a[i].spec_minus(b[i]),
{
    let mut r = a;
    let mut i: usize = 0;
    while i < N
        invariant
            i <= N,
            forall|j: int| 0 <= j < i ==> #[trigger] r[j] == a[j].spec_minus(b[j]),
        decreases N - i,
    {
        r[i] = a[i].minus(b[i]);
        i = i + 1;
    }
    r
}

/// Entry by entry `-g[i]`.
pub fn negated<F: Scalar, const N: usize>(g: [F; N]) -> (r: [F; N])
    ensures
        forall|i: int| 0 <= i < N ==> #[trigger] r[i] == g[i].spec_negate(),
{
    let mut r = g;
    let mut i: usize = 0;
    while i < N
        invariant
            i <= N,
            forall|j: int| 0 <= j < i ==> #[trigger] r[j] == g[j].spec_negate(),
        decreases N - i,
    {
        r[i] = g[i].negate();
        i = i + 1;
    }
    r
}

/// Entry by entry `g[i] * c`.
pub fn scale<F: Scalar, const N: usize>(g: [F; N], c: F) -> (r: [F; N])
    ensures
        forall|i: int| 0 <= i < N ==> #[trigger] r[i] == g[i].spec_times(c),
{
    let mut r = g;
    let mut i: usize = 0;
    while i < N
        invariant
            i <= N,
            forall|j: int| 0 <= j < i ==> #[trigger] r[j] == g[j].spec_times(c),
        decreases N - i,
    {
        r[i] = g[i].times(c);
        i = i + 1;
    }
    r
}

/// Entry by entry `g[i] / c`.
pub fn shrink<F: Scalar, const N: usize>(g: [F; N], c: F) -> (r: [F; N])
    ensures
        forall|i: int| 0 <= i < N ==> #[trigger] r[i] == g[i].spec_divide(c),
{
    let mut r = g;
    let mut i: usize = 0;
    while i < N
        invariant
            i <= N,
            forall|j: int| 0 <= j < i ==> #[trigger] r[j] == g[j].spec_divide(c),
        decreases N - i,
    {
        r[i] = g[i].divide(c);
        i = i + 1;
    }
    r
}

/// Entry by entry `(-g[i]) / c`.
pub fn negated_shrink<F: Scalar, const N: usize>(g: [F; N], c: F) -> (r: [F; N])
    ensures
        forall|i: int| 0 <= i < N ==> #[trigger] r[i] == g[i].spec_negate().spec_divide(c),
{
    let mut r = g;
    let mut i: usize = 0;
    while i < N
        invariant
            i <= N,
            forall|j: int| 0 <= j < i ==> #[trigger] r[j] == g[j].spec_negate().spec_divide(c),
        decreases N - i,
    {
        r[i] = g[i].negate().divide(c);
        i = i + 1;
    }
    r
}

/// Entry by entry `(g[i] * a) * b`.
pub fn scale_twice<F: Scalar, const N: usize>(g: [F; N], a: F, b: F) -> (r: [F; N])
    ensures
        forall|i: int| 0 <= i < N ==> #[trigger] r[i] == g[i].spec_times(a).spec_times(b),
{
    let mut r = g;
    let mut i: usize = 0;
    while i < N
        invariant
            i <= N,
            forall|j: int| 0 <= j < i ==> #[trigger] r[j] == g[j].spec_times(a).spec_times(b),
        decreases N - i,
    {
        r[i] = g[i].times(a).times(b);
        i = i + 1;
    }
    r
}

/// The gradient of a product `v * w` whose factors have gradients `g` and `h`:
/// entry by entry `v * h[i] + g[i] * w`.
pub fn product_rule<F: Scalar, const N: usize>(v: F, g: [F; N], w: F, h: [F; N]) -> (r: [F; N])
    ensures
        forall|i: int| 0 <= i < N ==> #[trigger] r[i] == v.spec_times(h[i]).spec_plus(g[i].spec_times(w)),
{
    let mut r = g;
    let mut i: usize = 0;
    while i < N
        invariant
            i <= N,
            forall|j: int| 0 <= j < i ==> #[trigger] r[j] == v.spec_times(h[j]).spec_plus(g[j].spec_times(w)),
        decreases N - i,
    {
        r[i] = v.times(h[i]).plus(g[i].times(w));
        i = i + 1;
    }
    r
}

/// The gradient of a quotient `v / w` whose parts have gradients `g` and `h`,
/// given `d = w * w`: entry by entry `(g[i] * w - h[i] * v) / d`.
pub fn quotient_rule<F: Scalar, const N: usize>(v: F, g: [F; N], w: F, h: [F; N], d: F) -> (r: [F; N])
    ensures
        forall|i: int| 0 <= i < N ==> #[trigger] r[i] == g[i].spec_times(w).spec_minus(h[i].spec_times(v)).spec_divide(d),
{
    let mut r = g;
    let mut i: usize = 0;
    while i < N
        invariant
            i <= N,
            forall|j: int| 0 <= j < i ==> #[trigger] r[j] == g[j].spec_times(w).spec_minus(h[j].spec_times(v)).spec_divide(d),
        decreases N - i,
    {
        r[i] = g[i].times(w).minus(h[i].times(v)).divide(d);
        i = i + 1;
    }
    r
}

/// Entry by entry `g[i] - h[i] * q`.
pub fn minus_scaled<F: Scalar, const N: usize>(g: [F; N], h: [F; N], q: F) -> (r: [F; N])
    ensures
        forall|i: int| 0 <= i < N ==> #[trigger] r[i] == g[i].spec_minus(h[i].spec_times(q)),
{
    let mut r = g;
    let mut i: usize = 0;
    while i < N
        invariant
            i <= N,
            forall|j: int| 0 <= j < i ==> #[trigger] r[j] == g[j].spec_minus(h[j].spec_times(q)),
        decreases N - i,
    {
        r[i] = g[i].minus(h[i].times(q));
        i = i + 1;
    }
    r
}

/// Not-a-number where `g[i] != 0`, zero elsewhere.
pub fn nan_mask<F: Scalar, const N: usize>(g: [F; N]) -> (r: [F; N])
    ensures
        forall|i: int| 0 <= i < N ==> #[trigger] r[i] == mask_entry(g[i]),
{
    let mut r = g;
    let mut i: usize = 0;
    while i < N
        invariant
            i <= N,
            forall|j: int| 0 <= j < i ==> #[trigger] r[j] == mask_entry(g[j]),
        decreases N - i,
    {
        r[i] = if !g[i].equals(F::zero()) { F::nan() } else { F::zero() };
        i = i + 1;
    }
    r
}

/// Not-a-number where `a[i] != 0 || b[i] != 0`, zero elsewhere.
pub fn nan_mask_pair<F: Scalar, const N: usize>(a: [F; N], b: [F; N]) -> (r: [F; N])
    ensures
        forall|i: int| 0 <= i < N ==> #[trigger] r[i] == mask_pair_entry(a[i], b[i]),
{
    let mut r = a;
    let mut i: usize = 0;
    while i < N
        invariant
            i <= N,
            forall|j: int| 0 <= j < i ==> #[trigger] r[j] == mask_pair_entry(a[j], b[j]),
        decreases N - i,
    {
        r[i] = if !a[i].equals(F::zero()) || !b[i].equals(F::zero()) { F::nan() } else { F::zero() };
        i = i + 1;
    }
    r
}

/// Not-a-number where `!a[i].is_zero() || !b[i].is_zero()`, zero elsewhere.
pub fn nan_mask_pair_nonzero<F: Scalar, const N: usize>(a: [F; N], b: [F; N]) -> (r: [F; N])
    ensures
        forall|i: int| 0 <= i < N ==> #[trigger] r[i] == mask_pair_nonzero_entry(a[i], b[i]),
{
    let mut r = a;
    let mut i: usize = 0;
    while i < N
        invariant
            i <= N,
            forall|j: int| 0 <= j < i ==> #[trigger] r[j] == mask_pair_nonzero_entry(a[j], b[j]),
        decreases N - i,
    {
        r[i] = if !a[i].is_zero() || !b[i].is_zero() { F::nan() } else { F::zero() };
        i = i + 1;
    }
    r
}

/// The gradient of a quotient `v / w` by a zero divisor `w`, given `d = w * w`:
/// entry by entry, the numerator's term `g[i] / w` where `g[i]` is not zero
/// (not-a-number when `v` is zero too), less the divisor's term
/// `(h[i] * v) / d` where `h[i]` is not zero.
pub fn quotient_at_zero<F: Scalar, const N: usize>(v: F, g: [F; N], w: F, h: [F; N], d: F) -> (r: [F; N])
    ensures
        forall|i: int| 0 <= i < N ==> #[trigger] r[i] == quotient_at_zero_entry(v, g[i], w, h[i], d),
{
    let mut r = g;
    let mut i: usize = 0;
    while i < N
        invariant
            i <= N,
            forall|j: int| 0 <= j < i ==> #[trigger] r[j] == quotient_at_zero_entry(v, g[j], w, h[j], d),
        decreases N - i,
    {
        let mut e = F::zero();
        if !g[i].is_zero() {
            e = if v.is_zero() {
                F::nan()
            } else {
                g[i].divide(w)
            };
        }
        if !h[i].is_zero() {
            e = e.minus(h[i].times(v).divide(d));
        }
        r[i] = e;
        i = i + 1;
    }
    r
}

/// The gradient of `v.powf(w)` where `v` and `w` have gradients `g` and `h`,
/// given `p = v.powf(w - 1)` and `l = v.ln()`: entry by entry
/// `p * (w * g[i] + v * h[i] * l)`.
pub fn powf_rule<F: Scalar, const N: usize>(v: F, g: [F; N], w: F, h: [F; N], p: F, l: F) -> (r: [F; N])
    ensures
        forall|i: int| 0 <= i < N ==> #[trigger] r[i] == p.spec_times(w.spec_times(g[i]).spec_plus(v.spec_times(h[i]).spec_times(l))),
{
    let mut r = g;
    let mut i: usize = 0;
    while i < N
        invariant
            i <= N,
            forall|j: int| 0 <= j < i ==> #[trigger] r[j] == p.spec_times(w.spec_times(g[j]).spec_plus(v.spec_times(h[j]).spec_times(l))),
        decreases N - i,
    {
        r[i] = p.times(w.times(g[i]).plus(v.times(h[i]).times(l)));
        i = i + 1;
    }
    r
}

/// The gradient of `v.log(w)` where `v` and `w` have gradients `g` and `h`,
/// given `q = v.log(w)` and `l = w.ln()`: entry by entry
/// `(g[i] / v - (h[i] * q) / w) / l`.
pub fn log_rule<F: Scalar, const N: usize>(v: F, g: [F; N], w: F, h: [F; N], q: F, l: F) -> (r: [F; N])
    ensures
        forall|i: int| 0 <= i < N ==> #[trigger] r[i] == g[i].spec_divide(v).spec_minus(h[i].spec_times(q).spec_divide(w)).spec_divide(l),
{
    let mut r = g;
    let mut i: usize = 0;
    while i < N
        invariant
            i <= N,
            forall|j: int| 0 <= j < i ==> #[trigger] r[j] == g[j].spec_divide(v).spec_minus(h[j].spec_times(q).spec_divide(w)).spec_divide(l),
        decreases N - i,
    {
        r[i] = g[i].divide(v).minus(h[i].times(q).divide(w)).divide(l);
        i = i + 1;
    }
    r
}

/// The gradient of `k = hypot(v, w)` where `v` and `w` have gradients `g`
/// and `h`: entry by entry `(v * g[i] + w * h[i]) / k`.
pub fn hypot_rule<F: Scalar, const N: usize>(v: F, g: [F; N], w: F, h: [F; N], k: F) -> (r: [F; N])
    ensures
        forall|i: int| 0 <= i < N ==> #[trigger] r[i] == v.spec_times(g[i]).spec_plus(w.spec_times(h[i])).spec_divide(k),
{
    let mut r = g;
    let mut i: usize = 0;
    while i < N
        invariant
            i <= N,
            forall|j: int| 0 <= j < i ==> #[trigger] r[j] == v.spec_times(g[j]).spec_plus(w.spec_times(h[j])).spec_divide(k),
        decreases N - i,
    {
        r[i] = v.times(g[i]).plus(w.times(h[i])).divide(k);
        i = i + 1;
    }
    r
}

/// The gradient of `atan2(v, w)` where `v` and `w` have gradients `g` and
/// `h`, given `d = 1 / (v * v + w * w)`: entry by entry `(w * g[i] - v * h[i]) * d`.
pub fn atan2_rule<F: Scalar, const N: usize>(v: F, g: [F; N], w: F, h: [F; N], d: F) -> (r: [F; N])
    ensures
        forall|i: int| 0 <= i < N ==> #[trigger] r[i] == w.spec_times(g[i]).spec_minus(v.spec_times(h[i])).spec_times(d),
{
    let mut r = g;
    let mut i: usize = 0;
    while i < N
        invariant
            i <= N,
            forall|j: int| 0 <= j < i ==> #[trigger] r[j] == w.spec_times(g[j]).spec_minus(v.spec_times(h[j])).spec_times(d),
        decreases N - i,
    {
        r[i] = w.times(g[i]).minus(v.times(h[i])).times(d);
        i = i + 1;
    }
    r
}

/// A masked gradient entry is zero where the entry equals zero and
/// not-a-number where it does not.
pub proof fn lemma_mask_entry<F: Scalar>(g: F)
    ensures
        g.spec_equals(F::spec_zero()) ==> mask_entry(g) == F::spec_zero(),
        !g.spec_equals(F::spec_zero()) ==> mask_entry(g) == F::spec_nan(),
{
}

/// Masking a pair of entries does not depend on their order, and where one of
/// them equals zero it masks the other alone.
pub proof fn lemma_mask_pair_entry<F: Scalar>(a: F, b: F)
    ensures
        mask_pair_entry(a, b) == mask_pair_entry(b, a),
        b.spec_equals(F::spec_zero()) ==> mask_pair_entry(a, b) == mask_entry(a),
        mask_pair_nonzero_entry(a, b) == mask_pair_nonzero_entry(b, a),
        b.spec_is_zero() ==> mask_pair_nonzero_entry(a, b) == (if a.spec_is_zero() {
            F::spec_zero()
        } else {
            F::spec_nan()
        }),
{
}

/// The gradient entry of a quotient by a zero divisor: zero where neither
/// operand moves; not-a-number where only the dividend moves and is zero;
/// `g / w` where only the dividend moves and is not zero; and, where the
/// divisor moves, that entry less `h * v / d`.
pub proof fn lemma_quotient_at_zero_entry<F: Scalar>(v: F, g: F, w: F, h: F, d: F)
    ensures
        g.spec_is_zero() && h.spec_is_zero() ==> quotient_at_zero_entry(v, g, w, h, d) == F::spec_zero(),
        !g.spec_is_zero() && h.spec_is_zero() && v.spec_is_zero() ==> quotient_at_zero_entry(v, g, w, h, d)
            == F::spec_nan(),
        !g.spec_is_zero() && h.spec_is_zero() && !v.spec_is_zero() ==> quotient_at_zero_entry(v, g, w, h, d)
            == g.spec_divide(w),
        !h.spec_is_zero() ==> quotient_at_zero_entry(v, g, w, h, d) == (if g.spec_is_zero() {
            F::spec_zero()
        } else if v.spec_is_zero() {
            F::spec_nan()
        } else {
            g.spec_divide(w)
        }).spec_minus(h.spec_times(v).spec_divide(d)),
{
}

} // verus!
