//! Laws that dual numbers keep across their operations.
use crate::fwdgfloat::FwdGFloat;
use crate::gfloat::GFloat;
use crate::grads;
use crate::scalar::Scalar;
use crate::{BinaryDOp, DFloat, WrappedFloat};
use vstd::prelude::*;
use vstd::std_specs::cmp::PartialEqSpec;

verus! {

/// Addition of dual numbers commutes whenever addition of scalars does.
pub proof fn lemma_gfloat_plus_commutes<F: Scalar, const N: usize>(x: GFloat<F, N>, y: GFloat<F, N>)
    requires
        forall|a: F, b: F| #[trigger] a.spec_plus(b) == b.spec_plus(a),
    ensures
        x.spec_plus(y) == y.spec_plus(x),
{
    let p = x.spec_plus(y);
    let q = y.spec_plus(x);
    let w1 = GFloat::<F, N>::lemma_exists(x.value.spec_plus(y.value), |i: int| x.grad[i].spec_plus(y.grad[i]));
    assert(w1.value == x.value.spec_plus(y.value) && forall|i: int|
        0 <= i < N ==> #[trigger] w1.grad[i] == x.grad[i].spec_plus(y.grad[i]));
    let w2 = GFloat::<F, N>::lemma_exists(y.value.spec_plus(x.value), |i: int| y.grad[i].spec_plus(x.grad[i]));
    assert(w2.value == y.value.spec_plus(x.value) && forall|i: int|
        0 <= i < N ==> #[trigger] w2.grad[i] == y.grad[i].spec_plus(x.grad[i]));
    assert forall|i: int| 0 <= i < N implies p.grad[i] == q.grad[i] by {
        assert(x.grad[i].spec_plus(y.grad[i]) == y.grad[i].spec_plus(x.grad[i]));
    }
    assert(x.value.spec_plus(y.value) == y.value.spec_plus(x.value));
    GFloat::<F, N>::lemma_determined(p, q);
}

/// Multiplication of dual numbers commutes whenever addition and
/// multiplication of scalars do: the product rule is symmetric.
pub proof fn lemma_gfloat_times_commutes<F: Scalar, const N: usize>(x: GFloat<F, N>, y: GFloat<F, N>)
    requires
        forall|a: F, b: F| #[trigger] a.spec_plus(b) == b.spec_plus(a),
        forall|a: F, b: F| #[trigger] a.spec_times(b) == b.spec_times(a),
    ensures
        x.spec_times(y) == y.spec_times(x),
{
    let p = x.spec_times(y);
    let q = y.spec_times(x);
    let w1 = GFloat::<F, N>::lemma_exists(
        x.value.spec_times(y.value),
        |i: int| x.value.spec_times(y.grad[i]).spec_plus(x.grad[i].spec_times(y.value)),
    );
    assert(w1.value == x.value.spec_times(y.value) && forall|i: int|
        0 <= i < N ==> #[trigger] w1.grad[i] == x.value.spec_times(y.grad[i]).spec_plus(
            x.grad[i].spec_times(y.value),
        ));
    let w2 = GFloat::<F, N>::lemma_exists(
        y.value.spec_times(x.value),
        |i: int| y.value.spec_times(x.grad[i]).spec_plus(y.grad[i].spec_times(x.value)),
    );
    assert(w2.value == y.value.spec_times(x.value) && forall|i: int|
        0 <= i < N ==> #[trigger] w2.grad[i] == y.value.spec_times(x.grad[i]).spec_plus(
            y.grad[i].spec_times(x.value),
        ));
    assert forall|i: int| 0 <= i < N implies p.grad[i] == q.grad[i] by {
        let a = x.value.spec_times(y.grad[i]);
        let b = x.grad[i].spec_times(y.value);
        assert(a == y.grad[i].spec_times(x.value));
        assert(b == y.value.spec_times(x.grad[i]));
        assert(a.spec_plus(b) == b.spec_plus(a));
    }
    assert(x.value.spec_times(y.value) == y.value.spec_times(x.value));
    GFloat::<F, N>::lemma_determined(p, q);
}

/// Subtraction of dual numbers is addition of the negation whenever it is so
/// for scalars.
pub proof fn lemma_gfloat_minus_is_plus_negation<F: Scalar, const N: usize>(x: GFloat<F, N>, y: GFloat<F, N>)
    requires
        forall|a: F, b: F| #[trigger] a.spec_minus(b) == a.spec_plus(b.spec_negate()),
    ensures
        x.spec_minus(y) == x.spec_plus(y.spec_negate()),
{
    let p = x.spec_minus(y);
    let n = y.spec_negate();
    let q = x.spec_plus(n);
    let w0 = GFloat::<F, N>::lemma_exists(y.value.spec_negate(), |i: int| y.grad[i].spec_negate());
    assert(w0.value == y.value.spec_negate() && forall|i: int|
        0 <= i < N ==> #[trigger] w0.grad[i] == y.grad[i].spec_negate());
    let w1 = GFloat::<F, N>::lemma_exists(x.value.spec_minus(y.value), |i: int| x.grad[i].spec_minus(y.grad[i]));
    assert(w1.value == x.value.spec_minus(y.value) && forall|i: int|
        0 <= i < N ==> #[trigger] w1.grad[i] == x.grad[i].spec_minus(y.grad[i]));
    let w2 = GFloat::<F, N>::lemma_exists(x.value.spec_plus(n.value), |i: int| x.grad[i].spec_plus(n.grad[i]));
    assert(w2.value == x.value.spec_plus(n.value) && forall|i: int|
        0 <= i < N ==> #[trigger] w2.grad[i] == x.grad[i].spec_plus(n.grad[i]));
    assert forall|i: int| 0 <= i < N implies p.grad[i] == q.grad[i] by {
        assert(x.grad[i].spec_minus(y.grad[i]) == x.grad[i].spec_plus(y.grad[i].spec_negate()));
    }
    assert(x.value.spec_minus(y.value) == x.value.spec_plus(y.value.spec_negate()));
    GFloat::<F, N>::lemma_determined(p, q);
}

/// Negating a dual number twice gives it back whenever it does so for scalars.
pub proof fn lemma_gfloat_negate_involutive<F: Scalar, const N: usize>(x: GFloat<F, N>)
    requires
        forall|a: F| #[trigger] a.spec_negate().spec_negate() == a,
    ensures
        x.spec_negate().spec_negate() == x,
{
    let n = x.spec_negate();
    let w0 = GFloat::<F, N>::lemma_exists(x.value.spec_negate(), |i: int| x.grad[i].spec_negate());
    assert(w0.value == x.value.spec_negate() && forall|i: int|
        0 <= i < N ==> #[trigger] w0.grad[i] == x.grad[i].spec_negate());
    let w1 = GFloat::<F, N>::lemma_exists(n.value.spec_negate(), |i: int| n.grad[i].spec_negate());
    assert(w1.value == n.value.spec_negate() && forall|i: int|
        0 <= i < N ==> #[trigger] w1.grad[i] == n.grad[i].spec_negate());
    let m = n.spec_negate();
    assert forall|i: int| 0 <= i < N implies m.grad[i] == x.grad[i] by {
        assert(x.grad[i].spec_negate().spec_negate() == x.grad[i]);
    }
    assert(x.value.spec_negate().spec_negate() == x.value);
    GFloat::<F, N>::lemma_determined(m, x);
}

/// `sin_cos` gives the same pair as `sin` and `cos` whenever it does so for
/// scalars.
pub proof fn lemma_gfloat_sin_cos_agrees<F: Scalar, const N: usize>(x: GFloat<F, N>)
    requires
        x.value.spec_sin_cos() == (x.value.spec_sin(), x.value.spec_cos()),
    ensures
        x.spec_sin_cos() == (x.spec_sin(), x.spec_cos()),
{
    let sc = x.spec_sin_cos();
    let s = x.spec_sin();
    let c = x.spec_cos();
    let v = x.value;
    assert(v.spec_sin_cos() == (v.spec_sin(), v.spec_cos()));
    let w1 = GFloat::<F, N>::lemma_exists(v.spec_sin_cos().0, |i: int| x.grad[i].spec_times(v.spec_sin_cos().1));
    assert(w1.value == v.spec_sin_cos().0 && forall|i: int|
        0 <= i < N ==> #[trigger] w1.grad[i] == x.grad[i].spec_times(v.spec_sin_cos().1));
    let w2 = GFloat::<F, N>::lemma_exists(v.spec_sin_cos().1, |i: int| x.grad[i].spec_times(v.spec_sin_cos().0.spec_negate()));
    assert(w2.value == v.spec_sin_cos().1 && forall|i: int|
        0 <= i < N ==> #[trigger] w2.grad[i] == x.grad[i].spec_times(v.spec_sin_cos().0.spec_negate()));
    let w3 = GFloat::<F, N>::lemma_exists(v.spec_sin(), |i: int| x.grad[i].spec_times(v.spec_cos()));
    assert(w3.value == v.spec_sin() && forall|i: int|
        0 <= i < N ==> #[trigger] w3.grad[i] == x.grad[i].spec_times(v.spec_cos()));
    let w4 = GFloat::<F, N>::lemma_exists(v.spec_cos(), |i: int| x.grad[i].spec_times(v.spec_sin().spec_negate()));
    assert(w4.value == v.spec_cos() && forall|i: int|
        0 <= i < N ==> #[trigger] w4.grad[i] == x.grad[i].spec_times(v.spec_sin().spec_negate()));
    GFloat::<F, N>::lemma_determined(sc.0, s);
    GFloat::<F, N>::lemma_determined(sc.1, c);
}

/// `max` is symmetric where its arguments' values compare symmetrically:
/// swapping the arguments gives the same gradient, and the same value unless
/// the values compare equal, when each result keeps its first argument's value.
pub proof fn lemma_gfloat_max_symmetric<F: Scalar, const N: usize>(x: GFloat<F, N>, y: GFloat<F, N>)
    requires
        x.value.spec_equals(y.value) == y.value.spec_equals(x.value),
        !x.value.spec_equals(y.value) ==> (x.value.spec_greater_than(y.value) != y.value.spec_greater_than(x.value)),
    ensures
        forall|i: int| 0 <= i < N ==> #[trigger] x.spec_max(y).grad[i] == y.spec_max(x).grad[i],
        x.value.spec_equals(y.value) ==> x.spec_max(y).value == x.value && y.spec_max(x).value == y.value,
        !x.value.spec_equals(y.value) ==> x.spec_max(y).value == y.spec_max(x).value,
{
    lemma_gfloat_max_exists(x, y);
    lemma_gfloat_max_exists(y, x);
}

proof fn lemma_gfloat_max_exists<F: Scalar, const N: usize>(x: GFloat<F, N>, y: GFloat<F, N>)
    ensures
        x.spec_max(y).value == (if x.value.spec_equals(y.value) { x.value } else if x.value.spec_greater_than(y.value) { x.value } else { y.value }),
        forall|i: int| 0 <= i < N ==> #[trigger] x.spec_max(y).grad[i] == (if x.value.spec_equals(y.value) { grads::mask_pair_entry(x.grad[i], y.grad[i]) } else if x.value.spec_greater_than(y.value) { x.grad[i] } else { y.grad[i] }),
{
    let w = GFloat::<F, N>::lemma_exists(
        if x.value.spec_equals(y.value) { x.value } else if x.value.spec_greater_than(y.value) { x.value } else { y.value },
        |i: int| if x.value.spec_equals(y.value) { grads::mask_pair_entry(x.grad[i], y.grad[i]) } else if x.value.spec_greater_than(y.value) { x.grad[i] } else { y.grad[i] },
    );
    assert(w.value == (if x.value.spec_equals(y.value) { x.value } else if x.value.spec_greater_than(y.value) { x.value } else { y.value }) && forall|i: int|
        0 <= i < N ==> #[trigger] w.grad[i] == if x.value.spec_equals(y.value) { grads::mask_pair_entry(x.grad[i], y.grad[i]) } else if x.value.spec_greater_than(y.value) { x.grad[i] } else { y.grad[i] });
}

/// `min` is symmetric where its arguments' values compare symmetrically:
/// swapping the arguments gives the same gradient, and the same value unless
/// the values compare equal, when each result keeps its first argument's value.
pub proof fn lemma_gfloat_min_symmetric<F: Scalar, const N: usize>(x: GFloat<F, N>, y: GFloat<F, N>)
    requires
        x.value.spec_equals(y.value) == y.value.spec_equals(x.value),
        !x.value.spec_equals(y.value) ==> (x.value.spec_less_than(y.value) != y.value.spec_less_than(x.value)),
    ensures
        forall|i: int| 0 <= i < N ==> #[trigger] x.spec_min(y).grad[i] == y.spec_min(x).grad[i],
        x.value.spec_equals(y.value) ==> x.spec_min(y).value == x.value && y.spec_min(x).value == y.value,
        !x.value.spec_equals(y.value) ==> x.spec_min(y).value == y.spec_min(x).value,
{
    lemma_gfloat_min_exists(x, y);
    lemma_gfloat_min_exists(y, x);
}

proof fn lemma_gfloat_min_exists<F: Scalar, const N: usize>(x: GFloat<F, N>, y: GFloat<F, N>)
    ensures
        x.spec_min(y).value == (if x.value.spec_equals(y.value) { x.value } else if x.value.spec_less_than(y.value) { x.value } else { y.value }),
        forall|i: int| 0 <= i < N ==> #[trigger] x.spec_min(y).grad[i] == (if x.value.spec_equals(y.value) { grads::mask_pair_entry(x.grad[i], y.grad[i]) } else if x.value.spec_less_than(y.value) { x.grad[i] } else { y.grad[i] }),
{
    let w = GFloat::<F, N>::lemma_exists(
        if x.value.spec_equals(y.value) { x.value } else if x.value.spec_less_than(y.value) { x.value } else { y.value },
        |i: int| if x.value.spec_equals(y.value) { grads::mask_pair_entry(x.grad[i], y.grad[i]) } else if x.value.spec_less_than(y.value) { x.grad[i] } else { y.grad[i] },
    );
    assert(w.value == (if x.value.spec_equals(y.value) { x.value } else if x.value.spec_less_than(y.value) { x.value } else { y.value }) && forall|i: int|
        0 <= i < N ==> #[trigger] w.grad[i] == if x.value.spec_equals(y.value) { grads::mask_pair_entry(x.grad[i], y.grad[i]) } else if x.value.spec_less_than(y.value) { x.grad[i] } else { y.grad[i] });
}

/// `is_zero` holds exactly when the number compares equal to `zero()`.
pub proof fn lemma_gfloat_is_zero_is_equal_to_zero<F: Scalar, const N: usize>(x: GFloat<F, N>)
    ensures
        x.spec_is_zero() == x.spec_equals(GFloat::<F, N>::spec_zero()),
{
    let w = GFloat::<F, N>::lemma_exists(F::spec_zero(), |i: int| F::spec_zero());
    assert(w.value == F::spec_zero() && forall|i: int| 0 <= i < N ==> #[trigger] w.grad[i] == F::spec_zero());
}

/// Comparison with `==` looks at the values alone, not the gradients.
pub proof fn lemma_gfloat_eq_ignores_gradients<F: Scalar, const N: usize>(
    x: GFloat<F, N>,
    y: GFloat<F, N>,
    x2: GFloat<F, N>,
    y2: GFloat<F, N>,
)
    requires
        x.value == x2.value,
        y.value == y2.value,
    ensures
        x.eq_spec(&y) == x2.eq_spec(&y2),
        x.eq_spec(&y) == x.value.spec_equals(y.value),
{
}

/// The chain rule for an operation of two arguments at two input variables:
/// where `a` is the variable `i` and `b` the variable `j`, entry `i` of the
/// gradient is the partial derivative of the operation along its first
/// argument, and entry `j` the one along its second, provided that `1 * d + 0 * e`
/// gives `d` back (and `0 * d + 1 * e` gives `e`) on those partial derivatives.
pub proof fn lemma_gfloat_chain_entry_at_variables<F: Scalar, const N: usize, O: BinaryDOp<F>>(
    a: GFloat<F, N>,
    b: GFloat<F, N>,
    i: int,
    j: int,
)
    requires
        0 <= i < N,
        0 <= j < N,
        a.grad[i] == F::spec_one(),
        b.grad[i] == F::spec_zero(),
        a.grad[j] == F::spec_zero(),
        b.grad[j] == F::spec_one(),
        F::spec_one().spec_times(O::spec_grad((DFloat { value: a.value, derivative: F::spec_one() }), (DFloat { value: b.value, derivative: F::spec_zero() })).0).spec_plus(
            F::spec_zero().spec_times(O::spec_grad((DFloat { value: a.value, derivative: F::spec_one() }), (DFloat { value: b.value, derivative: F::spec_zero() })).1),
        ) == O::spec_grad((DFloat { value: a.value, derivative: F::spec_one() }), (DFloat { value: b.value, derivative: F::spec_zero() })).0,
        F::spec_zero().spec_times(O::spec_grad((DFloat { value: a.value, derivative: F::spec_zero() }), (DFloat { value: b.value, derivative: F::spec_one() })).0).spec_plus(
            F::spec_one().spec_times(O::spec_grad((DFloat { value: a.value, derivative: F::spec_zero() }), (DFloat { value: b.value, derivative: F::spec_one() })).1),
        ) == O::spec_grad((DFloat { value: a.value, derivative: F::spec_zero() }), (DFloat { value: b.value, derivative: F::spec_one() })).1,
    ensures
        GFloat::<F, N>::chain_entry::<O>(a, b, i) == O::spec_grad((DFloat { value: a.value, derivative: F::spec_one() }), (DFloat { value: b.value, derivative: F::spec_zero() })).0,
        GFloat::<F, N>::chain_entry::<O>(a, b, j) == O::spec_grad((DFloat { value: a.value, derivative: F::spec_zero() }), (DFloat { value: b.value, derivative: F::spec_one() })).1,
{
}

/// The chain rule for an operation of `WIDTH` arguments sums over the
/// arguments in order, pairing argument `n` with the partial derivative
/// `og[n]`: the empty sum is zero, and each further argument adds
/// `args[n].grad[i] * og[n]`.
pub proof fn lemma_gfloat_chain_sum_steps<F: Scalar, const N: usize, const WIDTH: usize>(
    args: [GFloat<F, N>; WIDTH],
    og: [F; WIDTH],
    i: int,
    n: int,
)
    requires
        0 <= n < WIDTH,
    ensures
        GFloat::<F, N>::chain_sum(args, og, i, 0) == F::spec_zero(),
        GFloat::<F, N>::chain_sum(args, og, i, n + 1) == GFloat::<F, N>::chain_sum(args, og, i, n).spec_plus(
            args[n].grad[i].spec_times(og[n]),
        ),
{
}

/// The chain rule for an operation of `WIDTH` arguments where argument `m` is
/// the input variable `i` and no other argument depends on it: entry `i` of the
/// gradient is `og[m]`, the partial derivative along argument `m`, provided that
/// multiplying by `0` and `1` and adding `0` act as usual on the partial
/// derivatives.
pub proof fn lemma_gfloat_chain_sum_at_variable<F: Scalar, const N: usize, const WIDTH: usize>(
    args: [GFloat<F, N>; WIDTH],
    og: [F; WIDTH],
    i: int,
    m: int,
)
    requires
        0 <= m < WIDTH,
        args[m].grad[i] == F::spec_one(),
        forall|j: int| 0 <= j < WIDTH && j != m ==> #[trigger] args[j].grad[i] == F::spec_zero(),
        forall|j: int|
            0 <= j < WIDTH && j != m ==> F::spec_zero().spec_times(#[trigger] og[j]) == F::spec_zero(),
        F::spec_one().spec_times(og[m]) == og[m],
        F::spec_zero().spec_plus(F::spec_zero()) == F::spec_zero(),
        F::spec_zero().spec_plus(og[m]) == og[m],
        og[m].spec_plus(F::spec_zero()) == og[m],
    ensures
        GFloat::<F, N>::chain_sum(args, og, i, WIDTH as int) == og[m],
{
    lemma_gfloat_chain_sum_prefix(args, og, i, m, WIDTH as int);
}

proof fn lemma_gfloat_chain_sum_prefix<F: Scalar, const N: usize, const WIDTH: usize>(
    args: [GFloat<F, N>; WIDTH],
    og: [F; WIDTH],
    i: int,
    m: int,
    n: int,
)
    requires
        0 <= m < WIDTH,
        0 <= n <= WIDTH,
        args[m].grad[i] == F::spec_one(),
        forall|j: int| 0 <= j < WIDTH && j != m ==> #[trigger] args[j].grad[i] == F::spec_zero(),
        forall|j: int|
            0 <= j < WIDTH && j != m ==> F::spec_zero().spec_times(#[trigger] og[j]) == F::spec_zero(),
        F::spec_one().spec_times(og[m]) == og[m],
        F::spec_zero().spec_plus(F::spec_zero()) == F::spec_zero(),
        F::spec_zero().spec_plus(og[m]) == og[m],
        og[m].spec_plus(F::spec_zero()) == og[m],
    ensures
        GFloat::<F, N>::chain_sum(args, og, i, n) == if n <= m {
            F::spec_zero()
        } else {
            og[m]
        },
    decreases n,
{
    if n > 0 {
        lemma_gfloat_chain_sum_prefix(args, og, i, m, n - 1);
        let k = n - 1;
        if k != m {
            assert(args[k].grad[i] == F::spec_zero());
            assert(F::spec_zero().spec_times(og[k]) == F::spec_zero());
        }
    }
}

/// `values_of` lists the values of the arguments, argument `k` at index `k`.
pub proof fn lemma_gfloat_values_of<F: Scalar, const N: usize, const WIDTH: usize>(args: [GFloat<F, N>; WIDTH])
    ensures
        forall|k: int| 0 <= k < WIDTH ==> #[trigger] GFloat::<F, N>::values_of(args)[k] == args[k].value,
{
    let w = crate::lemma_array_of::<F, WIDTH>(|k: int| args[k].value);
    assert(w@ =~= Seq::new(WIDTH as nat, |k: int| args[k].value));
    let c = GFloat::<F, N>::values_of(args);
    assert forall|k: int| 0 <= k < WIDTH implies #[trigger] c[k] == args[k].value by {
        assert(c@[k] == args[k].value);
    }
}

/// `partials_of` lists each argument's value with its partial derivative
/// along variable `i`, argument `k` at index `k`.
pub proof fn lemma_gfloat_partials_of<F: Scalar, const N: usize, const WIDTH: usize>(
    args: [GFloat<F, N>; WIDTH],
    i: int,
)
    ensures
        forall|k: int|
            0 <= k < WIDTH ==> #[trigger] GFloat::<F, N>::partials_of(args, i)[k] == (DFloat {
                value: args[k].value,
                derivative: args[k].grad[i],
            }),
{
    let w = crate::lemma_array_of::<DFloat<F>, WIDTH>(
        |k: int| DFloat { value: args[k].value, derivative: args[k].grad[i] },
    );
    assert(w@ =~= Seq::new(WIDTH as nat, |k: int| DFloat { value: args[k].value, derivative: args[k].grad[i] }));
    let c = GFloat::<F, N>::partials_of(args, i);
    assert forall|k: int| 0 <= k < WIDTH implies #[trigger] c[k] == (DFloat {
        value: args[k].value,
        derivative: args[k].grad[i],
    }) by {
        assert(c@[k] == DFloat { value: args[k].value, derivative: args[k].grad[i] });
    }
}

/// Mixing a plain constant into a dual number acts on its value as it acts on
/// a plain number, so a function written against `WrappedFloat` gives the
/// same value on dual numbers as on plain numbers.
pub proof fn lemma_gfloat_scalar_mix_on_values<F: Scalar, const N: usize>(x: GFloat<F, N>, c: F)
    ensures
        <GFloat<F, N> as WrappedFloat<F>>::spec_get(c).value == <F as WrappedFloat<F>>::spec_get(c),
        x.spec_plus_scalar(c).value == <F as WrappedFloat<F>>::spec_plus_scalar(x.value, c),
        x.spec_minus_scalar(c).value == <F as WrappedFloat<F>>::spec_minus_scalar(x.value, c),
        x.spec_times_scalar(c).value == <F as WrappedFloat<F>>::spec_times_scalar(x.value, c),
        x.spec_divide_scalar(c).value == <F as WrappedFloat<F>>::spec_divide_scalar(x.value, c),
{
    let w0 = GFloat::<F, N>::lemma_exists(c, |i: int| F::spec_zero());
    assert(w0.value == c && forall|i: int| 0 <= i < N ==> #[trigger] w0.grad[i] == F::spec_zero());
    let w1 = GFloat::<F, N>::lemma_exists(x.value.spec_plus(c), |i: int| x.grad[i]);
    assert(w1.value == x.value.spec_plus(c) && forall|i: int| 0 <= i < N ==> #[trigger] w1.grad[i] == x.grad[i]);
    let w2 = GFloat::<F, N>::lemma_exists(x.value.spec_minus(c), |i: int| x.grad[i]);
    assert(w2.value == x.value.spec_minus(c) && forall|i: int| 0 <= i < N ==> #[trigger] w2.grad[i] == x.grad[i]);
    let w3 = GFloat::<F, N>::lemma_exists(x.value.spec_times(c), |i: int| x.grad[i].spec_times(c));
    assert(w3.value == x.value.spec_times(c) && forall|i: int|
        0 <= i < N ==> #[trigger] w3.grad[i] == x.grad[i].spec_times(c));
    let w4 = GFloat::<F, N>::lemma_exists(x.value.spec_divide(c), |i: int| x.grad[i].spec_divide(c));
    assert(w4.value == x.value.spec_divide(c) && forall|i: int|
        0 <= i < N ==> #[trigger] w4.grad[i] == x.grad[i].spec_divide(c));
}

/// Dual numbers compare by their values alone: `==`, `<` and `>` on dual
/// numbers are those of their values, and a dual number is zero exactly when
/// its value equals zero.
pub proof fn lemma_gfloat_compares_by_value<F: Scalar, const N: usize>(x: GFloat<F, N>, y: GFloat<F, N>)
    ensures
        x.spec_equals(y) == x.value.spec_equals(y.value),
        x.spec_less_than(y) == x.value.spec_less_than(y.value),
        x.spec_greater_than(y) == x.value.spec_greater_than(y.value),
        x.spec_is_zero() == x.value.spec_equals(F::spec_zero()),
{
}

/// `x > y` is `y < x` for dual numbers whenever it is so for their values, and
/// no dual number is greater than itself unless its value is.
pub proof fn lemma_gfloat_greater_is_converse_of_less<F: Scalar, const N: usize>(x: GFloat<F, N>, y: GFloat<F, N>)
    requires
        x.value.spec_greater_than(y.value) == y.value.spec_less_than(x.value),
    ensures
        x.spec_greater_than(y) == y.spec_less_than(x),
        x.spec_greater_than(x) == x.value.spec_greater_than(x.value),
{
}

/// Addition of dual numbers commutes whenever addition of scalars does.
pub proof fn lemma_fwdgfloat_plus_commutes<F: Scalar, const N: usize>(x: FwdGFloat<F, N>, y: FwdGFloat<F, N>)
    requires
        forall|a: F, b: F| #[trigger] a.spec_plus(b) == b.spec_plus(a),
    ensures
        x.spec_plus(y) == y.spec_plus(x),
{
    let p = x.spec_plus(y);
    let q = y.spec_plus(x);
    let w1 = FwdGFloat::<F, N>::lemma_exists(x.value.spec_plus(y.value), |i: int| x.grad[i].spec_plus(y.grad[i]));
    assert(w1.value == x.value.spec_plus(y.value) && forall|i: int|
        0 <= i < N ==> #[trigger] w1.grad[i] == x.grad[i].spec_plus(y.grad[i]));
    let w2 = FwdGFloat::<F, N>::lemma_exists(y.value.spec_plus(x.value), |i: int| y.grad[i].spec_plus(x.grad[i]));
    assert(w2.value == y.value.spec_plus(x.value) && forall|i: int|
        0 <= i < N ==> #[trigger] w2.grad[i] == y.grad[i].spec_plus(x.grad[i]));
    assert forall|i: int| 0 <= i < N implies p.grad[i] == q.grad[i] by {
        assert(x.grad[i].spec_plus(y.grad[i]) == y.grad[i].spec_plus(x.grad[i]));
    }
    assert(x.value.spec_plus(y.value) == y.value.spec_plus(x.value));
    FwdGFloat::<F, N>::lemma_determined(p, q);
}

/// Multiplication of dual numbers commutes whenever addition and
/// multiplication of scalars do: the product rule is symmetric.
pub proof fn lemma_fwdgfloat_times_commutes<F: Scalar, const N: usize>(x: FwdGFloat<F, N>, y: FwdGFloat<F, N>)
    requires
        forall|a: F, b: F| #[trigger] a.spec_plus(b) == b.spec_plus(a),
        forall|a: F, b: F| #[trigger] a.spec_times(b) == b.spec_times(a),
    ensures
        x.spec_times(y) == y.spec_times(x),
{
    let p = x.spec_times(y);
    let q = y.spec_times(x);
    let w1 = FwdGFloat::<F, N>::lemma_exists(
        x.value.spec_times(y.value),
        |i: int| x.value.spec_times(y.grad[i]).spec_plus(x.grad[i].spec_times(y.value)),
    );
    assert(w1.value == x.value.spec_times(y.value) && forall|i: int|
        0 <= i < N ==> #[trigger] w1.grad[i] == x.value.spec_times(y.grad[i]).spec_plus(
            x.grad[i].spec_times(y.value),
        ));
    let w2 = FwdGFloat::<F, N>::lemma_exists(
        y.value.spec_times(x.value),
        |i: int| y.value.spec_times(x.grad[i]).spec_plus(y.grad[i].spec_times(x.value)),
    );
    assert(w2.value == y.value.spec_times(x.value) && forall|i: int|
        0 <= i < N ==> #[trigger] w2.grad[i] == y.value.spec_times(x.grad[i]).spec_plus(
            y.grad[i].spec_times(x.value),
        ));
    assert forall|i: int| 0 <= i < N implies p.grad[i] == q.grad[i] by {
        let a = x.value.spec_times(y.grad[i]);
        let b = x.grad[i].spec_times(y.value);
        assert(a == y.grad[i].spec_times(x.value));
        assert(b == y.value.spec_times(x.grad[i]));
        assert(a.spec_plus(b) == b.spec_plus(a));
    }
    assert(x.value.spec_times(y.value) == y.value.spec_times(x.value));
    FwdGFloat::<F, N>::lemma_determined(p, q);
}

/// Subtraction of dual numbers is addition of the negation whenever it is so
/// for scalars.
pub proof fn lemma_fwdgfloat_minus_is_plus_negation<F: Scalar, const N: usize>(x: FwdGFloat<F, N>, y: FwdGFloat<F, N>)
    requires
        forall|a: F, b: F| #[trigger] a.spec_minus(b) == a.spec_plus(b.spec_negate()),
    ensures
        x.spec_minus(y) == x.spec_plus(y.spec_negate()),
{
    let p = x.spec_minus(y);
    let n = y.spec_negate();
    let q = x.spec_plus(n);
    let w0 = FwdGFloat::<F, N>::lemma_exists(y.value.spec_negate(), |i: int| y.grad[i].spec_negate());
    assert(w0.value == y.value.spec_negate() && forall|i: int|
        0 <= i < N ==> #[trigger] w0.grad[i] == y.grad[i].spec_negate());
    let w1 = FwdGFloat::<F, N>::lemma_exists(x.value.spec_minus(y.value), |i: int| x.grad[i].spec_minus(y.grad[i]));
    assert(w1.value == x.value.spec_minus(y.value) && forall|i: int|
        0 <= i < N ==> #[trigger] w1.grad[i] == x.grad[i].spec_minus(y.grad[i]));
    let w2 = FwdGFloat::<F, N>::lemma_exists(x.value.spec_plus(n.value), |i: int| x.grad[i].spec_plus(n.grad[i]));
    assert(w2.value == x.value.spec_plus(n.value) && forall|i: int|
        0 <= i < N ==> #[trigger] w2.grad[i] == x.grad[i].spec_plus(n.grad[i]));
    assert forall|i: int| 0 <= i < N implies p.grad[i] == q.grad[i] by {
        assert(x.grad[i].spec_minus(y.grad[i]) == x.grad[i].spec_plus(y.grad[i].spec_negate()));
    }
    assert(x.value.spec_minus(y.value) == x.value.spec_plus(y.value.spec_negate()));
    FwdGFloat::<F, N>::lemma_determined(p, q);
}

/// Negating a dual number twice gives it back whenever it does so for scalars.
pub proof fn lemma_fwdgfloat_negate_involutive<F: Scalar, const N: usize>(x: FwdGFloat<F, N>)
    requires
        forall|a: F| #[trigger] a.spec_negate().spec_negate() == a,
    ensures
        x.spec_negate().spec_negate() == x,
{
    let n = x.spec_negate();
    let w0 = FwdGFloat::<F, N>::lemma_exists(x.value.spec_negate(), |i: int| x.grad[i].spec_negate());
    assert(w0.value == x.value.spec_negate() && forall|i: int|
        0 <= i < N ==> #[trigger] w0.grad[i] == x.grad[i].spec_negate());
    let w1 = FwdGFloat::<F, N>::lemma_exists(n.value.spec_negate(), |i: int| n.grad[i].spec_negate());
    assert(w1.value == n.value.spec_negate() && forall|i: int|
        0 <= i < N ==> #[trigger] w1.grad[i] == n.grad[i].spec_negate());
    let m = n.spec_negate();
    assert forall|i: int| 0 <= i < N implies m.grad[i] == x.grad[i] by {
        assert(x.grad[i].spec_negate().spec_negate() == x.grad[i]);
    }
    assert(x.value.spec_negate().spec_negate() == x.value);
    FwdGFloat::<F, N>::lemma_determined(m, x);
}

/// `sin_cos` gives the same pair as `sin` and `cos` whenever it does so for
/// scalars.
pub proof fn lemma_fwdgfloat_sin_cos_agrees<F: Scalar, const N: usize>(x: FwdGFloat<F, N>)
    requires
        x.value.spec_sin_cos() == (x.value.spec_sin(), x.value.spec_cos()),
    ensures
        x.spec_sin_cos() == (x.spec_sin(), x.spec_cos()),
{
    let sc = x.spec_sin_cos();
    let s = x.spec_sin();
    let c = x.spec_cos();
    let v = x.value;
    assert(v.spec_sin_cos() == (v.spec_sin(), v.spec_cos()));
    let w1 = FwdGFloat::<F, N>::lemma_exists(v.spec_sin_cos().0, |i: int| x.grad[i].spec_times(v.spec_sin_cos().1));
    assert(w1.value == v.spec_sin_cos().0 && forall|i: int|
        0 <= i < N ==> #[trigger] w1.grad[i] == x.grad[i].spec_times(v.spec_sin_cos().1));
    let w2 = FwdGFloat::<F, N>::lemma_exists(v.spec_sin_cos().1, |i: int| x.grad[i].spec_times(v.spec_sin_cos().0.spec_negate()));
    assert(w2.value == v.spec_sin_cos().1 && forall|i: int|
        0 <= i < N ==> #[trigger] w2.grad[i] == x.grad[i].spec_times(v.spec_sin_cos().0.spec_negate()));
    let w3 = FwdGFloat::<F, N>::lemma_exists(v.spec_sin(), |i: int| x.grad[i].spec_times(v.spec_cos()));
    assert(w3.value == v.spec_sin() && forall|i: int|
        0 <= i < N ==> #[trigger] w3.grad[i] == x.grad[i].spec_times(v.spec_cos()));
    let w4 = FwdGFloat::<F, N>::lemma_exists(v.spec_cos(), |i: int| x.grad[i].spec_times(v.spec_sin().spec_negate()));
    assert(w4.value == v.spec_cos() && forall|i: int|
        0 <= i < N ==> #[trigger] w4.grad[i] == x.grad[i].spec_times(v.spec_sin().spec_negate()));
    FwdGFloat::<F, N>::lemma_determined(sc.0, s);
    FwdGFloat::<F, N>::lemma_determined(sc.1, c);
}

/// `max` is symmetric where its arguments' values compare symmetrically:
/// swapping the arguments gives the same gradient, and the same value unless
/// the values compare equal, when each result keeps its first argument's value.
pub proof fn lemma_fwdgfloat_max_symmetric<F: Scalar, const N: usize>(x: FwdGFloat<F, N>, y: FwdGFloat<F, N>)
    requires
        x.value.spec_equals(y.value) == y.value.spec_equals(x.value),
        !x.value.spec_equals(y.value) ==> (x.value.spec_greater_than(y.value) != y.value.spec_greater_than(x.value)),
    ensures
        forall|i: int| 0 <= i < N ==> #[trigger] x.spec_max(y).grad[i] == y.spec_max(x).grad[i],
        x.value.spec_equals(y.value) ==> x.spec_max(y).value == x.value && y.spec_max(x).value == y.value,
        !x.value.spec_equals(y.value) ==> x.spec_max(y).value == y.spec_max(x).value,
{
    lemma_fwdgfloat_max_exists(x, y);
    lemma_fwdgfloat_max_exists(y, x);
}

proof fn lemma_fwdgfloat_max_exists<F: Scalar, const N: usize>(x: FwdGFloat<F, N>, y: FwdGFloat<F, N>)
    ensures
        x.spec_max(y).value == (if x.value.spec_equals(y.value) { x.value } else if x.value.spec_greater_than(y.value) { x.value } else { y.value }),
        forall|i: int| 0 <= i < N ==> #[trigger] x.spec_max(y).grad[i] == (if x.value.spec_equals(y.value) { grads::mask_pair_entry(x.grad[i], y.grad[i]) } else if x.value.spec_greater_than(y.value) { x.grad[i] } else { y.grad[i] }),
{
    let w = FwdGFloat::<F, N>::lemma_exists(
        if x.value.spec_equals(y.value) { x.value } else if x.value.spec_greater_than(y.value) { x.value } else { y.value },
        |i: int| if x.value.spec_equals(y.value) { grads::mask_pair_entry(x.grad[i], y.grad[i]) } else if x.value.spec_greater_than(y.value) { x.grad[i] } else { y.grad[i] },
    );
    assert(w.value == (if x.value.spec_equals(y.value) { x.value } else if x.value.spec_greater_than(y.value) { x.value } else { y.value }) && forall|i: int|
        0 <= i < N ==> #[trigger] w.grad[i] == if x.value.spec_equals(y.value) { grads::mask_pair_entry(x.grad[i], y.grad[i]) } else if x.value.spec_greater_than(y.value) { x.grad[i] } else { y.grad[i] });
}

/// `min` is symmetric where its arguments' values compare symmetrically:
/// swapping the arguments gives the same gradient, and the same value unless
/// the values compare equal, when each result keeps its first argument's value.
pub proof fn lemma_fwdgfloat_min_symmetric<F: Scalar, const N: usize>(x: FwdGFloat<F, N>, y: FwdGFloat<F, N>)
    requires
        x.value.spec_equals(y.value) == y.value.spec_equals(x.value),
        !x.value.spec_equals(y.value) ==> (x.value.spec_less_than(y.value) != y.value.spec_less_than(x.value)),
    ensures
        forall|i: int| 0 <= i < N ==> #[trigger] x.spec_min(y).grad[i] == y.spec_min(x).grad[i],
        x.value.spec_equals(y.value) ==> x.spec_min(y).value == x.value && y.spec_min(x).value == y.value,
        !x.value.spec_equals(y.value) ==> x.spec_min(y).value == y.spec_min(x).value,
{
    lemma_fwdgfloat_min_exists(x, y);
    lemma_fwdgfloat_min_exists(y, x);
}

proof fn lemma_fwdgfloat_min_exists<F: Scalar, const N: usize>(x: FwdGFloat<F, N>, y: FwdGFloat<F, N>)
    ensures
        x.spec_min(y).value == (if x.value.spec_equals(y.value) { x.value } else if x.value.spec_less_than(y.value) { x.value } else { y.value }),
        forall|i: int| 0 <= i < N ==> #[trigger] x.spec_min(y).grad[i] == (if x.value.spec_equals(y.value) { grads::mask_pair_entry(x.grad[i], y.grad[i]) } else if x.value.spec_less_than(y.value) { x.grad[i] } else { y.grad[i] }),
{
    let w = FwdGFloat::<F, N>::lemma_exists(
        if x.value.spec_equals(y.value) { x.value } else if x.value.spec_less_than(y.value) { x.value } else { y.value },
        |i: int| if x.value.spec_equals(y.value) { grads::mask_pair_entry(x.grad[i], y.grad[i]) } else if x.value.spec_less_than(y.value) { x.grad[i] } else { y.grad[i] },
    );
    assert(w.value == (if x.value.spec_equals(y.value) { x.value } else if x.value.spec_less_than(y.value) { x.value } else { y.value }) && forall|i: int|
        0 <= i < N ==> #[trigger] w.grad[i] == if x.value.spec_equals(y.value) { grads::mask_pair_entry(x.grad[i], y.grad[i]) } else if x.value.spec_less_than(y.value) { x.grad[i] } else { y.grad[i] });
}

/// `is_zero` holds exactly when the number compares equal to `zero()`.
pub proof fn lemma_fwdgfloat_is_zero_is_equal_to_zero<F: Scalar, const N: usize>(x: FwdGFloat<F, N>)
    ensures
        x.spec_is_zero() == x.spec_equals(FwdGFloat::<F, N>::spec_zero()),
{
    let w = FwdGFloat::<F, N>::lemma_exists(F::spec_zero(), |i: int| F::spec_zero());
    assert(w.value == F::spec_zero() && forall|i: int| 0 <= i < N ==> #[trigger] w.grad[i] == F::spec_zero());
}

/// Comparison with `==` looks at the values alone, not the gradients.
pub proof fn lemma_fwdgfloat_eq_ignores_gradients<F: Scalar, const N: usize>(
    x: FwdGFloat<F, N>,
    y: FwdGFloat<F, N>,
    x2: FwdGFloat<F, N>,
    y2: FwdGFloat<F, N>,
)
    requires
        x.value == x2.value,
        y.value == y2.value,
    ensures
        x.eq_spec(&y) == x2.eq_spec(&y2),
        x.eq_spec(&y) == x.value.spec_equals(y.value),
{
}

/// The chain rule for an operation of two arguments at two input variables:
/// where `a` is the variable `i` and `b` the variable `j`, entry `i` of the
/// gradient is the partial derivative of the operation along its first
/// argument, and entry `j` the one along its second, provided that `1 * d + 0 * e`
/// gives `d` back (and `0 * d + 1 * e` gives `e`) on those partial derivatives.
pub proof fn lemma_fwdgfloat_chain_entry_at_variables<F: Scalar, const N: usize, O: BinaryDOp<F>>(
    a: FwdGFloat<F, N>,
    b: FwdGFloat<F, N>,
    i: int,
    j: int,
)
    requires
        0 <= i < N,
        0 <= j < N,
        a.grad[i] == F::spec_one(),
        b.grad[i] == F::spec_zero(),
        a.grad[j] == F::spec_zero(),
        b.grad[j] == F::spec_one(),
        F::spec_one().spec_times(O::spec_grad((DFloat { value: a.value, derivative: F::spec_one() }), (DFloat { value: b.value, derivative: F::spec_zero() })).0).spec_plus(
            F::spec_zero().spec_times(O::spec_grad((DFloat { value: a.value, derivative: F::spec_one() }), (DFloat { value: b.value, derivative: F::spec_zero() })).1),
        ) == O::spec_grad((DFloat { value: a.value, derivative: F::spec_one() }), (DFloat { value: b.value, derivative: F::spec_zero() })).0,
        F::spec_zero().spec_times(O::spec_grad((DFloat { value: a.value, derivative: F::spec_zero() }), (DFloat { value: b.value, derivative: F::spec_one() })).0).spec_plus(
            F::spec_one().spec_times(O::spec_grad((DFloat { value: a.value, derivative: F::spec_zero() }), (DFloat { value: b.value, derivative: F::spec_one() })).1),
        ) == O::spec_grad((DFloat { value: a.value, derivative: F::spec_zero() }), (DFloat { value: b.value, derivative: F::spec_one() })).1,
    ensures
        FwdGFloat::<F, N>::chain_entry::<O>(a, b, i) == O::spec_grad((DFloat { value: a.value, derivative: F::spec_one() }), (DFloat { value: b.value, derivative: F::spec_zero() })).0,
        FwdGFloat::<F, N>::chain_entry::<O>(a, b, j) == O::spec_grad((DFloat { value: a.value, derivative: F::spec_zero() }), (DFloat { value: b.value, derivative: F::spec_one() })).1,
{
}

/// The chain rule for an operation of `WIDTH` arguments sums over the
/// arguments in order, pairing argument `n` with the partial derivative
/// `og[n]`: the empty sum is zero, and each further argument adds
/// `args[n].grad[i] * og[n]`.
pub proof fn lemma_fwdgfloat_chain_sum_steps<F: Scalar, const N: usize, const WIDTH: usize>(
    args: [FwdGFloat<F, N>; WIDTH],
    og: [F; WIDTH],
    i: int,
    n: int,
)
    requires
        0 <= n < WIDTH,
    ensures
        FwdGFloat::<F, N>::chain_sum(args, og, i, 0) == F::spec_zero(),
        FwdGFloat::<F, N>::chain_sum(args, og, i, n + 1) == FwdGFloat::<F, N>::chain_sum(args, og, i, n).spec_plus(
            args[n].grad[i].spec_times(og[n]),
        ),
{
}

/// The chain rule for an operation of `WIDTH` arguments where argument `m` is
/// the input variable `i` and no other argument depends on it: entry `i` of the
/// gradient is `og[m]`, the partial derivative along argument `m`, provided that
/// multiplying by `0` and `1` and adding `0` act as usual on the partial
/// derivatives.
pub proof fn lemma_fwdgfloat_chain_sum_at_variable<F: Scalar, const N: usize, const WIDTH: usize>(
    args: [FwdGFloat<F, N>; WIDTH],
    og: [F; WIDTH],
    i: int,
    m: int,
)
    requires
        0 <= m < WIDTH,
        args[m].grad[i] == F::spec_one(),
        forall|j: int| 0 <= j < WIDTH && j != m ==> #[trigger] args[j].grad[i] == F::spec_zero(),
        forall|j: int|
            0 <= j < WIDTH && j != m ==> F::spec_zero().spec_times(#[trigger] og[j]) == F::spec_zero(),
        F::spec_one().spec_times(og[m]) == og[m],
        F::spec_zero().spec_plus(F::spec_zero()) == F::spec_zero(),
        F::spec_zero().spec_plus(og[m]) == og[m],
        og[m].spec_plus(F::spec_zero()) == og[m],
    ensures
        FwdGFloat::<F, N>::chain_sum(args, og, i, WIDTH as int) == og[m],
{
    lemma_fwdgfloat_chain_sum_prefix(args, og, i, m, WIDTH as int);
}

proof fn lemma_fwdgfloat_chain_sum_prefix<F: Scalar, const N: usize, const WIDTH: usize>(
    args: [FwdGFloat<F, N>; WIDTH],
    og: [F; WIDTH],
    i: int,
    m: int,
    n: int,
)
    requires
        0 <= m < WIDTH,
        0 <= n <= WIDTH,
        args[m].grad[i] == F::spec_one(),
        forall|j: int| 0 <= j < WIDTH && j != m ==> #[trigger] args[j].grad[i] == F::spec_zero(),
        forall|j: int|
            0 <= j < WIDTH && j != m ==> F::spec_zero().spec_times(#[trigger] og[j]) == F::spec_zero(),
        F::spec_one().spec_times(og[m]) == og[m],
        F::spec_zero().spec_plus(F::spec_zero()) == F::spec_zero(),
        F::spec_zero().spec_plus(og[m]) == og[m],
        og[m].spec_plus(F::spec_zero()) == og[m],
    ensures
        FwdGFloat::<F, N>::chain_sum(args, og, i, n) == if n <= m {
            F::spec_zero()
        } else {
            og[m]
        },
    decreases n,
{
    if n > 0 {
        lemma_fwdgfloat_chain_sum_prefix(args, og, i, m, n - 1);
        let k = n - 1;
        if k != m {
            assert(args[k].grad[i] == F::spec_zero());
            assert(F::spec_zero().spec_times(og[k]) == F::spec_zero());
        }
    }
}

/// `values_of` lists the values of the arguments, argument `k` at index `k`.
pub proof fn lemma_fwdgfloat_values_of<F: Scalar, const N: usize, const WIDTH: usize>(args: [FwdGFloat<F, N>; WIDTH])
    ensures
        forall|k: int| 0 <= k < WIDTH ==> #[trigger] FwdGFloat::<F, N>::values_of(args)[k] == args[k].value,
{
    let w = crate::lemma_array_of::<F, WIDTH>(|k: int| args[k].value);
    assert(w@ =~= Seq::new(WIDTH as nat, |k: int| args[k].value));
    let c = FwdGFloat::<F, N>::values_of(args);
    assert forall|k: int| 0 <= k < WIDTH implies #[trigger] c[k] == args[k].value by {
        assert(c@[k] == args[k].value);
    }
}

/// `partials_of` lists each argument's value with its partial derivative
/// along variable `i`, argument `k` at index `k`.
pub proof fn lemma_fwdgfloat_partials_of<F: Scalar, const N: usize, const WIDTH: usize>(
    args: [FwdGFloat<F, N>; WIDTH],
    i: int,
)
    ensures
        forall|k: int|
            0 <= k < WIDTH ==> #[trigger] FwdGFloat::<F, N>::partials_of(args, i)[k] == (DFloat {
                value: args[k].value,
                derivative: args[k].grad[i],
            }),
{
    let w = crate::lemma_array_of::<DFloat<F>, WIDTH>(
        |k: int| DFloat { value: args[k].value, derivative: args[k].grad[i] },
    );
    assert(w@ =~= Seq::new(WIDTH as nat, |k: int| DFloat { value: args[k].value, derivative: args[k].grad[i] }));
    let c = FwdGFloat::<F, N>::partials_of(args, i);
    assert forall|k: int| 0 <= k < WIDTH implies #[trigger] c[k] == (DFloat {
        value: args[k].value,
        derivative: args[k].grad[i],
    }) by {
        assert(c@[k] == DFloat { value: args[k].value, derivative: args[k].grad[i] });
    }
}

/// Mixing a plain constant into a dual number acts on its value as it acts on
/// a plain number, so a function written against `WrappedFloat` gives the
/// same value on dual numbers as on plain numbers.
pub proof fn lemma_fwdgfloat_scalar_mix_on_values<F: Scalar, const N: usize>(x: FwdGFloat<F, N>, c: F)
    ensures
        <FwdGFloat<F, N> as WrappedFloat<F>>::spec_get(c).value == <F as WrappedFloat<F>>::spec_get(c),
        x.spec_plus_scalar(c).value == <F as WrappedFloat<F>>::spec_plus_scalar(x.value, c),
        x.spec_minus_scalar(c).value == <F as WrappedFloat<F>>::spec_minus_scalar(x.value, c),
        x.spec_times_scalar(c).value == <F as WrappedFloat<F>>::spec_times_scalar(x.value, c),
        x.spec_divide_scalar(c).value == <F as WrappedFloat<F>>::spec_divide_scalar(x.value, c),
{
    let w0 = FwdGFloat::<F, N>::lemma_exists(c, |i: int| F::spec_zero());
    assert(w0.value == c && forall|i: int| 0 <= i < N ==> #[trigger] w0.grad[i] == F::spec_zero());
    let w1 = FwdGFloat::<F, N>::lemma_exists(x.value.spec_plus(c), |i: int| x.grad[i]);
    assert(w1.value == x.value.spec_plus(c) && forall|i: int| 0 <= i < N ==> #[trigger] w1.grad[i] == x.grad[i]);
    let w2 = FwdGFloat::<F, N>::lemma_exists(x.value.spec_minus(c), |i: int| x.grad[i]);
    assert(w2.value == x.value.spec_minus(c) && forall|i: int| 0 <= i < N ==> #[trigger] w2.grad[i] == x.grad[i]);
    let w3 = FwdGFloat::<F, N>::lemma_exists(x.value.spec_times(c), |i: int| x.grad[i].spec_times(c));
    assert(w3.value == x.value.spec_times(c) && forall|i: int|
        0 <= i < N ==> #[trigger] w3.grad[i] == x.grad[i].spec_times(c));
    let w4 = FwdGFloat::<F, N>::lemma_exists(x.value.spec_divide(c), |i: int| x.grad[i].spec_divide(c));
    assert(w4.value == x.value.spec_divide(c) && forall|i: int|
        0 <= i < N ==> #[trigger] w4.grad[i] == x.grad[i].spec_divide(c));
}

/// Dual numbers compare by their values alone: `==`, `<` and `>` on dual
/// numbers are those of their values, and a dual number is zero exactly when
/// its value equals zero.
pub proof fn lemma_fwdgfloat_compares_by_value<F: Scalar, const N: usize>(x: FwdGFloat<F, N>, y: FwdGFloat<F, N>)
    ensures
        x.spec_equals(y) == x.value.spec_equals(y.value),
        x.spec_less_than(y) == x.value.spec_less_than(y.value),
        x.spec_greater_than(y) == x.value.spec_greater_than(y.value),
        x.spec_is_zero() == x.value.spec_equals(F::spec_zero()),
{
}

/// `x > y` is `y < x` for dual numbers whenever it is so for their values, and
/// no dual number is greater than itself unless its value is.
pub proof fn lemma_fwdgfloat_greater_is_converse_of_less<F: Scalar, const N: usize>(x: FwdGFloat<F, N>, y: FwdGFloat<F, N>)
    requires
        x.value.spec_greater_than(y.value) == y.value.spec_less_than(x.value),
    ensures
        x.spec_greater_than(y) == y.spec_less_than(x),
        x.spec_greater_than(x) == x.value.spec_greater_than(x.value),
{
}

/// A plain number wraps itself: mixing a plain constant into a plain number is
/// the plain operation, and `get` gives the number back.
pub proof fn lemma_scalar_wraps_itself<F: Scalar>(x: F, c: F)
    ensures
        <F as WrappedFloat<F>>::spec_get(c) == c,
        <F as WrappedFloat<F>>::spec_plus_scalar(x, c) == x.spec_plus(c),
        <F as WrappedFloat<F>>::spec_minus_scalar(x, c) == x.spec_minus(c),
        <F as WrappedFloat<F>>::spec_times_scalar(x, c) == x.spec_times(c),
        <F as WrappedFloat<F>>::spec_divide_scalar(x, c) == x.spec_divide(c),
{
}

} // verus!
