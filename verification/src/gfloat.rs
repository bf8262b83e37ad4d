use crate::grads;
use crate::scalar::Scalar;
use crate::{BinaryDOp, DFloat, NaryDOp, UnaryDOp, WrappedFloat};
use std::num::FpCategory;
use vstd::prelude::*;

verus! {

/// A dual number: a value together with its gradient with respect to
/// `ARGWIDTH` variables.
#[derive(Debug)]
pub struct GFloat<F: Scalar, const ARGWIDTH: usize> {
    pub value: F,
    pub grad: [F; ARGWIDTH],
}

impl<F: Scalar, const ARGWIDTH: usize> Clone for GFloat<F, ARGWIDTH> {
    fn clone(&self) -> (r: Self)
        ensures
            r == *self,
    {
        GFloat { value: self.value, grad: self.grad }
    }
}

impl<F: Scalar, const ARGWIDTH: usize> Copy for GFloat<F, ARGWIDTH> {

}

impl<F: Scalar, const ARGWIDTH: usize> GFloat<F, ARGWIDTH> {
    /// Two dual numbers with the same value and the same gradient are the same.
    pub proof fn lemma_determined(a: Self, b: Self)
        requires
            a.value == b.value,
            forall|i: int| 0 <= i < ARGWIDTH ==> a.grad[i] == b.grad[i],
        ensures
            a == b,
    {
        assert(a.grad =~= b.grad);
    }

    /// A dual number with value `value` and gradient entries `f(i)` exists.
    pub proof fn lemma_exists(value: F, f: spec_fn(int) -> F) -> (r: Self)
        ensures
            r.value == value,
            forall|i: int| 0 <= i < ARGWIDTH ==> #[trigger] r.grad[i] == f(i),
    {
        grads::lemma_tabulate::<F, ARGWIDTH>(f, ARGWIDTH as int);
        GFloat { value, grad: grads::tabulate(f, ARGWIDTH as int) }
    }

    /// `new_value` with a gradient that is not-a-number where the gradient of
    /// `self` is nonzero, and zero elsewhere.
    fn nan_grad(&self, new_value: F) -> (r: Self)
        ensures
            r.value == new_value,
            forall|i: int| 0 <= i < ARGWIDTH ==> #[trigger] r.grad[i] == grads::mask_entry(self.grad[i]),
    {
        GFloat { value: new_value, grad: grads::nan_mask(self.grad) }
    }

    /// A constant: `value` with a zero gradient.
    pub fn from(value: F) -> (r: Self)
        ensures
            r.value == value,
            forall|i: int| 0 <= i < ARGWIDTH ==> #[trigger] r.grad[i] == F::spec_zero(),
    {
        GFloat { value, grad: grads::zeros() }
    }

    /// The variable number `index`: `value` with a gradient that is one at
    /// `index` and zero elsewhere.
    pub fn new_var(value: F, index: usize) -> (r: Self)
        requires
            index < ARGWIDTH,
        ensures
            r.value == value,
            r.grad[index as int] == F::spec_one(),
            forall|i: int| 0 <= i < ARGWIDTH && i != index ==> #[trigger] r.grad[i] == F::spec_zero(),
    {
        let mut grad: [F; ARGWIDTH] = grads::zeros();
        grad[index] = F::one();
        GFloat { value, grad }
    }

    /// The value with its partial derivative along variable `index`.
    pub fn partial(self, index: usize) -> (r: DFloat<F>)
        requires
            index < ARGWIDTH,
        ensures
            r.value == self.value,
            r.derivative == self.grad[index as int],
    {
        DFloat { value: self.value, derivative: self.grad[index] }
    }

    /// Applies the operation `O` of one argument: the value is `O::op` of the
    /// value, and each entry of the gradient is the entry times `O::grad` of the
    /// matching partial (the chain rule).
    pub fn apply_u<O: UnaryDOp<F>>(self) -> (r: Self)
        ensures
            r.value == O::spec_op(self.value),
            forall|i: int|
                0 <= i < ARGWIDTH ==> #[trigger] r.grad[i] == self.grad[i].spec_times(
                    O::spec_grad((DFloat { value: self.value, derivative: self.grad[i] })),
                ),
    {
        let mut result_grad: [F; ARGWIDTH] = self.grad;
        let mut i: usize = 0;
        while i < ARGWIDTH
            invariant
                i <= ARGWIDTH,
                forall|j: int|
                    0 <= j < i ==> #[trigger] result_grad[j] == self.grad[j].spec_times(
                        O::spec_grad((DFloat { value: self.value, derivative: self.grad[j] })),
                    ),
            decreases ARGWIDTH - i,
        {
            result_grad[i] = self.grad[i].times(O::grad(self.partial(i)));
            i = i + 1;
        }
        GFloat { value: O::op(self.value), grad: result_grad }
    }

    /// Applies the operation `O` of two arguments: the value is `O::op` of the
    /// values, and each entry of the gradient is `g * da + h * db` where
    /// `(da, db)` is `O::grad` of the matching partials (the chain rule).
    pub fn apply_b<O: BinaryDOp<F>>(self, other: Self) -> (r: Self)
        ensures
            r.value == O::spec_op(self.value, other.value),
            forall|i: int|
                0 <= i < ARGWIDTH ==> #[trigger] r.grad[i] == (self.grad[i].spec_times(O::spec_grad(
                    (DFloat { value: self.value, derivative: self.grad[i] }),
                    (DFloat { value: other.value, derivative: other.grad[i] }),
                ).0).spec_plus(other.grad[i].spec_times(O::spec_grad(
                    (DFloat { value: self.value, derivative: self.grad[i] }),
                    (DFloat { value: other.value, derivative: other.grad[i] }),
                ).1))),
            forall|i: int| 0 <= i < ARGWIDTH ==> #[trigger] r.grad[i] == Self::chain_entry::<O>(self, other, i),
    {
        let mut result_grad: [F; ARGWIDTH] = grads::zeros();
        let mut i: usize = 0;
        while i < ARGWIDTH
            invariant
                i <= ARGWIDTH,
                forall|j: int| 0 <= j < i ==> #[trigger] result_grad[j] == (self.grad[j].spec_times(O::spec_grad(
                    (DFloat { value: self.value, derivative: self.grad[j] }),
                    (DFloat { value: other.value, derivative: other.grad[j] }),
                ).0).spec_plus(other.grad[j].spec_times(O::spec_grad(
                    (DFloat { value: self.value, derivative: self.grad[j] }),
                    (DFloat { value: other.value, derivative: other.grad[j] }),
                ).1))),
            decreases ARGWIDTH - i,
        {
            let op_grad = O::grad(self.partial(i), other.partial(i));
            result_grad[i] = self.grad[i].times(op_grad.0);
            result_grad[i] = result_grad[i].plus(other.grad[i].times(op_grad.1));
            i = i + 1;
        }
        GFloat { value: O::op(self.value, other.value), grad: result_grad }
    }

    /// The entry `i` of the gradient that `apply_b` gives.
    pub open spec fn chain_entry<O: BinaryDOp<F>>(a: Self, b: Self, i: int) -> F {
        let og = O::spec_grad(
            (DFloat { value: a.value, derivative: a.grad[i] }),
            (DFloat { value: b.value, derivative: b.grad[i] }),
        );
        a.grad[i].spec_times(og.0).spec_plus(b.grad[i].spec_times(og.1))
    }

    /// The values of `args`, in order.
    pub open spec fn values_of<const WIDTH: usize>(args: [Self; WIDTH]) -> [F; WIDTH] {
        choose|a: [F; WIDTH]| a@ == Seq::new(WIDTH as nat, |k: int| args[k].value)
    }

    /// Each of `args` as its value with its partial derivative along variable `i`.
    pub open spec fn partials_of<const WIDTH: usize>(args: [Self; WIDTH], i: int) -> [DFloat<F>; WIDTH] {
        choose|a: [DFloat<F>; WIDTH]|
            a@ == Seq::new(WIDTH as nat, |k: int| DFloat { value: args[k].value, derivative: args[k].grad[i] })
    }

    /// Zero plus `args[j].grad[i] * og[j]` for each `j < n`, added in order.
    pub open spec fn chain_sum<const WIDTH: usize>(args: [Self; WIDTH], og: [F; WIDTH], i: int, n: int) -> F
        decreases n,
    {
        if n <= 0 {
            F::spec_zero()
        } else {
            Self::chain_sum(args, og, i, n - 1).spec_plus(args[n - 1].grad[i].spec_times(og[n - 1]))
        }
    }

    /// Applies the operation `O` of `WIDTH` arguments: the value is `O::op` of
    /// the values; entry `i` of the gradient is the sum over `j` of
    /// `args[j].grad[i] * og[j]`, where `og` is `O::grad` of the partials
    /// along variable `i` (the chain rule).
    pub fn apply_n<O: NaryDOp<F, WIDTH>, const WIDTH: usize>(args: [Self; WIDTH]) -> (r: Self)
        ensures
            r.value == O::spec_op(Self::values_of(args)),
            forall|a: [F; WIDTH]|
                (forall|k: int| 0 <= k < WIDTH ==> #[trigger] a[k] == args[k].value) ==> r.value
                    == #[trigger] O::spec_op(a),
            forall|i: int, p: [DFloat<F>; WIDTH]|
                0 <= i < ARGWIDTH && (forall|k: int|
                    0 <= k < WIDTH ==> #[trigger] p[k] == (DFloat {
                        value: args[k].value,
                        derivative: args[k].grad[i],
                    })) ==> #[trigger] r.grad[i] == Self::chain_sum(args, #[trigger] O::spec_grad(p), i, WIDTH as int),
            forall|i: int|
                0 <= i < ARGWIDTH ==> #[trigger] r.grad[i] == Self::chain_sum(
                    args,
                    O::spec_grad(Self::partials_of(args, i)),
                    i,
                    WIDTH as int,
                ),
    {
        let mut result_grad: [F; ARGWIDTH] = grads::zeros();
        let mut i: usize = 0;
        while i < ARGWIDTH
            invariant
                i <= ARGWIDTH,
                forall|j: int|
                    0 <= j < i ==> #[trigger] result_grad[j] == Self::chain_sum(
                        args,
                        O::spec_grad(Self::partials_of(args, j)),
                        j,
                        WIDTH as int,
                    ),
                forall|j: int| i <= j < ARGWIDTH ==> #[trigger] result_grad[j] == F::spec_zero(),
            decreases ARGWIDTH - i,
        {
            let mut partials: [DFloat<F>; WIDTH] = [DFloat { value: F::zero(), derivative: F::zero() }; WIDTH];
            let mut k: usize = 0;
            while k < WIDTH
                invariant
                    k <= WIDTH,
                    i < ARGWIDTH,
                    forall|m: int|
                        0 <= m < k ==> #[trigger] partials[m] == (DFloat {
                            value: args[m].value,
                            derivative: args[m].grad[i as int],
                        }),
                decreases WIDTH - k,
            {
                partials[k] = args[k].partial(i);
                k = k + 1;
            }
            proof {
                let c = Self::partials_of(args, i as int);
                assert(forall|m: int|
                    0 <= m < WIDTH ==> #[trigger] partials[m] == (DFloat {
                        value: args[m].value,
                        derivative: args[m].grad[i as int],
                    }));
                assert(partials@ =~= Seq::new(
                    WIDTH as nat,
                    |k: int| DFloat { value: args[k].value, derivative: args[k].grad[i as int] },
                ));
                assert(c =~= partials);
            }
            let op_grad = O::grad(partials);
            let mut j: usize = 0;
            while j < WIDTH
                invariant
                    j <= WIDTH,
                    i < ARGWIDTH,
                    op_grad == O::spec_grad(Self::partials_of(args, i as int)),
                    result_grad[i as int] == Self::chain_sum(args, op_grad, i as int, j as int),
                    forall|m: int|
                        0 <= m < i ==> #[trigger] result_grad[m] == Self::chain_sum(
                            args,
                            O::spec_grad(Self::partials_of(args, m)),
                            m,
                            WIDTH as int,
                        ),
                    forall|m: int| i < m < ARGWIDTH ==> #[trigger] result_grad[m] == F::spec_zero(),
                decreases WIDTH - j,
            {
                result_grad[i] = result_grad[i].plus(args[j].grad[i].times(op_grad[j]));
                j = j + 1;
            }
            i = i + 1;
        }
        let mut values: [F; WIDTH] = [F::zero(); WIDTH];
        let mut k: usize = 0;
        while k < WIDTH
            invariant
                k <= WIDTH,
                forall|m: int| 0 <= m < k ==> #[trigger] values[m] == args[m].value,
            decreases WIDTH - k,
        {
            values[k] = args[k].value;
            k = k + 1;
        }
        proof {
            let c = Self::values_of(args);
            assert(forall|m: int| 0 <= m < WIDTH ==> #[trigger] values[m] == args[m].value);
            assert(values@ =~= Seq::new(WIDTH as nat, |k: int| args[k].value));
            assert(c =~= values);
            assert forall|a: [F; WIDTH]|
                (forall|k: int| 0 <= k < WIDTH ==> #[trigger] a[k] == args[k].value) implies #[trigger] O::spec_op(a)
                    == O::spec_op(values) by {
                assert(a =~= values);
            }
            assert forall|i: int, p: [DFloat<F>; WIDTH]|
                0 <= i < ARGWIDTH && (forall|k: int|
                    0 <= k < WIDTH ==> #[trigger] p[k] == (DFloat {
                        value: args[k].value,
                        derivative: args[k].grad[i],
                    })) implies #[trigger] Self::chain_sum(args, O::spec_grad(p), i, WIDTH as int)
                    == Self::chain_sum(args, O::spec_grad(Self::partials_of(args, i)), i, WIDTH as int) by {
                let c = Self::partials_of(args, i);
                let w = crate::lemma_array_of::<DFloat<F>, WIDTH>(
                    |k: int| DFloat { value: args[k].value, derivative: args[k].grad[i] },
                );
                assert(w@ =~= Seq::new(
                    WIDTH as nat,
                    |k: int| DFloat { value: args[k].value, derivative: args[k].grad[i] },
                ));
                assert(p =~= c);
            }
        }
        GFloat { value: O::op(values), grad: result_grad }
    }
}

impl<F: Scalar, const ARGWIDTH: usize> Scalar for GFloat<F, ARGWIDTH> {
    open spec fn spec_zero() -> Self {
        choose|r: Self|
            r.value == F::spec_zero() && forall|i: int|
                0 <= i < ARGWIDTH ==> #[trigger] r.grad[i] == F::spec_zero()
    }

    open spec fn spec_one() -> Self {
        choose|r: Self|
            r.value == F::spec_one() && forall|i: int|
                0 <= i < ARGWIDTH ==> #[trigger] r.grad[i] == F::spec_zero()
    }

    open spec fn spec_nan() -> Self {
        choose|r: Self|
            r.value == F::spec_nan() && forall|i: int|
                0 <= i < ARGWIDTH ==> #[trigger] r.grad[i] == F::spec_zero()
    }

    open spec fn spec_infinity() -> Self {
        choose|r: Self|
            r.value == F::spec_infinity() && forall|i: int|
                0 <= i < ARGWIDTH ==> #[trigger] r.grad[i] == F::spec_zero()
    }

    open spec fn spec_neg_infinity() -> Self {
        choose|r: Self|
            r.value == F::spec_neg_infinity() && forall|i: int|
                0 <= i < ARGWIDTH ==> #[trigger] r.grad[i] == F::spec_zero()
    }

    open spec fn spec_neg_zero() -> Self {
        choose|r: Self|
            r.value == F::spec_neg_zero() && forall|i: int|
                0 <= i < ARGWIDTH ==> #[trigger] r.grad[i] == F::spec_zero()
    }

    open spec fn spec_min_value() -> Self {
        choose|r: Self|
            r.value == F::spec_min_value() && forall|i: int|
                0 <= i < ARGWIDTH ==> #[trigger] r.grad[i] == F::spec_zero()
    }

    open spec fn spec_min_positive_value() -> Self {
        choose|r: Self|
            r.value == F::spec_min_positive_value() && forall|i: int|
                0 <= i < ARGWIDTH ==> #[trigger] r.grad[i] == F::spec_zero()
    }

    open spec fn spec_max_value() -> Self {
        choose|r: Self|
            r.value == F::spec_max_value() && forall|i: int|
                0 <= i < ARGWIDTH ==> #[trigger] r.grad[i] == F::spec_zero()
    }

    open spec fn spec_half() -> Self {
        choose|r: Self|
            r.value == F::spec_half() && forall|i: int|
                0 <= i < ARGWIDTH ==> #[trigger] r.grad[i] == F::spec_zero()
    }

    open spec fn spec_from_i32(n: i32) -> Self {
        choose|r: Self|
            r.value == F::spec_from_i32(n) && forall|i: int|
                0 <= i < ARGWIDTH ==> #[trigger] r.grad[i] == F::spec_zero()
    }

    open spec fn spec_negate(self) -> Self {
        choose|r: Self|
            r.value == self.value.spec_negate() && forall|i: int|
                0 <= i < ARGWIDTH ==> #[trigger] r.grad[i] == self.grad[i].spec_negate()
    }

    open spec fn spec_plus(self, other: Self) -> Self {
        choose|r: Self|
            r.value == self.value.spec_plus(other.value) && forall|i: int|
                0 <= i < ARGWIDTH ==> #[trigger] r.grad[i] == self.grad[i].spec_plus(other.grad[i])
    }

    open spec fn spec_minus(self, other: Self) -> Self {
        choose|r: Self|
            r.value == self.value.spec_minus(other.value) && forall|i: int|
                0 <= i < ARGWIDTH ==> #[trigger] r.grad[i] == self.grad[i].spec_minus(other.grad[i])
    }

    open spec fn spec_times(self, other: Self) -> Self {
        choose|r: Self|
            r.value == self.value.spec_times(other.value) && forall|i: int|
                0 <= i < ARGWIDTH ==> #[trigger] r.grad[i] == self.value.spec_times(other.grad[i]).spec_plus(self.grad[i].spec_times(other.value))
    }

    open spec fn spec_divide(self, other: Self) -> Self {
        choose|r: Self|
            r.value == self.value.spec_divide(other.value) && forall|i: int|
                0 <= i < ARGWIDTH ==> #[trigger] r.grad[i] == self.grad[i].spec_times(other.value).spec_minus(other.grad[i].spec_times(self.value)).spec_divide(other.value.spec_times(other.value))
    }

    open spec fn spec_modulo(self, other: Self) -> Self {
        choose|r: Self|
            r.value == self.value.spec_modulo(other.value) && forall|i: int|
                0 <= i < ARGWIDTH ==> #[trigger] r.grad[i] == if self.value.spec_modulo(other.value).spec_equals(F::spec_zero()) { grads::mask_entry(self.grad[i]) } else { self.grad[i].spec_minus(other.grad[i].spec_times(self.value.spec_divide(other.value).spec_floor())) }
    }

    open spec fn spec_floor(self) -> Self {
        choose|r: Self|
            r.value == self.value.spec_floor() && forall|i: int|
                0 <= i < ARGWIDTH ==> #[trigger] r.grad[i] == if self.value.spec_floor().spec_equals(self.value) { grads::mask_entry(self.grad[i]) } else { F::spec_zero() }
    }

    open spec fn spec_ceil(self) -> Self {
        choose|r: Self|
            r.value == self.value.spec_ceil() && forall|i: int|
                0 <= i < ARGWIDTH ==> #[trigger] r.grad[i] == if self.value.spec_ceil().spec_equals(self.value) { grads::mask_entry(self.grad[i]) } else { F::spec_zero() }
    }

    open spec fn spec_round(self) -> Self {
        choose|r: Self|
            r.value == self.value.spec_round() && forall|i: int|
                0 <= i < ARGWIDTH ==> #[trigger] r.grad[i] == if self.value.spec_round().spec_equals(self.value) { grads::mask_entry(self.grad[i]) } else { F::spec_zero() }
    }

    open spec fn spec_trunc(self) -> Self {
        choose|r: Self|
            r.value == self.value.spec_trunc() && forall|i: int|
                0 <= i < ARGWIDTH ==> #[trigger] r.grad[i] == if self.value.spec_trunc().spec_equals(self.value) { grads::mask_entry(self.grad[i]) } else { F::spec_zero() }
    }

    open spec fn spec_fract(self) -> Self {
        choose|r: Self|
            r.value == self.value.spec_fract() && forall|i: int|
                0 <= i < ARGWIDTH ==> #[trigger] r.grad[i] == if self.value.spec_fract().spec_equals(F::spec_zero()) { grads::mask_entry(self.grad[i]) } else { self.grad[i] }
    }

    open spec fn spec_abs(self) -> Self {
        choose|r: Self|
            r.value == if self.value.spec_is_sign_negative() { self.value.spec_negate() } else if self.value.spec_equals(F::spec_zero()) { F::spec_zero() } else { self.value } && forall|i: int|
                0 <= i < ARGWIDTH ==> #[trigger] r.grad[i] == if self.value.spec_is_sign_negative() { self.grad[i].spec_negate() } else if self.value.spec_equals(F::spec_zero()) { grads::mask_entry(self.grad[i]) } else { self.grad[i] }
    }

    open spec fn spec_signum(self) -> Self {
        choose|r: Self|
            r.value == if self.value.spec_equals(F::spec_zero()) { F::spec_zero() } else { self.value.spec_signum() } && forall|i: int|
                0 <= i < ARGWIDTH ==> #[trigger] r.grad[i] == if self.value.spec_equals(F::spec_zero()) { grads::mask_entry(self.grad[i]) } else { F::spec_zero() }
    }

    open spec fn spec_recip(self) -> Self {
        choose|r: Self|
            r.value == self.value.spec_recip() && forall|i: int|
                0 <= i < ARGWIDTH ==> #[trigger] r.grad[i] == self.grad[i].spec_divide(self.value.spec_times(self.value))
    }

    open spec fn spec_sqrt(self) -> Self {
        choose|r: Self|
            r.value == self.value.spec_sqrt() && forall|i: int|
                0 <= i < ARGWIDTH ==> #[trigger] r.grad[i] == self.grad[i].spec_divide(F::spec_from_i32(2).spec_times(self.value.spec_sqrt()))
    }

    open spec fn spec_exp(self) -> Self {
        choose|r: Self|
            r.value == self.value.spec_exp() && forall|i: int|
                0 <= i < ARGWIDTH ==> #[trigger] r.grad[i] == self.grad[i].spec_times(self.value.spec_exp())
    }

    open spec fn spec_exp2(self) -> Self {
        choose|r: Self|
            r.value == self.value.spec_exp2() && forall|i: int|
                0 <= i < ARGWIDTH ==> #[trigger] r.grad[i] == self.grad[i].spec_times(F::spec_from_i32(2).spec_ln()).spec_times(self.value.spec_exp2())
    }

    open spec fn spec_ln(self) -> Self {
        choose|r: Self|
            r.value == self.value.spec_ln() && forall|i: int|
                0 <= i < ARGWIDTH ==> #[trigger] r.grad[i] == self.grad[i].spec_divide(self.value)
    }

    open spec fn spec_log2(self) -> Self {
        choose|r: Self|
            r.value == self.value.spec_log2() && forall|i: int|
                0 <= i < ARGWIDTH ==> #[trigger] r.grad[i] == self.grad[i].spec_divide(F::spec_from_i32(2).spec_ln().spec_times(self.value))
    }

    open spec fn spec_log10(self) -> Self {
        choose|r: Self|
            r.value == self.value.spec_log10() && forall|i: int|
                0 <= i < ARGWIDTH ==> #[trigger] r.grad[i] == self.grad[i].spec_divide(F::spec_from_i32(10).spec_ln().spec_times(self.value))
    }

    open spec fn spec_cbrt(self) -> Self {
        choose|r: Self|
            r.value == self.value.spec_cbrt() && forall|i: int|
                0 <= i < ARGWIDTH ==> #[trigger] r.grad[i] == self.grad[i].spec_divide(self.value.spec_cbrt().spec_powi(2).spec_times(F::spec_from_i32(3)))
    }

    open spec fn spec_sin(self) -> Self {
        choose|r: Self|
            r.value == self.value.spec_sin() && forall|i: int|
                0 <= i < ARGWIDTH ==> #[trigger] r.grad[i] == self.grad[i].spec_times(self.value.spec_cos())
    }

    open spec fn spec_cos(self) -> Self {
        choose|r: Self|
            r.value == self.value.spec_cos() && forall|i: int|
                0 <= i < ARGWIDTH ==> #[trigger] r.grad[i] == self.grad[i].spec_times(self.value.spec_sin().spec_negate())
    }

    open spec fn spec_tan(self) -> Self {
        choose|r: Self|
            r.value == self.value.spec_tan() && forall|i: int|
                0 <= i < ARGWIDTH ==> #[trigger] r.grad[i] == self.grad[i].spec_divide(self.value.spec_cos().spec_times(self.value.spec_cos()))
    }

    open spec fn spec_asin(self) -> Self {
        choose|r: Self|
            r.value == self.value.spec_asin() && forall|i: int|
                0 <= i < ARGWIDTH ==> #[trigger] r.grad[i] == self.grad[i].spec_divide(F::spec_one().spec_minus(self.value.spec_times(self.value)).spec_sqrt())
    }

    open spec fn spec_acos(self) -> Self {
        choose|r: Self|
            r.value == self.value.spec_acos() && forall|i: int|
                0 <= i < ARGWIDTH ==> #[trigger] r.grad[i] == self.grad[i].spec_negate().spec_divide(F::spec_one().spec_minus(self.value.spec_times(self.value)).spec_sqrt())
    }

    open spec fn spec_atan(self) -> Self {
        choose|r: Self|
            r.value == self.value.spec_atan() && forall|i: int|
                0 <= i < ARGWIDTH ==> #[trigger] r.grad[i] == self.grad[i].spec_times(F::spec_one().spec_plus(self.value.spec_times(self.value)).spec_recip())
    }

    open spec fn spec_exp_m1(self) -> Self {
        choose|r: Self|
            r.value == self.value.spec_exp_m1() && forall|i: int|
                0 <= i < ARGWIDTH ==> #[trigger] r.grad[i] == self.grad[i].spec_times(self.value.spec_exp())
    }

    open spec fn spec_ln_1p(self) -> Self {
        choose|r: Self|
            r.value == self.value.spec_ln_1p() && forall|i: int|
                0 <= i < ARGWIDTH ==> #[trigger] r.grad[i] == self.grad[i].spec_divide(self.value.spec_plus(F::spec_one()))
    }

    open spec fn spec_sinh(self) -> Self {
        choose|r: Self|
            r.value == self.value.spec_sinh() && forall|i: int|
                0 <= i < ARGWIDTH ==> #[trigger] r.grad[i] == self.grad[i].spec_times(self.value.spec_cosh())
    }

    open spec fn spec_cosh(self) -> Self {
        choose|r: Self|
            r.value == self.value.spec_cosh() && forall|i: int|
                0 <= i < ARGWIDTH ==> #[trigger] r.grad[i] == self.grad[i].spec_times(self.value.spec_sinh())
    }

    open spec fn spec_tanh(self) -> Self {
        choose|r: Self|
            r.value == self.value.spec_tanh() && forall|i: int|
                0 <= i < ARGWIDTH ==> #[trigger] r.grad[i] == self.grad[i].spec_divide(self.value.spec_cosh().spec_times(self.value.spec_cosh()))
    }

    open spec fn spec_asinh(self) -> Self {
        choose|r: Self|
            r.value == self.value.spec_asinh() && forall|i: int|
                0 <= i < ARGWIDTH ==> #[trigger] r.grad[i] == self.grad[i].spec_divide(F::spec_one().spec_plus(self.value.spec_times(self.value)).spec_sqrt())
    }

    open spec fn spec_acosh(self) -> Self {
        choose|r: Self|
            r.value == self.value.spec_acosh() && forall|i: int|
                0 <= i < ARGWIDTH ==> #[trigger] r.grad[i] == self.grad[i].spec_divide(self.value.spec_times(self.value).spec_minus(F::spec_one()).spec_sqrt())
    }

    open spec fn spec_atanh(self) -> Self {
        choose|r: Self|
            r.value == self.value.spec_atanh() && forall|i: int|
                0 <= i < ARGWIDTH ==> #[trigger] r.grad[i] == self.grad[i].spec_divide(F::spec_one().spec_minus(self.value.spec_times(self.value)))
    }

    open spec fn spec_powf(self, other: Self) -> Self {
        choose|r: Self|
            r.value == self.value.spec_powf(other.value) && forall|i: int|
                0 <= i < ARGWIDTH ==> #[trigger] r.grad[i] == self.value.spec_powf(other.value.spec_minus(F::spec_one())).spec_times(other.value.spec_times(self.grad[i]).spec_plus(self.value.spec_times(other.grad[i]).spec_times(self.value.spec_ln())))
    }

    open spec fn spec_log(self, other: Self) -> Self {
        choose|r: Self|
            r.value == self.value.spec_log(other.value) && forall|i: int|
                0 <= i < ARGWIDTH ==> #[trigger] r.grad[i] == self.grad[i].spec_divide(self.value).spec_minus(other.grad[i].spec_times(self.value.spec_log(other.value)).spec_divide(other.value)).spec_divide(other.value.spec_ln())
    }

    open spec fn spec_max(self, other: Self) -> Self {
        choose|r: Self|
            r.value == if self.value.spec_equals(other.value) { self.value } else if self.value.spec_greater_than(other.value) { self.value } else { other.value } && forall|i: int|
                0 <= i < ARGWIDTH ==> #[trigger] r.grad[i] == if self.value.spec_equals(other.value) { grads::mask_pair_entry(self.grad[i], other.grad[i]) } else if self.value.spec_greater_than(other.value) { self.grad[i] } else { other.grad[i] }
    }

    open spec fn spec_min(self, other: Self) -> Self {
        choose|r: Self|
            r.value == if self.value.spec_equals(other.value) { self.value } else if self.value.spec_less_than(other.value) { self.value } else { other.value } && forall|i: int|
                0 <= i < ARGWIDTH ==> #[trigger] r.grad[i] == if self.value.spec_equals(other.value) { grads::mask_pair_entry(self.grad[i], other.grad[i]) } else if self.value.spec_less_than(other.value) { self.grad[i] } else { other.grad[i] }
    }

    open spec fn spec_abs_sub(self, other: Self) -> Self {
        choose|r: Self|
            r.value == if self.value.spec_equals(other.value) { F::spec_zero() } else if self.value.spec_less_than(other.value) { F::spec_zero() } else { self.value.spec_minus(other.value) } && forall|i: int|
                0 <= i < ARGWIDTH ==> #[trigger] r.grad[i] == if self.value.spec_equals(other.value) { grads::mask_pair_entry(self.grad[i], other.grad[i]) } else if self.value.spec_less_than(other.value) { F::spec_zero() } else { self.grad[i].spec_minus(other.grad[i]) }
    }

    open spec fn spec_hypot(self, other: Self) -> Self {
        choose|r: Self|
            r.value == self.value.spec_hypot(other.value) && forall|i: int|
                0 <= i < ARGWIDTH ==> #[trigger] r.grad[i] == self.value.spec_times(self.grad[i]).spec_plus(other.value.spec_times(other.grad[i])).spec_divide(self.value.spec_hypot(other.value))
    }

    open spec fn spec_atan2(self, other: Self) -> Self {
        choose|r: Self|
            r.value == self.value.spec_atan2(other.value) && forall|i: int|
                0 <= i < ARGWIDTH ==> #[trigger] r.grad[i] == other.value.spec_times(self.grad[i]).spec_minus(self.value.spec_times(other.grad[i])).spec_times(self.value.spec_times(self.value).spec_plus(other.value.spec_times(other.value)).spec_recip())
    }

    open spec fn spec_mul_add(self, a: Self, b: Self) -> Self {
        choose|r: Self|
            r.value == self.value.spec_mul_add(a.value, b.value) && forall|i: int|
                0 <= i < ARGWIDTH ==> #[trigger] r.grad[i] == self.value.spec_times(a.grad[i]).spec_plus(self.grad[i].spec_times(a.value)).spec_plus(b.grad[i])
    }

    open spec fn spec_powi(self, n: i32) -> Self {
        choose|r: Self|
            r.value == self.value.spec_powi(n) && forall|i: int|
                0 <= i < ARGWIDTH ==> #[trigger] r.grad[i] == self.grad[i].spec_times(F::spec_from_i32(n)).spec_times(self.value.spec_powi((n - 1) as i32))
    }

    open spec fn powi_admits(n: i32) -> bool {
        F::powi_admits(n) && (ARGWIDTH == 0 || (n > i32::MIN && F::powi_admits((n - 1) as i32)))
    }

    open spec fn spec_sin_cos(self) -> (Self, Self) {
        (
            choose|r: Self|
                r.value == self.value.spec_sin_cos().0 && forall|i: int|
                    0 <= i < ARGWIDTH ==> #[trigger] r.grad[i] == self.grad[i].spec_times(self.value.spec_sin_cos().1),
            choose|r: Self|
                r.value == self.value.spec_sin_cos().1 && forall|i: int|
                    0 <= i < ARGWIDTH ==> #[trigger] r.grad[i] == self.grad[i].spec_times(self.value.spec_sin_cos().0.spec_negate()),
        )
    }

    open spec fn spec_equals(self, other: Self) -> bool {
        self.value.spec_equals(other.value)
    }

    open spec fn spec_less_than(self, other: Self) -> bool {
        self.value.spec_less_than(other.value)
    }

    open spec fn spec_greater_than(self, other: Self) -> bool {
        self.value.spec_greater_than(other.value)
    }

    open spec fn spec_is_zero(self) -> bool {
        self.value.spec_equals(F::spec_zero())
    }

    open spec fn spec_is_nan(self) -> bool {
        self.value.spec_is_nan()
    }

    open spec fn spec_is_infinite(self) -> bool {
        self.value.spec_is_infinite()
    }

    open spec fn spec_is_finite(self) -> bool {
        self.value.spec_is_finite()
    }

    open spec fn spec_is_normal(self) -> bool {
        self.value.spec_is_normal()
    }

    open spec fn spec_is_sign_positive(self) -> bool {
        self.value.spec_is_sign_positive()
    }

    open spec fn spec_is_sign_negative(self) -> bool {
        self.value.spec_is_sign_negative()
    }

    open spec fn spec_classify(self) -> FpCategory {
        self.value.spec_classify()
    }

    open spec fn spec_integer_decode(self) -> (u64, i16, i8) {
        self.value.spec_integer_decode()
    }

    open spec fn spec_to_i64(self) -> Option<i64> {
        self.value.spec_to_i64()
    }

    open spec fn spec_to_i128(self) -> Option<i128> {
        self.value.spec_to_i128()
    }

    open spec fn spec_to_u64(self) -> Option<u64> {
        self.value.spec_to_u64()
    }

    /// Zero, with a zero gradient.
    fn zero() -> (r: Self)
        ensures
            r.value == F::spec_zero(),
            forall|i: int| 0 <= i < ARGWIDTH ==> #[trigger] r.grad[i] == F::spec_zero(),
    {
        let r = Self::from(F::zero());
        proof {
            assert(r.value == F::spec_zero() && forall|i: int|
                0 <= i < ARGWIDTH ==> #[trigger] r.grad[i] == F::spec_zero());
            Self::lemma_determined(Self::spec_zero(), r);
        }
        r
    }

    /// One, with a zero gradient.
    fn one() -> (r: Self)
        ensures
            r.value == F::spec_one(),
            forall|i: int| 0 <= i < ARGWIDTH ==> #[trigger] r.grad[i] == F::spec_zero(),
    {
        let r = Self::from(F::one());
        proof {
            assert(r.value == F::spec_one() && forall|i: int|
                0 <= i < ARGWIDTH ==> #[trigger] r.grad[i] == F::spec_zero());
            Self::lemma_determined(Self::spec_one(), r);
        }
        r
    }

    /// Not-a-number, with a zero gradient.
    fn nan() -> (r: Self)
        ensures
            r.value == F::spec_nan(),
            forall|i: int| 0 <= i < ARGWIDTH ==> #[trigger] r.grad[i] == F::spec_zero(),
    {
        let r = Self::from(F::nan());
        proof {
            assert(r.value == F::spec_nan() && forall|i: int|
                0 <= i < ARGWIDTH ==> #[trigger] r.grad[i] == F::spec_zero());
            Self::lemma_determined(Self::spec_nan(), r);
        }
        r
    }

    /// Positive infinity, with a zero gradient.
    fn infinity() -> (r: Self)
        ensures
            r.value == F::spec_infinity(),
            forall|i: int| 0 <= i < ARGWIDTH ==> #[trigger] r.grad[i] == F::spec_zero(),
    {
        let r = Self::from(F::infinity());
        proof {
            assert(r.value == F::spec_infinity() && forall|i: int|
                0 <= i < ARGWIDTH ==> #[trigger] r.grad[i] == F::spec_zero());
            Self::lemma_determined(Self::spec_infinity(), r);
        }
        r
    }

    /// Negative infinity, with a zero gradient.
    fn neg_infinity() -> (r: Self)
        ensures
            r.value == F::spec_neg_infinity(),
            forall|i: int| 0 <= i < ARGWIDTH ==> #[trigger] r.grad[i] == F::spec_zero(),
    {
        let r = Self::from(F::neg_infinity());
        proof {
            assert(r.value == F::spec_neg_infinity() && forall|i: int|
                0 <= i < ARGWIDTH ==> #[trigger] r.grad[i] == F::spec_zero());
            Self::lemma_determined(Self::spec_neg_infinity(), r);
        }
        r
    }

    /// Negative zero, with a zero gradient.
    fn neg_zero() -> (r: Self)
        ensures
            r.value == F::spec_neg_zero(),
            forall|i: int| 0 <= i < ARGWIDTH ==> #[trigger] r.grad[i] == F::spec_zero(),
    {
        let r = Self::from(F::neg_zero());
        proof {
            assert(r.value == F::spec_neg_zero() && forall|i: int|
                0 <= i < ARGWIDTH ==> #[trigger] r.grad[i] == F::spec_zero());
            Self::lemma_determined(Self::spec_neg_zero(), r);
        }
        r
    }

    /// The smallest finite value, with a zero gradient.
    fn min_value() -> (r: Self)
        ensures
            r.value == F::spec_min_value(),
            forall|i: int| 0 <= i < ARGWIDTH ==> #[trigger] r.grad[i] == F::spec_zero(),
    {
        let r = Self::from(F::min_value());
        proof {
            assert(r.value == F::spec_min_value() && forall|i: int|
                0 <= i < ARGWIDTH ==> #[trigger] r.grad[i] == F::spec_zero());
            Self::lemma_determined(Self::spec_min_value(), r);
        }
        r
    }

    /// The smallest positive normal value, with a zero gradient.
    fn min_positive_value() -> (r: Self)
        ensures
            r.value == F::spec_min_positive_value(),
            forall|i: int| 0 <= i < ARGWIDTH ==> #[trigger] r.grad[i] == F::spec_zero(),
    {
        let r = Self::from(F::min_positive_value());
        proof {
            assert(r.value == F::spec_min_positive_value() && forall|i: int|
                0 <= i < ARGWIDTH ==> #[trigger] r.grad[i] == F::spec_zero());
            Self::lemma_determined(Self::spec_min_positive_value(), r);
        }
        r
    }

    /// The largest finite value, with a zero gradient.
    fn max_value() -> (r: Self)
        ensures
            r.value == F::spec_max_value(),
            forall|i: int| 0 <= i < ARGWIDTH ==> #[trigger] r.grad[i] == F::spec_zero(),
    {
        let r = Self::from(F::max_value());
        proof {
            assert(r.value == F::spec_max_value() && forall|i: int|
                0 <= i < ARGWIDTH ==> #[trigger] r.grad[i] == F::spec_zero());
            Self::lemma_determined(Self::spec_max_value(), r);
        }
        r
    }

    /// One half, with a zero gradient.
    fn half() -> (r: Self)
        ensures
            r.value == F::spec_half(),
            forall|i: int| 0 <= i < ARGWIDTH ==> #[trigger] r.grad[i] == F::spec_zero(),
    {
        let r = Self::from(F::half());
        proof {
            assert(r.value == F::spec_half() && forall|i: int|
                0 <= i < ARGWIDTH ==> #[trigger] r.grad[i] == F::spec_zero());
            Self::lemma_determined(Self::spec_half(), r);
        }
        r
    }

    /// The integer `n`, with a zero gradient.
    fn from_i32(n: i32) -> (r: Self)
        ensures
            r.value == F::spec_from_i32(n),
            forall|i: int| 0 <= i < ARGWIDTH ==> #[trigger] r.grad[i] == F::spec_zero(),
    {
        let r = Self::from(F::from_i32(n));
        proof {
            assert(r.value == F::spec_from_i32(n) && forall|i: int|
                0 <= i < ARGWIDTH ==> #[trigger] r.grad[i] == F::spec_zero());
            Self::lemma_determined(Self::spec_from_i32(n), r);
        }
        r
    }

    /// The negation: value and gradient negated.
    fn negate(self) -> (r: Self)
        ensures
            r.value == self.value.spec_negate(),
            forall|i: int| 0 <= i < ARGWIDTH ==> #[trigger] r.grad[i] == self.grad[i].spec_negate(),
    {
        let r = GFloat { value: self.value.negate(), grad: grads::negated(self.grad) };
        proof {
            assert(r.value == self.value.spec_negate() && forall|i: int|
                0 <= i < ARGWIDTH ==> #[trigger] r.grad[i] == self.grad[i].spec_negate());
            Self::lemma_determined(self.spec_negate(), r);
        }
        r
    }

    /// The sum: values and gradients added.
    fn plus(self, other: Self) -> (r: Self)
        ensures
            r.value == self.value.spec_plus(other.value),
            forall|i: int| 0 <= i < ARGWIDTH ==> #[trigger] r.grad[i] == self.grad[i].spec_plus(other.grad[i]),
    {
        let r = GFloat { value: self.value.plus(other.value), grad: grads::sum(self.grad, other.grad) };
        proof {
            assert(r.value == self.value.spec_plus(other.value) && forall|i: int|
                0 <= i < ARGWIDTH ==> #[trigger] r.grad[i] == self.grad[i].spec_plus(other.grad[i]));
            Self::lemma_determined(self.spec_plus(other), r);
        }
        r
    }

    /// The difference: values and gradients subtracted.
    fn minus(self, other: Self) -> (r: Self)
        ensures
            r.value == self.value.spec_minus(other.value),
            forall|i: int| 0 <= i < ARGWIDTH ==> #[trigger] r.grad[i] == self.grad[i].spec_minus(other.grad[i]),
    {
        let r = GFloat { value: self.value.minus(other.value), grad: grads::difference(self.grad, other.grad) };
        proof {
            assert(r.value == self.value.spec_minus(other.value) && forall|i: int|
                0 <= i < ARGWIDTH ==> #[trigger] r.grad[i] == self.grad[i].spec_minus(other.grad[i]));
            Self::lemma_determined(self.spec_minus(other), r);
        }
        r
    }

    /// The product, with the gradient by the product rule.
    fn times(self, other: Self) -> (r: Self)
        ensures
            r.value == self.value.spec_times(other.value),
            forall|i: int| 0 <= i < ARGWIDTH ==> #[trigger] r.grad[i] == self.value.spec_times(other.grad[i]).spec_plus(self.grad[i].spec_times(other.value)),
    {
        let r = GFloat { value: self.value.times(other.value), grad: grads::product_rule(self.value, self.grad, other.value, other.grad) };
        proof {
            assert(r.value == self.value.spec_times(other.value) && forall|i: int|
                0 <= i < ARGWIDTH ==> #[trigger] r.grad[i] == self.value.spec_times(other.grad[i]).spec_plus(self.grad[i].spec_times(other.value)));
            Self::lemma_determined(self.spec_times(other), r);
        }
        r
    }

    /// The quotient, with the gradient by the quotient rule.
    fn divide(self, other: Self) -> (r: Self)
        ensures
            r.value == self.value.spec_divide(other.value),
            forall|i: int| 0 <= i < ARGWIDTH ==> #[trigger] r.grad[i] == self.grad[i].spec_times(other.value).spec_minus(other.grad[i].spec_times(self.value)).spec_divide(other.value.spec_times(other.value)),
    {
        let d = other.value.times(other.value);
        let r = GFloat { value: self.value.divide(other.value), grad: grads::quotient_rule(self.value, self.grad, other.value, other.grad, d) };
        proof {
            assert(r.value == self.value.spec_divide(other.value) && forall|i: int|
                0 <= i < ARGWIDTH ==> #[trigger] r.grad[i] == self.grad[i].spec_times(other.value).spec_minus(other.grad[i].spec_times(self.value)).spec_divide(other.value.spec_times(other.value)));
            Self::lemma_determined(self.spec_divide(other), r);
        }
        r
    }

    /// The remainder; its gradient is not-a-number where the remainder is zero
    /// and the gradient of `self` is not, and `g - h * floor(v / w)` elsewhere.
    fn modulo(self, other: Self) -> (r: Self)
        ensures
            r.value == self.value.spec_modulo(other.value),
            forall|i: int| 0 <= i < ARGWIDTH ==> #[trigger] r.grad[i] == if self.value.spec_modulo(other.value).spec_equals(F::spec_zero()) { grads::mask_entry(self.grad[i]) } else { self.grad[i].spec_minus(other.grad[i].spec_times(self.value.spec_divide(other.value).spec_floor())) },
    {
        let nv = self.value.modulo(other.value);
        let r = if nv.equals(F::zero()) {
            GFloat { value: nv, grad: grads::nan_mask(self.grad) }
        } else {
            let q = self.value.divide(other.value).floor();
            GFloat { value: nv, grad: grads::minus_scaled(self.grad, other.grad, q) }
        };
        proof {
            assert(r.value == self.value.spec_modulo(other.value) && forall|i: int|
                0 <= i < ARGWIDTH ==> #[trigger] r.grad[i] == if self.value.spec_modulo(other.value).spec_equals(F::spec_zero()) { grads::mask_entry(self.grad[i]) } else { self.grad[i].spec_minus(other.grad[i].spec_times(self.value.spec_divide(other.value).spec_floor())) });
            Self::lemma_determined(self.spec_modulo(other), r);
        }
        r
    }

    /// The value rounds down; at an integer the gradient is not-a-number where it was
    /// nonzero, elsewhere it is zero.
    fn floor(self) -> (r: Self)
        ensures
            r.value == self.value.spec_floor(),
            forall|i: int| 0 <= i < ARGWIDTH ==> #[trigger] r.grad[i] == if self.value.spec_floor().spec_equals(self.value) { grads::mask_entry(self.grad[i]) } else { F::spec_zero() },
    {
        let res = self.value.floor();
        let r = if res.equals(self.value) {
            self.nan_grad(res)
        } else {
            GFloat { value: res, grad: grads::zeros() }
        };
        proof {
            assert(r.value == self.value.spec_floor() && forall|i: int|
                0 <= i < ARGWIDTH ==> #[trigger] r.grad[i] == if self.value.spec_floor().spec_equals(self.value) { grads::mask_entry(self.grad[i]) } else { F::spec_zero() });
            Self::lemma_determined(self.spec_floor(), r);
        }
        r
    }

    /// The value rounds up; at an integer the gradient is not-a-number where it was
    /// nonzero, elsewhere it is zero.
    fn ceil(self) -> (r: Self)
        ensures
            r.value == self.value.spec_ceil(),
            forall|i: int| 0 <= i < ARGWIDTH ==> #[trigger] r.grad[i] == if self.value.spec_ceil().spec_equals(self.value) { grads::mask_entry(self.grad[i]) } else { F::spec_zero() },
    {
        let res = self.value.ceil();
        let r = if res.equals(self.value) {
            self.nan_grad(res)
        } else {
            GFloat { value: res, grad: grads::zeros() }
        };
        proof {
            assert(r.value == self.value.spec_ceil() && forall|i: int|
                0 <= i < ARGWIDTH ==> #[trigger] r.grad[i] == if self.value.spec_ceil().spec_equals(self.value) { grads::mask_entry(self.grad[i]) } else { F::spec_zero() });
            Self::lemma_determined(self.spec_ceil(), r);
        }
        r
    }

    /// The value rounds to the nearest integer; at an integer the gradient is not-a-number where it was
    /// nonzero, elsewhere it is zero.
    fn round(self) -> (r: Self)
        ensures
            r.value == self.value.spec_round(),
            forall|i: int| 0 <= i < ARGWIDTH ==> #[trigger] r.grad[i] == if self.value.spec_round().spec_equals(self.value) { grads::mask_entry(self.grad[i]) } else { F::spec_zero() },
    {
        let res = self.value.round();
        let r = if res.equals(self.value) {
            self.nan_grad(res)
        } else {
            GFloat { value: res, grad: grads::zeros() }
        };
        proof {
            assert(r.value == self.value.spec_round() && forall|i: int|
                0 <= i < ARGWIDTH ==> #[trigger] r.grad[i] == if self.value.spec_round().spec_equals(self.value) { grads::mask_entry(self.grad[i]) } else { F::spec_zero() });
            Self::lemma_determined(self.spec_round(), r);
        }
        r
    }

    /// The value drops the fractional part; at an integer the gradient is not-a-number where it was
    /// nonzero, elsewhere it is zero.
    fn trunc(self) -> (r: Self)
        ensures
            r.value == self.value.spec_trunc(),
            forall|i: int| 0 <= i < ARGWIDTH ==> #[trigger] r.grad[i] == if self.value.spec_trunc().spec_equals(self.value) { grads::mask_entry(self.grad[i]) } else { F::spec_zero() },
    {
        let res = self.value.trunc();
        let r = if res.equals(self.value) {
            self.nan_grad(res)
        } else {
            GFloat { value: res, grad: grads::zeros() }
        };
        proof {
            assert(r.value == self.value.spec_trunc() && forall|i: int|
                0 <= i < ARGWIDTH ==> #[trigger] r.grad[i] == if self.value.spec_trunc().spec_equals(self.value) { grads::mask_entry(self.grad[i]) } else { F::spec_zero() });
            Self::lemma_determined(self.spec_trunc(), r);
        }
        r
    }

    /// The fractional part; where it is zero the gradient is not-a-number where it
    /// was nonzero, elsewhere the gradient is unchanged.
    fn fract(self) -> (r: Self)
        ensures
            r.value == self.value.spec_fract(),
            forall|i: int| 0 <= i < ARGWIDTH ==> #[trigger] r.grad[i] == if self.value.spec_fract().spec_equals(F::spec_zero()) { grads::mask_entry(self.grad[i]) } else { self.grad[i] },
    {
        let res = self.value.fract();
        let r = if res.equals(F::zero()) {
            self.nan_grad(res)
        } else {
            GFloat { value: res, grad: self.grad }
        };
        proof {
            assert(r.value == self.value.spec_fract() && forall|i: int|
                0 <= i < ARGWIDTH ==> #[trigger] r.grad[i] == if self.value.spec_fract().spec_equals(F::spec_zero()) { grads::mask_entry(self.grad[i]) } else { self.grad[i] });
            Self::lemma_determined(self.spec_fract(), r);
        }
        r
    }

    /// The absolute value: negated when the sign is negative; at zero the value
    /// is zero and the gradient not-a-number where it was nonzero.
    fn abs(self) -> (r: Self)
        ensures
            r.value == if self.value.spec_is_sign_negative() { self.value.spec_negate() } else if self.value.spec_equals(F::spec_zero()) { F::spec_zero() } else { self.value },
            forall|i: int| 0 <= i < ARGWIDTH ==> #[trigger] r.grad[i] == if self.value.spec_is_sign_negative() { self.grad[i].spec_negate() } else if self.value.spec_equals(F::spec_zero()) { grads::mask_entry(self.grad[i]) } else { self.grad[i] },
    {
        let r = if self.is_sign_negative() {
            self.negate()
        } else if self.is_zero() {
            self.nan_grad(F::zero())
        } else {
            self
        };
        proof {
            assert(r.value == if self.value.spec_is_sign_negative() { self.value.spec_negate() } else if self.value.spec_equals(F::spec_zero()) { F::spec_zero() } else { self.value } && forall|i: int|
                0 <= i < ARGWIDTH ==> #[trigger] r.grad[i] == if self.value.spec_is_sign_negative() { self.grad[i].spec_negate() } else if self.value.spec_equals(F::spec_zero()) { grads::mask_entry(self.grad[i]) } else { self.grad[i] });
            Self::lemma_determined(self.spec_abs(), r);
        }
        r
    }

    /// The sign as a number with a zero gradient; at zero the value is zero and
    /// the gradient not-a-number where it was nonzero.
    fn signum(self) -> (r: Self)
        ensures
            r.value == if self.value.spec_equals(F::spec_zero()) { F::spec_zero() } else { self.value.spec_signum() },
            forall|i: int| 0 <= i < ARGWIDTH ==> #[trigger] r.grad[i] == if self.value.spec_equals(F::spec_zero()) { grads::mask_entry(self.grad[i]) } else { F::spec_zero() },
    {
        let r = if self.is_zero() {
            self.nan_grad(F::zero())
        } else {
            Self::from(self.value.signum())
        };
        proof {
            assert(r.value == if self.value.spec_equals(F::spec_zero()) { F::spec_zero() } else { self.value.spec_signum() } && forall|i: int|
                0 <= i < ARGWIDTH ==> #[trigger] r.grad[i] == if self.value.spec_equals(F::spec_zero()) { grads::mask_entry(self.grad[i]) } else { F::spec_zero() });
            Self::lemma_determined(self.spec_signum(), r);
        }
        r
    }

    /// The reciprocal; the gradient is divided by `v * v`.
    fn recip(self) -> (r: Self)
        ensures
            r.value == self.value.spec_recip(),
            forall|i: int| 0 <= i < ARGWIDTH ==> #[trigger] r.grad[i] == self.grad[i].spec_divide(self.value.spec_times(self.value)),
    {
        let d = self.value.times(self.value);
        let r = GFloat { value: self.value.recip(), grad: grads::shrink(self.grad, d) };
        proof {
            assert(r.value == self.value.spec_recip() && forall|i: int|
                0 <= i < ARGWIDTH ==> #[trigger] r.grad[i] == self.grad[i].spec_divide(self.value.spec_times(self.value)));
            Self::lemma_determined(self.spec_recip(), r);
        }
        r
    }

    /// The square root; the gradient is divided by `2 * sqrt(v)`.
    fn sqrt(self) -> (r: Self)
        ensures
            r.value == self.value.spec_sqrt(),
            forall|i: int| 0 <= i < ARGWIDTH ==> #[trigger] r.grad[i] == self.grad[i].spec_divide(F::spec_from_i32(2).spec_times(self.value.spec_sqrt())),
    {
        let s = self.value.sqrt();
        let t = F::from_i32(2).times(s);
        let r = GFloat { value: s, grad: grads::shrink(self.grad, t) };
        proof {
            assert(r.value == self.value.spec_sqrt() && forall|i: int|
                0 <= i < ARGWIDTH ==> #[trigger] r.grad[i] == self.grad[i].spec_divide(F::spec_from_i32(2).spec_times(self.value.spec_sqrt())));
            Self::lemma_determined(self.spec_sqrt(), r);
        }
        r
    }

    /// `e^v`; the gradient is multiplied by `e^v`.
    fn exp(self) -> (r: Self)
        ensures
            r.value == self.value.spec_exp(),
            forall|i: int| 0 <= i < ARGWIDTH ==> #[trigger] r.grad[i] == self.grad[i].spec_times(self.value.spec_exp()),
    {
        let e = self.value.exp();
        let r = GFloat { value: e, grad: grads::scale(self.grad, e) };
        proof {
            assert(r.value == self.value.spec_exp() && forall|i: int|
                0 <= i < ARGWIDTH ==> #[trigger] r.grad[i] == self.grad[i].spec_times(self.value.spec_exp()));
            Self::lemma_determined(self.spec_exp(), r);
        }
        r
    }

    /// `2^v`; the gradient is multiplied by `ln(2)` and by `2^v`.
    fn exp2(self) -> (r: Self)
        ensures
            r.value == self.value.spec_exp2(),
            forall|i: int| 0 <= i < ARGWIDTH ==> #[trigger] r.grad[i] == self.grad[i].spec_times(F::spec_from_i32(2).spec_ln()).spec_times(self.value.spec_exp2()),
    {
        let l = F::from_i32(2).ln();
        let e = self.value.exp2();
        let r = GFloat { value: e, grad: grads::scale_twice(self.grad, l, e) };
        proof {
            assert(r.value == self.value.spec_exp2() && forall|i: int|
                0 <= i < ARGWIDTH ==> #[trigger] r.grad[i] == self.grad[i].spec_times(F::spec_from_i32(2).spec_ln()).spec_times(self.value.spec_exp2()));
            Self::lemma_determined(self.spec_exp2(), r);
        }
        r
    }

    /// The natural logarithm; the gradient is divided by `v`.
    fn ln(self) -> (r: Self)
        ensures
            r.value == self.value.spec_ln(),
            forall|i: int| 0 <= i < ARGWIDTH ==> #[trigger] r.grad[i] == self.grad[i].spec_divide(self.value),
    {
        let r = GFloat { value: self.value.ln(), grad: grads::shrink(self.grad, self.value) };
        proof {
            assert(r.value == self.value.spec_ln() && forall|i: int|
                0 <= i < ARGWIDTH ==> #[trigger] r.grad[i] == self.grad[i].spec_divide(self.value));
            Self::lemma_determined(self.spec_ln(), r);
        }
        r
    }

    /// The base 2 logarithm; the gradient is divided by `ln(2) * v`.
    fn log2(self) -> (r: Self)
        ensures
            r.value == self.value.spec_log2(),
            forall|i: int| 0 <= i < ARGWIDTH ==> #[trigger] r.grad[i] == self.grad[i].spec_divide(F::spec_from_i32(2).spec_ln().spec_times(self.value)),
    {
        let d = F::from_i32(2).ln().times(self.value);
        let r = GFloat { value: self.value.log2(), grad: grads::shrink(self.grad, d) };
        proof {
            assert(r.value == self.value.spec_log2() && forall|i: int|
                0 <= i < ARGWIDTH ==> #[trigger] r.grad[i] == self.grad[i].spec_divide(F::spec_from_i32(2).spec_ln().spec_times(self.value)));
            Self::lemma_determined(self.spec_log2(), r);
        }
        r
    }

    /// The base 10 logarithm; the gradient is divided by `ln(10) * v`.
    fn log10(self) -> (r: Self)
        ensures
            r.value == self.value.spec_log10(),
            forall|i: int| 0 <= i < ARGWIDTH ==> #[trigger] r.grad[i] == self.grad[i].spec_divide(F::spec_from_i32(10).spec_ln().spec_times(self.value)),
    {
        let d = F::from_i32(10).ln().times(self.value);
        let r = GFloat { value: self.value.log10(), grad: grads::shrink(self.grad, d) };
        proof {
            assert(r.value == self.value.spec_log10() && forall|i: int|
                0 <= i < ARGWIDTH ==> #[trigger] r.grad[i] == self.grad[i].spec_divide(F::spec_from_i32(10).spec_ln().spec_times(self.value)));
            Self::lemma_determined(self.spec_log10(), r);
        }
        r
    }

    /// The cube root `c`; the gradient is divided by `c^2 * 3`.
    fn cbrt(self) -> (r: Self)
        ensures
            r.value == self.value.spec_cbrt(),
            forall|i: int| 0 <= i < ARGWIDTH ==> #[trigger] r.grad[i] == self.grad[i].spec_divide(self.value.spec_cbrt().spec_powi(2).spec_times(F::spec_from_i32(3))),
    {
        let c = self.value.cbrt();
        let grad = if ARGWIDTH > 0 {
            let d = c.powi(2).times(F::from_i32(3));
            grads::shrink(self.grad, d)
        } else {
            self.grad
        };
        let r = GFloat { value: c, grad };
        proof {
            assert(r.value == self.value.spec_cbrt() && forall|i: int|
                0 <= i < ARGWIDTH ==> #[trigger] r.grad[i] == self.grad[i].spec_divide(self.value.spec_cbrt().spec_powi(2).spec_times(F::spec_from_i32(3))));
            Self::lemma_determined(self.spec_cbrt(), r);
        }
        r
    }

    /// The sine; the gradient is multiplied by the cosine.
    fn sin(self) -> (r: Self)
        ensures
            r.value == self.value.spec_sin(),
            forall|i: int| 0 <= i < ARGWIDTH ==> #[trigger] r.grad[i] == self.grad[i].spec_times(self.value.spec_cos()),
    {
        let r = GFloat { value: self.value.sin(), grad: grads::scale(self.grad, self.value.cos()) };
        proof {
            assert(r.value == self.value.spec_sin() && forall|i: int|
                0 <= i < ARGWIDTH ==> #[trigger] r.grad[i] == self.grad[i].spec_times(self.value.spec_cos()));
            Self::lemma_determined(self.spec_sin(), r);
        }
        r
    }

    /// The cosine; the gradient is multiplied by minus the sine.
    fn cos(self) -> (r: Self)
        ensures
            r.value == self.value.spec_cos(),
            forall|i: int| 0 <= i < ARGWIDTH ==> #[trigger] r.grad[i] == self.grad[i].spec_times(self.value.spec_sin().spec_negate()),
    {
        let r = GFloat { value: self.value.cos(), grad: grads::scale(self.grad, self.value.sin().negate()) };
        proof {
            assert(r.value == self.value.spec_cos() && forall|i: int|
                0 <= i < ARGWIDTH ==> #[trigger] r.grad[i] == self.grad[i].spec_times(self.value.spec_sin().spec_negate()));
            Self::lemma_determined(self.spec_cos(), r);
        }
        r
    }

    /// The tangent; the gradient is divided by the square of the cosine.
    fn tan(self) -> (r: Self)
        ensures
            r.value == self.value.spec_tan(),
            forall|i: int| 0 <= i < ARGWIDTH ==> #[trigger] r.grad[i] == self.grad[i].spec_divide(self.value.spec_cos().spec_times(self.value.spec_cos())),
    {
        let c = self.value.cos();
        let r = GFloat { value: self.value.tan(), grad: grads::shrink(self.grad, c.times(c)) };
        proof {
            assert(r.value == self.value.spec_tan() && forall|i: int|
                0 <= i < ARGWIDTH ==> #[trigger] r.grad[i] == self.grad[i].spec_divide(self.value.spec_cos().spec_times(self.value.spec_cos())));
            Self::lemma_determined(self.spec_tan(), r);
        }
        r
    }

    /// The arcsine; the gradient is divided by `sqrt(1 - v * v)`.
    fn asin(self) -> (r: Self)
        ensures
            r.value == self.value.spec_asin(),
            forall|i: int| 0 <= i < ARGWIDTH ==> #[trigger] r.grad[i] == self.grad[i].spec_divide(F::spec_one().spec_minus(self.value.spec_times(self.value)).spec_sqrt()),
    {
        let s = F::one().minus(self.value.times(self.value)).sqrt();
        let r = GFloat { value: self.value.asin(), grad: grads::shrink(self.grad, s) };
        proof {
            assert(r.value == self.value.spec_asin() && forall|i: int|
                0 <= i < ARGWIDTH ==> #[trigger] r.grad[i] == self.grad[i].spec_divide(F::spec_one().spec_minus(self.value.spec_times(self.value)).spec_sqrt()));
            Self::lemma_determined(self.spec_asin(), r);
        }
        r
    }

    /// The arccosine; the negated gradient is divided by `sqrt(1 - v * v)`.
    fn acos(self) -> (r: Self)
        ensures
            r.value == self.value.spec_acos(),
            forall|i: int| 0 <= i < ARGWIDTH ==> #[trigger] r.grad[i] == self.grad[i].spec_negate().spec_divide(F::spec_one().spec_minus(self.value.spec_times(self.value)).spec_sqrt()),
    {
        let s = F::one().minus(self.value.times(self.value)).sqrt();
        let r = GFloat { value: self.value.acos(), grad: grads::negated_shrink(self.grad, s) };
        proof {
            assert(r.value == self.value.spec_acos() && forall|i: int|
                0 <= i < ARGWIDTH ==> #[trigger] r.grad[i] == self.grad[i].spec_negate().spec_divide(F::spec_one().spec_minus(self.value.spec_times(self.value)).spec_sqrt()));
            Self::lemma_determined(self.spec_acos(), r);
        }
        r
    }

    /// The arctangent; the gradient is multiplied by `1 / (1 + v * v)`.
    fn atan(self) -> (r: Self)
        ensures
            r.value == self.value.spec_atan(),
            forall|i: int| 0 <= i < ARGWIDTH ==> #[trigger] r.grad[i] == self.grad[i].spec_times(F::spec_one().spec_plus(self.value.spec_times(self.value)).spec_recip()),
    {
        let d = F::one().plus(self.value.times(self.value)).recip();
        let r = GFloat { value: self.value.atan(), grad: grads::scale(self.grad, d) };
        proof {
            assert(r.value == self.value.spec_atan() && forall|i: int|
                0 <= i < ARGWIDTH ==> #[trigger] r.grad[i] == self.grad[i].spec_times(F::spec_one().spec_plus(self.value.spec_times(self.value)).spec_recip()));
            Self::lemma_determined(self.spec_atan(), r);
        }
        r
    }

    /// `e^v - 1`; the gradient is multiplied by `e^v`.
    fn exp_m1(self) -> (r: Self)
        ensures
            r.value == self.value.spec_exp_m1(),
            forall|i: int| 0 <= i < ARGWIDTH ==> #[trigger] r.grad[i] == self.grad[i].spec_times(self.value.spec_exp()),
    {
        let r = GFloat { value: self.value.exp_m1(), grad: grads::scale(self.grad, self.value.exp()) };
        proof {
            assert(r.value == self.value.spec_exp_m1() && forall|i: int|
                0 <= i < ARGWIDTH ==> #[trigger] r.grad[i] == self.grad[i].spec_times(self.value.spec_exp()));
            Self::lemma_determined(self.spec_exp_m1(), r);
        }
        r
    }

    /// `ln(1 + v)`; the gradient is divided by `v + 1`.
    fn ln_1p(self) -> (r: Self)
        ensures
            r.value == self.value.spec_ln_1p(),
            forall|i: int| 0 <= i < ARGWIDTH ==> #[trigger] r.grad[i] == self.grad[i].spec_divide(self.value.spec_plus(F::spec_one())),
    {
        let r = GFloat { value: self.value.ln_1p(), grad: grads::shrink(self.grad, self.value.plus(F::one())) };
        proof {
            assert(r.value == self.value.spec_ln_1p() && forall|i: int|
                0 <= i < ARGWIDTH ==> #[trigger] r.grad[i] == self.grad[i].spec_divide(self.value.spec_plus(F::spec_one())));
            Self::lemma_determined(self.spec_ln_1p(), r);
        }
        r
    }

    /// The hyperbolic sine; the gradient is multiplied by the hyperbolic cosine.
    fn sinh(self) -> (r: Self)
        ensures
            r.value == self.value.spec_sinh(),
            forall|i: int| 0 <= i < ARGWIDTH ==> #[trigger] r.grad[i] == self.grad[i].spec_times(self.value.spec_cosh()),
    {
        let r = GFloat { value: self.value.sinh(), grad: grads::scale(self.grad, self.value.cosh()) };
        proof {
            assert(r.value == self.value.spec_sinh() && forall|i: int|
                0 <= i < ARGWIDTH ==> #[trigger] r.grad[i] == self.grad[i].spec_times(self.value.spec_cosh()));
            Self::lemma_determined(self.spec_sinh(), r);
        }
        r
    }

    /// The hyperbolic cosine; the gradient is multiplied by the hyperbolic sine.
    fn cosh(self) -> (r: Self)
        ensures
            r.value == self.value.spec_cosh(),
            forall|i: int| 0 <= i < ARGWIDTH ==> #[trigger] r.grad[i] == self.grad[i].spec_times(self.value.spec_sinh()),
    {
        let r = GFloat { value: self.value.cosh(), grad: grads::scale(self.grad, self.value.sinh()) };
        proof {
            assert(r.value == self.value.spec_cosh() && forall|i: int|
                0 <= i < ARGWIDTH ==> #[trigger] r.grad[i] == self.grad[i].spec_times(self.value.spec_sinh()));
            Self::lemma_determined(self.spec_cosh(), r);
        }
        r
    }

    /// The hyperbolic tangent; the gradient is divided by the square of the
    /// hyperbolic cosine.
    fn tanh(self) -> (r: Self)
        ensures
            r.value == self.value.spec_tanh(),
            forall|i: int| 0 <= i < ARGWIDTH ==> #[trigger] r.grad[i] == self.grad[i].spec_divide(self.value.spec_cosh().spec_times(self.value.spec_cosh())),
    {
        let c = self.value.cosh();
        let r = GFloat { value: self.value.tanh(), grad: grads::shrink(self.grad, c.times(c)) };
        proof {
            assert(r.value == self.value.spec_tanh() && forall|i: int|
                0 <= i < ARGWIDTH ==> #[trigger] r.grad[i] == self.grad[i].spec_divide(self.value.spec_cosh().spec_times(self.value.spec_cosh())));
            Self::lemma_determined(self.spec_tanh(), r);
        }
        r
    }

    /// The inverse hyperbolic sine; the gradient is divided by `sqrt(1 + v * v)`.
    fn asinh(self) -> (r: Self)
        ensures
            r.value == self.value.spec_asinh(),
            forall|i: int| 0 <= i < ARGWIDTH ==> #[trigger] r.grad[i] == self.grad[i].spec_divide(F::spec_one().spec_plus(self.value.spec_times(self.value)).spec_sqrt()),
    {
        let s = F::one().plus(self.value.times(self.value)).sqrt();
        let r = GFloat { value: self.value.asinh(), grad: grads::shrink(self.grad, s) };
        proof {
            assert(r.value == self.value.spec_asinh() && forall|i: int|
                0 <= i < ARGWIDTH ==> #[trigger] r.grad[i] == self.grad[i].spec_divide(F::spec_one().spec_plus(self.value.spec_times(self.value)).spec_sqrt()));
            Self::lemma_determined(self.spec_asinh(), r);
        }
        r
    }

    /// The inverse hyperbolic cosine; the gradient is divided by `sqrt(v * v - 1)`.
    fn acosh(self) -> (r: Self)
        ensures
            r.value == self.value.spec_acosh(),
            forall|i: int| 0 <= i < ARGWIDTH ==> #[trigger] r.grad[i] == self.grad[i].spec_divide(self.value.spec_times(self.value).spec_minus(F::spec_one()).spec_sqrt()),
    {
        let s = self.value.times(self.value).minus(F::one()).sqrt();
        let r = GFloat { value: self.value.acosh(), grad: grads::shrink(self.grad, s) };
        proof {
            assert(r.value == self.value.spec_acosh() && forall|i: int|
                0 <= i < ARGWIDTH ==> #[trigger] r.grad[i] == self.grad[i].spec_divide(self.value.spec_times(self.value).spec_minus(F::spec_one()).spec_sqrt()));
            Self::lemma_determined(self.spec_acosh(), r);
        }
        r
    }

    /// The inverse hyperbolic tangent; the gradient is divided by `1 - v * v`.
    fn atanh(self) -> (r: Self)
        ensures
            r.value == self.value.spec_atanh(),
            forall|i: int| 0 <= i < ARGWIDTH ==> #[trigger] r.grad[i] == self.grad[i].spec_divide(F::spec_one().spec_minus(self.value.spec_times(self.value))),
    {
        let d = F::one().minus(self.value.times(self.value));
        let r = GFloat { value: self.value.atanh(), grad: grads::shrink(self.grad, d) };
        proof {
            assert(r.value == self.value.spec_atanh() && forall|i: int|
                0 <= i < ARGWIDTH ==> #[trigger] r.grad[i] == self.grad[i].spec_divide(F::spec_one().spec_minus(self.value.spec_times(self.value))));
            Self::lemma_determined(self.spec_atanh(), r);
        }
        r
    }

    /// `v^w`; the gradient is `v^(w - 1) * (w * g + v * h * ln(v))`.
    fn powf(self, other: Self) -> (r: Self)
        ensures
            r.value == self.value.spec_powf(other.value),
            forall|i: int| 0 <= i < ARGWIDTH ==> #[trigger] r.grad[i] == self.value.spec_powf(other.value.spec_minus(F::spec_one())).spec_times(other.value.spec_times(self.grad[i]).spec_plus(self.value.spec_times(other.grad[i]).spec_times(self.value.spec_ln()))),
    {
        let p = self.value.powf(other.value.minus(F::one()));
        let l = self.value.ln();
        let r = GFloat { value: self.value.powf(other.value), grad: grads::powf_rule(self.value, self.grad, other.value, other.grad, p, l) };
        proof {
            assert(r.value == self.value.spec_powf(other.value) && forall|i: int|
                0 <= i < ARGWIDTH ==> #[trigger] r.grad[i] == self.value.spec_powf(other.value.spec_minus(F::spec_one())).spec_times(other.value.spec_times(self.grad[i]).spec_plus(self.value.spec_times(other.grad[i]).spec_times(self.value.spec_ln()))));
            Self::lemma_determined(self.spec_powf(other), r);
        }
        r
    }

    /// The logarithm `q` of `v` in base `w`; the gradient is
    /// `(g / v - (h * q) / w) / ln(w)`.
    fn log(self, other: Self) -> (r: Self)
        ensures
            r.value == self.value.spec_log(other.value),
            forall|i: int| 0 <= i < ARGWIDTH ==> #[trigger] r.grad[i] == self.grad[i].spec_divide(self.value).spec_minus(other.grad[i].spec_times(self.value.spec_log(other.value)).spec_divide(other.value)).spec_divide(other.value.spec_ln()),
    {
        let q = self.value.log(other.value);
        let l = other.value.ln();
        let r = GFloat { value: q, grad: grads::log_rule(self.value, self.grad, other.value, other.grad, q, l) };
        proof {
            assert(r.value == self.value.spec_log(other.value) && forall|i: int|
                0 <= i < ARGWIDTH ==> #[trigger] r.grad[i] == self.grad[i].spec_divide(self.value).spec_minus(other.grad[i].spec_times(self.value.spec_log(other.value)).spec_divide(other.value)).spec_divide(other.value.spec_ln()));
            Self::lemma_determined(self.spec_log(other), r);
        }
        r
    }

    /// The larger of the two, with its gradient; where the values are equal the
    /// gradient is not-a-number wherever either gradient is nonzero.
    fn max(self, other: Self) -> (r: Self)
        ensures
            r.value == if self.value.spec_equals(other.value) { self.value } else if self.value.spec_greater_than(other.value) { self.value } else { other.value },
            forall|i: int| 0 <= i < ARGWIDTH ==> #[trigger] r.grad[i] == if self.value.spec_equals(other.value) { grads::mask_pair_entry(self.grad[i], other.grad[i]) } else if self.value.spec_greater_than(other.value) { self.grad[i] } else { other.grad[i] },
    {
        let r = if self.value.equals(other.value) {
            GFloat { value: self.value, grad: grads::nan_mask_pair(self.grad, other.grad) }
        } else if self.value.greater_than(other.value) {
            GFloat { value: self.value, grad: self.grad }
        } else {
            GFloat { value: other.value, grad: other.grad }
        };
        proof {
            assert(r.value == if self.value.spec_equals(other.value) { self.value } else if self.value.spec_greater_than(other.value) { self.value } else { other.value } && forall|i: int|
                0 <= i < ARGWIDTH ==> #[trigger] r.grad[i] == if self.value.spec_equals(other.value) { grads::mask_pair_entry(self.grad[i], other.grad[i]) } else if self.value.spec_greater_than(other.value) { self.grad[i] } else { other.grad[i] });
            Self::lemma_determined(self.spec_max(other), r);
        }
        r
    }

    /// The smaller of the two, with its gradient; where the values are equal the
    /// gradient is not-a-number wherever either gradient is nonzero.
    fn min(self, other: Self) -> (r: Self)
        ensures
            r.value == if self.value.spec_equals(other.value) { self.value } else if self.value.spec_less_than(other.value) { self.value } else { other.value },
            forall|i: int| 0 <= i < ARGWIDTH ==> #[trigger] r.grad[i] == if self.value.spec_equals(other.value) { grads::mask_pair_entry(self.grad[i], other.grad[i]) } else if self.value.spec_less_than(other.value) { self.grad[i] } else { other.grad[i] },
    {
        let r = if self.value.equals(other.value) {
            GFloat { value: self.value, grad: grads::nan_mask_pair(self.grad, other.grad) }
        } else if self.value.less_than(other.value) {
            GFloat { value: self.value, grad: self.grad }
        } else {
            GFloat { value: other.value, grad: other.grad }
        };
        proof {
            assert(r.value == if self.value.spec_equals(other.value) { self.value } else if self.value.spec_less_than(other.value) { self.value } else { other.value } && forall|i: int|
                0 <= i < ARGWIDTH ==> #[trigger] r.grad[i] == if self.value.spec_equals(other.value) { grads::mask_pair_entry(self.grad[i], other.grad[i]) } else if self.value.spec_less_than(other.value) { self.grad[i] } else { other.grad[i] });
            Self::lemma_determined(self.spec_min(other), r);
        }
        r
    }

    /// The positive difference: zero with a zero gradient when `v < w`, the
    /// difference otherwise; where the values are equal it is zero with a gradient
    /// that is not-a-number wherever either gradient is nonzero.
    fn abs_sub(self, other: Self) -> (r: Self)
        ensures
            r.value == if self.value.spec_equals(other.value) { F::spec_zero() } else if self.value.spec_less_than(other.value) { F::spec_zero() } else { self.value.spec_minus(other.value) },
            forall|i: int| 0 <= i < ARGWIDTH ==> #[trigger] r.grad[i] == if self.value.spec_equals(other.value) { grads::mask_pair_entry(self.grad[i], other.grad[i]) } else if self.value.spec_less_than(other.value) { F::spec_zero() } else { self.grad[i].spec_minus(other.grad[i]) },
    {
        let r = if self.value.equals(other.value) {
            GFloat { value: F::zero(), grad: grads::nan_mask_pair(self.grad, other.grad) }
        } else if self.value.less_than(other.value) {
            GFloat { value: F::zero(), grad: grads::zeros() }
        } else {
            self.minus(other)
        };
        proof {
            assert(r.value == if self.value.spec_equals(other.value) { F::spec_zero() } else if self.value.spec_less_than(other.value) { F::spec_zero() } else { self.value.spec_minus(other.value) } && forall|i: int|
                0 <= i < ARGWIDTH ==> #[trigger] r.grad[i] == if self.value.spec_equals(other.value) { grads::mask_pair_entry(self.grad[i], other.grad[i]) } else if self.value.spec_less_than(other.value) { F::spec_zero() } else { self.grad[i].spec_minus(other.grad[i]) });
            Self::lemma_determined(self.spec_abs_sub(other), r);
        }
        r
    }

    /// The hypotenuse `k = hypot(v, w)`; the gradient is `(v * g + w * h) / k`.
    fn hypot(self, other: Self) -> (r: Self)
        ensures
            r.value == self.value.spec_hypot(other.value),
            forall|i: int| 0 <= i < ARGWIDTH ==> #[trigger] r.grad[i] == self.value.spec_times(self.grad[i]).spec_plus(other.value.spec_times(other.grad[i])).spec_divide(self.value.spec_hypot(other.value)),
    {
        let k = self.value.hypot(other.value);
        let r = GFloat { value: k, grad: grads::hypot_rule(self.value, self.grad, other.value, other.grad, k) };
        proof {
            assert(r.value == self.value.spec_hypot(other.value) && forall|i: int|
                0 <= i < ARGWIDTH ==> #[trigger] r.grad[i] == self.value.spec_times(self.grad[i]).spec_plus(other.value.spec_times(other.grad[i])).spec_divide(self.value.spec_hypot(other.value)));
            Self::lemma_determined(self.spec_hypot(other), r);
        }
        r
    }

    /// The four quadrant arctangent; with `d = 1 / (v * v + w * w)` the gradient
    /// is `(w * g - v * h) * d`.
    fn atan2(self, other: Self) -> (r: Self)
        ensures
            r.value == self.value.spec_atan2(other.value),
            forall|i: int| 0 <= i < ARGWIDTH ==> #[trigger] r.grad[i] == other.value.spec_times(self.grad[i]).spec_minus(self.value.spec_times(other.grad[i])).spec_times(self.value.spec_times(self.value).spec_plus(other.value.spec_times(other.value)).spec_recip()),
    {
        let d = self.value.times(self.value).plus(other.value.times(other.value)).recip();
        let r = GFloat { value: self.value.atan2(other.value), grad: grads::atan2_rule(self.value, self.grad, other.value, other.grad, d) };
        proof {
            assert(r.value == self.value.spec_atan2(other.value) && forall|i: int|
                0 <= i < ARGWIDTH ==> #[trigger] r.grad[i] == other.value.spec_times(self.grad[i]).spec_minus(self.value.spec_times(other.grad[i])).spec_times(self.value.spec_times(self.value).spec_plus(other.value.spec_times(other.value)).spec_recip()));
            Self::lemma_determined(self.spec_atan2(other), r);
        }
        r
    }

    /// `v * a + b`; the gradient is `v * a' + g * a + b'`.
    fn mul_add(self, a: Self, b: Self) -> (r: Self)
        ensures
            r.value == self.value.spec_mul_add(a.value, b.value),
            forall|i: int| 0 <= i < ARGWIDTH ==> #[trigger] r.grad[i] == self.value.spec_times(a.grad[i]).spec_plus(self.grad[i].spec_times(a.value)).spec_plus(b.grad[i]),
    {
        let r = GFloat { value: self.value.mul_add(a.value, b.value), grad: grads::sum(grads::product_rule(self.value, self.grad, a.value, a.grad), b.grad) };
        proof {
            assert(r.value == self.value.spec_mul_add(a.value, b.value) && forall|i: int|
                0 <= i < ARGWIDTH ==> #[trigger] r.grad[i] == self.value.spec_times(a.grad[i]).spec_plus(self.grad[i].spec_times(a.value)).spec_plus(b.grad[i]));
            Self::lemma_determined(self.spec_mul_add(a, b), r);
        }
        r
    }

    /// `v^n`; the gradient is multiplied by `n` and by `v^(n - 1)`.
    fn powi(self, n: i32) -> (r: Self)
        ensures
            r.value == self.value.spec_powi(n),
            forall|i: int| 0 <= i < ARGWIDTH ==> #[trigger] r.grad[i] == self.grad[i].spec_times(F::spec_from_i32(n)).spec_times(self.value.spec_powi((n - 1) as i32)),
    {
        let grad = if ARGWIDTH > 0 {
            let p = self.value.powi(n - 1);
            grads::scale_twice(self.grad, F::from_i32(n), p)
        } else {
            self.grad
        };
        let r = GFloat { value: self.value.powi(n), grad };
        proof {
            assert(r.value == self.value.spec_powi(n) && forall|i: int|
                0 <= i < ARGWIDTH ==> #[trigger] r.grad[i] == self.grad[i].spec_times(F::spec_from_i32(n)).spec_times(self.value.spec_powi((n - 1) as i32)));
            Self::lemma_determined(self.spec_powi(n), r);
        }
        r
    }

    /// The sine `s` and the cosine `c` of the value from one evaluation, with the
    /// gradients `g * c` and `g * (-s)`, as `sin` and `cos` give them.
    fn sin_cos(self) -> (r: (Self, Self))
        ensures
            r.0.value == self.value.spec_sin_cos().0,
            r.1.value == self.value.spec_sin_cos().1,
            forall|i: int| 0 <= i < ARGWIDTH ==> #[trigger] r.0.grad[i] == self.grad[i].spec_times(self.value.spec_sin_cos().1),
            forall|i: int| 0 <= i < ARGWIDTH ==> #[trigger] r.1.grad[i] == self.grad[i].spec_times(self.value.spec_sin_cos().0.spec_negate()),
    {
        let (s, c) = self.value.sin_cos();
        let r = (GFloat { value: s, grad: grads::scale(self.grad, c) }, GFloat { value: c, grad: grads::scale(self.grad, s.negate()) });
        proof {
            let sc = self.spec_sin_cos();
            assert(r.0.value == self.value.spec_sin_cos().0 && forall|i: int|
                0 <= i < ARGWIDTH ==> #[trigger] r.0.grad[i] == self.grad[i].spec_times(self.value.spec_sin_cos().1));
            assert(r.1.value == self.value.spec_sin_cos().1 && forall|i: int|
                0 <= i < ARGWIDTH ==> #[trigger] r.1.grad[i] == self.grad[i].spec_times(self.value.spec_sin_cos().0.spec_negate()));
            Self::lemma_determined(sc.0, r.0);
            Self::lemma_determined(sc.1, r.1);
        }
        r
    }

    /// Whether the values compare equal; gradients are not compared.
    fn equals(self, other: Self) -> (r: bool)
        ensures
            r == self.value.spec_equals(other.value),
    {
        self.value.equals(other.value)
    }

    /// Whether the value is less than the other value.
    fn less_than(self, other: Self) -> (r: bool)
        ensures
            r == self.value.spec_less_than(other.value),
    {
        self.value.less_than(other.value)
    }

    /// Whether the value is greater than the other value.
    fn greater_than(self, other: Self) -> (r: bool)
        ensures
            r == self.value.spec_greater_than(other.value),
    {
        self.value.greater_than(other.value)
    }

    /// Whether the value equals zero.
    fn is_zero(self) -> (r: bool)
        ensures
            r == self.value.spec_equals(F::spec_zero()),
    {
        self.value.equals(F::zero())
    }

    /// Whether the value is not-a-number.
    fn is_nan(self) -> (r: bool)
        ensures
            r == self.value.spec_is_nan(),
    {
        self.value.is_nan()
    }

    /// Whether the value is infinite.
    fn is_infinite(self) -> (r: bool)
        ensures
            r == self.value.spec_is_infinite(),
    {
        self.value.is_infinite()
    }

    /// Whether the value is finite.
    fn is_finite(self) -> (r: bool)
        ensures
            r == self.value.spec_is_finite(),
    {
        self.value.is_finite()
    }

    /// Whether the value is normal.
    fn is_normal(self) -> (r: bool)
        ensures
            r == self.value.spec_is_normal(),
    {
        self.value.is_normal()
    }

    /// Whether the value is of positive sign.
    fn is_sign_positive(self) -> (r: bool)
        ensures
            r == self.value.spec_is_sign_positive(),
    {
        self.value.is_sign_positive()
    }

    /// Whether the value is of negative sign.
    fn is_sign_negative(self) -> (r: bool)
        ensures
            r == self.value.spec_is_sign_negative(),
    {
        self.value.is_sign_negative()
    }

    /// The category of the value.
    fn classify(self) -> (r: FpCategory)
        ensures
            r == self.value.spec_classify(),
    {
        self.value.classify()
    }

    /// The mantissa, exponent and sign of the value.
    fn integer_decode(self) -> (r: (u64, i16, i8))
        ensures
            r == self.value.spec_integer_decode(),
    {
        self.value.integer_decode()
    }

    /// The value as an `i64`, where it is representable.
    fn to_i64(self) -> (r: Option<i64>)
        ensures
            r == self.value.spec_to_i64(),
    {
        self.value.to_i64()
    }

    /// The value as an `i128`, where it is representable.
    fn to_i128(self) -> (r: Option<i128>)
        ensures
            r == self.value.spec_to_i128(),
    {
        self.value.to_i128()
    }

    /// The value as a `u64`, where it is representable.
    fn to_u64(self) -> (r: Option<u64>)
        ensures
            r == self.value.spec_to_u64(),
    {
        self.value.to_u64()
    }
}

/// A plain number embeds as a constant, and mixes with dual numbers in
/// arithmetic as a constant does.
impl<F: Scalar, const ARGWIDTH: usize> WrappedFloat<F> for GFloat<F, ARGWIDTH> {
    open spec fn spec_get(value: F) -> Self {
        choose|r: Self|
            r.value == value && forall|i: int|
                0 <= i < ARGWIDTH ==> #[trigger] r.grad[i] == F::spec_zero()
    }

    open spec fn spec_plus_scalar(self, rhs: F) -> Self {
        choose|r: Self|
            r.value == self.value.spec_plus(rhs) && forall|i: int|
                0 <= i < ARGWIDTH ==> #[trigger] r.grad[i] == self.grad[i]
    }

    open spec fn spec_minus_scalar(self, rhs: F) -> Self {
        choose|r: Self|
            r.value == self.value.spec_minus(rhs) && forall|i: int|
                0 <= i < ARGWIDTH ==> #[trigger] r.grad[i] == self.grad[i]
    }

    open spec fn spec_times_scalar(self, rhs: F) -> Self {
        choose|r: Self|
            r.value == self.value.spec_times(rhs) && forall|i: int|
                0 <= i < ARGWIDTH ==> #[trigger] r.grad[i] == self.grad[i].spec_times(rhs)
    }

    open spec fn spec_divide_scalar(self, rhs: F) -> Self {
        choose|r: Self|
            r.value == self.value.spec_divide(rhs) && forall|i: int|
                0 <= i < ARGWIDTH ==> #[trigger] r.grad[i] == self.grad[i].spec_divide(rhs)
    }

    /// `value` with a zero gradient.
    fn get(value: F) -> (r: Self)
        ensures
            r.value == value,
            forall|i: int| 0 <= i < ARGWIDTH ==> #[trigger] r.grad[i] == F::spec_zero(),
    {
        let r = GFloat { value, grad: grads::zeros() };
        proof {
            assert(r.value == value && forall|i: int|
                0 <= i < ARGWIDTH ==> #[trigger] r.grad[i] == F::spec_zero());
            Self::lemma_determined(Self::spec_get(value), r);
        }
        r
    }

    /// `self + rhs`: the value shifted, the gradient unchanged.
    fn plus_scalar(self, rhs: F) -> (r: Self)
        ensures
            r.value == self.value.spec_plus(rhs),
            forall|i: int| 0 <= i < ARGWIDTH ==> #[trigger] r.grad[i] == self.grad[i],
    {
        let r = GFloat { value: self.value.plus(rhs), grad: self.grad };
        proof {
            assert(r.value == self.value.spec_plus(rhs) && forall|i: int|
                0 <= i < ARGWIDTH ==> #[trigger] r.grad[i] == self.grad[i]);
            Self::lemma_determined(self.spec_plus_scalar(rhs), r);
        }
        r
    }

    /// `self - rhs`: the value shifted, the gradient unchanged.
    fn minus_scalar(self, rhs: F) -> (r: Self)
        ensures
            r.value == self.value.spec_minus(rhs),
            forall|i: int| 0 <= i < ARGWIDTH ==> #[trigger] r.grad[i] == self.grad[i],
    {
        let r = GFloat { value: self.value.minus(rhs), grad: self.grad };
        proof {
            assert(r.value == self.value.spec_minus(rhs) && forall|i: int|
                0 <= i < ARGWIDTH ==> #[trigger] r.grad[i] == self.grad[i]);
            Self::lemma_determined(self.spec_minus_scalar(rhs), r);
        }
        r
    }

    /// `self * rhs`: value and gradient multiplied by `rhs`.
    fn times_scalar(self, rhs: F) -> (r: Self)
        ensures
            r.value == self.value.spec_times(rhs),
            forall|i: int| 0 <= i < ARGWIDTH ==> #[trigger] r.grad[i] == self.grad[i].spec_times(rhs),
    {
        let r = GFloat { value: self.value.times(rhs), grad: grads::scale(self.grad, rhs) };
        proof {
            assert(r.value == self.value.spec_times(rhs) && forall|i: int|
                0 <= i < ARGWIDTH ==> #[trigger] r.grad[i] == self.grad[i].spec_times(rhs));
            Self::lemma_determined(self.spec_times_scalar(rhs), r);
        }
        r
    }

    /// `self / rhs`: value and gradient divided by `rhs`.
    fn divide_scalar(self, rhs: F) -> (r: Self)
        ensures
            r.value == self.value.spec_divide(rhs),
            forall|i: int| 0 <= i < ARGWIDTH ==> #[trigger] r.grad[i] == self.grad[i].spec_divide(rhs),
    {
        let r = GFloat { value: self.value.divide(rhs), grad: grads::shrink(self.grad, rhs) };
        proof {
            assert(r.value == self.value.spec_divide(rhs) && forall|i: int|
                0 <= i < ARGWIDTH ==> #[trigger] r.grad[i] == self.grad[i].spec_divide(rhs));
            Self::lemma_determined(self.spec_divide_scalar(rhs), r);
        }
        r
    }
}

impl<F: Scalar, const ARGWIDTH: usize> core::ops::Add<Self> for GFloat<F, ARGWIDTH> {
    type Output = Self;

    /// The sum: values and gradients added.
    fn add(self, rhs: Self) -> (r: Self)
        ensures
            r == self.spec_plus(rhs),
            r.value == self.value.spec_plus(rhs.value),
            forall|i: int| 0 <= i < ARGWIDTH ==> #[trigger] r.grad[i] == self.grad[i].spec_plus(rhs.grad[i]),
    {
        self.plus(rhs)
    }
}

impl<F: Scalar, const ARGWIDTH: usize> vstd::std_specs::ops::AddSpecImpl<Self> for GFloat<F, ARGWIDTH> {
    open spec fn obeys_add_spec() -> bool {
        true
    }

    open spec fn add_req(self, rhs: Self) -> bool {
        true
    }

    open spec fn add_spec(self, rhs: Self) -> Self {
        self.spec_plus(rhs)
    }
}

impl<F: Scalar, const ARGWIDTH: usize> core::ops::Sub<Self> for GFloat<F, ARGWIDTH> {
    type Output = Self;

    /// The difference: values and gradients subtracted.
    fn sub(self, rhs: Self) -> (r: Self)
        ensures
            r == self.spec_minus(rhs),
            r.value == self.value.spec_minus(rhs.value),
            forall|i: int| 0 <= i < ARGWIDTH ==> #[trigger] r.grad[i] == self.grad[i].spec_minus(rhs.grad[i]),
    {
        self.minus(rhs)
    }
}

impl<F: Scalar, const ARGWIDTH: usize> vstd::std_specs::ops::SubSpecImpl<Self> for GFloat<F, ARGWIDTH> {
    open spec fn obeys_sub_spec() -> bool {
        true
    }

    open spec fn sub_req(self, rhs: Self) -> bool {
        true
    }

    open spec fn sub_spec(self, rhs: Self) -> Self {
        self.spec_minus(rhs)
    }
}

impl<F: Scalar, const ARGWIDTH: usize> core::ops::Mul<Self> for GFloat<F, ARGWIDTH> {
    type Output = Self;

    /// The product, with the gradient by the product rule.
    fn mul(self, rhs: Self) -> (r: Self)
        ensures
            r == self.spec_times(rhs),
            r.value == self.value.spec_times(rhs.value),
            forall|i: int| 0 <= i < ARGWIDTH ==> #[trigger] r.grad[i] == self.value.spec_times(rhs.grad[i]).spec_plus(self.grad[i].spec_times(rhs.value)),
    {
        self.times(rhs)
    }
}

impl<F: Scalar, const ARGWIDTH: usize> vstd::std_specs::ops::MulSpecImpl<Self> for GFloat<F, ARGWIDTH> {
    open spec fn obeys_mul_spec() -> bool {
        true
    }

    open spec fn mul_req(self, rhs: Self) -> bool {
        true
    }

    open spec fn mul_spec(self, rhs: Self) -> Self {
        self.spec_times(rhs)
    }
}

impl<F: Scalar, const ARGWIDTH: usize> core::ops::Div<Self> for GFloat<F, ARGWIDTH> {
    type Output = Self;

    /// The quotient, with the gradient by the quotient rule.
    fn div(self, rhs: Self) -> (r: Self)
        ensures
            r == self.spec_divide(rhs),
            r.value == self.value.spec_divide(rhs.value),
            forall|i: int| 0 <= i < ARGWIDTH ==> #[trigger] r.grad[i] == self.grad[i].spec_times(rhs.value).spec_minus(rhs.grad[i].spec_times(self.value)).spec_divide(rhs.value.spec_times(rhs.value)),
    {
        self.divide(rhs)
    }
}

impl<F: Scalar, const ARGWIDTH: usize> vstd::std_specs::ops::DivSpecImpl<Self> for GFloat<F, ARGWIDTH> {
    open spec fn obeys_div_spec() -> bool {
        true
    }

    open spec fn div_req(self, rhs: Self) -> bool {
        true
    }

    open spec fn div_spec(self, rhs: Self) -> Self {
        self.spec_divide(rhs)
    }
}

impl<F: Scalar, const ARGWIDTH: usize> core::ops::Rem<Self> for GFloat<F, ARGWIDTH> {
    type Output = Self;

    /// The remainder; its gradient is not-a-number where the remainder is zero
    /// and the gradient of `self` is not, and `g - h * floor(v / w)` elsewhere.
    fn rem(self, rhs: Self) -> (r: Self)
        ensures
            r == self.spec_modulo(rhs),
            r.value == self.value.spec_modulo(rhs.value),
            forall|i: int| 0 <= i < ARGWIDTH ==> #[trigger] r.grad[i] == if self.value.spec_modulo(rhs.value).spec_equals(F::spec_zero()) { grads::mask_entry(self.grad[i]) } else { self.grad[i].spec_minus(rhs.grad[i].spec_times(self.value.spec_divide(rhs.value).spec_floor())) },
    {
        self.modulo(rhs)
    }
}

impl<F: Scalar, const ARGWIDTH: usize> vstd::std_specs::ops::RemSpecImpl<Self> for GFloat<F, ARGWIDTH> {
    open spec fn obeys_rem_spec() -> bool {
        true
    }

    open spec fn rem_req(self, rhs: Self) -> bool {
        true
    }

    open spec fn rem_spec(self, rhs: Self) -> Self {
        self.spec_modulo(rhs)
    }
}

impl<F: Scalar, const ARGWIDTH: usize> core::ops::Neg for GFloat<F, ARGWIDTH> {
    type Output = Self;

    /// The negation: value and gradient negated.
    fn neg(self) -> (r: Self)
        ensures
            r == self.spec_negate(),
            r.value == self.value.spec_negate(),
            forall|i: int| 0 <= i < ARGWIDTH ==> #[trigger] r.grad[i] == self.grad[i].spec_negate(),
    {
        self.negate()
    }
}

impl<F: Scalar, const ARGWIDTH: usize> vstd::std_specs::ops::NegSpecImpl for GFloat<F, ARGWIDTH> {
    open spec fn obeys_neg_spec() -> bool {
        true
    }

    open spec fn neg_req(self) -> bool {
        true
    }

    open spec fn neg_spec(self) -> Self {
        self.spec_negate()
    }
}

impl<F: Scalar, const ARGWIDTH: usize> core::ops::Add<F> for GFloat<F, ARGWIDTH> {
    type Output = Self;

    /// `self + rhs`: the value shifted, the gradient unchanged.
    fn add(self, rhs: F) -> (r: Self)
        ensures
            r == self.spec_plus_scalar(rhs),
            r.value == self.value.spec_plus(rhs),
            forall|i: int| 0 <= i < ARGWIDTH ==> #[trigger] r.grad[i] == self.grad[i],
    {
        self.plus_scalar(rhs)
    }
}

impl<F: Scalar, const ARGWIDTH: usize> vstd::std_specs::ops::AddSpecImpl<F> for GFloat<F, ARGWIDTH> {
    open spec fn obeys_add_spec() -> bool {
        true
    }

    open spec fn add_req(self, rhs: F) -> bool {
        true
    }

    open spec fn add_spec(self, rhs: F) -> Self {
        self.spec_plus_scalar(rhs)
    }
}

impl<F: Scalar, const ARGWIDTH: usize> core::ops::Sub<F> for GFloat<F, ARGWIDTH> {
    type Output = Self;

    /// `self - rhs`: the value shifted, the gradient unchanged.
    fn sub(self, rhs: F) -> (r: Self)
        ensures
            r == self.spec_minus_scalar(rhs),
            r.value == self.value.spec_minus(rhs),
            forall|i: int| 0 <= i < ARGWIDTH ==> #[trigger] r.grad[i] == self.grad[i],
    {
        self.minus_scalar(rhs)
    }
}

impl<F: Scalar, const ARGWIDTH: usize> vstd::std_specs::ops::SubSpecImpl<F> for GFloat<F, ARGWIDTH> {
    open spec fn obeys_sub_spec() -> bool {
        true
    }

    open spec fn sub_req(self, rhs: F) -> bool {
        true
    }

    open spec fn sub_spec(self, rhs: F) -> Self {
        self.spec_minus_scalar(rhs)
    }
}

impl<F: Scalar, const ARGWIDTH: usize> core::ops::Mul<F> for GFloat<F, ARGWIDTH> {
    type Output = Self;

    /// `self * rhs`: value and gradient multiplied by `rhs`.
    fn mul(self, rhs: F) -> (r: Self)
        ensures
            r == self.spec_times_scalar(rhs),
            r.value == self.value.spec_times(rhs),
            forall|i: int| 0 <= i < ARGWIDTH ==> #[trigger] r.grad[i] == self.grad[i].spec_times(rhs),
    {
        self.times_scalar(rhs)
    }
}

impl<F: Scalar, const ARGWIDTH: usize> vstd::std_specs::ops::MulSpecImpl<F> for GFloat<F, ARGWIDTH> {
    open spec fn obeys_mul_spec() -> bool {
        true
    }

    open spec fn mul_req(self, rhs: F) -> bool {
        true
    }

    open spec fn mul_spec(self, rhs: F) -> Self {
        self.spec_times_scalar(rhs)
    }
}

impl<F: Scalar, const ARGWIDTH: usize> core::ops::Div<F> for GFloat<F, ARGWIDTH> {
    type Output = Self;

    /// `self / rhs`: value and gradient divided by `rhs`.
    fn div(self, rhs: F) -> (r: Self)
        ensures
            r == self.spec_divide_scalar(rhs),
            r.value == self.value.spec_divide(rhs),
            forall|i: int| 0 <= i < ARGWIDTH ==> #[trigger] r.grad[i] == self.grad[i].spec_divide(rhs),
    {
        self.divide_scalar(rhs)
    }
}

impl<F: Scalar, const ARGWIDTH: usize> vstd::std_specs::ops::DivSpecImpl<F> for GFloat<F, ARGWIDTH> {
    open spec fn obeys_div_spec() -> bool {
        true
    }

    open spec fn div_req(self, rhs: F) -> bool {
        true
    }

    open spec fn div_spec(self, rhs: F) -> Self {
        self.spec_divide_scalar(rhs)
    }
}

/// Dual numbers compare by their values alone.
impl<F: Scalar, const ARGWIDTH: usize> PartialEq for GFloat<F, ARGWIDTH> {
    fn eq(&self, other: &Self) -> (r: bool) {
        self.value.equals(other.value)
    }
}

impl<F: Scalar, const ARGWIDTH: usize> vstd::std_specs::cmp::PartialEqSpecImpl for GFloat<F, ARGWIDTH> {
    open spec fn obeys_eq_spec() -> bool {
        true
    }

    open spec fn eq_spec(&self, other: &Self) -> bool {
        self.value.spec_equals(other.value)
    }
}

} // verus!
