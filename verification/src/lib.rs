//! Forward-mode automatic differentiation.
//!
//! A dual number carries a value together with its gradient with respect to
//! a fixed number of input variables; every operation on dual numbers
//! computes the value of the operation and, by the rules of
//! differentiation, its gradient.
pub mod fwdgfloat;
pub mod gfloat;
pub mod examples;
pub mod grads;
pub mod laws;
pub mod scalar;

pub use fwdgfloat::FwdGFloat;
pub use gfloat::GFloat;
pub use scalar::Scalar;

use vstd::prelude::*;

verus! {

/// An operation of one argument together with its derivative.
pub trait UnaryDOp<F: Scalar> {
    spec fn spec_op(a: F) -> F;

    spec fn spec_grad(a: DFloat<F>) -> F;

    /// The operation itself.
    fn op(a: F) -> (r: F)
        ensures
            r == Self::spec_op(a),
    ;

    /// The derivative of the operation.
    fn grad(a: DFloat<F>) -> (r: F)
        ensures
            r == Self::spec_grad(a),
    ;
}

/// An operation of two arguments together with its gradient.
pub trait BinaryDOp<F: Scalar> {
    spec fn spec_op(a: F, b: F) -> F;

    spec fn spec_grad(a: DFloat<F>, b: DFloat<F>) -> (F, F);

    /// The operation itself.
    fn op(a: F, b: F) -> (r: F)
        ensures
            r == Self::spec_op(a, b),
    ;

    /// The partial derivatives of the operation along `a` and along `b`.
    fn grad(a: DFloat<F>, b: DFloat<F>) -> (r: (F, F))
        ensures
            r == Self::spec_grad(a, b),
    ;
}

/// An operation of `WIDTH` arguments together with its gradient.
pub trait NaryDOp<F: Scalar, const WIDTH: usize> {
    spec fn spec_op(args: [F; WIDTH]) -> F;

    spec fn spec_grad(args: [DFloat<F>; WIDTH]) -> [F; WIDTH];

    /// The operation itself.
    fn op(args: [F; WIDTH]) -> (r: F)
        ensures
            r == Self::spec_op(args),
    ;

    /// The partial derivatives of the operation along each argument.
    fn grad(args: [DFloat<F>; WIDTH]) -> (r: [F; WIDTH])
        ensures
            r == Self::spec_grad(args),
    ;
}

/// A value together with its partial derivative along one variable.
pub struct DFloat<F: Scalar> {
    pub value: F,
    pub derivative: F,
}

impl<F: Scalar> Clone for DFloat<F> {
    fn clone(&self) -> (r: Self)
        ensures
            r == *self,
    {
        DFloat { value: self.value, derivative: self.derivative }
    }
}

impl<F: Scalar> Copy for DFloat<F> {

}

/// A number type that embeds the plain numbers `F` and mixes with them in
/// arithmetic.
pub trait WrappedFloat<F: Scalar>: Scalar {
    spec fn spec_get(value: F) -> Self;

    spec fn spec_plus_scalar(self, rhs: F) -> Self;

    spec fn spec_minus_scalar(self, rhs: F) -> Self;

    spec fn spec_times_scalar(self, rhs: F) -> Self;

    spec fn spec_divide_scalar(self, rhs: F) -> Self;

    /// The plain number `value` as a number of this type.
    fn get(value: F) -> (r: Self)
        ensures
            r == Self::spec_get(value),
    ;

    /// `self + rhs` for a plain number `rhs`.
    fn plus_scalar(self, rhs: F) -> (r: Self)
        ensures
            r == self.spec_plus_scalar(rhs),
    ;

    /// `self - rhs` for a plain number `rhs`.
    fn minus_scalar(self, rhs: F) -> (r: Self)
        ensures
            r == self.spec_minus_scalar(rhs),
    ;

    /// `self * rhs` for a plain number `rhs`.
    fn times_scalar(self, rhs: F) -> (r: Self)
        ensures
            r == self.spec_times_scalar(rhs),
    ;

    /// `self / rhs` for a plain number `rhs`.
    fn divide_scalar(self, rhs: F) -> (r: Self)
        ensures
            r == self.spec_divide_scalar(rhs),
    ;
}

/// The arguments of a function as its variables: argument `k` becomes the
/// variable number `k` of `N`, ready for the function to be evaluated on
/// them with its gradient.
pub fn grad<F: Scalar, const N: usize>(args: [F; N]) -> (r: [FwdGFloat<F, N>; N])
    ensures
        forall|k: int| 0 <= k < N ==> (#[trigger] r[k]).value == args[k],
        forall|k: int, j: int|
            0 <= k < N && 0 <= j < N ==> #[trigger] r[k].grad[j] == if j == k {
                F::spec_one()
            } else {
                F::spec_zero()
            },
{
    let blank: FwdGFloat<F, N> = FwdGFloat { value: F::zero(), grad: grads::zeros() };
    let mut r: [FwdGFloat<F, N>; N] = [blank; N];
    let mut k: usize = 0;
    while k < N
        invariant
            k <= N,
            forall|m: int| 0 <= m < k ==> (#[trigger] r[m]).value == args[m],
            forall|m: int, j: int|
                0 <= m < k && 0 <= j < N ==> #[trigger] r[m].grad[j] == if j == m {
                    F::spec_one()
                } else {
                    F::spec_zero()
                },
        decreases N - k,
    {
        r[k] = FwdGFloat::new_var(args[k], k);
        k = k + 1;
    }
    r
}

/// An array of length `N` whose first `n` entries are `f(0)`, ..., `f(n - 1)`.
proof fn lemma_array_prefix<T, const N: usize>(f: spec_fn(int) -> T, n: int) -> (r: [T; N])
    requires
        0 <= n <= N,
    ensures
        forall|k: int| 0 <= k < n ==> #[trigger] r[k] == f(k),
    decreases n,
{
    if n <= 0 {
        vstd::pervasive::arbitrary()
    } else {
        let a = lemma_array_prefix::<T, N>(f, n - 1);
        let r = vstd::array::spec_array_update(a, n - 1, f(n - 1));
        assert(r@ == a@.update(n - 1, f(n - 1)));
        assert forall|k: int| 0 <= k < n implies #[trigger] r[k] == f(k) by {
            if k < n - 1 {
                assert(r@[k] == a@[k]);
            }
        }
        r
    }
}

/// For every `f`, there is an array of length `N` whose entry `k` is `f(k)`.
pub proof fn lemma_array_of<T, const N: usize>(f: spec_fn(int) -> T) -> (r: [T; N])
    ensures
        forall|k: int| 0 <= k < N ==> #[trigger] r[k] == f(k),
{
    lemma_array_prefix::<T, N>(f, N as int)
}

/// A plain number wraps itself.
impl<F: Scalar> WrappedFloat<F> for F {
    open spec fn spec_get(value: F) -> F {
        value
    }

    open spec fn spec_plus_scalar(self, rhs: F) -> F {
        self.spec_plus(rhs)
    }

    open spec fn spec_minus_scalar(self, rhs: F) -> F {
        self.spec_minus(rhs)
    }

    open spec fn spec_times_scalar(self, rhs: F) -> F {
        self.spec_times(rhs)
    }

    open spec fn spec_divide_scalar(self, rhs: F) -> F {
        self.spec_divide(rhs)
    }

    fn get(value: F) -> (r: F)
        ensures
            r == value,
    {
        value
    }

    fn plus_scalar(self, rhs: F) -> (r: F)
        ensures
            r == self.spec_plus(rhs),
    {
        self.plus(rhs)
    }

    fn minus_scalar(self, rhs: F) -> (r: F)
        ensures
            r == self.spec_minus(rhs),
    {
        self.minus(rhs)
    }

    fn times_scalar(self, rhs: F) -> (r: F)
        ensures
            r == self.spec_times(rhs),
    {
        self.times(rhs)
    }

    fn divide_scalar(self, rhs: F) -> (r: F)
        ensures
            r == self.spec_divide(rhs),
    {
        self.divide(rhs)
    }
}

} // verus!
