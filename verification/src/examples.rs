//! Small functions written against `WrappedFloat`, which differentiate when
//! called on dual numbers.
use crate::scalar::Scalar;
use crate::WrappedFloat;
use vstd::prelude::*;

verus! {

/// The paraboloid `x * x + y * y`.
pub fn paraboloid<F: Scalar, W: WrappedFloat<F>>(x: W, y: W) -> (r: W)
    ensures
        r == x.spec_times(x).spec_plus(y.spec_times(y)),
{
    x.times(x).plus(y.times(y))
}

/// The two roots of `a * x^2 + b * x + c` by the quadratic formula:
/// `(-b + sqrt(b * b - a * c * 4)) / (a * 2)` and
/// `(-b - sqrt(b * b - a * c * 4)) / (a * 2)`.
pub fn quadratic_formula<F: Scalar, W: WrappedFloat<F>>(a: W, b: W, c: W) -> (r: (W, W))
    ensures
        r.0 == b.spec_negate().spec_plus(
            b.spec_times(b).spec_minus(a.spec_times(c).spec_times_scalar(F::spec_from_i32(4))).spec_sqrt(),
        ).spec_divide(a.spec_times_scalar(F::spec_from_i32(2))),
        r.1 == b.spec_negate().spec_minus(
            b.spec_times(b).spec_minus(a.spec_times(c).spec_times_scalar(F::spec_from_i32(4))).spec_sqrt(),
        ).spec_divide(a.spec_times_scalar(F::spec_from_i32(2))),
{
    (
        b.negate().plus(b.times(b).minus(a.times(c).times_scalar(F::from_i32(4))).sqrt()).divide(
            a.times_scalar(F::from_i32(2)),
        ),
        b.negate().minus(b.times(b).minus(a.times(c).times_scalar(F::from_i32(4))).sqrt()).divide(
            a.times_scalar(F::from_i32(2)),
        ),
    )
}

} // verus!
