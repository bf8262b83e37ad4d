use std::num::FpCategory;
use vstd::prelude::*;

verus! {

/// The category of a floating-point value, from std.
#[verifier::external_type_specification]
#[verifier::external_body]
pub struct ExFpCategory(FpCategory);

/// The number type over which values and gradients are computed: the
/// operations of a floating-point type.
///
/// Each operation is taken to be deterministic: its result is the matching
/// `spec_*` function of its arguments.  (For floating-point types this holds
/// up to the payload bits of a not-a-number result, which IEEE 754 leaves
/// open.)  `powi_admits` says for which exponents `powi` is defined.
/// `GFloat` and `FwdGFloat` implement this trait too, so dual numbers nest.
pub trait Scalar: Copy + Sized {
    spec fn spec_zero() -> Self;

    spec fn spec_one() -> Self;

    spec fn spec_nan() -> Self;

    spec fn spec_infinity() -> Self;

    spec fn spec_neg_infinity() -> Self;

    spec fn spec_neg_zero() -> Self;

    spec fn spec_min_value() -> Self;

    spec fn spec_min_positive_value() -> Self;

    spec fn spec_max_value() -> Self;

    spec fn spec_half() -> Self;

    spec fn spec_from_i32(n: i32) -> Self;

    spec fn spec_negate(self) -> Self;

    spec fn spec_plus(self, other: Self) -> Self;

    spec fn spec_minus(self, other: Self) -> Self;

    spec fn spec_times(self, other: Self) -> Self;

    spec fn spec_divide(self, other: Self) -> Self;

    spec fn spec_modulo(self, other: Self) -> Self;

    spec fn spec_powf(self, other: Self) -> Self;

    spec fn spec_log(self, other: Self) -> Self;

    spec fn spec_max(self, other: Self) -> Self;

    spec fn spec_min(self, other: Self) -> Self;

    spec fn spec_abs_sub(self, other: Self) -> Self;

    spec fn spec_hypot(self, other: Self) -> Self;

    spec fn spec_atan2(self, other: Self) -> Self;

    spec fn spec_floor(self) -> Self;

    spec fn spec_ceil(self) -> Self;

    spec fn spec_round(self) -> Self;

    spec fn spec_trunc(self) -> Self;

    spec fn spec_fract(self) -> Self;

    spec fn spec_abs(self) -> Self;

    spec fn spec_signum(self) -> Self;

    spec fn spec_recip(self) -> Self;

    spec fn spec_sqrt(self) -> Self;

    spec fn spec_exp(self) -> Self;

    spec fn spec_exp2(self) -> Self;

    spec fn spec_ln(self) -> Self;

    spec fn spec_log2(self) -> Self;

    spec fn spec_log10(self) -> Self;

    spec fn spec_cbrt(self) -> Self;

    spec fn spec_sin(self) -> Self;

    spec fn spec_cos(self) -> Self;

    spec fn spec_tan(self) -> Self;

    spec fn spec_asin(self) -> Self;

    spec fn spec_acos(self) -> Self;

    spec fn spec_atan(self) -> Self;

    spec fn spec_exp_m1(self) -> Self;

    spec fn spec_ln_1p(self) -> Self;

    spec fn spec_sinh(self) -> Self;

    spec fn spec_cosh(self) -> Self;

    spec fn spec_tanh(self) -> Self;

    spec fn spec_asinh(self) -> Self;

    spec fn spec_acosh(self) -> Self;

    spec fn spec_atanh(self) -> Self;

    spec fn spec_equals(self, other: Self) -> bool;

    spec fn spec_less_than(self, other: Self) -> bool;

    spec fn spec_greater_than(self, other: Self) -> bool;

    spec fn spec_is_zero(self) -> bool;

    spec fn spec_is_nan(self) -> bool;

    spec fn spec_is_infinite(self) -> bool;

    spec fn spec_is_finite(self) -> bool;

    spec fn spec_is_normal(self) -> bool;

    spec fn spec_is_sign_positive(self) -> bool;

    spec fn spec_is_sign_negative(self) -> bool;

    spec fn spec_powi(self, n: i32) -> Self;

    /// The exponents for which `powi` is defined on this type.
    spec fn powi_admits(n: i32) -> bool;

    spec fn spec_mul_add(self, a: Self, b: Self) -> Self;

    spec fn spec_sin_cos(self) -> (Self, Self);

    spec fn spec_classify(self) -> FpCategory;

    spec fn spec_integer_decode(self) -> (u64, i16, i8);

    spec fn spec_to_i64(self) -> Option<i64>;

    spec fn spec_to_i128(self) -> Option<i128>;

    spec fn spec_to_u64(self) -> Option<u64>;

    /// The additive identity.
    fn zero() -> (r: Self)
        ensures
            r == Self::spec_zero(),
    ;

    /// The multiplicative identity.
    fn one() -> (r: Self)
        ensures
            r == Self::spec_one(),
    ;

    /// A not-a-number value.
    fn nan() -> (r: Self)
        ensures
            r == Self::spec_nan(),
    ;

    /// Positive infinity.
    fn infinity() -> (r: Self)
        ensures
            r == Self::spec_infinity(),
    ;

    /// Negative infinity.
    fn neg_infinity() -> (r: Self)
        ensures
            r == Self::spec_neg_infinity(),
    ;

    /// Negative zero.
    fn neg_zero() -> (r: Self)
        ensures
            r == Self::spec_neg_zero(),
    ;

    /// The smallest finite value.
    fn min_value() -> (r: Self)
        ensures
            r == Self::spec_min_value(),
    ;

    /// The smallest positive normal value.
    fn min_positive_value() -> (r: Self)
        ensures
            r == Self::spec_min_positive_value(),
    ;

    /// The largest finite value.
    fn max_value() -> (r: Self)
        ensures
            r == Self::spec_max_value(),
    ;

    /// The value one half.
    fn half() -> (r: Self)
        ensures
            r == Self::spec_half(),
    ;

    /// The number nearest to the integer `n`.
    fn from_i32(n: i32) -> (r: Self)
        ensures
            r == Self::spec_from_i32(n),
    ;

    /// The negation `-self`.
    fn negate(self) -> (r: Self)
        ensures
            r == self.spec_negate(),
    ;

    /// The sum `self + other`.
    fn plus(self, other: Self) -> (r: Self)
        ensures
            r == self.spec_plus(other),
    ;

    /// The difference `self - other`.
    fn minus(self, other: Self) -> (r: Self)
        ensures
            r == self.spec_minus(other),
    ;

    /// The product `self * other`.
    fn times(self, other: Self) -> (r: Self)
        ensures
            r == self.spec_times(other),
    ;

    /// The quotient `self / other`.
    fn divide(self, other: Self) -> (r: Self)
        ensures
            r == self.spec_divide(other),
    ;

    /// The remainder `self % other`.
    fn modulo(self, other: Self) -> (r: Self)
        ensures
            r == self.spec_modulo(other),
    ;

    /// `self` raised to the power `other`.
    fn powf(self, other: Self) -> (r: Self)
        ensures
            r == self.spec_powf(other),
    ;

    /// The logarithm of `self` in base `other`.
    fn log(self, other: Self) -> (r: Self)
        ensures
            r == self.spec_log(other),
    ;

    /// The larger of the two numbers.
    fn max(self, other: Self) -> (r: Self)
        ensures
            r == self.spec_max(other),
    ;

    /// The smaller of the two numbers.
    fn min(self, other: Self) -> (r: Self)
        ensures
            r == self.spec_min(other),
    ;

    /// The positive difference of the two numbers.
    fn abs_sub(self, other: Self) -> (r: Self)
        ensures
            r == self.spec_abs_sub(other),
    ;

    /// The length of the hypotenuse `sqrt(self^2 + other^2)`.
    fn hypot(self, other: Self) -> (r: Self)
        ensures
            r == self.spec_hypot(other),
    ;

    /// The four quadrant arctangent of `self` (y) and `other` (x).
    fn atan2(self, other: Self) -> (r: Self)
        ensures
            r == self.spec_atan2(other),
    ;

    /// The largest integer not greater than the number.
    fn floor(self) -> (r: Self)
        ensures
            r == self.spec_floor(),
    ;

    /// The smallest integer not less than the number.
    fn ceil(self) -> (r: Self)
        ensures
            r == self.spec_ceil(),
    ;

    /// The nearest integer, half-way cases away from zero.
    fn round(self) -> (r: Self)
        ensures
            r == self.spec_round(),
    ;

    /// The integer part of the number.
    fn trunc(self) -> (r: Self)
        ensures
            r == self.spec_trunc(),
    ;

    /// The fractional part of the number.
    fn fract(self) -> (r: Self)
        ensures
            r == self.spec_fract(),
    ;

    /// The absolute value.
    fn abs(self) -> (r: Self)
        ensures
            r == self.spec_abs(),
    ;

    /// The sign of the number as a scalar.
    fn signum(self) -> (r: Self)
        ensures
            r == self.spec_signum(),
    ;

    /// The reciprocal `1 / x`.
    fn recip(self) -> (r: Self)
        ensures
            r == self.spec_recip(),
    ;

    /// The square root.
    fn sqrt(self) -> (r: Self)
        ensures
            r == self.spec_sqrt(),
    ;

    /// `e^x`.
    fn exp(self) -> (r: Self)
        ensures
            r == self.spec_exp(),
    ;

    /// `2^x`.
    fn exp2(self) -> (r: Self)
        ensures
            r == self.spec_exp2(),
    ;

    /// The natural logarithm.
    fn ln(self) -> (r: Self)
        ensures
            r == self.spec_ln(),
    ;

    /// The base 2 logarithm.
    fn log2(self) -> (r: Self)
        ensures
            r == self.spec_log2(),
    ;

    /// The base 10 logarithm.
    fn log10(self) -> (r: Self)
        ensures
            r == self.spec_log10(),
    ;

    /// The cube root.
    fn cbrt(self) -> (r: Self)
        requires
            Self::powi_admits(2),
        ensures
            r == self.spec_cbrt(),
    ;

    /// The sine.
    fn sin(self) -> (r: Self)
        ensures
            r == self.spec_sin(),
    ;

    /// The cosine.
    fn cos(self) -> (r: Self)
        ensures
            r == self.spec_cos(),
    ;

    /// The tangent.
    fn tan(self) -> (r: Self)
        ensures
            r == self.spec_tan(),
    ;

    /// The arcsine.
    fn asin(self) -> (r: Self)
        ensures
            r == self.spec_asin(),
    ;

    /// The arccosine.
    fn acos(self) -> (r: Self)
        ensures
            r == self.spec_acos(),
    ;

    /// The arctangent.
    fn atan(self) -> (r: Self)
        ensures
            r == self.spec_atan(),
    ;

    /// `e^x - 1`.
    fn exp_m1(self) -> (r: Self)
        ensures
            r == self.spec_exp_m1(),
    ;

    /// `ln(1 + x)`.
    fn ln_1p(self) -> (r: Self)
        ensures
            r == self.spec_ln_1p(),
    ;

    /// The hyperbolic sine.
    fn sinh(self) -> (r: Self)
        ensures
            r == self.spec_sinh(),
    ;

    /// The hyperbolic cosine.
    fn cosh(self) -> (r: Self)
        ensures
            r == self.spec_cosh(),
    ;

    /// The hyperbolic tangent.
    fn tanh(self) -> (r: Self)
        ensures
            r == self.spec_tanh(),
    ;

    /// The inverse hyperbolic sine.
    fn asinh(self) -> (r: Self)
        ensures
            r == self.spec_asinh(),
    ;

    /// The inverse hyperbolic cosine.
    fn acosh(self) -> (r: Self)
        ensures
            r == self.spec_acosh(),
    ;

    /// The inverse hyperbolic tangent.
    fn atanh(self) -> (r: Self)
        ensures
            r == self.spec_atanh(),
    ;

    /// Whether the two numbers compare equal (`==`).
    fn equals(self, other: Self) -> (r: bool)
        ensures
            r == self.spec_equals(other),
    ;

    /// Whether `self < other`.
    fn less_than(self, other: Self) -> (r: bool)
        ensures
            r == self.spec_less_than(other),
    ;

    /// Whether `self > other`.
    fn greater_than(self, other: Self) -> (r: bool)
        ensures
            r == self.spec_greater_than(other),
    ;

    /// Whether the number equals zero.
    fn is_zero(self) -> (r: bool)
        ensures
            r == self.spec_is_zero(),
    ;

    /// Whether the number is not-a-number.
    fn is_nan(self) -> (r: bool)
        ensures
            r == self.spec_is_nan(),
    ;

    /// Whether the number is infinite.
    fn is_infinite(self) -> (r: bool)
        ensures
            r == self.spec_is_infinite(),
    ;

    /// Whether the number is neither infinite nor not-a-number.
    fn is_finite(self) -> (r: bool)
        ensures
            r == self.spec_is_finite(),
    ;

    /// Whether the number is normal.
    fn is_normal(self) -> (r: bool)
        ensures
            r == self.spec_is_normal(),
    ;

    /// Whether the sign bit is clear.
    fn is_sign_positive(self) -> (r: bool)
        ensures
            r == self.spec_is_sign_positive(),
    ;

    /// Whether the sign bit is set.
    fn is_sign_negative(self) -> (r: bool)
        ensures
            r == self.spec_is_sign_negative(),
    ;

    /// `self` raised to the integer power `n`.
    fn powi(self, n: i32) -> (r: Self)
        requires
            Self::powi_admits(n),
        ensures
            r == self.spec_powi(n),
    ;

    /// The fused multiply-add `self * a + b`.
    fn mul_add(self, a: Self, b: Self) -> (r: Self)
        ensures
            r == self.spec_mul_add(a, b),
    ;

    /// The sine and the cosine together.
    fn sin_cos(self) -> (r: (Self, Self))
        ensures
            r == self.spec_sin_cos(),
    ;

    /// The floating-point category of the number.
    fn classify(self) -> (r: FpCategory)
        ensures
            r == self.spec_classify(),
    ;

    /// The mantissa, exponent and sign of the number.
    fn integer_decode(self) -> (r: (u64, i16, i8))
        ensures
            r == self.spec_integer_decode(),
    ;

    /// The number as an `i64`, where it is representable.
    fn to_i64(self) -> (r: Option<i64>)
        ensures
            r == self.spec_to_i64(),
    ;

    /// The number as an `i128`, where it is representable.
    fn to_i128(self) -> (r: Option<i128>)
        ensures
            r == self.spec_to_i128(),
    ;

    /// The number as a `u64`, where it is representable.
    fn to_u64(self) -> (r: Option<u64>)
        ensures
            r == self.spec_to_u64(),
    ;
}

} // verus!
