use autodiff::{grad, FwdGFloat, Scalar};
use num::traits::Inv;
use num::{Float, ToPrimitive, Zero};
use std::num::FpCategory;

/// `f64` as a scalar.
#[derive(Clone, Copy, Debug, PartialEq)]
struct R(f64);

impl Scalar for R {
    fn zero() -> Self { R(0.0) }
    fn one() -> Self { R(1.0) }
    fn nan() -> Self { R(f64::NAN) }
    fn infinity() -> Self { R(f64::INFINITY) }
    fn neg_infinity() -> Self { R(f64::NEG_INFINITY) }
    fn neg_zero() -> Self { R(-0.0) }
    fn min_value() -> Self { R(f64::MIN) }
    fn min_positive_value() -> Self { R(f64::MIN_POSITIVE) }
    fn max_value() -> Self { R(f64::MAX) }
    fn half() -> Self { R(0.5) }
    fn from_i32(n: i32) -> Self { R(n as f64) }
    fn negate(self) -> Self { R(-self.0) }
    fn plus(self, other: Self) -> Self { R(self.0 + other.0) }
    fn minus(self, other: Self) -> Self { R(self.0 - other.0) }
    fn times(self, other: Self) -> Self { R(self.0 * other.0) }
    fn divide(self, other: Self) -> Self { R(self.0 / other.0) }
    fn modulo(self, other: Self) -> Self { R(self.0 % other.0) }
    fn powf(self, other: Self) -> Self { R(self.0.powf(other.0)) }
    fn log(self, other: Self) -> Self { R(self.0.log(other.0)) }
    fn max(self, other: Self) -> Self { R(self.0.max(other.0)) }
    fn min(self, other: Self) -> Self { R(self.0.min(other.0)) }
    #[allow(deprecated)]
    fn abs_sub(self, other: Self) -> Self { R(Float::abs_sub(self.0, other.0)) }
    fn hypot(self, other: Self) -> Self { R(self.0.hypot(other.0)) }
    fn atan2(self, other: Self) -> Self { R(self.0.atan2(other.0)) }
    fn floor(self) -> Self { R(self.0.floor()) }
    fn ceil(self) -> Self { R(self.0.ceil()) }
    fn round(self) -> Self { R(self.0.round()) }
    fn trunc(self) -> Self { R(self.0.trunc()) }
    fn fract(self) -> Self { R(self.0.fract()) }
    fn abs(self) -> Self { R(self.0.abs()) }
    fn signum(self) -> Self { R(self.0.signum()) }
    fn recip(self) -> Self { R(self.0.recip()) }
    fn sqrt(self) -> Self { R(self.0.sqrt()) }
    fn exp(self) -> Self { R(self.0.exp()) }
    fn exp2(self) -> Self { R(self.0.exp2()) }
    fn ln(self) -> Self { R(self.0.ln()) }
    fn log2(self) -> Self { R(self.0.log2()) }
    fn log10(self) -> Self { R(self.0.log10()) }
    fn cbrt(self) -> Self { R(self.0.cbrt()) }
    fn sin(self) -> Self { R(self.0.sin()) }
    fn cos(self) -> Self { R(self.0.cos()) }
    fn tan(self) -> Self { R(self.0.tan()) }
    fn asin(self) -> Self { R(self.0.asin()) }
    fn acos(self) -> Self { R(self.0.acos()) }
    fn atan(self) -> Self { R(self.0.atan()) }
    fn exp_m1(self) -> Self { R(self.0.exp_m1()) }
    fn ln_1p(self) -> Self { R(self.0.ln_1p()) }
    fn sinh(self) -> Self { R(self.0.sinh()) }
    fn cosh(self) -> Self { R(self.0.cosh()) }
    fn tanh(self) -> Self { R(self.0.tanh()) }
    fn asinh(self) -> Self { R(self.0.asinh()) }
    fn acosh(self) -> Self { R(self.0.acosh()) }
    fn atanh(self) -> Self { R(self.0.atanh()) }
    fn equals(self, other: Self) -> bool { self.0 == other.0 }
    fn less_than(self, other: Self) -> bool { self.0 < other.0 }
    fn greater_than(self, other: Self) -> bool { self.0 > other.0 }
    fn is_zero(self) -> bool { self.0 == 0.0 }
    fn is_nan(self) -> bool { self.0.is_nan() }
    fn is_infinite(self) -> bool { self.0.is_infinite() }
    fn is_finite(self) -> bool { self.0.is_finite() }
    fn is_normal(self) -> bool { self.0.is_normal() }
    fn is_sign_positive(self) -> bool { self.0.is_sign_positive() }
    fn is_sign_negative(self) -> bool { self.0.is_sign_negative() }
    fn powi(self, n: i32) -> Self { R(self.0.powi(n)) }
    fn mul_add(self, a: Self, b: Self) -> Self { R(self.0.mul_add(a.0, b.0)) }
    fn sin_cos(self) -> (Self, Self) {
        let (s, c) = self.0.sin_cos();
        (R(s), R(c))
    }
    fn classify(self) -> FpCategory { self.0.classify() }
    fn integer_decode(self) -> (u64, i16, i8) { Float::integer_decode(self.0) }
    fn to_i64(self) -> Option<i64> { ToPrimitive::to_i64(&self.0) }
    fn to_i128(self) -> Option<i128> { ToPrimitive::to_i128(&self.0) }
    fn to_u64(self) -> Option<u64> { ToPrimitive::to_u64(&self.0) }

    fn powi_admits(_n: i32) -> bool { true }

    fn spec_zero() -> Self { R(0.0) }
    fn spec_one() -> Self { R(1.0) }
    fn spec_nan() -> Self { R(f64::NAN) }
    fn spec_infinity() -> Self { R(f64::INFINITY) }
    fn spec_neg_infinity() -> Self { R(f64::NEG_INFINITY) }
    fn spec_neg_zero() -> Self { R(-0.0) }
    fn spec_min_value() -> Self { R(f64::MIN) }
    fn spec_min_positive_value() -> Self { R(f64::MIN_POSITIVE) }
    fn spec_max_value() -> Self { R(f64::MAX) }
    fn spec_half() -> Self { R(0.5) }
    fn spec_from_i32(n: i32) -> Self { R(n as f64) }
    fn spec_negate(self) -> Self { R(-self.0) }
    fn spec_plus(self, other: Self) -> Self { R(self.0 + other.0) }
    fn spec_minus(self, other: Self) -> Self { R(self.0 - other.0) }
    fn spec_times(self, other: Self) -> Self { R(self.0 * other.0) }
    fn spec_divide(self, other: Self) -> Self { R(self.0 / other.0) }
    fn spec_modulo(self, other: Self) -> Self { R(self.0 % other.0) }
    fn spec_powf(self, other: Self) -> Self { R(self.0.powf(other.0)) }
    fn spec_log(self, other: Self) -> Self { R(self.0.log(other.0)) }
    fn spec_max(self, other: Self) -> Self { R(self.0.max(other.0)) }
    fn spec_min(self, other: Self) -> Self { R(self.0.min(other.0)) }
    #[allow(deprecated)]
    fn spec_abs_sub(self, other: Self) -> Self { R(Float::abs_sub(self.0, other.0)) }
    fn spec_hypot(self, other: Self) -> Self { R(self.0.hypot(other.0)) }
    fn spec_atan2(self, other: Self) -> Self { R(self.0.atan2(other.0)) }
    fn spec_floor(self) -> Self { R(self.0.floor()) }
    fn spec_ceil(self) -> Self { R(self.0.ceil()) }
    fn spec_round(self) -> Self { R(self.0.round()) }
    fn spec_trunc(self) -> Self { R(self.0.trunc()) }
    fn spec_fract(self) -> Self { R(self.0.fract()) }
    fn spec_abs(self) -> Self { R(self.0.abs()) }
    fn spec_signum(self) -> Self { R(self.0.signum()) }
    fn spec_recip(self) -> Self { R(self.0.recip()) }
    fn spec_sqrt(self) -> Self { R(self.0.sqrt()) }
    fn spec_exp(self) -> Self { R(self.0.exp()) }
    fn spec_exp2(self) -> Self { R(self.0.exp2()) }
    fn spec_ln(self) -> Self { R(self.0.ln()) }
    fn spec_log2(self) -> Self { R(self.0.log2()) }
    fn spec_log10(self) -> Self { R(self.0.log10()) }
    fn spec_cbrt(self) -> Self { R(self.0.cbrt()) }
    fn spec_sin(self) -> Self { R(self.0.sin()) }
    fn spec_cos(self) -> Self { R(self.0.cos()) }
    fn spec_tan(self) -> Self { R(self.0.tan()) }
    fn spec_asin(self) -> Self { R(self.0.asin()) }
    fn spec_acos(self) -> Self { R(self.0.acos()) }
    fn spec_atan(self) -> Self { R(self.0.atan()) }
    fn spec_exp_m1(self) -> Self { R(self.0.exp_m1()) }
    fn spec_ln_1p(self) -> Self { R(self.0.ln_1p()) }
    fn spec_sinh(self) -> Self { R(self.0.sinh()) }
    fn spec_cosh(self) -> Self { R(self.0.cosh()) }
    fn spec_tanh(self) -> Self { R(self.0.tanh()) }
    fn spec_asinh(self) -> Self { R(self.0.asinh()) }
    fn spec_acosh(self) -> Self { R(self.0.acosh()) }
    fn spec_atanh(self) -> Self { R(self.0.atanh()) }
    fn spec_equals(self, other: Self) -> bool { self.0 == other.0 }
    fn spec_less_than(self, other: Self) -> bool { self.0 < other.0 }
    fn spec_greater_than(self, other: Self) -> bool { self.0 > other.0 }
    fn spec_is_zero(self) -> bool { self.0 == 0.0 }
    fn spec_is_nan(self) -> bool { self.0.is_nan() }
    fn spec_is_infinite(self) -> bool { self.0.is_infinite() }
    fn spec_is_finite(self) -> bool { self.0.is_finite() }
    fn spec_is_normal(self) -> bool { self.0.is_normal() }
    fn spec_is_sign_positive(self) -> bool { self.0.is_sign_positive() }
    fn spec_is_sign_negative(self) -> bool { self.0.is_sign_negative() }
    fn spec_powi(self, n: i32) -> Self { R(self.0.powi(n)) }
    fn spec_mul_add(self, a: Self, b: Self) -> Self { R(self.0.mul_add(a.0, b.0)) }
    fn spec_sin_cos(self) -> (Self, Self) {
        let (s, c) = self.0.sin_cos();
        (R(s), R(c))
    }
    fn spec_classify(self) -> FpCategory { self.0.classify() }
    fn spec_integer_decode(self) -> (u64, i16, i8) { Float::integer_decode(self.0) }
    fn spec_to_i64(self) -> Option<i64> { ToPrimitive::to_i64(&self.0) }
    fn spec_to_i128(self) -> Option<i128> { ToPrimitive::to_i128(&self.0) }
    fn spec_to_u64(self) -> Option<u64> { ToPrimitive::to_u64(&self.0) }
}

const CASES: [f64; 10] = [0., 1., -1., 0.5, 0.2, 10000., -17.59, 285.32, -9.5, 88.5];
const EPSILON: f64 = 1E-11;

fn case_pairs() -> Vec<(f64, f64)> {
    let mut result = Vec::new();
    for i in 0..10 {
        for j in 0..10 {
            result.push((CASES[i], CASES[j]));
        }
    }
    result
}

fn assert_similar(a: f64, b: f64, case: (f64, f64)) {
    if a.is_finite() && a.is_finite() {
        assert!(a - b < EPSILON, "{} !~= {} {:?}", a, b, case);
    }
}

fn assert_similars<const SIZE: usize>(a: [R; SIZE], b: [f64; SIZE], case: (f64, f64)) {
    for i in 0..SIZE {
        assert_similar(a[i].0, b[i], case);
    }
}

/// The two arguments as variables 0 and 1.
fn vars2(a: f64, b: f64) -> (FwdGFloat<R, 2>, FwdGFloat<R, 2>) {
    let [x, y] = grad([R(a), R(b)]);
    (x, y)
}

/// The one argument as variable 0.
fn var1(a: f64) -> FwdGFloat<R, 1> {
    let [x] = grad([R(a)]);
    x
}

#[test]
fn test_add() {
    let f = |a: FwdGFloat<R, 2>, b: FwdGFloat<R, 2>| a + b;
    for (a, b) in case_pairs() {
        let (x, y) = vars2(a, b);
        assert_similar(f(x, y).grad[0].0, 1.0, (a, b));
        assert_similar(f(x, y).grad[1].0, 1.0, (a, b));
        assert_similar(f(x, y).value.0, a + b, (a, b));
    }
}

#[test]
fn test_eq() {
    for (a_f, b_f) in case_pairs() {
        if a_f == b_f {
            continue;
        }
        let a: FwdGFloat<R, 3> = FwdGFloat::new_var(R(a_f), 1);
        let b: FwdGFloat<R, 3> = FwdGFloat::new_var(R(a_f), 0);
        let c: FwdGFloat<R, 3> = FwdGFloat::new_var(R(b_f), 0);

        assert_eq!(a, b);
        assert_ne!(a, c);
        assert_ne!(b, c);
    }
}

#[test]
fn test_mul() {
    let f = |a: FwdGFloat<R, 2>, b: FwdGFloat<R, 2>| a * b;
    for (a, b) in case_pairs() {
        let (x, y) = vars2(a, b);
        let gresult = f(x, y);
        assert_similars(gresult.grad, [b, a], (a, b));
        assert_similar(gresult.value.0, a * b, (a, b));
    }
}

#[test]
fn test_sub() {
    let f = |a: FwdGFloat<R, 2>, b: FwdGFloat<R, 2>| a - b;
    for (a, b) in case_pairs() {
        let (x, y) = vars2(a, b);
        let gresult = f(x, y);
        assert_similars(gresult.grad, [1.0, -1.0], (a, b));
        assert_similar(gresult.value.0, a - b, (a, b));
    }
}

#[test]
fn test_div() {
    let f = |a: FwdGFloat<R, 2>, b: FwdGFloat<R, 2>| a / b;
    for (a, b) in case_pairs() {
        let (x, y) = vars2(a, b);
        let gresult = f(x, y);
        assert_similars(
            gresult.grad,
            [if a.is_zero() && b.is_zero() { f64::NAN } else { b.inv() }, -a / (b * b)],
            (a, b),
        );
        assert_similar(gresult.value.0, a / b, (a, b));
    }
}

#[test]
fn test_rem() {
    let f = |a: FwdGFloat<R, 2>, b: FwdGFloat<R, 2>| a % b;
    for (a, b) in case_pairs() {
        let (x, y) = vars2(a, b);
        let gresult = f(x, y);
        assert_similars(
            gresult.grad,
            [
                if ((a % b).is_zero() && !a.is_zero()) || (a % b).is_nan() { f64::NAN } else { 1.0 },
                if ((a % b).is_zero() && !a.is_zero()) || (a % b).is_nan() {
                    f64::NAN
                } else {
                    -(a / b).floor()
                },
            ],
            (a, b),
        );
        assert_similar(gresult.value.0, a % b, (a, b));
    }
}

#[test]
fn test_neg() {
    let f = |a: FwdGFloat<R, 2>, b: FwdGFloat<R, 2>| a + -b;
    for (a, b) in case_pairs() {
        let (x, y) = vars2(a, b);
        let gresult = f(x, y);
        assert_similars(gresult.grad, [1.0, -1.0], (a, b));
        assert_similar(gresult.value.0, a - b, (a, b));
    }
}

#[test]
fn test_floor() {
    let f = |a: FwdGFloat<R, 1>| a.floor();
    for a in CASES {
        let gresult = f(var1(a));
        assert_similars(gresult.grad, [if a.fract() == 0.0 { f64::NAN } else { 0.0 }], (a, 0.0));
        assert_similar(gresult.value.0, a.floor(), (a, 0.0));
    }
}

#[test]
fn test_ceil() {
    let f = |a: FwdGFloat<R, 1>| a.ceil();
    for a in CASES {
        let gresult = f(var1(a));
        assert_similars(gresult.grad, [if a.fract() == 0.0 { f64::NAN } else { 0.0 }], (a, 0.0));
        assert_similar(gresult.value.0, a.ceil(), (a, 0.0));
    }
}

#[test]
fn test_round() {
    let f = |a: FwdGFloat<R, 1>| a.round();
    for a in CASES {
        let gresult = f(var1(a));
        assert_similars(gresult.grad, [if a.fract() == 0.5 { f64::NAN } else { 0.0 }], (a, 0.0));
        assert_similar(gresult.value.0, a.ceil(), (a, 0.0));
    }
}

#[test]
fn test_trunc() {
    let f = |a: FwdGFloat<R, 1>| a.ceil();
    for a in CASES {
        let gresult = f(var1(a));
        assert_similars(gresult.grad, [if a.fract() == 0.0 { f64::NAN } else { 0.0 }], (a, 0.0));
        assert_similar(gresult.value.0, a.ceil(), (a, 0.0));
    }
}

#[test]
fn test_recip() {
    let f = |a: FwdGFloat<R, 1>| a.recip();
    for a in CASES {
        let gresult = f(var1(a));
        assert_similars(gresult.grad, [(a * a).inv()], (a, 0.0));
        assert_similar(gresult.value.0, a.inv(), (a, 0.0));
    }
}

#[test]
fn test_powi() {
    let f = |a: FwdGFloat<R, 2>, b: FwdGFloat<R, 2>| a.powi(b.value.0.floor().to_i32().unwrap());
    for (a, b) in case_pairs() {
        let (x, y) = vars2(a, b);
        let gresult = f(x, y);
        let b_floor = b.floor();
        let b_int = b_floor.to_i32().unwrap();
        assert_similar(gresult.grad[0].0, b_floor * a.powi(b_int - 1), (a, b_floor));
        assert_similar(gresult.value.0, a.powi(b_int), (a, 0.0));
    }
}

#[test]
fn test_powf() {
    let f = |a: FwdGFloat<R, 2>, b: FwdGFloat<R, 2>| a.powf(b);
    for (a, b) in case_pairs() {
        let (x, y) = vars2(a, b);
        let gresult = f(x, y);
        assert_similars(gresult.grad, [b * a.powf(b - 1.0), a.powf(b) * a.ln()], (a, b));
        assert_similar(gresult.value.0, a.powf(b), (a, b));
    }
}

#[test]
fn test_sqrt() {
    let f = |a: FwdGFloat<R, 1>| a.sqrt();
    for a in CASES {
        let gresult = f(var1(a));
        assert_similar(gresult.grad[0].0, (2.0 * a.sqrt()).inv(), (a, 0.0));
        assert_similar(gresult.value.0, a.sqrt(), (a, 0.0));
    }
}

#[test]
fn test_exp() {
    let f = |a: FwdGFloat<R, 1>| a.exp();
    for a in CASES {
        let gresult = f(var1(a));
        assert_similar(gresult.grad[0].0, a.exp(), (a, 0.0));
        assert_similar(gresult.value.0, a.exp(), (a, 0.0));
    }
}

#[test]
fn test_exp2() {
    let f = |a: FwdGFloat<R, 1>| a.exp2();
    for a in CASES {
        let gresult = f(var1(a));
        assert_similar(gresult.grad[0].0, a.exp2() * 2.0.ln(), (a, 0.0));
        assert_similar(gresult.value.0, a.exp2(), (a, 0.0));
    }
}

#[test]
fn test_ln() {
    let f = |a: FwdGFloat<R, 1>| a.ln();
    for a in CASES {
        let gresult = f(var1(a));
        assert_similar(gresult.grad[0].0, a.inv(), (a, 0.0));
        assert_similar(gresult.value.0, a.ln(), (a, 0.0));
    }
}

#[test]
fn test_log() {
    let f = |a: FwdGFloat<R, 2>, b: FwdGFloat<R, 2>| a.log(b);
    for (a, b) in case_pairs() {
        let (x, y) = vars2(a, b);
        let gresult = f(x, y);
        assert_similars(
            gresult.grad,
            [(b.ln() * a).inv(), -a.ln() / (b * b.ln() * b.ln())],
            (a, b),
        );
        assert_similar(gresult.value.0, a.log(b), (a, b));
    }
}

#[test]
fn test_log2() {
    let f = |a: FwdGFloat<R, 1>| a.log2();
    for a in CASES {
        let gresult = f(var1(a));
        assert_similar(gresult.grad[0].0, (2.0.ln() * a).inv(), (a, 0.0));
        assert_similar(gresult.value.0, a.log2(), (a, 0.0));
    }
}

#[test]
fn test_log10() {
    let f = |a: FwdGFloat<R, 1>| a.log10();
    for a in CASES {
        let gresult = f(var1(a));
        assert_similar(gresult.grad[0].0, (10.0.ln() * a).inv(), (a, 0.0));
        assert_similar(gresult.value.0, a.log10(), (a, 0.0));
    }
}

#[test]
fn test_cbrt() {
    let f = |a: FwdGFloat<R, 1>| a.cbrt();
    for a in CASES {
        let gresult = f(var1(a));
        assert_similar(gresult.grad[0].0, (3.0 * a.cbrt().powi(2)).inv(), (a, 0.0));
        assert_similar(gresult.value.0, a.cbrt(), (a, 0.0));
    }
}

#[test]
fn test_sin() {
    let f = |a: FwdGFloat<R, 1>| a.sin();
    for a in CASES {
        let gresult = f(var1(a));
        assert_similar(gresult.grad[0].0, a.cos(), (a, 0.0));
        assert_similar(gresult.value.0, a.sin(), (a, 0.0));
    }
}

#[test]
fn test_cos() {
    let f = |a: FwdGFloat<R, 1>| a.cos();
    for a in CASES {
        let gresult = f(var1(a));
        assert_similar(gresult.grad[0].0, -a.sin(), (a, 0.0));
        assert_similar(gresult.value.0, a.cos(), (a, 0.0));
    }
}

#[test]
fn test_tan() {
    let f = |a: FwdGFloat<R, 1>| a.tan();
    for a in CASES {
        let gresult = f(var1(a));
        assert_similar(gresult.grad[0].0, (a.cos() * a.cos()).inv(), (a, 0.0));
        assert_similar(gresult.value.0, a.tan(), (a, 0.0));
    }
}
