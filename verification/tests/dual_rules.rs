use autodiff::examples::{paraboloid, quadratic_formula};
use autodiff::{BinaryDOp, DFloat, FwdGFloat, GFloat, NaryDOp, Scalar, UnaryDOp, WrappedFloat};
use std::num::FpCategory;

/// `f64` as a scalar.
#[derive(Clone, Copy, Debug, PartialEq)]
struct R(f64);

use num::{Float, ToPrimitive};

impl Scalar for R {
    fn zero() -> Self { R(0.0) }
    fn one() -> Self { R(1.0) }
    fn nan() -> Self { R(f64::NAN) }
    fn infinity() -> Self { R(f64::INFINITY) }
    fn neg_infinity() -> Self { R(f64::NEG_INFINITY) }
    fn neg_zero() -> Self { R(-0.0) }
    fn min_value() -> Self { R(f64::MIN) }
    fn min_positive_value() -> Self { R(f64::MIN_POSITIVE) }
    fn max_value() -> Self { R(f64::MAX) }
    fn half() -> Self { R(0.5) }
    fn from_i32(n: i32) -> Self { R(n as f64) }
    fn negate(self) -> Self { R(-self.0) }
    fn plus(self, other: Self) -> Self { R(self.0 + other.0) }
    fn minus(self, other: Self) -> Self { R(self.0 - other.0) }
    fn times(self, other: Self) -> Self { R(self.0 * other.0) }
    fn divide(self, other: Self) -> Self { R(self.0 / other.0) }
    fn modulo(self, other: Self) -> Self { R(self.0 % other.0) }
    fn powf(self, other: Self) -> Self { R(self.0.powf(other.0)) }
    fn log(self, other: Self) -> Self { R(self.0.log(other.0)) }
    fn max(self, other: Self) -> Self { R(self.0.max(other.0)) }
    fn min(self, other: Self) -> Self { R(self.0.min(other.0)) }
    #[allow(deprecated)]
    fn abs_sub(self, other: Self) -> Self { R(Float::abs_sub(self.0, other.0)) }
    fn hypot(self, other: Self) -> Self { R(self.0.hypot(other.0)) }
    fn atan2(self, other: Self) -> Self { R(self.0.atan2(other.0)) }
    fn floor(self) -> Self { R(self.0.floor()) }
    fn ceil(self) -> Self { R(self.0.ceil()) }
    fn round(self) -> Self { R(self.0.round()) }
    fn trunc(self) -> Self { R(self.0.trunc()) }
    fn fract(self) -> Self { R(self.0.fract()) }
    fn abs(self) -> Self { R(self.0.abs()) }
    fn signum(self) -> Self { R(self.0.signum()) }
    fn recip(self) -> Self { R(self.0.recip()) }
    fn sqrt(self) -> Self { R(self.0.sqrt()) }
    fn exp(self) -> Self { R(self.0.exp()) }
    fn exp2(self) -> Self { R(self.0.exp2()) }
    fn ln(self) -> Self { R(self.0.ln()) }
    fn log2(self) -> Self { R(self.0.log2()) }
    fn log10(self) -> Self { R(self.0.log10()) }
    fn cbrt(self) -> Self { R(self.0.cbrt()) }
    fn sin(self) -> Self { R(self.0.sin()) }
    fn cos(self) -> Self { R(self.0.cos()) }
    fn tan(self) -> Self { R(self.0.tan()) }
    fn asin(self) -> Self { R(self.0.asin()) }
    fn acos(self) -> Self { R(self.0.acos()) }
    fn atan(self) -> Self { R(self.0.atan()) }
    fn exp_m1(self) -> Self { R(self.0.exp_m1()) }
    fn ln_1p(self) -> Self { R(self.0.ln_1p()) }
    fn sinh(self) -> Self { R(self.0.sinh()) }
    fn cosh(self) -> Self { R(self.0.cosh()) }
    fn tanh(self) -> Self { R(self.0.tanh()) }
    fn asinh(self) -> Self { R(self.0.asinh()) }
    fn acosh(self) -> Self { R(self.0.acosh()) }
    fn atanh(self) -> Self { R(self.0.atanh()) }
    fn equals(self, other: Self) -> bool { self.0 == other.0 }
    fn less_than(self, other: Self) -> bool { self.0 < other.0 }
    fn greater_than(self, other: Self) -> bool { self.0 > other.0 }
    fn is_zero(self) -> bool { self.0 == 0.0 }
    fn is_nan(self) -> bool { self.0.is_nan() }
    fn is_infinite(self) -> bool { self.0.is_infinite() }
    fn is_finite(self) -> bool { self.0.is_finite() }
    fn is_normal(self) -> bool { self.0.is_normal() }
    fn is_sign_positive(self) -> bool { self.0.is_sign_positive() }
    fn is_sign_negative(self) -> bool { self.0.is_sign_negative() }
    fn powi(self, n: i32) -> Self { R(self.0.powi(n)) }
    fn mul_add(self, a: Self, b: Self) -> Self { R(self.0.mul_add(a.0, b.0)) }
    fn sin_cos(self) -> (Self, Self) {
        let (s, c) = self.0.sin_cos();
        (R(s), R(c))
    }
    fn classify(self) -> FpCategory { self.0.classify() }
    fn integer_decode(self) -> (u64, i16, i8) { Float::integer_decode(self.0) }
    fn to_i64(self) -> Option<i64> { ToPrimitive::to_i64(&self.0) }
    fn to_i128(self) -> Option<i128> { ToPrimitive::to_i128(&self.0) }
    fn to_u64(self) -> Option<u64> { ToPrimitive::to_u64(&self.0) }

    fn powi_admits(_n: i32) -> bool { true }

    fn spec_zero() -> Self { R(0.0) }
    fn spec_one() -> Self { R(1.0) }
    fn spec_nan() -> Self { R(f64::NAN) }
    fn spec_infinity() -> Self { R(f64::INFINITY) }
    fn spec_neg_infinity() -> Self { R(f64::NEG_INFINITY) }
    fn spec_neg_zero() -> Self { R(-0.0) }
    fn spec_min_value() -> Self { R(f64::MIN) }
    fn spec_min_positive_value() -> Self { R(f64::MIN_POSITIVE) }
    fn spec_max_value() -> Self { R(f64::MAX) }
    fn spec_half() -> Self { R(0.5) }
    fn spec_from_i32(n: i32) -> Self { R(n as f64) }
    fn spec_negate(self) -> Self { R(-self.0) }
    fn spec_plus(self, other: Self) -> Self { R(self.0 + other.0) }
    fn spec_minus(self, other: Self) -> Self { R(self.0 - other.0) }
    fn spec_times(self, other: Self) -> Self { R(self.0 * other.0) }
    fn spec_divide(self, other: Self) -> Self { R(self.0 / other.0) }
    fn spec_modulo(self, other: Self) -> Self { R(self.0 % other.0) }
    fn spec_powf(self, other: Self) -> Self { R(self.0.powf(other.0)) }
    fn spec_log(self, other: Self) -> Self { R(self.0.log(other.0)) }
    fn spec_max(self, other: Self) -> Self { R(self.0.max(other.0)) }
    fn spec_min(self, other: Self) -> Self { R(self.0.min(other.0)) }
    #[allow(deprecated)]
    fn spec_abs_sub(self, other: Self) -> Self { R(Float::abs_sub(self.0, other.0)) }
    fn spec_hypot(self, other: Self) -> Self { R(self.0.hypot(other.0)) }
    fn spec_atan2(self, other: Self) -> Self { R(self.0.atan2(other.0)) }
    fn spec_floor(self) -> Self { R(self.0.floor()) }
    fn spec_ceil(self) -> Self { R(self.0.ceil()) }
    fn spec_round(self) -> Self { R(self.0.round()) }
    fn spec_trunc(self) -> Self { R(self.0.trunc()) }
    fn spec_fract(self) -> Self { R(self.0.fract()) }
    fn spec_abs(self) -> Self { R(self.0.abs()) }
    fn spec_signum(self) -> Self { R(self.0.signum()) }
    fn spec_recip(self) -> Self { R(self.0.recip()) }
    fn spec_sqrt(self) -> Self { R(self.0.sqrt()) }
    fn spec_exp(self) -> Self { R(self.0.exp()) }
    fn spec_exp2(self) -> Self { R(self.0.exp2()) }
    fn spec_ln(self) -> Self { R(self.0.ln()) }
    fn spec_log2(self) -> Self { R(self.0.log2()) }
    fn spec_log10(self) -> Self { R(self.0.log10()) }
    fn spec_cbrt(self) -> Self { R(self.0.cbrt()) }
    fn spec_sin(self) -> Self { R(self.0.sin()) }
    fn spec_cos(self) -> Self { R(self.0.cos()) }
    fn spec_tan(self) -> Self { R(self.0.tan()) }
    fn spec_asin(self) -> Self { R(self.0.asin()) }
    fn spec_acos(self) -> Self { R(self.0.acos()) }
    fn spec_atan(self) -> Self { R(self.0.atan()) }
    fn spec_exp_m1(self) -> Self { R(self.0.exp_m1()) }
    fn spec_ln_1p(self) -> Self { R(self.0.ln_1p()) }
    fn spec_sinh(self) -> Self { R(self.0.sinh()) }
    fn spec_cosh(self) -> Self { R(self.0.cosh()) }
    fn spec_tanh(self) -> Self { R(self.0.tanh()) }
    fn spec_asinh(self) -> Self { R(self.0.asinh()) }
    fn spec_acosh(self) -> Self { R(self.0.acosh()) }
    fn spec_atanh(self) -> Self { R(self.0.atanh()) }
    fn spec_equals(self, other: Self) -> bool { self.0 == other.0 }
    fn spec_less_than(self, other: Self) -> bool { self.0 < other.0 }
    fn spec_greater_than(self, other: Self) -> bool { self.0 > other.0 }
    fn spec_is_zero(self) -> bool { self.0 == 0.0 }
    fn spec_is_nan(self) -> bool { self.0.is_nan() }
    fn spec_is_infinite(self) -> bool { self.0.is_infinite() }
    fn spec_is_finite(self) -> bool { self.0.is_finite() }
    fn spec_is_normal(self) -> bool { self.0.is_normal() }
    fn spec_is_sign_positive(self) -> bool { self.0.is_sign_positive() }
    fn spec_is_sign_negative(self) -> bool { self.0.is_sign_negative() }
    fn spec_powi(self, n: i32) -> Self { R(self.0.powi(n)) }
    fn spec_mul_add(self, a: Self, b: Self) -> Self { R(self.0.mul_add(a.0, b.0)) }
    fn spec_sin_cos(self) -> (Self, Self) {
        let (s, c) = self.0.sin_cos();
        (R(s), R(c))
    }
    fn spec_classify(self) -> FpCategory { self.0.classify() }
    fn spec_integer_decode(self) -> (u64, i16, i8) { Float::integer_decode(self.0) }
    fn spec_to_i64(self) -> Option<i64> { ToPrimitive::to_i64(&self.0) }
    fn spec_to_i128(self) -> Option<i128> { ToPrimitive::to_i128(&self.0) }
    fn spec_to_u64(self) -> Option<u64> { ToPrimitive::to_u64(&self.0) }
}

fn g2(v: f64, g: [f64; 2]) -> GFloat<R, 2> {
    GFloat { value: R(v), grad: [R(g[0]), R(g[1])] }
}

fn w2(v: f64, g: [f64; 2]) -> FwdGFloat<R, 2> {
    FwdGFloat { value: R(v), grad: [R(g[0]), R(g[1])] }
}

fn raw<const N: usize>(g: [R; N]) -> [f64; N] {
    g.map(|r| r.0)
}

struct Square;

impl UnaryDOp<R> for Square {
    fn spec_op(a: R) -> R {
        R(a.0 * a.0)
    }

    fn spec_grad(a: DFloat<R>) -> R {
        R(2.0 * a.value.0)
    }

    fn op(a: R) -> R {
        R(a.0 * a.0)
    }

    fn grad(a: DFloat<R>) -> R {
        R(2.0 * a.value.0)
    }
}

struct Product;

impl BinaryDOp<R> for Product {
    fn spec_op(a: R, b: R) -> R {
        R(a.0 * b.0)
    }

    fn spec_grad(a: DFloat<R>, b: DFloat<R>) -> (R, R) {
        (b.value, a.value)
    }

    fn op(a: R, b: R) -> R {
        R(a.0 * b.0)
    }

    fn grad(a: DFloat<R>, b: DFloat<R>) -> (R, R) {
        (b.value, a.value)
    }
}

struct Total;

impl NaryDOp<R, 2> for Total {
    fn spec_op(args: [R; 2]) -> R {
        R(args[0].0 + args[1].0)
    }

    fn spec_grad(_args: [DFloat<R>; 2]) -> [R; 2] {
        [R(1.0), R(1.0)]
    }

    fn op(args: [R; 2]) -> R {
        R(args[0].0 + args[1].0)
    }

    fn grad(_args: [DFloat<R>; 2]) -> [R; 2] {
        [R(1.0), R(1.0)]
    }
}

struct Times;

impl NaryDOp<R, 2> for Times {
    fn spec_op(args: [R; 2]) -> R {
        R(args[0].0 * args[1].0)
    }

    fn spec_grad(args: [DFloat<R>; 2]) -> [R; 2] {
        [args[1].value, args[0].value]
    }

    fn op(args: [R; 2]) -> R {
        R(args[0].0 * args[1].0)
    }

    fn grad(args: [DFloat<R>; 2]) -> [R; 2] {
        [args[1].value, args[0].value]
    }
}

#[test]
fn new_var_is_a_unit_vector() {
    let x: GFloat<R, 3> = GFloat::new_var(R(4.0), 1);
    assert_eq!(x.value, R(4.0));
    assert_eq!(raw(x.grad), [0.0, 1.0, 0.0]);
    let y: FwdGFloat<R, 3> = FwdGFloat::new_var(R(-2.0), 2);
    assert_eq!(raw(y.grad), [0.0, 0.0, 1.0]);
}

#[test]
fn from_and_get_are_constants() {
    let x: GFloat<R, 2> = GFloat::from(R(7.5));
    assert_eq!(x.value, R(7.5));
    assert_eq!(raw(x.grad), [0.0, 0.0]);
    let y: GFloat<R, 2> = WrappedFloat::get(R(7.5));
    assert_eq!(raw(y.grad), [0.0, 0.0]);
    let z: FwdGFloat<R, 2> = WrappedFloat::get(R(-1.0));
    assert_eq!(z.value, R(-1.0));
    assert_eq!(raw(z.grad), [0.0, 0.0]);
    let c: R = WrappedFloat::get(R(3.0));
    assert_eq!(c, R(3.0));
}

#[test]
fn partial_reads_one_entry() {
    let x = g2(3.0, [5.0, 6.0]);
    let d = x.partial(1);
    assert_eq!(d.value, R(3.0));
    assert_eq!(d.derivative, R(6.0));
    let e = w2(1.0, [2.0, 9.0]).partial(0);
    assert_eq!(e.derivative, R(2.0));
}

#[test]
fn sum_and_product_rules() {
    let x = g2(3.0, [1.0, 2.0]);
    let y = g2(5.0, [4.0, -1.0]);
    let s = x + y;
    assert_eq!(s.value, R(8.0));
    assert_eq!(raw(s.grad), [5.0, 1.0]);
    let p = x * y;
    assert_eq!(p.value, R(15.0));
    // 3 * 4 + 1 * 5 and 3 * -1 + 2 * 5
    assert_eq!(raw(p.grad), [17.0, 7.0]);
    let d = x - y;
    assert_eq!(raw(d.grad), [-3.0, 3.0]);
    let n = -x;
    assert_eq!(n.value, R(-3.0));
    assert_eq!(raw(n.grad), [-1.0, -2.0]);
}

#[test]
fn quotient_rule() {
    let x = g2(6.0, [1.0, 0.0]);
    let y = g2(2.0, [0.0, 1.0]);
    let q = x / y;
    assert_eq!(q.value, R(3.0));
    // (1 * 2 - 0 * 6) / 4 and (0 * 2 - 1 * 6) / 4
    assert_eq!(raw(q.grad), [0.5, -1.5]);
    let fq = w2(6.0, [1.0, 0.0]) / w2(2.0, [0.0, 1.0]);
    assert_eq!(raw(fq.grad), [0.5, -1.5]);
}

#[test]
fn forward_quotient_by_zero() {
    let x = w2(1.0, [1.0, 0.0]);
    let y = w2(0.0, [0.0, 2.0]);
    let q = x / y;
    assert!(q.value.0.is_infinite());
    // the numerator's term 1 / 0, and 0 - (2 * 1) / (0 * 0)
    assert_eq!(q.grad[0].0, f64::INFINITY);
    assert_eq!(q.grad[1].0, f64::NEG_INFINITY);
    let z = w2(0.0, [0.0, 0.0]);
    let q2 = x / z;
    assert_eq!(q2.grad[0].0, f64::INFINITY);
    assert_eq!(q2.grad[1].0, 0.0);
    // zero over zero
    let q3 = w2(0.0, [1.0, 0.0]) / w2(0.0, [0.0, 1.0]);
    assert!(q3.value.0.is_nan());
    assert!(q3.grad[0].0.is_nan());
    assert!(q3.grad[1].0.is_nan());
}

#[test]
fn remainder_rules() {
    let x = g2(7.0, [1.0, 0.0]);
    let y = g2(2.0, [0.0, 1.0]);
    let r = x % y;
    assert_eq!(r.value, R(1.0));
    // 1 - 0 * 3 and 0 - 1 * floor(3.5)
    assert_eq!(raw(r.grad), [1.0, -3.0]);
    let z = g2(6.0, [1.0, 0.0]) % y;
    assert_eq!(z.value, R(0.0));
    assert!(z.grad[0].0.is_nan());
    assert_eq!(z.grad[1].0, 0.0);
    let fz = w2(6.0, [0.0, 0.0]) % w2(2.0, [0.0, 1.0]);
    assert_eq!(fz.grad[0].0, 0.0);
    assert!(fz.grad[1].0.is_nan());
    let f0 = w2(0.0, [1.0, 0.0]) % w2(2.0, [0.0, 1.0]);
    assert_eq!(raw(f0.grad), [1.0, 0.0]);
}

#[test]
fn rounding_masks_gradients_at_integers() {
    let x = g2(2.0, [1.0, 0.0]);
    let f = x.floor();
    assert_eq!(f.value, R(2.0));
    assert!(f.grad[0].0.is_nan());
    assert_eq!(f.grad[1].0, 0.0);
    let y = g2(2.5, [1.0, 0.0]);
    assert_eq!(raw(y.floor().grad), [0.0, 0.0]);
    assert_eq!(raw(y.ceil().grad), [0.0, 0.0]);
    assert_eq!(raw(y.trunc().grad), [0.0, 0.0]);
    assert!(x.trunc().grad[0].0.is_nan());
    assert!(x.round().grad[0].0.is_nan());
    let half = w2(2.5, [1.0, 0.0]).round();
    assert_eq!(half.value, R(3.0));
    assert!(half.grad[0].0.is_nan());
    assert_eq!(raw(w2(2.0, [1.0, 0.0]).round().grad), [0.0, 0.0]);
}

#[test]
fn fract_abs_and_signum() {
    let x = g2(2.25, [1.0, 3.0]);
    let f = x.fract();
    assert_eq!(f.value, R(0.25));
    assert_eq!(raw(f.grad), [1.0, 3.0]);
    assert!(g2(2.0, [1.0, 0.0]).fract().grad[0].0.is_nan());
    let n = g2(-2.0, [1.0, -3.0]).abs();
    assert_eq!(n.value, R(2.0));
    assert_eq!(raw(n.grad), [-1.0, 3.0]);
    let z = g2(0.0, [1.0, 0.0]).abs();
    assert_eq!(z.value, R(0.0));
    assert!(z.grad[0].0.is_nan());
    assert_eq!(z.grad[1].0, 0.0);
    assert_eq!(raw(x.abs().grad), [1.0, 3.0]);
    let s = x.signum();
    assert_eq!(s.value, R(1.0));
    assert_eq!(raw(s.grad), [0.0, 0.0]);
    assert!(g2(0.0, [0.0, 2.0]).signum().grad[1].0.is_nan());
}

#[test]
fn max_min_and_abs_sub() {
    let x = g2(3.0, [1.0, 0.0]);
    let y = g2(5.0, [0.0, 1.0]);
    assert_eq!(raw(x.max(y).grad), [0.0, 1.0]);
    assert_eq!(raw(x.min(y).grad), [1.0, 0.0]);
    let tie = x.max(g2(3.0, [0.0, 0.0]));
    assert!(tie.grad[0].0.is_nan());
    assert_eq!(tie.grad[1].0, 0.0);
    let d = y.abs_sub(x);
    assert_eq!(d.value, R(2.0));
    assert_eq!(raw(d.grad), [-1.0, 1.0]);
    let under = x.abs_sub(y);
    assert_eq!(under.value, R(0.0));
    assert_eq!(raw(under.grad), [0.0, 0.0]);
    let fw = w2(3.0, [1.0, 0.0]).min(w2(3.0, [0.0, 1.0]));
    assert!(fw.grad[0].0.is_nan() && fw.grad[1].0.is_nan());
}

#[test]
fn power_rules() {
    let x = g2(2.0, [1.0, 0.0]);
    let p = x.powi(3);
    assert_eq!(p.value, R(8.0));
    assert_eq!(raw(p.grad), [12.0, 0.0]);
    let q: GFloat<R, 1> = GFloat::new_var(R(0.5), 0);
    assert_eq!(q.powi(-1).value, R(2.0));
    assert_eq!(raw(q.powi(-1).grad), [-4.0]);
    let fp = w2(2.0, [1.0, 0.0]).powi(3);
    assert_eq!(raw(fp.grad), [12.0, 0.0]);
    let s = g2(4.0, [1.0, 0.0]).sqrt();
    assert_eq!(s.value, R(2.0));
    assert_eq!(raw(s.grad), [0.25, 0.0]);
    let fs = w2(4.0, [1.0, 0.0]).sqrt();
    assert_eq!(raw(fs.grad), [0.25, 0.0]);
    let pf = g2(2.0, [1.0, 0.0]).powf(g2(3.0, [0.0, 1.0]));
    assert_eq!(pf.value, R(8.0));
    assert_eq!(pf.grad[0].0, 12.0);
    assert!((pf.grad[1].0 - 8.0 * 2f64.ln()).abs() < 1e-12);
    let r = g2(2.0, [1.0, 0.0]).recip();
    assert_eq!(r.value, R(0.5));
    assert_eq!(r.grad[0].0, 0.25);
    let c = g2(8.0, [1.0, 0.0]).cbrt();
    assert_eq!(c.value, R(2.0));
    assert_eq!(c.grad[0].0, 1.0 / 12.0);
}

#[test]
fn exponentials_and_logarithms() {
    let x = g2(1.0, [1.0, 0.0]);
    let e = x.exp();
    assert_eq!(e.grad[0].0, 1f64.exp());
    let e2 = x.exp2();
    assert_eq!(e2.value, R(2.0));
    assert_eq!(e2.grad[0].0, 2f64.ln() * 2.0);
    let fe2 = w2(1.0, [1.0, 0.0]).exp2();
    assert_eq!(fe2.grad[0].0, 2f64.ln() * 2.0);
    let l = g2(2.0, [1.0, 0.0]).ln();
    assert_eq!(l.grad[0].0, 0.5);
    let l2 = g2(4.0, [1.0, 0.0]).log2();
    assert_eq!(l2.value, R(2.0));
    assert_eq!(l2.grad[0].0, 1.0 / (2f64.ln() * 4.0));
    let l10 = g2(100.0, [1.0, 0.0]).log10();
    assert_eq!(l10.grad[0].0, 1.0 / (10f64.ln() * 100.0));
    let lb = g2(8.0, [1.0, 0.0]).log(g2(2.0, [0.0, 1.0]));
    assert_eq!(lb.value, R(3.0));
    assert_eq!(lb.grad[0].0, (1.0 / 8.0) / 2f64.ln());
    assert_eq!(lb.grad[1].0, (0.0 / 8.0 - (1.0 * 3.0) / 2.0) / 2f64.ln());
    let m1 = g2(0.5, [2.0, 0.0]).exp_m1();
    assert_eq!(m1.grad[0].0, 2.0 * 0.5f64.exp());
    let lp = g2(1.0, [2.0, 0.0]).ln_1p();
    assert_eq!(lp.grad[0].0, 1.0);
}

#[test]
fn trigonometry() {
    let a = 0.3f64;
    let x = g2(a, [1.0, 2.0]);
    assert_eq!(raw(x.sin().grad), [a.cos(), 2.0 * a.cos()]);
    assert_eq!(raw(x.cos().grad), [-a.sin(), 2.0 * -a.sin()]);
    assert_eq!(x.tan().grad[0].0, 1.0 / (a.cos() * a.cos()));
    assert_eq!(x.asin().grad[0].0, 1.0 / (1.0 - a * a).sqrt());
    assert_eq!(x.acos().grad[0].0, -1.0 / (1.0 - a * a).sqrt());
    assert_eq!(x.atan().grad[0].0, (1.0 + a * a).recip());
    assert_eq!(x.sinh().grad[0].0, a.cosh());
    assert_eq!(x.cosh().grad[0].0, a.sinh());
    assert_eq!(x.tanh().grad[0].0, 1.0 / (a.cosh() * a.cosh()));
    assert_eq!(x.asinh().grad[0].0, 1.0 / (1.0 + a * a).sqrt());
    assert_eq!(x.atanh().grad[0].0, 1.0 / (1.0 - a * a));
    let b = 2.0f64;
    assert_eq!(g2(b, [1.0, 0.0]).acosh().grad[0].0, 1.0 / (b * b - 1.0).sqrt());
    let (s, c) = x.sin_cos();
    assert_eq!(s, x.sin());
    assert_eq!(raw(s.grad), raw(x.sin().grad));
    assert_eq!(c, x.cos());
    assert_eq!(raw(c.grad), raw(x.cos().grad));
    let y = g2(0.4, [0.0, 1.0]);
    let t = x.atan2(y);
    assert_eq!(t.value.0, a.atan2(0.4));
    let d = (a * a + 0.4 * 0.4).recip();
    assert_eq!(raw(t.grad), [(0.4 * 1.0 - a * 0.0) * d, (0.4 * 2.0 - a * 1.0) * d]);
    let ft = w2(1.0, [1.0, 0.0]).atan2(w2(2.0, [0.0, 1.0]));
    assert!((ft.grad[0].0 - 0.4).abs() < 1e-12);
    assert!((ft.grad[1].0 + 0.2).abs() < 1e-12);
    let h = g2(3.0, [1.0, 0.0]).hypot(g2(4.0, [0.0, 1.0]));
    assert_eq!(h.value, R(5.0));
    assert_eq!(raw(h.grad), [0.6, 0.8]);
    let fh = w2(3.0, [1.0, 0.0]).hypot(w2(4.0, [0.0, 1.0]));
    assert_eq!(raw(fh.grad), [0.6, 0.8]);
}

#[test]
fn mul_add_rule() {
    let x = g2(2.0, [1.0, 0.0]);
    let a = g2(3.0, [0.0, 1.0]);
    let b = g2(4.0, [1.0, 1.0]);
    let r = x.mul_add(a, b);
    assert_eq!(r.value, R(10.0));
    // 2 * 0 + 1 * 3 + 1 and 2 * 1 + 0 * 3 + 1
    assert_eq!(raw(r.grad), [4.0, 3.0]);
}

#[test]
fn constants_and_predicates() {
    let z: GFloat<R, 2> = Scalar::zero();
    assert!(z.is_zero());
    assert_eq!(raw(z.grad), [0.0, 0.0]);
    let o: FwdGFloat<R, 2> = Scalar::one();
    assert_eq!(o.value, R(1.0));
    let n: GFloat<R, 2> = Scalar::nan();
    assert!(n.is_nan());
    let i: GFloat<R, 2> = Scalar::infinity();
    assert!(i.is_infinite() && !i.is_finite());
    let h: FwdGFloat<R, 2> = Scalar::half();
    assert_eq!(h.value, R(0.5));
    let k: GFloat<R, 2> = Scalar::from_i32(-3);
    assert_eq!(k.value, R(-3.0));
    assert_eq!(k.to_i64(), Some(-3));
    assert_eq!(k.to_u64(), None);
    assert_eq!(k.integer_decode(), (-3f64).integer_decode());
    assert_eq!(k.classify(), FpCategory::Normal);
    assert!(k.is_sign_negative() && !k.is_sign_positive());
    assert!(k.less_than(z) && z.greater_than(k));
}

#[test]
fn equality_ignores_gradients() {
    let a = g2(1.5, [1.0, 0.0]);
    let b = g2(1.5, [0.0, 9.0]);
    let c = g2(2.5, [1.0, 0.0]);
    assert_eq!(a, b);
    assert_ne!(a, c);
    assert!(w2(1.5, [1.0, 0.0]) == w2(1.5, [3.0, 3.0]));
}

#[test]
fn mixed_scalar_arithmetic() {
    let x = g2(3.0, [1.0, 2.0]);
    assert_eq!(raw((x + R(1.0)).grad), [1.0, 2.0]);
    assert_eq!((x - R(1.0)).value, R(2.0));
    let m = x * R(2.0);
    assert_eq!(m.value, R(6.0));
    assert_eq!(raw(m.grad), [2.0, 4.0]);
    let d = x / R(2.0);
    assert_eq!(raw(d.grad), [0.5, 1.0]);
    let fm = w2(3.0, [1.0, 2.0]).times_scalar(R(3.0));
    assert_eq!(raw(fm.grad), [3.0, 6.0]);
}

#[test]
fn chain_rules_of_operations() {
    let x = g2(3.0, [1.0, 2.0]);
    let u = x.apply_u::<Square>();
    assert_eq!(u.value, R(9.0));
    // each entry times 2 * 3
    assert_eq!(raw(u.grad), [6.0, 12.0]);
    let [v] = autodiff::grad([R(3.0)]);
    assert_eq!(raw(v.apply_u::<Square>().grad), [6.0]);
    let y = g2(5.0, [0.0, 1.0]);
    let b = x.apply_b::<Product>(y);
    assert_eq!(b.value, R(15.0));
    // 1 * 5 + 0 * 3 and 2 * 5 + 1 * 3
    assert_eq!(raw(b.grad), [5.0, 13.0]);
    let n = GFloat::apply_n::<Total, 2>([x, y]);
    assert_eq!(n.value, R(8.0));
    // entry i sums args[j].grad[i] over j: 1 + 0 and 2 + 1
    assert_eq!(raw(n.grad), [1.0, 3.0]);
    let fw = FwdGFloat::apply_n::<Total, 2>([w2(3.0, [1.0, 2.0]), w2(5.0, [0.0, 1.0])]);
    assert_eq!(raw(fw.grad), [1.0, 3.0]);
    // two arguments over one variable: d(a * b) = b * da + a * db = 2 * 1 + 3 * 0
    let a1: FwdGFloat<R, 1> = FwdGFloat::new_var(R(3.0), 0);
    let b1: FwdGFloat<R, 1> = FwdGFloat { value: R(2.0), grad: [R(0.0)] };
    let m = FwdGFloat::apply_n::<Times, 2>([a1, b1]);
    assert_eq!(m.value, R(6.0));
    assert_eq!(raw(m.grad), [2.0]);
}

#[test]
fn grad_seeds_each_argument_as_a_variable() {
    let [x, y, z] = autodiff::grad([R(1.0), R(2.0), R(3.0)]);
    assert_eq!(x.value, R(1.0));
    assert_eq!(raw(x.grad), [1.0, 0.0, 0.0]);
    assert_eq!(raw(y.grad), [0.0, 1.0, 0.0]);
    assert_eq!(z.value, R(3.0));
    assert_eq!(raw(z.grad), [0.0, 0.0, 1.0]);
}

#[test]
fn example_functions() {
    let x: GFloat<R, 2> = GFloat::new_var(R(5.0), 0);
    let y: GFloat<R, 2> = GFloat::new_var(R(2.0), 1);
    let p = paraboloid::<R, _>(x, y);
    assert_eq!(p.value, R(29.0));
    assert_eq!(raw(p.grad), [10.0, 4.0]);
    let a: GFloat<R, 3> = GFloat::new_var(R(1.0), 0);
    let b: GFloat<R, 3> = GFloat::new_var(R(0.0), 1);
    let c: GFloat<R, 3> = GFloat::new_var(R(-1.0), 2);
    let (pos, neg) = quadratic_formula::<R, _>(a, b, c);
    assert_eq!(pos.value, R(1.0));
    assert_eq!(neg.value, R(-1.0));
    let plain = paraboloid::<R, _>(R(3.0), R(4.0));
    assert_eq!(plain, R(25.0));
}

#[test]
fn nested_dual_numbers() {
    type D = GFloat<R, 1>;
    let inner: D = GFloat::new_var(R(3.0), 0);
    let x: GFloat<D, 1> = GFloat::new_var(inner, 0);
    let sq = x * x;
    assert_eq!(sq.value.value, R(9.0));
    assert_eq!(sq.value.grad[0], R(6.0));
    assert_eq!(sq.grad[0].value, R(6.0));
    assert_eq!(sq.grad[0].grad[0], R(2.0));
}

#[test]
fn commutativity_on_values() {
    let x = g2(1.25, [0.5, -2.0]);
    let y = g2(-3.5, [4.0, 0.25]);
    assert_eq!(raw((x + y).grad), raw((y + x).grad));
    assert_eq!(raw((x * y).grad), raw((y * x).grad));
    assert_eq!(raw((x - y).grad), raw((x + -y).grad));
    assert_eq!(raw((-(-x)).grad), raw(x.grad));
}
