//! Fixed-point complex values and the arithmetic the iteration formula needs.
//!
//! A coordinate component is an `i64` holding `value * SCALE`, so the model of
//! a `Complex` is a pair of mathematical integers. Products are rescaled with
//! truncating division (`tdiv`), the semantics of Rust's `/` on signed
//! integers, so the executable code matches the model exactly.

use vstd::arithmetic::div_mod::{lemma_div_is_ordered, lemma_div_pos_is_pos};
use vstd::prelude::*;

verus! {

/// Fixed-point scale: one unit of the plane is this many `i64` steps (2^24).
pub const SCALE: i64 = 16777216;

/// Largest component magnitude accepted by `multiply` (2^42): keeps every
/// intermediate product inside `i128` and every rescaled result inside `i64`.
pub const MUL_LIMIT: i64 = 4398046511104;

/// Largest component magnitude accepted by `norm_squared` (2^62).
pub const NORM_LIMIT: i64 = 4611686018427387904;

/// A point of the complex plane in fixed-point form: the value is
/// `(re / SCALE) + (im / SCALE) * i`.
#[derive(Clone, Copy, PartialEq, Eq, Structural, Debug)]
pub struct Complex {
    pub re: i64,
    pub im: i64,
}

impl View for Complex {
    type V = (int, int);

    open spec fn view(&self) -> (int, int) {
        (self.re as int, self.im as int)
    }
}

/// Truncating division (toward zero) for a positive divisor: what Rust's `/`
/// computes on signed integers.
pub open spec fn tdiv(x: int, d: int) -> int {
    if x >= 0 {
        x / d
    } else {
        -((-x) / d)
    }
}

/// Componentwise sum of two points.
pub open spec fn add_spec(a: (int, int), b: (int, int)) -> (int, int) {
    (a.0 + b.0, a.1 + b.1)
}

/// Fixed-point product of two points: each component of the exact product is
/// rescaled by `SCALE` with truncating division.
pub open spec fn mul_spec(a: (int, int), b: (int, int)) -> (int, int) {
    (
        tdiv(a.0 * b.0 - a.1 * b.1, SCALE as int),
        tdiv(a.0 * b.1 + a.1 * b.0, SCALE as int),
    )
}

/// Squared distance from the origin, in units of `SCALE * SCALE`.
pub open spec fn norm_sq(z: (int, int)) -> int {
    z.0 * z.0 + z.1 * z.1
}

/// Truncating division shrinks magnitudes: a bound on the dividend divides
/// through to the quotient.
pub proof fn lemma_tdiv_bound(x: int, d: int, xb: int)
    requires
        1 <= d,
        -xb <= x <= xb,
    ensures
        -(xb / d) <= tdiv(x, d) <= xb / d,
{
    if x >= 0 {
        lemma_div_pos_is_pos(x, d);
        lemma_div_is_ordered(x, xb, d);
        lemma_div_pos_is_pos(xb, d);
    } else {
        lemma_div_pos_is_pos(-x, d);
        lemma_div_is_ordered(-x, xb, d);
        lemma_div_pos_is_pos(xb, d);
    }
}

/// `add(a, b)`: exact componentwise addition.
pub fn add(a: Complex, b: Complex) -> (r: Complex)
    requires
        i64::MIN <= a.re + b.re <= i64::MAX,
        i64::MIN <= a.im + b.im <= i64::MAX,
    ensures
        r@ == add_spec(a@, b@),
{
    Complex { re: a.re + b.re, im: a.im + b.im }
}

/// `multiply(a, b)`: fixed-point complex product, exactly `mul_spec`.
pub fn multiply(a: Complex, b: Complex) -> (r: Complex)
    requires
        -MUL_LIMIT <= a.re <= MUL_LIMIT,
        -MUL_LIMIT <= a.im <= MUL_LIMIT,
        -MUL_LIMIT <= b.re <= MUL_LIMIT,
        -MUL_LIMIT <= b.im <= MUL_LIMIT,
    ensures
        r@ == mul_spec(a@, b@),
{
    proof {
        let lim = MUL_LIMIT as int;
        assert(forall|x: int, y: int|
            -lim <= x <= lim && -lim <= y <= lim ==> #[trigger] (x * y) <= lim * lim && -(lim
                * lim) <= x * y) by (nonlinear_arith);
    }
    let ar: i128 = a.re as i128;
    let ai: i128 = a.im as i128;
    let br: i128 = b.re as i128;
    let bi: i128 = b.im as i128;
    let re_num: i128 = ar * br - ai * bi;
    let im_num: i128 = ar * bi + ai * br;
    proof {
        lemma_tdiv_bound(re_num as int, SCALE as int, 2 * (MUL_LIMIT as int) * (MUL_LIMIT as int));
        lemma_tdiv_bound(im_num as int, SCALE as int, 2 * (MUL_LIMIT as int) * (MUL_LIMIT as int));
    }
    let re_q: i128 = re_num / (SCALE as i128);
    let im_q: i128 = im_num / (SCALE as i128);
    Complex { re: re_q as i64, im: im_q as i64 }
}

/// `norm_squared(a)`: the exact value `re*re + im*im`, wide enough that no
/// admissible input overflows.
pub fn norm_squared(a: Complex) -> (r: i128)
    requires
        -NORM_LIMIT < a.re < NORM_LIMIT,
        -NORM_LIMIT < a.im < NORM_LIMIT,
    ensures
        r == norm_sq(a@),
{
    proof {
        let lim = NORM_LIMIT as int;
        assert(forall|x: int| -lim < x < lim ==> 0 <= #[trigger] (x * x) < lim * lim)
            by (nonlinear_arith);
    }
    let re: i128 = a.re as i128;
    let im: i128 = a.im as i128;
    re * re + im * im
}

} // verus!
