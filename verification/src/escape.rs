//! The escape-time evaluator: starting from `z`, repeatedly apply
//! `z = z * z + c` and count the applications until the squared norm exceeds
//! the squared bound, or the count reaches the iteration cap. A pixel that
//! never escapes reports exactly the cap (the "never escaped" sentinel is the
//! maximum value, not zero).

use crate::complex::{
    add_spec, lemma_tdiv_bound, mul_spec, multiply, norm_sq, norm_squared, Complex, SCALE,
};
use vstd::arithmetic::div_mod::lemma_div_is_ordered;
use vstd::prelude::*;

verus! {

/// Largest coordinate component magnitude a render job may use (2^33, that is
/// 512.0 in plane units): keeps every orbit step inside `i64`.
pub const COORD_LIMIT: i64 = 8589934592;

/// Largest escape bound a render job may use (2^28, that is 16.0 in plane
/// units).
pub const BOUND_LIMIT: i64 = 268435456;

/// Magnitude every orbit component stays under while the orbit has not
/// escaped a bound of at most `BOUND_LIMIT` (2^34).
pub const ORBIT_LIMIT: i64 = 17179869184;

/// Largest admissible squared bound (2^56): `BOUND_LIMIT` squared.
pub const BOUND_SQ_LIMIT: i128 = 72057594037927936;

/// One application of the iteration formula `z * z + c`.
pub open spec fn step(z: (int, int), c: (int, int)) -> (int, int) {
    add_spec(mul_spec(z, z), c)
}

/// The orbit of `z0` under the formula: `k` applications of `step`.
pub open spec fn orbit(z0: (int, int), c: (int, int), k: nat) -> (int, int)
    decreases k,
{
    if k == 0 {
        z0
    } else {
        step(orbit(z0, c, (k - 1) as nat), c)
    }
}

/// How many iterations `evaluate` performs: the index of the first orbit
/// point whose squared norm exceeds `bound_sq`, capped at `max_iter`.
pub open spec fn escape_time(z: (int, int), c: (int, int), bound_sq: int, max_iter: nat) -> nat
    decreases max_iter,
{
    if max_iter == 0 {
        0
    } else if norm_sq(z) > bound_sq {
        0
    } else {
        1 + escape_time(step(z, c), c, bound_sq, (max_iter - 1) as nat)
    }
}

/// Dropping the orbit's start: the point after `k >= 1` steps from `z0` is
/// the point after `k - 1` steps from `step(z0, c)`.
pub proof fn lemma_orbit_shift(z0: (int, int), c: (int, int), k: nat)
    requires
        k >= 1,
    ensures
        orbit(z0, c, k) == orbit(step(z0, c), c, (k - 1) as nat),
    decreases k,
{
    if k == 1 {
        assert(orbit(z0, c, 0) == z0);
        assert(orbit(step(z0, c), c, 0) == step(z0, c));
    } else {
        lemma_orbit_shift(z0, c, (k - 1) as nat);
    }
}

/// `escape_time` is exactly the first escape index, capped: no orbit point
/// before it escapes, and the point at it escapes unless the cap was hit.
pub proof fn lemma_escape_time_exact(z0: (int, int), c: (int, int), bound_sq: int, max_iter: nat)
    ensures
        escape_time(z0, c, bound_sq, max_iter) <= max_iter,
        forall|k: nat|
            k < escape_time(z0, c, bound_sq, max_iter) ==> norm_sq(orbit(z0, c, k)) <= bound_sq,
        escape_time(z0, c, bound_sq, max_iter) < max_iter ==> norm_sq(
            orbit(z0, c, escape_time(z0, c, bound_sq, max_iter)),
        ) > bound_sq,
    decreases max_iter,
{
    if max_iter > 0 && norm_sq(z0) <= bound_sq {
        let tail = escape_time(step(z0, c), c, bound_sq, (max_iter - 1) as nat);
        lemma_escape_time_exact(step(z0, c), c, bound_sq, (max_iter - 1) as nat);
        assert forall|k: nat| k < 1 + tail implies norm_sq(orbit(z0, c, k)) <= bound_sq by {
            if k >= 1 {
                lemma_orbit_shift(z0, c, k);
            }
        }
        if 1 + tail < max_iter {
            lemma_orbit_shift(z0, c, (1 + tail) as nat);
        }
    }
}

/// Law: for every cap, the escape count lies in `[0, max_iter]`.
pub proof fn lemma_escape_time_within_cap(
    z0: (int, int),
    c: (int, int),
    bound_sq: int,
    max_iter: nat,
)
    ensures
        escape_time(z0, c, bound_sq, max_iter) <= max_iter,
{
    lemma_escape_time_exact(z0, c, bound_sq, max_iter);
}

/// Law: a start already beyond the bound escapes immediately, with count 0.
pub proof fn lemma_immediate_escape(z0: (int, int), c: (int, int), bound_sq: int, max_iter: nat)
    requires
        norm_sq(z0) > bound_sq,
    ensures
        escape_time(z0, c, bound_sq, max_iter) == 0,
{
}

/// Law: an orbit that never escapes within the cap reports exactly the cap.
pub proof fn lemma_never_escapes(z0: (int, int), c: (int, int), bound_sq: int, max_iter: nat)
    requires
        forall|k: nat| k < max_iter ==> norm_sq(orbit(z0, c, k)) <= bound_sq,
    ensures
        escape_time(z0, c, bound_sq, max_iter) == max_iter,
{
    lemma_escape_time_exact(z0, c, bound_sq, max_iter);
    let r = escape_time(z0, c, bound_sq, max_iter);
    if r < max_iter {
        assert(norm_sq(orbit(z0, c, r)) > bound_sq);
        assert(norm_sq(orbit(z0, c, r)) <= bound_sq);
    }
}

/// While an orbit point has not escaped a bound within `BOUND_SQ_LIMIT`, the
/// next point stays within `ORBIT_LIMIT`, provided `c` is a job coordinate.
proof fn lemma_step_bounded(z: (int, int), c: (int, int), bound_sq: int)
    requires
        norm_sq(z) <= bound_sq,
        0 <= bound_sq <= BOUND_SQ_LIMIT as int,
        -COORD_LIMIT <= c.0 <= COORD_LIMIT,
        -COORD_LIMIT <= c.1 <= COORD_LIMIT,
    ensures
        -ORBIT_LIMIT <= step(z, c).0 <= ORBIT_LIMIT,
        -ORBIT_LIMIT <= step(z, c).1 <= ORBIT_LIMIT,
{
    let s = SCALE as int;
    assert(z.0 * z.0 >= 0 && z.1 * z.1 >= 0) by (nonlinear_arith);
    assert(z.0 * z.1 + z.1 * z.0 <= z.0 * z.0 + z.1 * z.1 && -(z.0 * z.0 + z.1 * z.1) <= z.0 * z.1
        + z.1 * z.0) by (nonlinear_arith);
    lemma_tdiv_bound(z.0 * z.0 - z.1 * z.1, s, bound_sq);
    lemma_tdiv_bound(z.0 * z.1 + z.1 * z.0, s, bound_sq);
    lemma_div_is_ordered(bound_sq, BOUND_SQ_LIMIT as int, s);
}

/// One executable application of the iteration formula, exactly `step`.
fn step_exec(z: Complex, c: Complex) -> (r: Complex)
    requires
        -ORBIT_LIMIT <= z.re <= ORBIT_LIMIT,
        -ORBIT_LIMIT <= z.im <= ORBIT_LIMIT,
        -COORD_LIMIT <= c.re <= COORD_LIMIT,
        -COORD_LIMIT <= c.im <= COORD_LIMIT,
    ensures
        r@ == step(z@, c@),
{
    let zz = multiply(z, z);
    proof {
        let lim = ORBIT_LIMIT as int;
        assert(forall|x: int, y: int|
            -lim <= x <= lim && -lim <= y <= lim ==> #[trigger] (x * y) <= lim * lim && -(lim
                * lim) <= x * y) by (nonlinear_arith);
        lemma_tdiv_bound(z.re * z.re - z.im * z.im, SCALE as int, 2 * lim * lim);
        lemma_tdiv_bound(z.re * z.im + z.im * z.re, SCALE as int, 2 * lim * lim);
    }
    crate::complex::add(zz, c)
}

/// `evaluate(z0, c, bound, max_iter)`: iterate `z = z * z + c` from `z0`,
/// returning the count of completed applications when the squared norm first
/// exceeds `bound * bound`, or `max_iter` if that never happens within the
/// cap. The result is exactly `escape_time` on the fixed-point model.
pub fn evaluate(z0: Complex, c: Complex, bound: i64, max_iter: usize) -> (r: usize)
    requires
        -COORD_LIMIT <= z0.re <= COORD_LIMIT,
        -COORD_LIMIT <= z0.im <= COORD_LIMIT,
        -COORD_LIMIT <= c.re <= COORD_LIMIT,
        -COORD_LIMIT <= c.im <= COORD_LIMIT,
        0 <= bound <= BOUND_LIMIT,
    ensures
        r == escape_time(z0@, c@, bound * bound, max_iter as nat),
        r <= max_iter,
{
    proof {
        assert(0 <= bound * bound <= BOUND_SQ_LIMIT as int) by (nonlinear_arith)
            requires
                0 <= bound <= BOUND_LIMIT,
                BOUND_SQ_LIMIT == 72057594037927936,
                BOUND_LIMIT == 268435456,
        ;
    }
    let bound_sq: i128 = (bound as i128) * (bound as i128);
    let mut z = z0;
    let mut counter: usize = 0;
    loop
        invariant
            counter <= max_iter,
            -ORBIT_LIMIT <= z.re <= ORBIT_LIMIT,
            -ORBIT_LIMIT <= z.im <= ORBIT_LIMIT,
            -COORD_LIMIT <= c.re <= COORD_LIMIT,
            -COORD_LIMIT <= c.im <= COORD_LIMIT,
            bound_sq == bound * bound,
            0 <= bound_sq <= BOUND_SQ_LIMIT,
            escape_time(z0@, c@, bound * bound, max_iter as nat) == counter + escape_time(
                z@,
                c@,
                bound * bound,
                (max_iter - counter) as nat,
            ),
        decreases max_iter - counter,
    {
        if counter == max_iter {
            return counter;
        }
        let ns = norm_squared(z);
        if ns > bound_sq {
            return counter;
        }
        proof {
            lemma_step_bounded(z@, c@, bound_sq as int);
        }
        z = step_exec(z, c);
        counter = counter + 1;
    }
}

} // verus!
