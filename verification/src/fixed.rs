//! Fixed-point arithmetic helpers: scaling products, clamping, and a
//! rational approximation of sine and cosine on fixed-point radians.

use vstd::prelude::*;
use vstd::arithmetic::div_mod::{
    lemma_div_is_ordered, lemma_div_multiples_vanish, lemma_fundamental_div_mod,
    lemma_fundamental_div_mod_converse, lemma_mod_bound,
};

verus! {

/// Truncating division of `a` by a positive divisor `d`: rounds toward
/// zero, as the `/` operator does on machine integers.
pub open spec fn spec_div_trunc(a: int, d: int) -> int {
    if a >= 0 {
        a / d
    } else {
        -((-a) / d)
    }
}

/// `a * b / 1000`, truncated toward zero: the product of two fixed-point
/// quantities brought back to the common scale.
pub open spec fn spec_mul_scale(a: int, b: int) -> int {
    spec_div_trunc(a * b, 1000)
}

proof fn lemma_div_trunc_abs(a: int, d: int)
    requires
        d > 0,
    ensures
        a >= 0 ==> 0 <= spec_div_trunc(a, d) <= a / d,
        a < 0 ==> 0 >= spec_div_trunc(a, d) >= -((-a) / d),
{
    if a >= 0 {
        lemma_fundamental_div_mod(a, d);
        lemma_mod_bound(a, d);
    } else {
        lemma_fundamental_div_mod(-a, d);
        lemma_mod_bound(-a, d);
    }
}

/// Magnitude bound carried through the scaling product: the result is no
/// larger than `|a * b| / 1000`.
pub proof fn lemma_mul_scale_bound(a: int, b: int, m: int)
    requires
        -m <= a * b <= m,
        m >= 0,
    ensures
        -(m / 1000) <= spec_mul_scale(a, b) <= m / 1000,
{
    lemma_div_trunc_abs(a * b, 1000);
    if a * b >= 0 {
        lemma_div_is_ordered(a * b, m, 1000);
    } else {
        lemma_div_is_ordered(-(a * b), m, 1000);
    }
}

/// Scaling by a factor of magnitude at most one scaled unit (such as a
/// sine or cosine) never grows a quantity.
pub proof fn lemma_mul_scale_small(a: int, b: int, m: int)
    requires
        -m <= a <= m,
        0 <= m,
        -1000 <= b <= 1000,
    ensures
        -m <= spec_mul_scale(a, b) <= m,
{
    assert(-(m * 1000) <= a * b <= m * 1000) by (nonlinear_arith)
        requires
            -m <= a <= m,
            0 <= m,
            -1000 <= b <= 1000,
    ;
    lemma_mul_scale_bound(a, b, m * 1000);
    lemma_div_multiples_vanish(m, 1000);
}

/// Truncating division by a positive divisor preserves order.
pub proof fn lemma_div_trunc_ordered(x: int, y: int, d: int)
    requires
        x <= y,
        d > 0,
    ensures
        spec_div_trunc(x, d) <= spec_div_trunc(y, d),
{
    if x >= 0 {
        lemma_div_is_ordered(x, y, d);
    } else if y >= 0 {
        lemma_div_trunc_abs(x, d);
        lemma_div_trunc_abs(y, d);
    } else {
        lemma_div_is_ordered(-y, -x, d);
    }
}

/// Scaling by a positive factor preserves order.
pub proof fn lemma_mul_scale_ordered(a: int, b: int, c: int)
    requires
        a <= b,
        c > 0,
    ensures
        spec_mul_scale(a, c) <= spec_mul_scale(b, c),
{
    assert(a * c <= b * c) by (nonlinear_arith)
        requires
            a <= b,
            c > 0,
    ;
    lemma_div_trunc_ordered(a * c, b * c, 1000);
}

/// Unsigned truncating division, the shared exec core.
fn div_trunc(a: i64, d: u64) -> (r: i64)
    requires
        0 < d,
        -1_000_000_000_000_000_000 <= a <= 1_000_000_000_000_000_000,
    ensures
        r == spec_div_trunc(a as int, d as int),
{
    if a >= 0 {
        let q: u64 = (a as u64) / d;
        proof {
            lemma_div_is_ordered(a as int, 1_000_000_000_000_000_000, d as int);
            lemma_div_multiples_vanish(1, d as int);
        }
        q as i64
    } else {
        let q: u64 = ((-a) as u64) / d;
        proof {
            lemma_div_is_ordered((-a) as int, 1_000_000_000_000_000_000, d as int);
            lemma_div_multiples_vanish(1, d as int);
        }
        -(q as i64)
    }
}

/// `a * b / 1000` on machine integers; the factors are bounded so the
/// product fits in 64 bits.
pub fn mul_scale(a: i64, b: i64) -> (r: i64)
    requires
        -1_000_000_000 <= a <= 1_000_000_000,
        -1_000_000_000 <= b <= 1_000_000_000,
    ensures
        r == spec_mul_scale(a as int, b as int),
{
    proof {
        assert(-1_000_000_000_000_000_000 <= a * b <= 1_000_000_000_000_000_000)
            by (nonlinear_arith)
            requires
                -1_000_000_000 <= a <= 1_000_000_000,
                -1_000_000_000 <= b <= 1_000_000_000,
        ;
    }
    let p: i64 = a * b;
    div_trunc(p, 1000)
}

/// Clamp `v` to the closed interval `[lo, hi]`.
pub open spec fn spec_clamp(v: int, lo: int, hi: int) -> int {
    if v < lo {
        lo
    } else if v > hi {
        hi
    } else {
        v
    }
}

pub fn clamp_i64(v: i64, lo: i64, hi: i64) -> (r: i64)
    requires
        lo <= hi,
    ensures
        r == spec_clamp(v as int, lo as int, hi as int),
        lo <= r <= hi,
{
    if v < lo {
        lo
    } else if v > hi {
        hi
    } else {
        v
    }
}

/// Rational quarter-wave approximation of the sine on `[0, pi]`: for `x`
/// in fixed-point radians between 0 and 3142, the value of
/// `16 x (pi - x) / (5 pi^2 - 4 x (pi - x))`, scaled to a result in
/// `[0, 1000]`.
pub open spec fn spec_sin_half(x: int) -> int {
    16000 * (x * (3142 - x)) / (49360820 - 4 * (x * (3142 - x)))
}

/// Sine of an arbitrary fixed-point angle, by periodicity and odd
/// symmetry of the half-wave approximation. Result is scaled by 1000.
pub open spec fn spec_sin_fp(t: int) -> int {
    let a = t % 6283;
    if a < 3142 {
        spec_sin_half(a)
    } else {
        -spec_sin_half(a - 3142)
    }
}

/// Cosine as the sine shifted a quarter period.
pub open spec fn spec_cos_fp(t: int) -> int {
    spec_sin_fp(t + 1571)
}

proof fn lemma_sin_half_range(x: int)
    requires
        0 <= x <= 3142,
    ensures
        0 <= spec_sin_half(x) <= 1000,
        x == 0 ==> spec_sin_half(x) == 0,
{
    let p = x * (3142 - x);
    assert(0 <= p <= 2468041) by (nonlinear_arith)
        requires
            0 <= x <= 3142,
            p == x * (3142 - x),
    ;
    let den = 49360820 - 4 * p;
    assert(den >= 39488656);
    assert(16000 * p >= 0) by (nonlinear_arith)
        requires
            p >= 0,
    ;
    assert(16000 * p <= 1000 * den) by (nonlinear_arith)
        requires
            p <= 2468041,
            den == 49360820 - 4 * p,
    ;
    lemma_div_is_ordered(16000 * p, 1000 * den, den);
    lemma_div_multiples_vanish(1000, den);
    vstd::arithmetic::div_mod::lemma_div_pos_is_pos(16000 * p, den);
}

/// The sine approximation always stays within one scaled unit.
pub proof fn lemma_sin_fp_range(t: int)
    ensures
        -1000 <= spec_sin_fp(t) <= 1000,
{
    lemma_mod_bound(t, 6283);
    let a = t % 6283;
    if a < 3142 {
        lemma_sin_half_range(a);
    } else {
        lemma_sin_half_range(a - 3142);
    }
}

/// The cosine approximation always stays within one scaled unit.
pub proof fn lemma_cos_fp_range(t: int)
    ensures
        -1000 <= spec_cos_fp(t) <= 1000,
{
    lemma_sin_fp_range(t + 1571);
}

fn sin_half(x: i64) -> (r: i64)
    requires
        0 <= x <= 3142,
    ensures
        r == spec_sin_half(x as int),
        0 <= r <= 1000,
{
    proof {
        lemma_sin_half_range(x as int);
        assert(0 <= x * (3142 - x) <= 2468041) by (nonlinear_arith)
            requires
                0 <= x <= 3142,
        ;
    }
    let p: i64 = x * (3142 - x);
    let num: u64 = 16000 * (p as u64);
    let den: u64 = 49360820 - 4 * (p as u64);
    let q: u64 = num / den;
    q as i64
}

/// Reduce an angle to `[0, 2 pi)` in fixed-point units; this is the
/// mathematical (always non-negative) remainder.
fn reduce_angle(t: i64) -> (r: i64)
    requires
        -1_000_000_000_000_000_000 <= t <= 1_000_000_000_000_000_000,
    ensures
        r == t as int % 6283,
        0 <= r < 6283,
{
    proof {
        lemma_mod_bound(t as int, 6283);
    }
    if t >= 0 {
        ((t as u64) % 6283) as i64
    } else {
        let m: u64 = ((-t) as u64) % 6283;
        proof {
            let q = (-t) as int / 6283;
            lemma_fundamental_div_mod((-t) as int, 6283);
            lemma_mod_bound((-t) as int, 6283);
            if m == 0 {
                lemma_fundamental_div_mod_converse(t as int, 6283, -q, 0);
            } else {
                lemma_fundamental_div_mod_converse(t as int, 6283, -q - 1, 6283 - m);
            }
        }
        if m == 0 {
            0
        } else {
            (6283 - m) as i64
        }
    }
}

/// Sine of a fixed-point angle, scaled by 1000.
pub fn sin_fp(t: i64) -> (r: i64)
    requires
        -1_000_000_000_000_000_000 <= t <= 1_000_000_000_000_000_000,
    ensures
        r == spec_sin_fp(t as int),
        -1000 <= r <= 1000,
{
    proof {
        lemma_sin_fp_range(t as int);
    }
    let a = reduce_angle(t);
    if a < 3142 {
        sin_half(a)
    } else {
        -sin_half(a - 3142)
    }
}

/// Cosine of a fixed-point angle, scaled by 1000.
pub fn cos_fp(t: i64) -> (r: i64)
    requires
        -1_000_000_000_000_000_000 <= t <= 999_999_999_999_998_000,
    ensures
        r == spec_cos_fp(t as int),
        -1000 <= r <= 1000,
{
    sin_fp(t + 1571)
}

} // verus!
