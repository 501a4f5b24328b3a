//! Integer helpers: clamping and exact linear interpolation.

use vstd::prelude::*;
use vstd::arithmetic::div_mod::{lemma_basic_div, lemma_div_is_ordered, lemma_fundamental_div_mod};

verus! {

/// `x` moved into the interval from `lo` to `hi`.
pub open spec fn spec_clamp(x: int, lo: int, hi: int) -> int {
    if x < lo {
        lo
    } else if x > hi {
        hi
    } else {
        x
    }
}

/// The quotient of `n` by a positive `d`, rounded toward zero.
pub open spec fn trunc_div(n: int, d: int) -> int {
    if n >= 0 {
        n / d
    } else {
        -((-n) / d)
    }
}

/// The value at step `k` of `n` on the straight line from `a` (at step 0)
/// to `b` (at step `n`), rounded toward zero. With no steps at all the
/// value is `a`.
pub open spec fn spec_interpolate(a: int, b: int, k: int, n: int) -> int {
    if n == 0 {
        a
    } else {
        trunc_div(a * n + k * (b - a), n)
    }
}

/// A quotient rounded toward zero lies between any two integers that
/// enclose the exact quotient.
pub proof fn lemma_trunc_div_bounds(num: int, n: int, lo: int, hi: int)
    requires
        n > 0,
        lo * n <= num <= hi * n,
    ensures
        lo <= trunc_div(num, n) <= hi,
{
    if num >= 0 {
        let q = num / n;
        let r = num % n;
        lemma_fundamental_div_mod(num, n);
        assert(lo <= q <= hi) by (nonlinear_arith)
            requires
                n > 0,
                lo * n <= num <= hi * n,
                num == n * q + r,
                0 <= r < n,
        ;
    } else {
        let q = (-num) / n;
        let r = (-num) % n;
        lemma_fundamental_div_mod(-num, n);
        assert(lo <= -q <= hi) by (nonlinear_arith)
            requires
                n > 0,
                lo * n <= num <= hi * n,
                -num == n * q + r,
                0 <= r < n,
        ;
    }
}

/// An exact quotient is not changed by the rounding.
pub proof fn lemma_trunc_div_exact(q: int, n: int)
    requires
        n > 0,
    ensures
        trunc_div(q * n, n) == q,
{
    lemma_trunc_div_bounds(q * n, n, q, q);
}

/// Interpolation starts at `a`, ends at `b` and stays between the two.
pub proof fn lemma_interpolate_bounds(a: int, b: int, k: int, n: int)
    requires
        0 <= k <= n,
    ensures
        a <= b ==> a <= spec_interpolate(a, b, k, n) <= b,
        b <= a ==> b <= spec_interpolate(a, b, k, n) <= a,
        spec_interpolate(a, b, 0, n) == a,
        n > 0 ==> spec_interpolate(a, b, n, n) == b,
{
    if n > 0 {
        let num = a * n + k * (b - a);
        if a <= b {
            assert(a * n <= num <= b * n) by (nonlinear_arith)
                requires
                    0 <= k <= n,
                    a <= b,
                    num == a * n + k * (b - a),
            ;
            lemma_trunc_div_bounds(num, n, a, b);
        } else {
            assert(b * n <= num <= a * n) by (nonlinear_arith)
                requires
                    0 <= k <= n,
                    b <= a,
                    num == a * n + k * (b - a),
            ;
            lemma_trunc_div_bounds(num, n, b, a);
        }
        assert(a * n + 0 * (b - a) == a * n);
        lemma_trunc_div_exact(a, n);
        assert(a * n + n * (b - a) == b * n) by (nonlinear_arith);
        lemma_trunc_div_exact(b, n);
    }
}

/// Rounding toward zero keeps the order of quotients.
pub proof fn lemma_trunc_div_monotone(a: int, b: int, n: int)
    requires
        n > 0,
        a <= b,
    ensures
        trunc_div(a, n) <= trunc_div(b, n),
{
    if a >= 0 {
        lemma_div_is_ordered(a, b, n);
    } else if b < 0 {
        lemma_div_is_ordered(-b, -a, n);
    } else {
        lemma_div_is_ordered(0, -a, n);
        lemma_div_is_ordered(0, b, n);
        lemma_basic_div(0, n);
    }
}

/// Interpolation keeps the order of its ends: moving either end up moves
/// no value on the line down.
pub proof fn lemma_interpolate_monotone(a1: int, b1: int, a2: int, b2: int, k: int, n: int)
    requires
        0 <= k <= n,
        a1 <= a2,
        b1 <= b2,
    ensures
        spec_interpolate(a1, b1, k, n) <= spec_interpolate(a2, b2, k, n),
{
    if n > 0 {
        assert(a1 * n + k * (b1 - a1) <= a2 * n + k * (b2 - a2)) by (nonlinear_arith)
            requires
                0 <= k <= n,
                a1 <= a2,
                b1 <= b2,
        ;
        lemma_trunc_div_monotone(a1 * n + k * (b1 - a1), a2 * n + k * (b2 - a2), n);
    }
}

/// Moves `x` into the interval from `lo` to `hi`.
pub fn clamp(x: i64, lo: i64, hi: i64) -> (r: i64)
    ensures
        r == spec_clamp(x as int, lo as int, hi as int),
{
    if x < lo {
        lo
    } else if x > hi {
        hi
    } else {
        x
    }
}

/// Computes the value at step `k` of `n` on the line from `a` to `b`.
pub fn interpolate(a: i64, b: i64, k: u32, n: u32) -> (r: i64)
    requires
        k <= n,
    ensures
        r == spec_interpolate(a as int, b as int, k as int, n as int),
{
    if n == 0 {
        return a;
    }
    proof {
        let (ai, bi, ki, ni) = (a as int, b as int, k as int, n as int);
        lemma_interpolate_bounds(ai, bi, ki, ni);
        assert(-0x8000_0000_0000_0000 * 0x1_0000_0000 <= ai * ni <= 0x8000_0000_0000_0000
            * 0x1_0000_0000) by (nonlinear_arith)
            requires
                -0x8000_0000_0000_0000 <= ai < 0x8000_0000_0000_0000,
                0 < ni < 0x1_0000_0000,
        ;
        assert(-0x1_0000_0000_0000_0000 * 0x1_0000_0000 <= ki * (bi - ai)
            <= 0x1_0000_0000_0000_0000 * 0x1_0000_0000) by (nonlinear_arith)
            requires
                -0x1_0000_0000_0000_0000 < bi - ai < 0x1_0000_0000_0000_0000,
                0 <= ki < 0x1_0000_0000,
        ;
    }
    let wide_n: i128 = n as i128;
    let num: i128 = (a as i128) * wide_n + (k as i128) * ((b as i128) - (a as i128));
    let q: i128 = if num >= 0 {
        num / wide_n
    } else {
        -((-num) / wide_n)
    };
    q as i64
}

} // verus!
