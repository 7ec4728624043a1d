//! Fixed-point arithmetic core.
//!
//! Coordinates, widths and heights are integers counted in `1/SCALE` world
//! units.  All derived quantities (projection parameters, distances, channel
//! values) are defined exactly over the integers, so every geometric result
//! has a closed-form specification.

use vstd::prelude::*;

verus! {

use vstd::arithmetic::div_mod::lemma_fundamental_div_mod_converse;
use vstd::arithmetic::div_mod::lemma_hoist_over_denominator;

/// Number of fixed-point steps per world unit.
pub const SCALE: i64 = 65536;

/// Largest coordinate magnitude (in `1/SCALE` units) the evaluators accept;
/// it keeps every intermediate product inside `i128`.
pub const COORD_LIMIT: i64 = 1_000_000_000;

/// Quotient of two non-negative integers; Euclidean division on `int`
/// coincides with the mathematical floor for a positive divisor.
pub fn div_nn(a: i128, b: i128) -> (q: i128)
    requires
        0 <= a,
        0 < b,
    ensures
        q == a as int / b as int,
        0 <= q <= a,
{
    let qq: u128 = (a as u128) / (b as u128);
    proof {
        assert(a as u128 == a as int);
        assert(b as u128 == b as int);
        vstd::arithmetic::div_mod::lemma_div_nonincreasing(a as int, b as int);
        vstd::arithmetic::div_mod::lemma_div_pos_is_pos(a as int, b as int);
    }
    qq as i128
}

/// Quotient of a possibly negative numerator by a positive divisor, as the
/// mathematical floor; Euclidean division on `int` agrees with it there.
pub fn div_floor(a: i128, b: i128) -> (q: i128)
    requires
        -0x1_0000_0000_0000_0000_0000_0000_0000 <= a <= 0x1_0000_0000_0000_0000_0000_0000_0000,
        0 < b <= 0x1_0000_0000_0000_0000,
    ensures
        q == a as int / b as int,
{
    if a >= 0 {
        div_nn(a, b)
    } else {
        let na: i128 = -a;
        let q0: i128 = div_nn(na + b - 1, b);
        proof {
            vstd::arithmetic::div_mod::lemma_fundamental_div_mod(na + b - 1, b as int);
            let k = (na + b - 1) as int / b as int;
            let r = (na + b - 1) as int % b as int;
            assert(a == (-k) * (b as int) + ((b as int) - 1 - r)) by (nonlinear_arith)
                requires (na as int) + b - 1 == (b as int) * k + r, a == -(na as int)
            ;
            lemma_fundamental_div_mod_converse(a as int, b as int, -k, b - 1 - r);
        }
        -q0
    }
}

/// `r` is the integer square root of `n`, rounded down.
pub open spec fn is_sqrt_floor(n: int, r: int) -> bool {
    0 <= r && r * r <= n && n < (r + 1) * (r + 1)
}

/// Integer square root of `n`, rounded down.
pub open spec fn sqrt_floor(n: int) -> int {
    choose|r: int| is_sqrt_floor(n, r)
}

/// Every non-negative integer has a rounded-down square root.
pub proof fn lemma_sqrt_floor(n: int)
    requires
        0 <= n,
    ensures
        is_sqrt_floor(n, sqrt_floor(n)),
    decreases n,
{
    if n == 0 {
        assert(is_sqrt_floor(0, 0));
    } else {
        lemma_sqrt_floor(n - 1);
        let r0 = sqrt_floor(n - 1);
        if (r0 + 1) * (r0 + 1) <= n {
            assert((r0 + 1) * (r0 + 1) == n);
            assert(n < (r0 + 2) * (r0 + 2)) by (nonlinear_arith)
                requires n == (r0 + 1) * (r0 + 1), r0 >= 0
            ;
            assert(is_sqrt_floor(n, r0 + 1));
        } else {
            assert(is_sqrt_floor(n, r0));
        }
    }
}

/// Any witness of `is_sqrt_floor` is the rounded-down square root.
pub proof fn lemma_sqrt_floor_unique(n: int, r: int)
    requires
        0 <= n,
        is_sqrt_floor(n, r),
    ensures
        r == sqrt_floor(n),
{
    lemma_sqrt_floor(n);
    let r2 = sqrt_floor(n);
    assert(r == r2) by (nonlinear_arith)
        requires is_sqrt_floor(n, r), is_sqrt_floor(n, r2)
    ;
}

/// A number whose square is at most `n` is at most `sqrt_floor(n)`.
pub proof fn lemma_sqrt_floor_at_least(n: int, c: int)
    requires
        0 <= c,
        c * c <= n,
    ensures
        c <= sqrt_floor(n),
{
    lemma_sqrt_floor(n);
    let r = sqrt_floor(n);
    assert(c <= r) by (nonlinear_arith)
        requires 0 <= c, c * c <= n, is_sqrt_floor(n, r)
    ;
}

/// `sqrt_floor(n)` is at most `c` whenever `n < (c + 1) * (c + 1)`.
pub proof fn lemma_sqrt_floor_at_most(n: int, c: int)
    requires
        0 <= n,
        0 <= c,
        n < (c + 1) * (c + 1),
    ensures
        sqrt_floor(n) <= c,
{
    lemma_sqrt_floor(n);
    let r = sqrt_floor(n);
    assert(r <= c) by (nonlinear_arith)
        requires 0 <= c, n < (c + 1) * (c + 1), is_sqrt_floor(n, r)
    ;
}

/// Largest `r` with `r * r <= n`.
pub fn isqrt(n: u128) -> (r: u128)
    ensures
        r * r <= n,
        n < (r + 1) * (r + 1),
        r < 0x1_0000_0000_0000_0000,
        r == sqrt_floor(n as int),
{
    let mut lo: u128 = 0;
    let mut hi: u128 = 0xffff_ffff_ffff_ffff;
    if n < hi {
        hi = n;
    }
    proof {
        assert(n < (hi + 1) * (hi + 1)) by (nonlinear_arith)
            requires hi == n || (hi == 0xffff_ffff_ffff_ffffu128 && n <= u128::MAX)
        ;
    }
    while lo < hi
        invariant
            lo <= hi,
            hi <= 0xffff_ffff_ffff_ffff,
            lo * lo <= n,
            n < (hi + 1) * (hi + 1),
        decreases hi - lo,
    {
        let mid: u128 = lo + (hi - lo + 1) / 2;
        proof {
            assert(lo < mid <= hi);
            assert(mid * mid <= 0xffff_ffff_ffff_ffff * 0xffff_ffff_ffff_ffff)
                by (nonlinear_arith)
                requires mid <= 0xffff_ffff_ffff_ffff
            ;
        }
        if mid * mid <= n {
            lo = mid;
        } else {
            hi = mid - 1;
        }
    }
    proof {
        lemma_sqrt_floor_unique(n as int, lo as int);
    }
    lo
}

/// Linear interpolation from `a` (at `t == 0`) to `b` (at `t == SCALE`),
/// rounded down.
pub open spec fn lerp_spec(a: int, b: int, t: int) -> int {
    (b * t + a * (SCALE - t)) / (SCALE as int)
}

/// The interpolant stays between its endpoints.
pub proof fn lemma_lerp_bounds(a: int, b: int, t: int)
    requires
        0 <= t <= SCALE,
    ensures
        a <= b ==> a <= lerp_spec(a, b, t) <= b,
        b <= a ==> b <= lerp_spec(a, b, t) <= a,
{
    let s = SCALE as int;
    let lo = if a <= b { a } else { b };
    let hi = if a <= b { b } else { a };
    let x = b * t + a * (s - t);
    assert(lo * s <= x <= hi * s) by (nonlinear_arith)
        requires 0 <= t <= s, lo <= a <= hi, lo <= b <= hi, x == b * t + a * (s - t)
    ;
    vstd::arithmetic::div_mod::lemma_div_multiples_vanish(lo, s);
    vstd::arithmetic::div_mod::lemma_div_multiples_vanish(hi, s);
    assert(lo * s == s * lo) by (nonlinear_arith);
    assert(hi * s == s * hi) by (nonlinear_arith);
    vstd::arithmetic::div_mod::lemma_div_is_ordered(lo * s, x, s);
    vstd::arithmetic::div_mod::lemma_div_is_ordered(x, hi * s, s);
}

/// `lerp_spec` hits its endpoints exactly.
pub proof fn lemma_lerp_ends(a: int, b: int)
    ensures
        lerp_spec(a, b, 0) == a,
        lerp_spec(a, b, SCALE as int) == b,
{
    let s = SCALE as int;
    assert(b * 0 + a * (s - 0) == a * s) by (nonlinear_arith);
    assert(b * s + a * (s - s) == b * s) by (nonlinear_arith);
    assert((a * s) / s == a) by (nonlinear_arith)
        requires s > 0
    ;
    assert((b * s) / s == b) by (nonlinear_arith)
        requires s > 0
    ;
}

/// Fixed-point linear interpolation between two bounded values.
pub fn lerp(a: i64, b: i64, t: i64) -> (r: i64)
    requires
        -COORD_LIMIT <= a <= COORD_LIMIT,
        -COORD_LIMIT <= b <= COORD_LIMIT,
        0 <= t <= SCALE,
    ensures
        r == lerp_spec(a as int, b as int, t as int),
        -COORD_LIMIT <= r <= COORD_LIMIT,
{
    let off: i128 = COORD_LIMIT as i128;
    let s: i128 = SCALE as i128;
    let aa: i128 = a as i128 + off;
    let bb: i128 = b as i128 + off;
    proof {
        assert(0 <= bb * t <= 2 * (COORD_LIMIT as int) * (SCALE as int))
            by (nonlinear_arith)
            requires 0 <= bb <= 2 * (COORD_LIMIT as int), 0 <= t <= SCALE
        ;
        assert(0 <= aa * (s - t) <= 2 * (COORD_LIMIT as int) * (SCALE as int))
            by (nonlinear_arith)
            requires 0 <= aa <= 2 * (COORD_LIMIT as int), 0 <= t <= SCALE, s == SCALE
        ;
    }
    let num: i128 = bb * (t as i128) + aa * (s - t as i128);
    let q: i128 = div_nn(num, s);
    proof {
        let x = (b as int) * t + (a as int) * ((SCALE as int) - t);
        assert(num == x + (COORD_LIMIT as int) * (SCALE as int)) by (nonlinear_arith)
            requires
                num == (b as int + COORD_LIMIT) * t
                    + (a as int + COORD_LIMIT) * ((SCALE as int) - t),
                x == (b as int) * t + (a as int) * ((SCALE as int) - t),
        ;
        lemma_hoist_over_denominator(x, COORD_LIMIT as int, SCALE as nat);
        lemma_lerp_bounds(a as int, b as int, t as int);
    }
    (q - off) as i64
}

} // verus!
