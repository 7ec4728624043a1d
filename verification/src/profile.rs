//! Pluggable cross-section capabilities.
//!
//! A [`Material`] exposes a constant albedo color; a [`Profile`] exposes the
//! cross-section height of a tube and the surface normal of a hit.  The
//! canonical circular profile evaluates a quartic approximation of the
//! cosine bump and tilts the normal algebraically by the cone angle a width
//! change induces, so every value is an exact integer function of the hit.

use vstd::prelude::*;

verus! {

use crate::fixed::COORD_LIMIT;
use crate::fixed::SCALE;
use crate::fixed::div_floor;
use crate::fixed::div_nn;
use crate::fixed::isqrt;
use crate::fixed::lemma_sqrt_floor;
use crate::fixed::lemma_sqrt_floor_at_least;
use crate::fixed::lemma_sqrt_floor_at_most;
use crate::fixed::sqrt_floor;
use crate::geometry::Vector3;
use crate::line::Line;

/// Capability exposing a constant albedo color.
pub trait Material: Sized {
    /// The color this material paints, one fixed-point value per channel.
    spec fn color_spec(&self) -> (int, int, int);

    /// Read the constant albedo color.
    fn get_color(&self) -> (r: Vector3)
        ensures
            (r.x as int, r.y as int, r.z as int) == self.color_spec(),
    ;
}

/// The default material: plain black.
#[derive(Clone, Copy, PartialEq, Eq, Structural, Debug)]
pub struct RopeMaterial;

impl Material for RopeMaterial {
    open spec fn color_spec(&self) -> (int, int, int) {
        (0int, 0int, 0int)
    }

    fn get_color(&self) -> (r: Vector3) {
        Vector3 { x: 0, y: 0, z: 0 }
    }
}

/// A material with one configurable constant color.
#[derive(Clone, Copy, PartialEq, Eq, Structural, Debug)]
pub struct SimpleColoredMaterial {
    pub color: Vector3,
}

impl SimpleColoredMaterial {
    pub fn new(color: Vector3) -> (r: SimpleColoredMaterial)
        ensures
            r.color == color,
    {
        SimpleColoredMaterial { color }
    }
}

impl Material for SimpleColoredMaterial {
    open spec fn color_spec(&self) -> (int, int, int) {
        (self.color.x as int, self.color.y as int, self.color.z as int)
    }

    fn get_color(&self) -> (r: Vector3) {
        self.color
    }
}

/// Capability exposing the cross-section shape of a tube.
pub trait Profile: Sized {
    /// Cross-section height at normalized offset `x` (fixed point in
    /// `-SCALE..=SCALE`), as a fraction of the local half-width.
    spec fn height_spec(&self, x: int) -> int;

    /// On the normalized range the height is at most one half-width either
    /// way, which keeps every composite elevation inside the evaluators'
    /// working range.
    proof fn height_spec_bounded(&self, x: int)
        requires
            -SCALE <= x <= SCALE,
        ensures
            -(SCALE as int) <= self.height_spec(x) <= SCALE as int,
    ;

    /// The unit surface normal for a hit on `line` at clamped parameter `t`
    /// and signed normalized offset `x`, with end widths `w1` and `w2`.
    spec fn normal_spec(&self, line: Line, w1: int, w2: int, t: int, x: int) -> (int, int, int);

    /// Evaluate the cross-section height.
    fn get_height(&self, x: i64) -> (r: i64)
        requires
            -SCALE <= x <= SCALE,
        ensures
            r as int == self.height_spec(x as int),
    ;

    /// Evaluate the surface normal.
    fn get_normal(&self, line: &Line, w1: i64, w2: i64, t: i64, x: i64) -> (r: Vector3)
        requires
            line.in_bounds(),
            1 <= w1 <= COORD_LIMIT,
            1 <= w2 <= COORD_LIMIT,
            0 <= t <= SCALE,
            -SCALE <= x <= SCALE,
        ensures
            (r.x as int, r.y as int, r.z as int) == self.normal_spec(
                *line,
                w1 as int,
                w2 as int,
                t as int,
                x as int,
            ),
    ;
}

/// Quartic fixed-point approximation of `cos` on `-1..=1` radians:
/// `1 - x^2/2 + x^4/24`, each power rounded down at `SCALE` resolution.
pub open spec fn cos_fix(x: int) -> int {
    let s = SCALE as int;
    let x2 = (x * x) / s;
    let x4 = (x2 * x2) / s;
    s - x2 / 2 + x4 / 24
}

/// On the normalized range the cosine bump stays inside `0..=SCALE`.
pub proof fn lemma_cos_fix_bounds(x: int)
    requires
        -SCALE <= x <= SCALE,
    ensures
        0 <= cos_fix(x) <= SCALE as int,
{
    let s = SCALE as int;
    assert(0 <= x * x <= s * s) by (nonlinear_arith)
        requires -s <= x <= s
    ;
    let x2 = (x * x) / s;
    vstd::arithmetic::div_mod::lemma_div_pos_is_pos(x * x, s);
    vstd::arithmetic::div_mod::lemma_div_is_ordered(x * x, s * s, s);
    vstd::arithmetic::div_mod::lemma_div_multiples_vanish(s, s);
    assert(x2 <= s);
    let x4 = (x2 * x2) / s;
    assert(0 <= x2 * x2 <= x2 * s) by (nonlinear_arith)
        requires 0 <= x2 <= s
    ;
    vstd::arithmetic::div_mod::lemma_div_pos_is_pos(x2 * x2, s);
    vstd::arithmetic::div_mod::lemma_div_is_ordered(x2 * x2, x2 * s, s);
    assert(x2 * s == s * x2) by (nonlinear_arith);
    vstd::arithmetic::div_mod::lemma_div_multiples_vanish(x2, s);
    assert(x4 <= x2);
    vstd::arithmetic::div_mod::lemma_div_pos_is_pos(x2, 2);
    vstd::arithmetic::div_mod::lemma_div_pos_is_pos(x4, 24);
    vstd::arithmetic::div_mod::lemma_div_is_ordered(x4, x2, 24);
    vstd::arithmetic::div_mod::lemma_div_is_ordered_by_denominator(x2, 2, 24);
    vstd::arithmetic::div_mod::lemma_div_is_ordered(x2, s, 2);
    vstd::arithmetic::div_mod::lemma_div_is_ordered_by_denominator(s, 1, 2);
    vstd::arithmetic::div_mod::lemma_div_basics(s);
}

/// Evaluate the cosine bump.
fn cos_fix_exec(x: i64) -> (r: i64)
    requires
        -SCALE <= x <= SCALE,
    ensures
        r as int == cos_fix(x as int),
        0 <= r <= SCALE,
{
    let s: i128 = SCALE as i128;
    let xx: i128 = x as i128;
    proof {
        assert(0 <= xx * xx <= (s as int) * (s as int)) by (nonlinear_arith)
            requires -s <= xx <= s
        ;
    }
    let x2: i128 = div_nn(xx * xx, s);
    proof {
        vstd::arithmetic::div_mod::lemma_div_is_ordered(xx * xx, (s as int) * (s as int), s as int);
        vstd::arithmetic::div_mod::lemma_div_multiples_vanish(s as int, s as int);
        assert(0 <= x2 * x2 <= (s as int) * (s as int)) by (nonlinear_arith)
            requires 0 <= x2 <= s, s == 65536
        ;
    }
    let x4: i128 = div_nn(x2 * x2, s);
    let h2: i128 = div_nn(x2, 2);
    let h4: i128 = div_nn(x4, 24);
    proof {
        lemma_cos_fix_bounds(x as int);
    }
    (s - h2 + h4) as i64
}

/// Fixed-point approximation of `sin(pi * x)` for normalized `x` in
/// `-1..=1`: the signed parabola `4 * x * (1 - |x|)`, rounded down.
pub open spec fn sin_pi_fix(x: int) -> int {
    let s = SCALE as int;
    if x >= 0 {
        (4 * x * (s - x)) / s
    } else {
        -((4 * (-x) * (s + x)) / s)
    }
}

/// On the normalized range the parabola stays inside `-SCALE..=SCALE`.
pub proof fn lemma_sin_pi_fix_bounds(x: int)
    requires
        -SCALE <= x <= SCALE,
    ensures
        -(SCALE as int) <= sin_pi_fix(x) <= SCALE as int,
{
    let s = SCALE as int;
    if x >= 0 {
        assert(0 <= 4 * x * (s - x) <= s * s) by (nonlinear_arith)
            requires 0 <= x <= s
        ;
        vstd::arithmetic::div_mod::lemma_div_pos_is_pos(4 * x * (s - x), s);
        vstd::arithmetic::div_mod::lemma_div_is_ordered(4 * x * (s - x), s * s, s);
        vstd::arithmetic::div_mod::lemma_div_multiples_vanish(s, s);
    } else {
        assert(0 <= 4 * (-x) * (s + x) <= s * s) by (nonlinear_arith)
            requires -s <= x < 0
        ;
        vstd::arithmetic::div_mod::lemma_div_pos_is_pos(4 * (-x) * (s + x), s);
        vstd::arithmetic::div_mod::lemma_div_is_ordered(4 * (-x) * (s + x), s * s, s);
        vstd::arithmetic::div_mod::lemma_div_multiples_vanish(s, s);
    }
}

/// Evaluate the half-turn sine approximation.
fn sin_pi_exec(x: i64) -> (r: i64)
    requires
        -SCALE <= x <= SCALE,
    ensures
        r as int == sin_pi_fix(x as int),
        -SCALE <= r <= SCALE,
{
    let s: i128 = SCALE as i128;
    proof {
        lemma_sin_pi_fix_bounds(x as int);
    }
    if x >= 0 {
        let num: i128 = 4 * (x as i128) * (s - x as i128);
        proof {
            assert(0 <= 4 * (x as i128) * ((s as int) - x) <= (s as int) * (s as int))
                by (nonlinear_arith)
                requires 0 <= x <= s, s == SCALE
            ;
        }
        div_nn(num, s) as i64
    } else {
        let num: i128 = 4 * (-(x as i128)) * (s + x as i128);
        proof {
            assert(0 <= 4 * (-(x as i128)) * ((s as int) + x) <= (s as int) * (s as int))
                by (nonlinear_arith)
                requires -s <= x < 0, s == SCALE
            ;
        }
        -(div_nn(num, s) as i64)
    }
}

/// Surface normal of the circular profile: the unit up vector tilted by the
/// cone angle `atan((w2 - w1) / |line|)` toward the segment direction and
/// rotated around the tube axis by the signed cross-section offset.  The
/// tilt uses `cos(atan(r)) = 1/sqrt(1 + r^2)` so no angle is ever computed.
/// A zero-length segment or a fully cancelled sum yields the plain up
/// vector as the defined sentinel.
pub open spec fn circle_normal_spec(line: Line, w1: int, w2: int, x: int) -> (int, int, int) {
    let s = SCALE as int;
    let len = sqrt_floor(line.len2());
    if len == 0 {
        (0int, 0int, s)
    } else {
        let fx = (line.vx() * s) / len;
        let fy = (line.vy() * s) / len;
        let dw = w2 - w1;
        let hyp = sqrt_floor(line.len2() + dw * dw);
        let ca = (len * s) / hyp;
        let sa = (dw * s) / hyp;
        let sp = sin_pi_fix(x);
        let nx = (sa * fx + sp * fy) / s;
        let ny = (sa * fy + sp * (-fx)) / s;
        let nn = nx * nx + ny * ny + ca * ca;
        let ln = sqrt_floor(nn);
        if ln == 0 {
            (0int, 0int, s)
        } else {
            ((nx * s) / ln, (ny * s) / ln, (ca * s) / ln)
        }
    }
}

/// A value whose square is bounded by `n` lies within `+-sqrt_floor(n)`.
proof fn lemma_abs_le_root(c: int, n: int)
    requires
        0 <= n,
        c * c <= n,
    ensures
        -sqrt_floor(n) <= c <= sqrt_floor(n),
{
    lemma_sqrt_floor(n);
    let l = sqrt_floor(n);
    assert(-l <= c <= l) by (nonlinear_arith)
        requires c * c <= n, n < (l + 1) * (l + 1), 0 <= l
    ;
}

/// Scaling a component by `SCALE` over a bound of its magnitude stays
/// within one fixed-point unit.
proof fn lemma_unit_ratio(c: int, l: int)
    requires
        1 <= l,
        -l <= c <= l,
    ensures
        -(SCALE as int) <= (c * SCALE) / l <= SCALE as int,
{
    let s = SCALE as int;
    assert((-l) * s <= c * s <= l * s) by (nonlinear_arith)
        requires -l <= c <= l, s > 0
    ;
    vstd::arithmetic::div_mod::lemma_div_is_ordered((-l) * s, c * s, l);
    vstd::arithmetic::div_mod::lemma_div_is_ordered(c * s, l * s, l);
    assert(l * s == l * s) by (nonlinear_arith);
    vstd::arithmetic::div_mod::lemma_div_multiples_vanish(s, l);
    assert(l * s == l * s && (-l) * s == l * (-s)) by (nonlinear_arith);
    vstd::arithmetic::div_mod::lemma_div_multiples_vanish(-s, l);
}

/// Evaluate the circular-profile normal.
fn circle_normal_exec(line: &Line, w1: i64, w2: i64, x: i64) -> (r: Vector3)
    requires
        line.in_bounds(),
        1 <= w1 <= COORD_LIMIT,
        1 <= w2 <= COORD_LIMIT,
        -SCALE <= x <= SCALE,
    ensures
        (r.x as int, r.y as int, r.z as int) == circle_normal_spec(
            *line,
            w1 as int,
            w2 as int,
            x as int,
        ),
{
    let s: i128 = SCALE as i128;
    let cl: i128 = COORD_LIMIT as i128;
    let vx: i128 = line.end.x as i128 - line.start.x as i128;
    let vy: i128 = line.end.y as i128 - line.start.y as i128;
    proof {
        assert(0 <= vx * vx <= 4 * (cl as int) * (cl as int)) by (nonlinear_arith)
            requires -2 * (cl as int) <= vx <= 2 * (cl as int)
        ;
        assert(0 <= vy * vy <= 4 * (cl as int) * (cl as int)) by (nonlinear_arith)
            requires -2 * (cl as int) <= vy <= 2 * (cl as int)
        ;
    }
    let l2: i128 = vx * vx + vy * vy;
    let len: i128 = isqrt(l2 as u128) as i128;
    if len == 0 {
        return Vector3 { x: 0, y: 0, z: SCALE };
    }
    let dw: i128 = w2 as i128 - w1 as i128;
    proof {
        assert(0 <= dw * dw <= (cl as int) * (cl as int)) by (nonlinear_arith)
            requires -(cl as int) <= dw <= cl as int
        ;
    }
    let hyp2: i128 = l2 + dw * dw;
    let hyp: i128 = isqrt(hyp2 as u128) as i128;
    proof {
        assert(len * len <= hyp2);
        lemma_sqrt_floor_at_least(hyp2 as int, len as int);
        lemma_abs_le_root(vx as int, l2 as int);
        lemma_abs_le_root(vy as int, l2 as int);
        lemma_unit_ratio(vx as int, len as int);
        lemma_unit_ratio(vy as int, len as int);
    }
    let fx: i128 = div_floor(vx * s, len);
    let fy: i128 = div_floor(vy * s, len);
    proof {
        lemma_abs_le_root(dw as int, hyp2 as int);
        lemma_unit_ratio(dw as int, hyp as int);
        lemma_unit_ratio(len as int, hyp as int);
    }
    let ca: i128 = div_nn(len * s, hyp);
    let sa: i128 = div_floor(dw * s, hyp);
    let sp: i128 = sin_pi_exec(x) as i128;
    proof {
        let si = s as int;
        assert(-si * si <= sa * fx <= si * si) by (nonlinear_arith)
            requires -si <= sa <= si, -si <= fx <= si
        ;
        assert(-si * si <= sp * fy <= si * si) by (nonlinear_arith)
            requires -si <= sp <= si, -si <= fy <= si
        ;
        assert(-si * si <= sa * fy <= si * si) by (nonlinear_arith)
            requires -si <= sa <= si, -si <= fy <= si
        ;
        assert(-si * si <= sp * fx <= si * si) by (nonlinear_arith)
            requires -si <= sp <= si, -si <= fx <= si
        ;
        assert(sp * (-(fx as int)) == -(sp * fx)) by (nonlinear_arith);
        assert((-(2 * si)) * si <= sa * fx + sp * fy <= (2 * si) * si) by (nonlinear_arith)
            requires -si * si <= sa * fx <= si * si, -si * si <= sp * fy <= si * si
        ;
        assert((-(2 * si)) * si <= sa * fy - sp * fx <= (2 * si) * si) by (nonlinear_arith)
            requires -si * si <= sa * fy <= si * si, -si * si <= sp * fx <= si * si
        ;
        vstd::arithmetic::div_mod::lemma_div_is_ordered((-(2 * si)) * si, sa * fx + sp * fy, si);
        vstd::arithmetic::div_mod::lemma_div_is_ordered(sa * fx + sp * fy, (2 * si) * si, si);
        vstd::arithmetic::div_mod::lemma_div_is_ordered((-(2 * si)) * si, sa * fy - sp * fx, si);
        vstd::arithmetic::div_mod::lemma_div_is_ordered(sa * fy - sp * fx, (2 * si) * si, si);
        assert((2 * si) * si == si * (2 * si) && (-(2 * si)) * si == si * (-(2 * si)))
            by (nonlinear_arith);
        vstd::arithmetic::div_mod::lemma_div_multiples_vanish(2 * si, si);
        vstd::arithmetic::div_mod::lemma_div_multiples_vanish(-(2 * si), si);
    }
    let nx: i128 = div_floor(sa * fx + sp * fy, s);
    let ny: i128 = div_floor(sa * fy - sp * fx, s);
    proof {
        let si = s as int;
        assert(0 <= nx * nx <= (2 * si) * (2 * si)) by (nonlinear_arith)
            requires -(2 * si) <= nx <= 2 * si
        ;
        assert(0 <= ny * ny <= (2 * si) * (2 * si)) by (nonlinear_arith)
            requires -(2 * si) <= ny <= 2 * si
        ;
        assert(0 <= ca * ca <= si * si) by (nonlinear_arith)
            requires 0 <= ca <= si
        ;
    }
    let nn: i128 = nx * nx + ny * ny + ca * ca;
    let ln: i128 = isqrt(nn as u128) as i128;
    if ln == 0 {
        return Vector3 { x: 0, y: 0, z: SCALE };
    }
    proof {
        assert(nx * nx <= nn && ny * ny <= nn && ca * ca <= nn);
        lemma_abs_le_root(nx as int, nn as int);
        lemma_abs_le_root(ny as int, nn as int);
        lemma_abs_le_root(ca as int, nn as int);
        lemma_unit_ratio(nx as int, ln as int);
        lemma_unit_ratio(ny as int, ln as int);
        lemma_unit_ratio(ca as int, ln as int);
    }
    let ox: i128 = div_floor(nx * s, ln);
    let oy: i128 = div_floor(ny * s, ln);
    let oz: i128 = div_floor(ca * s, ln);
    Vector3 { x: ox as i64, y: oy as i64, z: oz as i64 }
}

/// The canonical circular ("capsule") cross-section.
#[derive(Clone, Copy, PartialEq, Eq, Structural, Debug)]
pub struct CircleProfile;

impl Profile for CircleProfile {
    open spec fn height_spec(&self, x: int) -> int {
        cos_fix(x)
    }

    proof fn height_spec_bounded(&self, x: int) {
        lemma_cos_fix_bounds(x);
    }

    open spec fn normal_spec(&self, line: Line, w1: int, w2: int, t: int, x: int) -> (
        int,
        int,
        int,
    ) {
        circle_normal_spec(line, w1, w2, x)
    }

    fn get_height(&self, x: i64) -> (r: i64) {
        cos_fix_exec(x)
    }

    fn get_normal(&self, line: &Line, w1: i64, w2: i64, t: i64, x: i64) -> (r: Vector3) {
        circle_normal_exec(line, w1, w2, x)
    }
}

} // verus!
