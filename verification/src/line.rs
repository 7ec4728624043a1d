//! Point-to-segment distance with capped / uncapped end policies.
//!
//! The projection parameter `t` is reported in fixed point (`0..=SCALE`),
//! the distance `d` in `1/SCALE` world units.  Every field of the result is
//! an exact integer function of the segment and the query point.

use vstd::prelude::*;

verus! {

use crate::fixed::COORD_LIMIT;
use crate::fixed::SCALE;
use crate::fixed::div_nn;
use crate::fixed::isqrt;
use crate::fixed::lemma_sqrt_floor_at_most;
use crate::fixed::sqrt_floor;
use crate::geometry::Point2;

/// A 2D line segment between two consecutive wire nodes.
#[derive(Clone, Copy, PartialEq, Eq, Structural, Debug)]
pub struct Line {
    pub start: Point2,
    pub end: Point2,
}

/// Tagged outcome of a point-versus-segment test.
#[derive(Clone, Copy, PartialEq, Eq, Structural, Debug)]
pub enum DistanceResult {
    /// Caps are disabled and the projection parameter fell outside `[0, 1]`.
    OutOfBounds,
    /// End region: the projection parameter was clamped into `[0, 1]`.
    Caps { t: i64, d: i64 },
    /// Body region: the projection parameter fell inside `[0, 1]`.
    Full { t: i64, d: i64 },
}

impl Line {
    /// Both endpoints inside the accepted coordinate range.
    pub open spec fn in_bounds(self) -> bool {
        self.start.in_bounds() && self.end.in_bounds()
    }

    /// Direction components, start to end.
    pub open spec fn vx(self) -> int {
        self.end.x - self.start.x
    }

    pub open spec fn vy(self) -> int {
        self.end.y - self.start.y
    }

    /// Squared segment length.
    pub open spec fn len2(self) -> int {
        self.vx() * self.vx() + self.vy() * self.vy()
    }

    /// A segment of zero length is treated as a single point.
    pub open spec fn degenerate(self) -> bool {
        self.len2() == 0
    }

    /// Dot product of the direction with the offset from `start` to `p`;
    /// the unclamped projection parameter is this value over `len2`.
    pub open spec fn dot_from_start(self, p: Point2) -> int {
        self.vx() * (p.x - self.start.x) + self.vy() * (p.y - self.start.y)
    }

    /// The projection of `p` falls beyond an end of the segment.
    pub open spec fn cap_region(self, p: Point2) -> bool {
        !self.degenerate() && (self.dot_from_start(p) < 0 || self.dot_from_start(p) > self.len2())
    }

    /// Numerator of the clamped projection parameter, in `0..=len2`.
    pub open spec fn t_num(self, p: Point2) -> int {
        let dot = self.dot_from_start(p);
        if dot < 0 {
            0
        } else if dot > self.len2() {
            self.len2()
        } else {
            dot
        }
    }

    /// Clamped projection parameter in fixed point, `0..=SCALE`.
    pub open spec fn t_of(self, p: Point2) -> int {
        if self.degenerate() {
            0
        } else {
            (self.t_num(p) * SCALE) / self.len2()
        }
    }

    /// Squared offset from `p` to the clamped projection, with both points
    /// magnified by `SCALE` so the projection is exact in integers.
    pub open spec fn offset2_scaled(self, p: Point2) -> int {
        let qx = self.start.x * SCALE + self.t_of(p) * self.vx();
        let qy = self.start.y * SCALE + self.t_of(p) * self.vy();
        let ex = p.x * SCALE - qx;
        let ey = p.y * SCALE - qy;
        ex * ex + ey * ey
    }

    /// Distance from `p` to the clamped projection, in `1/SCALE` units.
    pub open spec fn dist_of(self, p: Point2) -> int {
        if self.degenerate() {
            let dx = p.x - self.start.x;
            let dy = p.y - self.start.y;
            sqrt_floor(dx * dx + dy * dy)
        } else {
            sqrt_floor(self.offset2_scaled(p)) / (SCALE as int)
        }
    }

    /// The complete outcome of the point-versus-segment test.
    pub open spec fn result_spec(self, p: Point2, caps: bool) -> DistanceResult {
        if self.degenerate() {
            DistanceResult::Full { t: 0, d: self.dist_of(p) as i64 }
        } else if self.cap_region(p) {
            if caps {
                DistanceResult::Caps { t: self.t_of(p) as i64, d: self.dist_of(p) as i64 }
            } else {
                DistanceResult::OutOfBounds
            }
        } else {
            DistanceResult::Full { t: self.t_of(p) as i64, d: self.dist_of(p) as i64 }
        }
    }

    pub fn new(start: Point2, end: Point2) -> (r: Line)
        ensures
            r.start == start,
            r.end == end,
    {
        Line { start, end }
    }

    /// Classify `p` against this segment and report the clamped projection
    /// parameter and the distance to the clamped projection.
    pub fn distance_to_point(&self, point: Point2, caps: bool) -> (r: DistanceResult)
        requires
            self.in_bounds(),
            point.in_bounds(),
        ensures
            r == self.result_spec(point, caps),
    {
        let cl: i128 = COORD_LIMIT as i128;
        let s: i128 = SCALE as i128;
        let sx: i128 = self.start.x as i128;
        let sy: i128 = self.start.y as i128;
        let vx: i128 = self.end.x as i128 - sx;
        let vy: i128 = self.end.y as i128 - sy;
        let dpx: i128 = point.x as i128 - sx;
        let dpy: i128 = point.y as i128 - sy;
        proof {
            assert(vx * vx <= 4 * (cl as int) * (cl as int) && vx * vx >= 0) by (nonlinear_arith)
                requires -2 * (cl as int) <= vx <= 2 * (cl as int)
            ;
            assert(vy * vy <= 4 * (cl as int) * (cl as int) && vy * vy >= 0) by (nonlinear_arith)
                requires -2 * (cl as int) <= vy <= 2 * (cl as int)
            ;
        }
        let l2: i128 = vx * vx + vy * vy;
        if l2 == 0 {
            proof {
                assert(dpx * dpx <= 4 * (cl as int) * (cl as int) && dpx * dpx >= 0)
                    by (nonlinear_arith)
                    requires -2 * (cl as int) <= dpx <= 2 * (cl as int)
                ;
                assert(dpy * dpy <= 4 * (cl as int) * (cl as int) && dpy * dpy >= 0)
                    by (nonlinear_arith)
                    requires -2 * (cl as int) <= dpy <= 2 * (cl as int)
                ;
            }
            let n2: i128 = dpx * dpx + dpy * dpy;
            let droot: u128 = isqrt(n2 as u128);
            proof {
                assert(n2 < (3 * (cl as int) + 1) * (3 * (cl as int) + 1)) by (nonlinear_arith)
                    requires n2 <= 8 * (cl as int) * (cl as int), cl == COORD_LIMIT
                ;
                lemma_sqrt_floor_at_most(n2 as int, 3 * (cl as int));
            }
            return DistanceResult::Full { t: 0, d: droot as i64 };
        }
        proof {
            assert(vx * dpx <= 4 * (cl as int) * (cl as int)
                && vx * dpx >= -4 * (cl as int) * (cl as int)) by (nonlinear_arith)
                requires
                    -2 * (cl as int) <= vx <= 2 * (cl as int),
                    -2 * (cl as int) <= dpx <= 2 * (cl as int),
            ;
            assert(vy * dpy <= 4 * (cl as int) * (cl as int)
                && vy * dpy >= -4 * (cl as int) * (cl as int)) by (nonlinear_arith)
                requires
                    -2 * (cl as int) <= vy <= 2 * (cl as int),
                    -2 * (cl as int) <= dpy <= 2 * (cl as int),
            ;
        }
        let dot: i128 = vx * dpx + vy * dpy;
        let cap: bool = dot < 0 || dot > l2;
        if cap && !caps {
            return DistanceResult::OutOfBounds;
        }
        let tn: i128 = if dot < 0 {
            0
        } else if dot > l2 {
            l2
        } else {
            dot
        };
        let t: i128 = div_nn(tn * s, l2);
        proof {
            assert(tn * s <= l2 * s) by (nonlinear_arith)
                requires 0 <= tn <= l2, s > 0
            ;
            vstd::arithmetic::div_mod::lemma_div_is_ordered(tn * s, l2 * s, l2 as int);
            assert(l2 * s == l2 * (s as int)) by (nonlinear_arith);
            vstd::arithmetic::div_mod::lemma_div_multiples_vanish(s as int, l2 as int);
            assert(t <= s);
            assert(t * vx <= 2 * (cl as int) * (s as int)
                && t * vx >= -2 * (cl as int) * (s as int)) by (nonlinear_arith)
                requires 0 <= t <= s, -2 * (cl as int) <= vx <= 2 * (cl as int), s > 0
            ;
            assert(t * vy <= 2 * (cl as int) * (s as int)
                && t * vy >= -2 * (cl as int) * (s as int)) by (nonlinear_arith)
                requires 0 <= t <= s, -2 * (cl as int) <= vy <= 2 * (cl as int), s > 0
            ;
        }
        let qx: i128 = sx * s + t * vx;
        let qy: i128 = sy * s + t * vy;
        let ex: i128 = point.x as i128 * s - qx;
        let ey: i128 = point.y as i128 * s - qy;
        proof {
            let b = 4 * (cl as int) * (s as int);
            assert(ex * ex <= b * b && ex * ex >= 0) by (nonlinear_arith)
                requires -b <= ex <= b
            ;
            assert(ey * ey <= b * b && ey * ey >= 0) by (nonlinear_arith)
                requires -b <= ey <= b
            ;
        }
        let off2: i128 = ex * ex + ey * ey;
        let dsroot: u128 = isqrt(off2 as u128);
        proof {
            assert(off2 < (6 * (cl as int) * (s as int) + 1) * (6 * (cl as int) * (s as int) + 1))
                by (nonlinear_arith)
                requires off2 <= 2 * (4 * (cl as int) * (s as int)) * (4 * (cl as int) * (s as int)), cl > 0, s > 0
            ;
            lemma_sqrt_floor_at_most(off2 as int, 6 * (cl as int) * (s as int));
        }
        let d: i128 = div_nn(dsroot as i128, s);
        if cap {
            DistanceResult::Caps { t: t as i64, d: d as i64 }
        } else {
            DistanceResult::Full { t: t as i64, d: d as i64 }
        }
    }
}

/// The reported projection parameter is a fixed-point fraction and the
/// reported distance stays within a few coordinate ranges.
pub proof fn lemma_t_dist_bounds(l: Line, p: Point2)
    requires
        l.in_bounds(),
        p.in_bounds(),
    ensures
        0 <= l.t_of(p) <= SCALE as int,
        0 <= l.dist_of(p) <= 6 * (COORD_LIMIT as int),
{
    let cl = COORD_LIMIT as int;
    let s = SCALE as int;
    assert(0 <= l.vx() * l.vx() <= 4 * cl * cl) by (nonlinear_arith)
        requires -2 * cl <= l.vx() <= 2 * cl
    ;
    assert(0 <= l.vy() * l.vy() <= 4 * cl * cl) by (nonlinear_arith)
        requires -2 * cl <= l.vy() <= 2 * cl
    ;
    if l.degenerate() {
        let dx = p.x - l.start.x;
        let dy = p.y - l.start.y;
        assert(0 <= dx * dx <= 4 * cl * cl) by (nonlinear_arith)
            requires -2 * cl <= dx <= 2 * cl
        ;
        assert(0 <= dy * dy <= 4 * cl * cl) by (nonlinear_arith)
            requires -2 * cl <= dy <= 2 * cl
        ;
        crate::fixed::lemma_sqrt_floor(dx * dx + dy * dy);
        assert(dx * dx + dy * dy < (3 * cl + 1) * (3 * cl + 1)) by (nonlinear_arith)
            requires dx * dx + dy * dy <= 8 * cl * cl, cl == COORD_LIMIT
        ;
        lemma_sqrt_floor_at_most(dx * dx + dy * dy, 3 * cl);
    } else {
        let l2 = l.len2();
        let tn = l.t_num(p);
        let t = l.t_of(p);
        assert(0 <= tn <= l2);
        assert(tn * s <= l2 * s) by (nonlinear_arith)
            requires 0 <= tn <= l2, s > 0
        ;
        vstd::arithmetic::div_mod::lemma_div_pos_is_pos(tn * s, l2);
        vstd::arithmetic::div_mod::lemma_div_is_ordered(tn * s, l2 * s, l2);
        assert(l2 * s == l2 * s);
        vstd::arithmetic::div_mod::lemma_div_multiples_vanish(s, l2);
        assert(0 <= t <= s);
        let qx = l.start.x * s + t * l.vx();
        let qy = l.start.y * s + t * l.vy();
        let ex = p.x * s - qx;
        let ey = p.y * s - qy;
        assert(-2 * cl * s <= t * l.vx() <= 2 * cl * s) by (nonlinear_arith)
            requires 0 <= t <= s, -2 * cl <= l.vx() <= 2 * cl, s > 0
        ;
        assert(-2 * cl * s <= t * l.vy() <= 2 * cl * s) by (nonlinear_arith)
            requires 0 <= t <= s, -2 * cl <= l.vy() <= 2 * cl, s > 0
        ;
        assert(0 <= ex * ex <= (4 * cl * s) * (4 * cl * s)) by (nonlinear_arith)
            requires -4 * cl * s <= ex <= 4 * cl * s
        ;
        assert(0 <= ey * ey <= (4 * cl * s) * (4 * cl * s)) by (nonlinear_arith)
            requires -4 * cl * s <= ey <= 4 * cl * s
        ;
        let off2 = l.offset2_scaled(p);
        assert(off2 == ex * ex + ey * ey);
        crate::fixed::lemma_sqrt_floor(off2);
        assert(off2 < (6 * cl * s + 1) * (6 * cl * s + 1)) by (nonlinear_arith)
            requires off2 <= 2 * ((4 * cl * s) * (4 * cl * s)), cl > 0, s > 0
        ;
        lemma_sqrt_floor_at_most(off2, 6 * cl * s);
        vstd::arithmetic::div_mod::lemma_div_pos_is_pos(sqrt_floor(off2), s);
        vstd::arithmetic::div_mod::lemma_div_is_ordered(sqrt_floor(off2), 6 * cl * s, s);
        assert(6 * cl * s == s * (6 * cl)) by (nonlinear_arith);
        vstd::arithmetic::div_mod::lemma_div_multiples_vanish(6 * cl, s);
    }
}

/// Disabling caps refuses exactly the queries that enabled caps classify as
/// end-region hits; the reported parameter and distance do not depend on the
/// flag.
pub proof fn lemma_caps_flag_agreement(l: Line, p: Point2)
    ensures
        (l.result_spec(p, false) == DistanceResult::OutOfBounds) <==> (l.result_spec(
            p,
            true,
        ) matches DistanceResult::Caps { .. }),
        !(l.result_spec(p, false) == DistanceResult::OutOfBounds) ==> l.result_spec(p, false)
            == l.result_spec(p, true),
{
}

} // verus!
