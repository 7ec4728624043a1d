//! The wire evaluator: an ordered chain of variably wide nodes turned into
//! a continuous height / normal / albedo field.
//!
//! Every query walks the consecutive node pairs, rejects segments whose
//! expanded bounding box misses the point, classifies the survivors with
//! [`Line::distance_to_point`], and lets body hits and end-region hits
//! compete in two separate buckets by strict elevation order; exact ties
//! keep the earliest segment.  Body hits always beat end-region hits.

use vstd::prelude::*;

verus! {

use crate::fixed::COORD_LIMIT;
use crate::fixed::SCALE;
use crate::fixed::div_floor;
use crate::fixed::div_nn;
use crate::fixed::lerp;
use crate::fixed::lerp_spec;
use crate::fixed::lemma_lerp_bounds;
use crate::geometry::Point2;
use crate::geometry::Point3;
use crate::geometry::Vector3;
use crate::line::Line;
use crate::line::DistanceResult;
use crate::line::lemma_t_dist_bounds;
use crate::profile::Material;
use crate::profile::Profile;
use crate::profile::CircleProfile;
use crate::profile::RopeMaterial;

/// The larger of two values.
pub open spec fn max2(a: int, b: int) -> int {
    if a >= b {
        a
    } else {
        b
    }
}

/// The smaller of two values.
pub open spec fn min2(a: int, b: int) -> int {
    if a <= b {
        a
    } else {
        b
    }
}

/// One control point of a wire: a stable identifier, a position whose third
/// component is the base elevation, and the tube half-width at this node.
pub struct WireNode {
    pub index: usize,
    pub position: Point3,
    pub width: i64,
}

impl WireNode {
    /// Coordinates in range and a strictly positive width: the height
    /// formula divides by the interpolated width, so zero-width nodes are
    /// ruled out here rather than guarded per pixel.
    pub open spec fn wf(self) -> bool {
        &&& self.position.in_bounds()
        &&& 1 <= self.width <= COORD_LIMIT
    }

    pub fn new(index: usize, position: Point3, width: i64) -> (r: WireNode)
        ensures
            r.index == index,
            r.position == position,
            r.width == width,
    {
        WireNode { index, position, width }
    }
}

/// A poly-line tube: ordered nodes, an albedo material, a cross-section
/// profile, and a flag enabling the rounded end regions.
pub struct Wire<M: Material, P: Profile> {
    pub nodes: Vec<WireNode>,
    pub material: M,
    pub profile: P,
    pub caps: bool,
}

impl<M: Material, P: Profile> Wire<M, P> {
    /// Every node is well formed.
    pub open spec fn wf(self) -> bool {
        forall|i: int| 0 <= i < self.nodes@.len() ==> (#[trigger] self.nodes@[i]).wf()
    }

    /// Number of consecutive node pairs.
    pub open spec fn seg_count(self) -> int {
        self.nodes@.len() - 1
    }

    /// The segment between nodes `i` and `i + 1`.
    pub open spec fn seg(self, i: int) -> Line {
        Line {
            start: self.nodes@[i].position.xy_spec(),
            end: self.nodes@[i + 1].position.xy_spec(),
        }
    }

    /// The query point lies inside the segment's axis-aligned bounding box
    /// expanded by the larger end width.
    pub open spec fn bbox_ok(self, i: int, p: Point2) -> bool {
        let a = self.nodes@[i].position;
        let b = self.nodes@[i + 1].position;
        let wm = max2(self.nodes@[i].width as int, self.nodes@[i + 1].width as int);
        &&& min2(a.x as int, b.x as int) - wm <= p.x as int <= max2(a.x as int, b.x as int) + wm
        &&& min2(a.y as int, b.y as int) - wm <= p.y as int <= max2(a.y as int, b.y as int) + wm
    }

    /// Tube half-width at the clamped projection of `p` onto segment `i`.
    pub open spec fn w_at(self, i: int, p: Point2) -> int {
        lerp_spec(
            self.nodes@[i].width as int,
            self.nodes@[i + 1].width as int,
            self.seg(i).t_of(p),
        )
    }

    /// Base elevation at the clamped projection of `p` onto segment `i`.
    pub open spec fn z_at(self, i: int, p: Point2) -> int {
        lerp_spec(
            self.nodes@[i].position.z as int,
            self.nodes@[i + 1].position.z as int,
            self.seg(i).t_of(p),
        )
    }

    /// Candidate elevation contributed by segment `i`: the base elevation
    /// plus the profile height scaled by the local half-width.
    pub open spec fn value_at(self, i: int, p: Point2) -> int {
        let d = self.seg(i).dist_of(p);
        let w = self.w_at(i, p);
        let x = (d * SCALE) / w;
        self.z_at(i, p) + (w * self.profile.height_spec(x)) / (SCALE as int)
    }

    /// Segment `i` contributes a body hit at `p`.
    pub open spec fn full_hit(self, i: int, p: Point2) -> bool {
        &&& self.bbox_ok(i, p)
        &&& !self.seg(i).cap_region(p)
        &&& self.seg(i).dist_of(p) <= self.w_at(i, p)
    }

    /// Segment `i` contributes an end-region hit at `p`.
    pub open spec fn cap_hit(self, i: int, p: Point2) -> bool {
        &&& self.bbox_ok(i, p)
        &&& self.caps
        &&& self.seg(i).cap_region(p)
        &&& self.seg(i).dist_of(p) <= self.w_at(i, p)
    }

    /// Best body hit among the first `n` segments: elevation and segment
    /// index, replaced only by a strictly higher elevation.
    pub open spec fn best_full_upto(self, p: Point2, n: int) -> Option<(int, int)>
        decreases n,
    {
        if n <= 0 {
            None
        } else {
            let prev = self.best_full_upto(p, n - 1);
            if self.full_hit(n - 1, p) {
                let z = self.value_at(n - 1, p);
                match prev {
                    None => Some((z, n - 1)),
                    Some((z0, i0)) => if z > z0 {
                        Some((z, n - 1))
                    } else {
                        prev
                    },
                }
            } else {
                prev
            }
        }
    }

    /// Best end-region hit among the first `n` segments.
    pub open spec fn best_cap_upto(self, p: Point2, n: int) -> Option<(int, int)>
        decreases n,
    {
        if n <= 0 {
            None
        } else {
            let prev = self.best_cap_upto(p, n - 1);
            if self.cap_hit(n - 1, p) {
                let z = self.value_at(n - 1, p);
                match prev {
                    None => Some((z, n - 1)),
                    Some((z0, i0)) => if z > z0 {
                        Some((z, n - 1))
                    } else {
                        prev
                    },
                }
            } else {
                prev
            }
        }
    }

    /// Best body hit over the whole wire.
    pub open spec fn best_full(self, p: Point2) -> Option<(int, int)> {
        self.best_full_upto(p, self.seg_count())
    }

    /// Best end-region hit over the whole wire.
    pub open spec fn best_cap(self, p: Point2) -> Option<(int, int)> {
        self.best_cap_upto(p, self.seg_count())
    }

    /// The elevation this wire shows at `p`: the best body hit if any, else
    /// the best end-region hit, else no coverage.
    pub open spec fn height_spec(self, p: Point2) -> Option<int> {
        match self.best_full(p) {
            Some((z, i)) => Some(z),
            None => match self.best_cap(p) {
                Some((z, i)) => Some(z),
                None => None,
            },
        }
    }

    /// The identifier this wire reports at `p`: the first node of the best
    /// body segment.  An end-region win never sets the identifier; the
    /// sentinel is 0.
    pub open spec fn id_spec(self, p: Point2) -> int {
        match self.best_full(p) {
            Some((z, i)) => self.nodes@[i].index as int,
            None => 0,
        }
    }

    /// Sign of the side of segment `i` the query point lies on, relative
    /// to the in-plane perpendicular of the segment direction; points on
    /// the axis count as the positive side.
    pub open spec fn side_sign(self, i: int, p: Point2) -> int {
        let l = self.seg(i);
        let rdot = l.vy() * (p.x - l.start.x) - l.vx() * (p.y - l.start.y);
        if rdot >= 0 {
            1
        } else {
            -1
        }
    }

    /// The surface normal a hit on segment `i` shows at `p`.
    pub open spec fn seg_normal(self, i: int, p: Point2) -> (int, int, int) {
        let l = self.seg(i);
        let d = l.dist_of(p);
        let w = self.w_at(i, p);
        let x = (d * SCALE) / w;
        self.profile.normal_spec(
            l,
            self.nodes@[i].width as int,
            self.nodes@[i + 1].width as int,
            l.t_of(p),
            self.side_sign(i, p) * x,
        )
    }

    /// The normal field of this wire: the winning body hit's normal, else
    /// the winning end-region hit's normal, else the plain up vector.
    pub open spec fn normal_field_spec(self, p: Point2) -> (int, int, int) {
        match self.best_full(p) {
            Some((z, i)) => self.seg_normal(i, p),
            None => match self.best_cap(p) {
                Some((z, i)) => self.seg_normal(i, p),
                None => (0int, 0int, SCALE as int),
            },
        }
    }

    /// Some segment of this wire covers `p`.
    pub open spec fn covered(self, p: Point2) -> bool {
        self.best_full(p) is Some || self.best_cap(p) is Some
    }

    /// The albedo field of this wire: the material color wherever some
    /// segment covers the point, else black.
    pub open spec fn albedo_spec(self, p: Point2) -> (int, int, int) {
        if self.covered(p) {
            self.material.color_spec()
        } else {
            (0int, 0int, 0int)
        }
    }
}

/// The elevation-and-index pair narrowed to machine integers.
pub open spec fn opt_zi(o: Option<(int, int)>) -> Option<(i64, usize)> {
    match o {
        None => None,
        Some((z, i)) => Some((z as i64, i as usize)),
    }
}

impl<M: Material, P: Profile> Wire<M, P> {
    /// A hit's candidate elevation stays within twice the coordinate range.
    pub proof fn lemma_value_at_bounds(self, i: int, p: Point2)
        requires
            self.wf(),
            p.in_bounds(),
            0 <= i < self.seg_count(),
            self.seg(i).dist_of(p) <= self.w_at(i, p),
        ensures
            -2 * (COORD_LIMIT as int) <= self.value_at(i, p) <= 2 * (COORD_LIMIT as int),
    {
        let cl = COORD_LIMIT as int;
        let s = SCALE as int;
        let l = self.seg(i);
        let d = l.dist_of(p);
        let w = self.w_at(i, p);
        let x = (d * s) / w;
        lemma_t_dist_bounds(l, p);
        lemma_lerp_bounds(
            self.nodes@[i].width as int,
            self.nodes@[i + 1].width as int,
            l.t_of(p),
        );
        lemma_lerp_bounds(
            self.nodes@[i].position.z as int,
            self.nodes@[i + 1].position.z as int,
            l.t_of(p),
        );
        let h = self.profile.height_spec(x);
        assert(-s <= h <= s) by {
            assert(d * s >= 0) by (nonlinear_arith)
                requires d >= 0, s > 0
            ;
            vstd::arithmetic::div_mod::lemma_div_pos_is_pos(d * s, w);
            assert(d * s <= w * s) by (nonlinear_arith)
                requires 0 <= d <= w, s > 0
            ;
            vstd::arithmetic::div_mod::lemma_div_is_ordered(d * s, w * s, w);
            assert(w * s == w * s);
            vstd::arithmetic::div_mod::lemma_div_multiples_vanish(s, w);
            assert(0 <= x <= s);
            self.profile.height_spec_bounded(x);
        }
        assert(-(cl * s) <= w * h <= cl * s) by (nonlinear_arith)
            requires 1 <= w <= cl, -s <= h <= s
        ;
        vstd::arithmetic::div_mod::lemma_div_is_ordered(-(cl * s), w * h, s);
        vstd::arithmetic::div_mod::lemma_div_is_ordered(w * h, cl * s, s);
        assert(cl * s == s * cl && -(cl * s) == s * (-cl)) by (nonlinear_arith);
        vstd::arithmetic::div_mod::lemma_div_multiples_vanish(cl, s);
        vstd::arithmetic::div_mod::lemma_div_multiples_vanish(-cl, s);
    }

    /// Candidate elevation of segment `i` at `point`, split into the body
    /// bucket and the end-region bucket; `None` where the segment does not
    /// hit in that bucket.
    fn seg_candidates(&self, i: usize, point: Point2) -> (r: (Option<i64>, Option<i64>))
        requires
            self.wf(),
            point.in_bounds(),
            i + 1 < self.nodes@.len(),
        ensures
            r.0 is Some <==> self.full_hit(i as int, point),
            r.1 is Some <==> self.cap_hit(i as int, point),
            r.0 matches Some(v) ==> v as int == self.value_at(i as int, point),
            r.1 matches Some(v) ==> v as int == self.value_at(i as int, point),
    {
        let _n = self.nodes.len();
        let a_x = self.nodes[i].position.x;
        let a_y = self.nodes[i].position.y;
        let a_z = self.nodes[i].position.z;
        let a_w = self.nodes[i].width;
        let b_x = self.nodes[i + 1].position.x;
        let b_y = self.nodes[i + 1].position.y;
        let b_z = self.nodes[i + 1].position.z;
        let b_w = self.nodes[i + 1].width;
        let wm: i64 = if a_w >= b_w {
            a_w
        } else {
            b_w
        };
        let lo_x: i64 = if a_x <= b_x {
            a_x
        } else {
            b_x
        };
        let hi_x: i64 = if a_x >= b_x {
            a_x
        } else {
            b_x
        };
        let lo_y: i64 = if a_y <= b_y {
            a_y
        } else {
            b_y
        };
        let hi_y: i64 = if a_y >= b_y {
            a_y
        } else {
            b_y
        };
        let inside = point.x >= lo_x - wm && point.x <= hi_x + wm && point.y >= lo_y - wm
            && point.y <= hi_y + wm;
        proof {
            assert(inside == self.bbox_ok(i as int, point));
        }
        if !inside {
            return (None, None);
        }
        let line = Line::new(Point2 { x: a_x, y: a_y }, Point2 { x: b_x, y: b_y });
        proof {
            assert(line == self.seg(i as int));
            lemma_t_dist_bounds(line, point);
        }
        match line.distance_to_point(point, self.caps) {
            DistanceResult::OutOfBounds => (None, None),
            DistanceResult::Caps { t, d } => {
                let w = lerp(a_w, b_w, t);
                let z = lerp(a_z, b_z, t);
                proof {
                    lemma_lerp_bounds(a_w as int, b_w as int, t as int);
                    assert(w as int == self.w_at(i as int, point));
                    assert(z as int == self.z_at(i as int, point));
                }
                if d <= w {
                    let val = self.candidate_value(z, w, d);
                    (None, Some(val))
                } else {
                    (None, None)
                }
            },
            DistanceResult::Full { t, d } => {
                let w = lerp(a_w, b_w, t);
                let z = lerp(a_z, b_z, t);
                proof {
                    lemma_lerp_bounds(a_w as int, b_w as int, t as int);
                    assert(w as int == self.w_at(i as int, point));
                    assert(z as int == self.z_at(i as int, point));
                }
                if d <= w {
                    let val = self.candidate_value(z, w, d);
                    (Some(val), None)
                } else {
                    (None, None)
                }
            },
        }
    }

    /// A winning bucket entry is a hit among the first `n` segments and
    /// carries that hit's candidate elevation.
    pub proof fn lemma_best_upto_bounds(self, p: Point2, n: int)
        requires
            self.wf(),
            p.in_bounds(),
            n <= self.seg_count(),
        ensures
            self.best_full_upto(p, n) matches Some((z, j)) ==> 0 <= j < n && z == self.value_at(
                j,
                p,
            ) && self.full_hit(j, p) && -2 * (COORD_LIMIT as int) <= z <= 2 * (COORD_LIMIT as int),
            self.best_cap_upto(p, n) matches Some((z, j)) ==> 0 <= j < n && z == self.value_at(
                j,
                p,
            ) && self.cap_hit(j, p) && -2 * (COORD_LIMIT as int) <= z <= 2 * (COORD_LIMIT as int),
        decreases n,
    {
        if n > 0 {
            self.lemma_best_upto_bounds(p, n - 1);
            if self.full_hit(n - 1, p) || self.cap_hit(n - 1, p) {
                self.lemma_value_at_bounds(n - 1, p);
            }
        }
    }

    /// Walk all segments once and report the winning body hit and the
    /// winning end-region hit, each as elevation and segment index.
    fn scan(&self, point: Point2) -> (r: (Option<(i64, usize)>, Option<(i64, usize)>))
        requires
            self.wf(),
            point.in_bounds(),
        ensures
            r.0 == opt_zi(self.best_full(point)),
            r.1 == opt_zi(self.best_cap(point)),
    {
        let n = self.nodes.len();
        let mut best_hit: Option<(i64, usize)> = None;
        let mut best_cap: Option<(i64, usize)> = None;
        if n < 2 {
            return (best_hit, best_cap);
        }
        let mut i: usize = 0;
        while i + 1 < n
            invariant
                self.wf(),
                point.in_bounds(),
                n == self.nodes@.len(),
                2 <= n,
                0 <= i <= n - 1,
                best_hit == opt_zi(self.best_full_upto(point, i as int)),
                best_cap == opt_zi(self.best_cap_upto(point, i as int)),
            decreases n - i,
        {
            let (full_cand, cap_cand) = self.seg_candidates(i, point);
            proof {
                self.lemma_best_upto_bounds(point, i as int);
                self.lemma_best_upto_bounds(point, i as int + 1);
            }
            match full_cand {
                Some(val) => {
                    best_hit = match best_hit {
                        None => Some((val, i)),
                        Some((z0, i0)) => if val > z0 {
                            Some((val, i))
                        } else {
                            Some((z0, i0))
                        },
                    };
                },
                None => {},
            }
            match cap_cand {
                Some(val) => {
                    best_cap = match best_cap {
                        None => Some((val, i)),
                        Some((z0, i0)) => if val > z0 {
                            Some((val, i))
                        } else {
                            Some((z0, i0))
                        },
                    };
                },
                None => {},
            }
            i = i + 1;
        }
        (best_hit, best_cap)
    }

    /// Elevation contributed by one surviving hit: interpolated base
    /// elevation plus the scaled profile height at the normalized offset.
    fn candidate_value(&self, z: i64, w: i64, d: i64) -> (r: i64)
        requires
            1 <= w <= COORD_LIMIT,
            -COORD_LIMIT <= z <= COORD_LIMIT,
            0 <= d <= w,
        ensures
            r as int == z + (w * self.profile.height_spec((d * SCALE) / (w as int))) / (
            SCALE as int),
    {
        let s: i128 = SCALE as i128;
        proof {
            assert((d as int) * s <= (w as int) * s) by (nonlinear_arith)
                requires 0 <= d <= w, s > 0
            ;
            vstd::arithmetic::div_mod::lemma_div_is_ordered((d as int) * s, (w as int) * s, w as int);
            assert((w as int) * s == (w as int) * (s as int));
            vstd::arithmetic::div_mod::lemma_div_multiples_vanish(s as int, w as int);
            vstd::arithmetic::div_mod::lemma_div_pos_is_pos((d as int) * s, w as int);
        }
        let x: i64 = div_nn(d as i128 * s, w as i128) as i64;
        let h: i64 = self.profile.get_height(x);
        proof {
            self.profile.height_spec_bounded(x as int);
            assert(-((COORD_LIMIT as int) * s) <= (w as int) * (h as int) <= (COORD_LIMIT as int)
                * s) by (nonlinear_arith)
                requires 1 <= w <= COORD_LIMIT, -s <= h <= s
            ;
            vstd::arithmetic::div_mod::lemma_div_is_ordered(
                -((COORD_LIMIT as int) * s),
                (w as int) * (h as int),
                s as int,
            );
            vstd::arithmetic::div_mod::lemma_div_is_ordered(
                (w as int) * (h as int),
                (COORD_LIMIT as int) * s,
                s as int,
            );
            assert((COORD_LIMIT as int) * s == s * (COORD_LIMIT as int) && -((COORD_LIMIT as int)
                * s) == s * (-(COORD_LIMIT as int))) by (nonlinear_arith);
            vstd::arithmetic::div_mod::lemma_div_multiples_vanish(COORD_LIMIT as int, s as int);
            vstd::arithmetic::div_mod::lemma_div_multiples_vanish(-(COORD_LIMIT as int), s as int);
        }
        let bump: i128 = div_floor(w as i128 * h as i128, s);
        z + bump as i64
    }

    /// The elevation field of this wire; `None` is the "no coverage"
    /// sentinel that stands for minus infinity.
    pub fn get_height(&self, point: Point2) -> (r: Option<i64>)
        requires
            self.wf(),
            point.in_bounds(),
        ensures
            r == match self.height_spec(point) {
                Some(z) => Some(z as i64),
                None => None::<i64>,
            },
    {
        let (best_hit, best_cap) = self.scan(point);
        match best_hit {
            Some((z, i)) => Some(z),
            None => match best_cap {
                Some((z, i)) => Some(z),
                None => None,
            },
        }
    }

    /// The elevation field together with the winning body segment's first
    /// node identifier; an end-region win leaves the identifier at its
    /// sentinel 0.
    pub fn get_height_with_id(&self, point: Point2) -> (r: (Option<i64>, usize))
        requires
            self.wf(),
            point.in_bounds(),
        ensures
            r.0 == match self.height_spec(point) {
                Some(z) => Some(z as i64),
                None => None::<i64>,
            },
            r.1 as int == self.id_spec(point),
    {
        let _n = self.nodes.len();
        let (best_hit, best_cap) = self.scan(point);
        proof {
            self.lemma_best_upto_bounds(point, self.seg_count());
        }
        let id: usize = match best_hit {
            Some((z, j)) => self.nodes[j].index,
            None => 0,
        };
        let h: Option<i64> = match best_hit {
            Some((z, j)) => Some(z),
            None => match best_cap {
                Some((z, j)) => Some(z),
                None => None,
            },
        };
        (h, id)
    }

    /// The albedo field of this wire at `point`.
    pub fn get_albedo(&self, point: Point2) -> (r: Vector3)
        requires
            self.wf(),
            point.in_bounds(),
        ensures
            (r.x as int, r.y as int, r.z as int) == self.albedo_spec(point),
    {
        let (best_hit, best_cap) = self.scan(point);
        let hit = match best_hit {
            Some(h) => true,
            None => match best_cap {
                Some(h) => true,
                None => false,
            },
        };
        if hit {
            self.material.get_color()
        } else {
            Vector3::zero()
        }
    }

    /// The normal field of this wire at `point`.
    pub fn get_normal(&self, point: Point2) -> (r: Vector3)
        requires
            self.wf(),
            point.in_bounds(),
        ensures
            (r.x as int, r.y as int, r.z as int) == self.normal_field_spec(point),
    {
        let _n = self.nodes.len();
        let (best_hit, best_cap) = self.scan(point);
        proof {
            self.lemma_best_upto_bounds(point, self.seg_count());
        }
        match best_hit {
            Some((z, j)) => {
                proof {
                    assert(self.full_hit(j as int, point));
                }
                self.winner_normal(j, point)
            },
            None => match best_cap {
                Some((z, j)) => {
                    proof {
                        assert(self.cap_hit(j as int, point));
                    }
                    self.winner_normal(j, point)
                },
                None => Vector3 { x: 0, y: 0, z: SCALE },
            },
        }
    }

    /// Normal of the winning segment, recomputed from the classified hit.
    fn winner_normal(&self, j: usize, point: Point2) -> (r: Vector3)
        requires
            self.wf(),
            point.in_bounds(),
            j as int + 1 < self.nodes@.len(),
            self.full_hit(j as int, point) || self.cap_hit(j as int, point),
        ensures
            (r.x as int, r.y as int, r.z as int) == self.seg_normal(j as int, point),
    {
        let _n = self.nodes.len();
        let a_x = self.nodes[j].position.x;
        let a_y = self.nodes[j].position.y;
        let a_w = self.nodes[j].width;
        let b_x = self.nodes[j + 1].position.x;
        let b_y = self.nodes[j + 1].position.y;
        let b_w = self.nodes[j + 1].width;
        let line = Line::new(Point2 { x: a_x, y: a_y }, Point2 { x: b_x, y: b_y });
        proof {
            assert(self.nodes@[j as int].wf());
            assert(self.nodes@[j as int + 1].wf());
            assert(line == self.seg(j as int));
            lemma_t_dist_bounds(line, point);
        }
        let (t, d): (i64, i64) = match line.distance_to_point(point, self.caps) {
            DistanceResult::OutOfBounds => {
                proof {
                    assert(false);
                }
                (0, 0)
            },
            DistanceResult::Caps { t, d } => (t, d),
            DistanceResult::Full { t, d } => (t, d),
        };
        let w = lerp(a_w, b_w, t);
        proof {
            lemma_lerp_bounds(a_w as int, b_w as int, t as int);
            assert(w as int == self.w_at(j as int, point));
            let s = SCALE as int;
            assert((d as int) * s <= (w as int) * s) by (nonlinear_arith)
                requires 0 <= d <= w, s > 0
            ;
            vstd::arithmetic::div_mod::lemma_div_is_ordered(
                (d as int) * s,
                (w as int) * s,
                w as int,
            );
            vstd::arithmetic::div_mod::lemma_div_multiples_vanish(s, w as int);
            vstd::arithmetic::div_mod::lemma_div_pos_is_pos((d as int) * (SCALE as int), w as int);
        }
        let x: i64 = div_nn(d as i128 * SCALE as i128, w as i128) as i64;
        let vyy: i128 = line.end.y as i128 - line.start.y as i128;
        let vxx: i128 = line.end.x as i128 - line.start.x as i128;
        let dpx: i128 = point.x as i128 - line.start.x as i128;
        let dpy: i128 = point.y as i128 - line.start.y as i128;
        proof {
            let cl = COORD_LIMIT as int;
            assert(-4 * cl * cl <= vyy * dpx <= 4 * cl * cl) by (nonlinear_arith)
                requires -2 * cl <= vyy <= 2 * cl, -2 * cl <= dpx <= 2 * cl
            ;
            assert(-4 * cl * cl <= vxx * dpy <= 4 * cl * cl) by (nonlinear_arith)
                requires -2 * cl <= vxx <= 2 * cl, -2 * cl <= dpy <= 2 * cl
            ;
        }
        let rdot: i128 = vyy * dpx - vxx * dpy;
        let xs: i64 = if rdot >= 0 {
            x
        } else {
            -x
        };
        proof {
            assert(xs as int == self.side_sign(j as int, point) * ((d as int) * SCALE / (
            w as int))) by {
                let ss = self.side_sign(j as int, point);
                let xv = (d as int) * SCALE / (w as int);
                if rdot >= 0 {
                    assert(ss == 1);
                    assert(1 * xv == xv) by (nonlinear_arith);
                } else {
                    assert(ss == -1);
                    assert((-1) * xv == -xv) by (nonlinear_arith);
                }
            }
        }
        self.profile.get_normal(&line, a_w, b_w, t, xs)
    }
}

impl<M: Material, P: Profile> Wire<M, P> {
    /// Among the first `n` segments, a point outside every expanded
    /// bounding box collects no candidate in either bucket.
    proof fn lemma_no_box_upto(self, p: Point2, n: int)
        requires
            n <= self.seg_count(),
            forall|i: int| 0 <= i < n ==> !self.bbox_ok(i, p),
        ensures
            self.best_full_upto(p, n) is None,
            self.best_cap_upto(p, n) is None,
        decreases n,
    {
        if n > 0 {
            self.lemma_no_box_upto(p, n - 1);
        }
    }

    /// A point outside every segment's expanded bounding box gets no
    /// coverage: the wire's elevation there is the minus-infinity
    /// sentinel.
    pub proof fn lemma_outside_all_boxes(self, p: Point2)
        requires
            forall|i: int| 0 <= i < self.seg_count() ==> !self.bbox_ok(i, p),
        ensures
            self.height_spec(p) == None::<int>,
    {
        self.lemma_no_box_upto(p, self.seg_count());
    }

    /// A two-node wire whose nodes share a planar position is a single
    /// point tube: the projection parameter is always 0 and the elevation
    /// is the first node's base elevation plus the profile bump over the
    /// plain planar distance, or no coverage where that distance exceeds
    /// the width.
    pub proof fn lemma_degenerate_segment(self, p: Point2)
        requires
            self.wf(),
            p.in_bounds(),
            self.nodes@.len() == 2,
            self.nodes@[0].position.xy_spec() == self.nodes@[1].position.xy_spec(),
        ensures
            self.seg(0).t_of(p) == 0,
            ({
                let dx = p.x - self.nodes@[0].position.x;
                let dy = p.y - self.nodes@[0].position.y;
                let d = crate::fixed::sqrt_floor(dx * dx + dy * dy);
                let w = self.nodes@[0].width as int;
                let z = self.nodes@[0].position.z as int;
                self.height_spec(p) == if d <= w {
                    Some(z + (w * self.profile.height_spec((d * SCALE) / w)) / (SCALE as int))
                } else {
                    None::<int>
                }
            }),
    {
        let l = self.seg(0);
        let dx = p.x - self.nodes@[0].position.x;
        let dy = p.y - self.nodes@[0].position.y;
        let d = crate::fixed::sqrt_floor(dx * dx + dy * dy);
        let w = self.nodes@[0].width as int;
        assert(l.vx() == 0 && l.vy() == 0);
        assert(l.len2() == 0) by (nonlinear_arith)
            requires l.vx() == 0, l.vy() == 0, l.len2() == l.vx() * l.vx() + l.vy() * l.vy()
        ;
        assert(l.degenerate());
        assert(!l.cap_region(p));
        assert(l.t_of(p) == 0);
        assert(l.dist_of(p) == d);
        crate::fixed::lemma_lerp_ends(
            self.nodes@[0].width as int,
            self.nodes@[1].width as int,
        );
        crate::fixed::lemma_lerp_ends(
            self.nodes@[0].position.z as int,
            self.nodes@[1].position.z as int,
        );
        assert(self.w_at(0, p) == w);
        assert(self.z_at(0, p) == self.nodes@[0].position.z as int);
        assert(0 <= dx * dx && 0 <= dy * dy) by (nonlinear_arith);
        crate::fixed::lemma_sqrt_floor(dx * dx + dy * dy);
        assert(self.best_full_upto(p, 0) is None);
        assert(self.best_cap_upto(p, 0) is None);
        if d <= w {
            let adx = if dx >= 0 {
                dx
            } else {
                -dx
            };
            let ady = if dy >= 0 {
                dy
            } else {
                -dy
            };
            assert(adx * adx == dx * dx && ady * ady == dy * dy) by (nonlinear_arith)
                requires (adx == dx || adx == -dx) && (ady == dy || ady == -dy)
            ;
            assert(adx <= d && ady <= d) by (nonlinear_arith)
                requires
                    adx * adx <= dx * dx + dy * dy,
                    ady * ady <= dx * dx + dy * dy,
                    crate::fixed::is_sqrt_floor(dx * dx + dy * dy, d),
                    0 <= adx,
                    0 <= ady,
            ;
            assert(self.bbox_ok(0, p));
            assert(self.full_hit(0, p));
            assert(self.best_full_upto(p, 1) == Some((self.value_at(0, p), 0int)));
        } else {
            assert(!self.full_hit(0, p));
            assert(self.best_full_upto(p, 1) is None);
        }
        assert(!self.cap_hit(0, p));
        assert(self.best_cap_upto(p, 1) is None);
    }

    /// No seam at a shared node: where the query point projects onto the
    /// node joining two consecutive segments (clamped to the end of the
    /// first and the start of the second), both segments offer exactly
    /// the same candidate elevation, because the shared node carries one
    /// position and one width.
    pub proof fn lemma_no_seam(self, i: int, p: Point2)
        requires
            self.wf(),
            p.in_bounds(),
            0 <= i,
            i + 1 < self.seg_count(),
            !self.seg(i).degenerate(),
            !self.seg(i + 1).degenerate(),
            self.seg(i).dot_from_start(p) >= self.seg(i).len2(),
            self.seg(i + 1).dot_from_start(p) <= 0,
        ensures
            self.seg(i).t_of(p) == SCALE as int,
            self.seg(i + 1).t_of(p) == 0,
            self.seg(i).dist_of(p) == self.seg(i + 1).dist_of(p),
            self.value_at(i, p) == self.value_at(i + 1, p),
    {
        let s = SCALE as int;
        let la = self.seg(i);
        let lb = self.seg(i + 1);
        let l2a = la.len2();
        assert(l2a >= 0 && lb.len2() >= 0) by (nonlinear_arith)
            requires
                l2a == la.vx() * la.vx() + la.vy() * la.vy(),
                lb.len2() == lb.vx() * lb.vx() + lb.vy() * lb.vy(),
        ;
        assert(la.t_num(p) == l2a);
        assert(l2a * s == l2a * s);
        vstd::arithmetic::div_mod::lemma_div_multiples_vanish(s, l2a);
        assert(la.t_of(p) == s);
        assert(lb.t_num(p) == 0);
        assert(0 * s == 0) by (nonlinear_arith);
        vstd::arithmetic::div_mod::lemma_div_of0(lb.len2());
        assert(lb.t_of(p) == 0);
        let node = self.nodes@[i + 1].position;
        assert(la.start.x * s + s * la.vx() == node.x as int * s) by (nonlinear_arith)
            requires la.vx() == node.x - la.start.x
        ;
        assert(la.start.y * s + s * la.vy() == node.y as int * s) by (nonlinear_arith)
            requires la.vy() == node.y - la.start.y
        ;
        assert(lb.start.x * s + 0 * lb.vx() == node.x as int * s) by (nonlinear_arith)
            requires lb.start.x == node.x
        ;
        assert(lb.start.y * s + 0 * lb.vy() == node.y as int * s) by (nonlinear_arith)
            requires lb.start.y == node.y
        ;
        assert(la.offset2_scaled(p) == lb.offset2_scaled(p));
        assert(la.dist_of(p) == lb.dist_of(p));
        crate::fixed::lemma_lerp_ends(
            self.nodes@[i].width as int,
            self.nodes@[i + 1].width as int,
        );
        crate::fixed::lemma_lerp_ends(
            self.nodes@[i + 1].width as int,
            self.nodes@[i + 2].width as int,
        );
        crate::fixed::lemma_lerp_ends(
            self.nodes@[i].position.z as int,
            self.nodes@[i + 1].position.z as int,
        );
        crate::fixed::lemma_lerp_ends(
            self.nodes@[i + 1].position.z as int,
            self.nodes@[i + 2].position.z as int,
        );
        assert(self.w_at(i, p) == self.nodes@[i + 1].width as int);
        assert(self.w_at(i + 1, p) == self.nodes@[i + 1].width as int);
        assert(self.z_at(i, p) == self.nodes@[i + 1].position.z as int);
        assert(self.z_at(i + 1, p) == self.nodes@[i + 1].position.z as int);
    }
}

impl Wire<RopeMaterial, CircleProfile> {
    /// A straight two-node wire with the default material and the circular
    /// profile.
    pub fn new(
        index_begin: usize,
        begin: Point3,
        index_end: usize,
        end: Point3,
        begin_width: i64,
        end_width: i64,
        caps: bool,
    ) -> (r: Self)
        ensures
            r.nodes@.len() == 2,
            r.nodes@[0] == (WireNode { index: index_begin, position: begin, width: begin_width }),
            r.nodes@[1] == (WireNode { index: index_end, position: end, width: end_width }),
            r.material == (RopeMaterial {  }),
            r.profile == (CircleProfile {  }),
            r.caps == caps,
    {
        let mut nodes: Vec<WireNode> = Vec::new();
        nodes.push(WireNode::new(index_begin, begin, begin_width));
        nodes.push(WireNode::new(index_end, end, end_width));
        Wire { nodes, material: RopeMaterial, profile: CircleProfile, caps }
    }

    /// A wire over the given node chain with the default material.
    pub fn new_from_nodes(nodes: Vec<WireNode>, caps: bool) -> (r: Self)
        ensures
            r.nodes == nodes,
            r.material == (RopeMaterial {  }),
            r.profile == (CircleProfile {  }),
            r.caps == caps,
    {
        Wire { nodes, material: RopeMaterial, profile: CircleProfile, caps }
    }
}

impl<M: Material> Wire<M, CircleProfile> {
    /// A wire over the given node chain with a caller-chosen material.
    pub fn new_from_nodes_with_material(nodes: Vec<WireNode>, caps: bool, material: M) -> (r: Self)
        ensures
            r.nodes == nodes,
            r.material == material,
            r.profile == (CircleProfile {  }),
            r.caps == caps,
    {
        Wire { nodes, material, profile: CircleProfile, caps }
    }
}

} // verus!
