//! The multi-wire compositor: per query point, the wire with the highest
//! elevation wins and its channel value is read.
//!
//! Elevation comparison is strict, so exact ties keep the earliest wire in
//! iteration order; a wire without coverage never beats one with coverage.

use vstd::prelude::*;

verus! {

use crate::fixed::COORD_LIMIT;
use crate::fixed::SCALE;
use crate::fixed::div_floor;
use crate::geometry::Point2;
use crate::geometry::Vector3;
use crate::profile::Material;
use crate::profile::Profile;
use crate::wire::Wire;
use crate::wire::opt_zi;

/// Divisor that moves raw elevations into display range in the height
/// channel.
pub const DISPLAY_SCALE: i64 = 10;

/// A read-only collection of wires, built once and queried per pixel.
pub struct World<M: Material, P: Profile> {
    pub wires: Vec<Wire<M, P>>,
}

impl<M: Material, P: Profile> World<M, P> {
    /// Every wire is well formed.
    pub open spec fn wf(self) -> bool {
        forall|i: int| 0 <= i < self.wires@.len() ==> (#[trigger] self.wires@[i]).wf()
    }

    /// The winning wire among the first `n`: elevation and wire index of
    /// the running maximum, replaced only by a strictly higher elevation,
    /// so exact ties keep the earliest wire.  Wires without coverage never
    /// enter.
    pub open spec fn best_wire_upto(self, p: Point2, n: int) -> Option<(int, int)>
        decreases n,
    {
        if n <= 0 {
            None
        } else {
            let prev = self.best_wire_upto(p, n - 1);
            match self.wires@[n - 1].height_spec(p) {
                None => prev,
                Some(z) => match prev {
                    None => Some((z, n - 1)),
                    Some((z0, i0)) => if z > z0 {
                        Some((z, n - 1))
                    } else {
                        prev
                    },
                },
            }
        }
    }

    /// The winning wire over the whole world.
    pub open spec fn best_wire(self, p: Point2) -> Option<(int, int)> {
        self.best_wire_upto(p, self.wires@.len() as int)
    }

    /// A winning entry names a wire in range and carries its elevation.
    pub proof fn lemma_best_wire_upto_bounds(self, p: Point2, n: int)
        requires
            self.wf(),
            p.in_bounds(),
            n <= self.wires@.len(),
        ensures
            self.best_wire_upto(p, n) matches Some((z, j)) ==> 0 <= j < n && self.wires@[j]
                .height_spec(p) == Some(z) && -2 * (COORD_LIMIT as int) <= z <= 2 * (
            COORD_LIMIT as int),
        decreases n,
    {
        if n > 0 {
            self.lemma_best_wire_upto_bounds(p, n - 1);
            match self.wires@[n - 1].height_spec(p) {
                None => {},
                Some(z) => {
                    self.wires@[n - 1].lemma_best_upto_bounds(p, self.wires@[n - 1].seg_count());
                },
            }
        }
    }

    /// Walk all wires and report the winner: elevation and wire index.
    fn best_wire_exec(&self, point: Point2) -> (r: Option<(i64, usize)>)
        requires
            self.wf(),
            point.in_bounds(),
        ensures
            r == opt_zi(self.best_wire(point)),
    {
        let n = self.wires.len();
        let mut best: Option<(i64, usize)> = None;
        let mut i: usize = 0;
        while i < n
            invariant
                self.wf(),
                point.in_bounds(),
                n == self.wires@.len(),
                0 <= i <= n,
                best == opt_zi(self.best_wire_upto(point, i as int)),
            decreases n - i,
        {
            let h = self.wires[i].get_height(point);
            proof {
                self.lemma_best_wire_upto_bounds(point, i as int);
                self.lemma_best_wire_upto_bounds(point, i as int + 1);
                self.wires@[i as int].lemma_best_upto_bounds(
                    point,
                    self.wires@[i as int].seg_count(),
                );
            }
            match h {
                None => {},
                Some(z) => {
                    best = match best {
                        None => Some((z, i)),
                        Some((z0, i0)) => if z > z0 {
                            Some((z, i))
                        } else {
                            Some((z0, i0))
                        },
                    };
                },
            }
            i = i + 1;
        }
        best
    }
}

/// The height channel: the maximal elevation over all wires, divided by
/// the fixed display scale; `None` where no wire covers the point.
pub open spec fn height_channel_spec<M: Material, P: Profile>(
    world: World<M, P>,
    p: Point2,
) -> Option<int> {
    match world.best_wire(p) {
        Some((z, i)) => Some(z / (DISPLAY_SCALE as int)),
        None => None,
    }
}

/// Evaluate the height channel at one world point.
pub fn height_function<M: Material, P: Profile>(world: &World<M, P>, point: Point2) -> (r: Option<
    i64,
>)
    requires
        world.wf(),
        point.in_bounds(),
    ensures
        r == match height_channel_spec(*world, point) {
            Some(z) => Some(z as i64),
            None => None::<i64>,
        },
{
    proof {
        world.lemma_best_wire_upto_bounds(point, world.wires@.len() as int);
    }
    match world.best_wire_exec(point) {
        Some((z, i)) => Some(div_floor(z as i128, DISPLAY_SCALE as i128) as i64),
        None => None,
    }
}

/// The alpha channel: full coverage where any wire shows a finite
/// elevation, zero elsewhere.
pub open spec fn alpha_channel_spec<M: Material, P: Profile>(world: World<M, P>, p: Point2) -> int {
    if world.best_wire(p) is Some {
        SCALE as int
    } else {
        0
    }
}

/// Evaluate the alpha channel at one world point.
pub fn alpha_function<M: Material, P: Profile>(world: &World<M, P>, point: Point2) -> (r: i64)
    requires
        world.wf(),
        point.in_bounds(),
    ensures
        r as int == alpha_channel_spec(*world, point),
{
    match world.best_wire_exec(point) {
        Some(h) => SCALE,
        None => 0,
    }
}

/// The albedo channel: the winning wire's albedo, black where no wire
/// covers the point.
pub open spec fn albedo_channel_spec<M: Material, P: Profile>(world: World<M, P>, p: Point2) -> (
    int,
    int,
    int,
) {
    match world.best_wire(p) {
        Some((z, i)) => world.wires@[i].albedo_spec(p),
        None => (0int, 0int, 0int),
    }
}

/// Evaluate the albedo channel at one world point.
pub fn albedo_function<M: Material, P: Profile>(world: &World<M, P>, point: Point2) -> (r: Vector3)
    requires
        world.wf(),
        point.in_bounds(),
    ensures
        (r.x as int, r.y as int, r.z as int) == albedo_channel_spec(*world, point),
{
    let _n = world.wires.len();
    proof {
        world.lemma_best_wire_upto_bounds(point, world.wires@.len() as int);
    }
    match world.best_wire_exec(point) {
        Some((z, i)) => world.wires[i].get_albedo(point),
        None => Vector3::zero(),
    }
}

/// The normal channel: the winning wire's normal; the plain up vector
/// where no wire covers the point.
pub open spec fn normal_channel_spec<M: Material, P: Profile>(world: World<M, P>, p: Point2) -> (
    int,
    int,
    int,
) {
    match world.best_wire(p) {
        Some((z, i)) => world.wires@[i].normal_field_spec(p),
        None => (0int, 0int, SCALE as int),
    }
}

/// Evaluate the normal channel at one world point.
pub fn normal_function<M: Material, P: Profile>(world: &World<M, P>, point: Point2) -> (r: Vector3)
    requires
        world.wf(),
        point.in_bounds(),
    ensures
        (r.x as int, r.y as int, r.z as int) == normal_channel_spec(*world, point),
{
    let _n = world.wires.len();
    proof {
        world.lemma_best_wire_upto_bounds(point, world.wires@.len() as int);
    }
    match world.best_wire_exec(point) {
        Some((z, i)) => world.wires[i].get_normal(point),
        None => Vector3 { x: 0, y: 0, z: SCALE },
    }
}

/// The id channel: the winning wire's reported identifier, 0 where no
/// wire covers the point.
pub open spec fn id_channel_spec<M: Material, P: Profile>(world: World<M, P>, p: Point2) -> int {
    match world.best_wire(p) {
        Some((z, i)) => world.wires@[i].id_spec(p),
        None => 0,
    }
}

/// Evaluate the id channel at one world point.
pub fn id_function<M: Material, P: Profile>(world: &World<M, P>, point: Point2) -> (r: usize)
    requires
        world.wf(),
        point.in_bounds(),
    ensures
        r as int == id_channel_spec(*world, point),
{
    let _n = world.wires.len();
    proof {
        world.lemma_best_wire_upto_bounds(point, world.wires@.len() as int);
    }
    match world.best_wire_exec(point) {
        Some((z, i)) => {
            let (h, id) = world.wires[i].get_height_with_id(point);
            id
        },
        None => 0,
    }
}

} // verus!
