//! Fixed-size channel grids over a rectangular world extent, and the two
//! post-processing passes: the affine unit-range remap and the min-max
//! normalization over finite samples.

use vstd::prelude::*;

verus! {

use crate::fixed::COORD_LIMIT;
use crate::fixed::SCALE;
use crate::fixed::div_floor;
use crate::fixed::div_nn;
use crate::geometry::Vector2;
use crate::geometry::Vector3;

/// Largest component magnitude the normalization pass accepts; every
/// channel the raster driver writes stays well inside it.
pub const SAMPLE_LIMIT: i64 = 4_000_000_000;

/// A grid of three-channel fixed-point texels; `None` marks a texel with
/// no coverage (the stand-in for an infinite sample).
pub struct Texture {
    pub width: usize,
    pub height: usize,
    pub extent: Vector2,
    pub data: Vec<Option<Vector3>>,
}

/// A grid of three-channel byte texels, used for the id map.
pub struct TextureU8 {
    pub width: usize,
    pub height: usize,
    pub extent: Vector2,
    pub data: Vec<(u8, u8, u8)>,
}

impl Texture {
    /// The grid holds exactly one texel per pixel.
    pub open spec fn wf(self) -> bool {
        self.data@.len() == self.width * self.height
    }

    /// The texel at pixel `(x, y)`, row-major from the top-left.
    pub open spec fn at(self, x: int, y: int) -> Option<Vector3> {
        self.data@[y * self.width + x]
    }

    /// An all-zero grid of the given size over the given extent.
    pub fn new(width: usize, height: usize, extent: Vector2) -> (r: Texture)
        requires
            width * height <= usize::MAX,
        ensures
            r.wf(),
            r.width == width,
            r.height == height,
            r.extent == extent,
            forall|i: int|
                0 <= i < r.data@.len() ==> r.data@[i] == Some(Vector3::zero_spec()),
    {
        let n = width * height;
        let mut data: Vec<Option<Vector3>> = Vec::new();
        let mut i: usize = 0;
        while i < n
            invariant
                0 <= i <= n,
                data@.len() == i,
                forall|j: int| 0 <= j < i ==> data@[j] == Some(Vector3::zero_spec()),
            decreases n - i,
        {
            data.push(Some(Vector3::zero()));
            i = i + 1;
        }
        Texture { width, height, extent, data }
    }

    /// The pixel dimensions of the grid.
    pub fn size(&self) -> (r: (usize, usize))
        ensures
            r.0 == self.width,
            r.1 == self.height,
    {
        (self.width, self.height)
    }
}

impl TextureU8 {
    /// The grid holds exactly one texel per pixel.
    pub open spec fn wf(self) -> bool {
        self.data@.len() == self.width * self.height
    }

    /// The texel at pixel `(x, y)`, row-major from the top-left.
    pub open spec fn at(self, x: int, y: int) -> (u8, u8, u8) {
        self.data@[y * self.width + x]
    }

    /// An all-zero byte grid of the given size over the given extent.
    pub fn new(width: usize, height: usize, extent: Vector2) -> (r: TextureU8)
        requires
            width * height <= usize::MAX,
        ensures
            r.wf(),
            r.width == width,
            r.height == height,
            r.extent == extent,
            forall|i: int| 0 <= i < r.data@.len() ==> r.data@[i] == (0u8, 0u8, 0u8),
    {
        let n = width * height;
        let mut data: Vec<(u8, u8, u8)> = Vec::new();
        let mut i: usize = 0;
        while i < n
            invariant
                0 <= i <= n,
                data@.len() == i,
                forall|j: int| 0 <= j < i ==> data@[j] == (0u8, 0u8, 0u8),
            decreases n - i,
        {
            data.push((0, 0, 0));
            i = i + 1;
        }
        TextureU8 { width, height, extent, data }
    }

    /// The pixel dimensions of the grid.
    pub fn size(&self) -> (r: (usize, usize))
        ensures
            r.0 == self.width,
            r.1 == self.height,
    {
        (self.width, self.height)
    }
}

/// One component moved from signed unit range into storage range:
/// `(c + 1) / 2` in fixed point, rounded down.
pub open spec fn range_component(c: int) -> int {
    (c + SCALE) / 2
}

/// A texel with every component moved into storage range; a texel without
/// coverage stays without coverage.
pub open spec fn range_mapped(o: Option<Vector3>) -> Option<Vector3> {
    match o {
        None => None,
        Some(v) => Some(
            Vector3 {
                x: range_component(v.x as int) as i64,
                y: range_component(v.y as int) as i64,
                z: range_component(v.z as int) as i64,
            },
        ),
    }
}

/// Move every covered texel's components from the signed unit range
/// `-1..=1` into the storage range `0..=1` by the affine remap
/// `(c + 1) / 2`.
pub fn map_texture_range(texture: &mut Texture)
    requires
        old(texture).wf(),
    ensures
        final(texture).wf(),
        final(texture).width == old(texture).width,
        final(texture).height == old(texture).height,
        final(texture).extent == old(texture).extent,
        final(texture).data@.len() == old(texture).data@.len(),
        forall|i: int|
            0 <= i < old(texture).data@.len() ==> final(texture).data@[i] == range_mapped(
                old(texture).data@[i],
            ),
{
    let n = texture.data.len();
    let mut data: Vec<Option<Vector3>> = Vec::new();
    let mut i: usize = 0;
    while i < n
        invariant
            0 <= i <= n,
            n == texture.data@.len(),
            data@.len() == i,
            forall|j: int| 0 <= j < i ==> data@[j] == range_mapped(texture.data@[j]),
        decreases n - i,
    {
        let texel = match &texture.data[i] {
            Some(v) => {
                let x = div_floor(v.x as i128 + SCALE as i128, 2) as i64;
                let y = div_floor(v.y as i128 + SCALE as i128, 2) as i64;
                let z = div_floor(v.z as i128 + SCALE as i128, 2) as i64;
                Some(Vector3 { x, y, z })
            },
            None => None,
        };
        data.push(texel);
        i = i + 1;
    }
    texture.data = data;
}

/// Running minimum of the first component over the covered texels among
/// the first `n`.
pub open spec fn finite_lo_upto(data: Seq<Option<Vector3>>, n: int) -> Option<int>
    decreases n,
{
    if n <= 0 {
        None
    } else {
        let prev = finite_lo_upto(data, n - 1);
        match data[n - 1] {
            None => prev,
            Some(v) => match prev {
                None => Some(v.x as int),
                Some(m) => if (v.x as int) < m {
                    Some(v.x as int)
                } else {
                    Some(m)
                },
            },
        }
    }
}

/// Running maximum of the first component over the covered texels among
/// the first `n`.
pub open spec fn finite_hi_upto(data: Seq<Option<Vector3>>, n: int) -> Option<int>
    decreases n,
{
    if n <= 0 {
        None
    } else {
        let prev = finite_hi_upto(data, n - 1);
        match data[n - 1] {
            None => prev,
            Some(v) => match prev {
                None => Some(v.x as int),
                Some(m) => if (v.x as int) > m {
                    Some(v.x as int)
                } else {
                    Some(m)
                },
            },
        }
    }
}

/// The running minimum is attained by some covered texel and bounds all
/// of them from below; symmetrically for the running maximum.
pub proof fn lemma_finite_bounds(data: Seq<Option<Vector3>>, n: int)
    requires
        n <= data.len(),
    ensures
        finite_lo_upto(data, n) matches Some(m) ==> (exists|j: int|
            0 <= j < n && ((#[trigger] data[j]) matches Some(v) && v.x as int == m)) && (forall|
            j: int,
        |
            0 <= j < n ==> ((#[trigger] data[j]) matches Some(v) ==> m <= v.x as int)),
        finite_hi_upto(data, n) matches Some(m) ==> (exists|j: int|
            0 <= j < n && ((#[trigger] data[j]) matches Some(v) && v.x as int == m)) && (forall|
            j: int,
        |
            0 <= j < n ==> ((#[trigger] data[j]) matches Some(v) ==> v.x as int <= m)),
        finite_lo_upto(data, n) is None ==> (forall|j: int|
            0 <= j < n ==> (#[trigger] data[j]) is None),
        finite_hi_upto(data, n) is None ==> (forall|j: int|
            0 <= j < n ==> (#[trigger] data[j]) is None),
    decreases n,
{
    if n > 0 {
        lemma_finite_bounds(data, n - 1);
        let prev_lo = finite_lo_upto(data, n - 1);
        let prev_hi = finite_hi_upto(data, n - 1);
        match data[n - 1] {
            None => {
                match prev_lo {
                    Some(m) => {
                        let j = choose|j: int|
                            0 <= j < n - 1 && ((#[trigger] data[j]) matches Some(v) && v.x as int
                                == m);
                        assert(0 <= j < n && (data[j] matches Some(v) && v.x as int == m));
                    },
                    None => {},
                }
                match prev_hi {
                    Some(m) => {
                        let j = choose|j: int|
                            0 <= j < n - 1 && ((#[trigger] data[j]) matches Some(v) && v.x as int
                                == m);
                        assert(0 <= j < n && (data[j] matches Some(v) && v.x as int == m));
                    },
                    None => {},
                }
            },
            Some(v) => {
                match prev_lo {
                    None => {
                        assert(0 <= n - 1 < n && (data[n - 1] matches Some(u) && u.x as int == (
                        v.x as int)));
                    },
                    Some(m) => {
                        if (v.x as int) < m {
                            assert(0 <= n - 1 < n && (data[n - 1] matches Some(u) && u.x as int
                                == (v.x as int)));
                        } else {
                            let j = choose|j: int|
                                0 <= j < n - 1 && ((#[trigger] data[j]) matches Some(u) && u.x
                                    as int == m);
                            assert(0 <= j < n && (data[j] matches Some(u) && u.x as int == m));
                        }
                    },
                }
                match prev_hi {
                    None => {
                        assert(0 <= n - 1 < n && (data[n - 1] matches Some(u) && u.x as int == (
                        v.x as int)));
                    },
                    Some(m) => {
                        if (v.x as int) > m {
                            assert(0 <= n - 1 < n && (data[n - 1] matches Some(u) && u.x as int
                                == (v.x as int)));
                        } else {
                            let j = choose|j: int|
                                0 <= j < n - 1 && ((#[trigger] data[j]) matches Some(u) && u.x
                                    as int == m);
                            assert(0 <= j < n && (data[j] matches Some(u) && u.x as int == m));
                        }
                    },
                }
            },
        }
    }
}

/// One component remapped so the observed finite range `lo..=hi` becomes
/// the unit storage range.
pub open spec fn norm_component(c: int, lo: int, hi: int) -> int {
    ((c - lo) * SCALE) / (hi - lo)
}

/// A texel normalized against the observed finite range.
pub open spec fn norm_mapped(o: Option<Vector3>, lo: int, hi: int) -> Option<Vector3> {
    match o {
        None => None,
        Some(v) => Some(
            Vector3 {
                x: norm_component(v.x as int, lo, hi) as i64,
                y: norm_component(v.y as int, lo, hi) as i64,
                z: norm_component(v.z as int, lo, hi) as i64,
            },
        ),
    }
}

/// Remap every covered texel so the observed range of first components
/// becomes `0..=1`; texels without coverage are left alone, as is the
/// whole grid when no covered texel exists or the observed range is
/// empty.
pub fn map_texture_normalize(texture: &mut Texture)
    requires
        old(texture).wf(),
        forall|i: int|
            0 <= i < old(texture).data@.len() ==> ((#[trigger] old(texture).data@[i]) matches Some(
                v,
            ) ==> -SAMPLE_LIMIT <= v.x <= SAMPLE_LIMIT && -SAMPLE_LIMIT <= v.y <= SAMPLE_LIMIT
                && -SAMPLE_LIMIT <= v.z <= SAMPLE_LIMIT),
    ensures
        final(texture).wf(),
        final(texture).width == old(texture).width,
        final(texture).height == old(texture).height,
        final(texture).extent == old(texture).extent,
        final(texture).data@.len() == old(texture).data@.len(),
        ({
            let data = old(texture).data@;
            let n = data.len() as int;
            match (finite_lo_upto(data, n), finite_hi_upto(data, n)) {
                (Some(lo), Some(hi)) => if lo < hi {
                    forall|i: int|
                        0 <= i < data.len() ==> final(texture).data@[i] == norm_mapped(
                            data[i],
                            lo,
                            hi,
                        )
                } else {
                    final(texture).data@ == data
                },
                _ => final(texture).data@ == data,
            }
        }),
{
    let n = texture.data.len();
    let mut lo: Option<i64> = None;
    let mut hi: Option<i64> = None;
    let mut i: usize = 0;
    while i < n
        invariant
            0 <= i <= n,
            n == texture.data@.len(),
            forall|k: int|
                0 <= k < n ==> ((#[trigger] texture.data@[k]) matches Some(v) ==> -SAMPLE_LIMIT
                    <= v.x <= SAMPLE_LIMIT),
            lo == match finite_lo_upto(texture.data@, i as int) {
                Some(m) => Some(m as i64),
                None => None::<i64>,
            },
            hi == match finite_hi_upto(texture.data@, i as int) {
                Some(m) => Some(m as i64),
                None => None::<i64>,
            },
        decreases n - i,
    {
        proof {
            lemma_finite_bounds(texture.data@, i as int);
            lemma_finite_bounds(texture.data@, i as int + 1);
        }
        match &texture.data[i] {
            Some(v) => {
                lo = match lo {
                    None => Some(v.x),
                    Some(m) => if v.x < m {
                        Some(v.x)
                    } else {
                        Some(m)
                    },
                };
                hi = match hi {
                    None => Some(v.x),
                    Some(m) => if v.x > m {
                        Some(v.x)
                    } else {
                        Some(m)
                    },
                };
            },
            None => {},
        }
        i = i + 1;
    }
    proof {
        lemma_finite_bounds(texture.data@, n as int);
    }
    let (lo_v, hi_v): (i64, i64) = match (lo, hi) {
        (Some(a), Some(b)) => (a, b),
        _ => {
            return ;
        },
    };
    if lo_v >= hi_v {
        return ;
    }
    let mut data: Vec<Option<Vector3>> = Vec::new();
    let mut i: usize = 0;
    while i < n
        invariant
            0 <= i <= n,
            n == texture.data@.len(),
            lo_v < hi_v,
            -SAMPLE_LIMIT <= lo_v <= SAMPLE_LIMIT,
            -SAMPLE_LIMIT <= hi_v <= SAMPLE_LIMIT,
            finite_lo_upto(texture.data@, n as int) == Some(lo_v as int),
            finite_hi_upto(texture.data@, n as int) == Some(hi_v as int),
            forall|k: int|
                0 <= k < n ==> ((#[trigger] texture.data@[k]) matches Some(v) ==> -SAMPLE_LIMIT
                    <= v.x <= SAMPLE_LIMIT && -SAMPLE_LIMIT <= v.y <= SAMPLE_LIMIT && -SAMPLE_LIMIT
                    <= v.z <= SAMPLE_LIMIT),
            data@.len() == i,
            forall|j: int|
                0 <= j < i ==> data@[j] == norm_mapped(
                    texture.data@[j],
                    lo_v as int,
                    hi_v as int,
                ),
        decreases n - i,
    {
        let texel_in: Option<Vector3> = texture.data[i];
        let texel = match texel_in {
            Some(v) => {
                proof {
                    assert(texture.data@[i as int] matches Some(u) && -SAMPLE_LIMIT <= u.x
                        <= SAMPLE_LIMIT && -SAMPLE_LIMIT <= u.y <= SAMPLE_LIMIT && -SAMPLE_LIMIT
                        <= u.z <= SAMPLE_LIMIT);
                    let sl = SAMPLE_LIMIT as int;
                    assert(-(2 * sl * 65536) <= ((v.x as int) - (lo_v as int)) * (SCALE as int)
                        <= 2 * sl * 65536) by (nonlinear_arith)
                        requires
                            -2 * sl <= (v.x as int) - (lo_v as int) <= 2 * sl,
                            SCALE == 65536,
                    ;
                    assert(-(2 * sl * 65536) <= ((v.y as int) - (lo_v as int)) * (SCALE as int)
                        <= 2 * sl * 65536) by (nonlinear_arith)
                        requires
                            -2 * sl <= (v.y as int) - (lo_v as int) <= 2 * sl,
                            SCALE == 65536,
                    ;
                    assert(-(2 * sl * 65536) <= ((v.z as int) - (lo_v as int)) * (SCALE as int)
                        <= 2 * sl * 65536) by (nonlinear_arith)
                        requires
                            -2 * sl <= (v.z as int) - (lo_v as int) <= 2 * sl,
                            SCALE == 65536,
                    ;
                }
                let span: i128 = hi_v as i128 - lo_v as i128;
                let x = div_floor((v.x as i128 - lo_v as i128) * SCALE as i128, span) as i64;
                let y = div_floor((v.y as i128 - lo_v as i128) * SCALE as i128, span) as i64;
                let z = div_floor((v.z as i128 - lo_v as i128) * SCALE as i128, span) as i64;
                Some(Vector3 { x, y, z })
            },
            None => None,
        };
        data.push(texel);
        i = i + 1;
    }
    texture.data = data;
}

/// After normalization, the texel that attained the observed finite
/// minimum shows exactly 0 and the texel that attained the maximum shows
/// exactly full scale.
pub proof fn lemma_normalize_extremes(data: Seq<Option<Vector3>>, lo: int, hi: int, i: int)
    requires
        finite_lo_upto(data, data.len() as int) == Some(lo),
        finite_hi_upto(data, data.len() as int) == Some(hi),
        lo < hi,
        0 <= i < data.len(),
    ensures
        (data[i] matches Some(v) && v.x as int == lo) ==> (norm_mapped(data[i], lo, hi)
            matches Some(u) && u.x == 0),
        (data[i] matches Some(v) && v.x as int == hi) ==> (norm_mapped(data[i], lo, hi)
            matches Some(u) && u.x == SCALE),
{
    lemma_normalize_round_trip(lo, hi);
}

/// Normalization sends the minimum of the observed range to 0 and its
/// maximum to full scale, exactly.
pub proof fn lemma_normalize_round_trip(lo: int, hi: int)
    requires
        lo < hi,
    ensures
        norm_component(lo, lo, hi) == 0,
        norm_component(hi, lo, hi) == SCALE as int,
{
    let span = hi - lo;
    assert((lo - lo) * SCALE == 0) by (nonlinear_arith);
    vstd::arithmetic::div_mod::lemma_div_of0(span);
    assert((hi - lo) * SCALE == span * (SCALE as int)) by (nonlinear_arith)
        requires span == hi - lo
    ;
    vstd::arithmetic::div_mod::lemma_div_multiples_vanish(SCALE as int, span);
}

} // verus!
