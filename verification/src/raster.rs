//! The raster driver: the pixel grid mapped onto the world plane, one
//! channel evaluated per pixel.
//!
//! Pixel `(x, y)` of a `(W, H)` grid over extent `(Ex, Ey)` samples the
//! world point `((x / W) * Ex, ((H - y) / H) * Ey)`: the vertical axis is
//! flipped so image row 0 shows the top of the world extent.

use vstd::prelude::*;

verus! {

use crate::fixed::COORD_LIMIT;
use crate::fixed::div_nn;
use crate::geometry::Point2;
use crate::geometry::Vector2;
use crate::geometry::Vector3;
use crate::profile::Material;
use crate::profile::Profile;
use crate::texture::Texture;
use crate::texture::TextureU8;
use crate::world::World;
use crate::world::albedo_channel_spec;
use crate::world::albedo_function;
use crate::world::alpha_channel_spec;
use crate::world::alpha_function;
use crate::world::height_channel_spec;
use crate::world::height_function;
use crate::world::id_channel_spec;
use crate::world::id_function;
use crate::world::normal_channel_spec;
use crate::world::normal_function;

/// One of the floating channels a texture can hold.
#[derive(Clone, Copy, PartialEq, Eq, Structural, Debug)]
pub enum Channel {
    Albedo,
    Height,
    Normal,
    Alpha,
}

/// World coordinates sampled by pixel `(x, y)` of a `(tw, th)` grid over
/// extent `(ex, ey)`, rounded down to fixed-point units.
pub open spec fn pixel_to_world_spec(x: int, y: int, tw: int, th: int, ex: int, ey: int) -> (
    int,
    int,
) {
    ((x * ex) / tw, ((th - y) * ey) / th)
}

/// The same mapping as a point value.
pub open spec fn pixel_world_point(x: int, y: int, tw: int, th: int, extent: Vector2) -> Point2 {
    let w = pixel_to_world_spec(x, y, tw, th, extent.x as int, extent.y as int);
    Point2 { x: w.0 as i64, y: w.1 as i64 }
}

/// Map a pixel of the grid onto the world plane.
pub fn texture_point_to_world(
    point: (usize, usize),
    texture_size: (usize, usize),
    texture_extent: &Vector2,
) -> (r: Point2)
    requires
        1 <= texture_size.0,
        1 <= texture_size.1,
        point.0 <= texture_size.0,
        point.1 <= texture_size.1,
        texture_extent.extent_ok(),
    ensures
        r == pixel_world_point(
            point.0 as int,
            point.1 as int,
            texture_size.0 as int,
            texture_size.1 as int,
            *texture_extent,
        ),
        r.in_bounds(),
        0 <= r.x,
        0 <= r.y,
{
    let tw: i128 = texture_size.0 as i128;
    let th: i128 = texture_size.1 as i128;
    let ex: i128 = texture_extent.x as i128;
    let ey: i128 = texture_extent.y as i128;
    proof {
        assert(tw * ex <= 0xffff_ffff_ffff_ffff * 1_000_000_000) by (nonlinear_arith)
            requires 0 <= tw <= 0xffff_ffff_ffff_ffff, 0 <= ex <= 1_000_000_000
        ;
        assert(th * ey <= 0xffff_ffff_ffff_ffff * 1_000_000_000) by (nonlinear_arith)
            requires 0 <= th <= 0xffff_ffff_ffff_ffff, 0 <= ey <= 1_000_000_000
        ;
        assert(0 <= (point.0 as int) * ex <= tw * ex) by (nonlinear_arith)
            requires 0 <= point.0 <= tw, 0 <= ex
        ;
        vstd::arithmetic::div_mod::lemma_div_is_ordered((point.0 as int) * ex, tw * ex, tw as int);
        vstd::arithmetic::div_mod::lemma_div_multiples_vanish(ex as int, tw as int);
        vstd::arithmetic::div_mod::lemma_div_pos_is_pos((point.0 as int) * ex, tw as int);
        assert(0 <= ((th as int) - point.1) * ey <= th * ey) by (nonlinear_arith)
            requires 0 <= point.1 <= th, 0 <= ey
        ;
        vstd::arithmetic::div_mod::lemma_div_is_ordered(
            ((th as int) - point.1) * ey,
            th * ey,
            th as int,
        );
        vstd::arithmetic::div_mod::lemma_div_multiples_vanish(ey as int, th as int);
        vstd::arithmetic::div_mod::lemma_div_pos_is_pos(((th as int) - point.1) * ey, th as int);
    }
    let wx: i128 = div_nn(point.0 as i128 * ex, tw);
    let wy: i128 = div_nn((th - point.1 as i128) * ey, th);
    Point2 { x: wx as i64, y: wy as i64 }
}

/// Nearest pixel of the grid for a world point, rounding half up.
pub open spec fn world_to_pixel_spec(p: int, extent: int, size: int) -> int {
    (2 * p * size + extent) / (2 * extent)
}

/// Map a world point back onto the pixel grid of `texture`.
pub fn world_point_to_texture(texture: &Texture, point: Point2) -> (r: (i64, i64))
    requires
        1 <= texture.extent.x <= COORD_LIMIT,
        1 <= texture.extent.y <= COORD_LIMIT,
        texture.width <= 0x1_0000_0000,
        texture.height <= 0x1_0000_0000,
        0 <= point.x <= COORD_LIMIT,
        0 <= point.y <= COORD_LIMIT,
    ensures
        r.0 as int == world_to_pixel_spec(
            point.x as int,
            texture.extent.x as int,
            texture.width as int,
        ),
        r.1 as int == world_to_pixel_spec(
            point.y as int,
            texture.extent.y as int,
            texture.height as int,
        ),
{
    let cl: i128 = COORD_LIMIT as i128;
    proof {
        assert(0 <= 2 * (point.x as int) * (texture.width as int) <= 2 * (cl as int)
            * 0x1_0000_0000) by (nonlinear_arith)
            requires 0 <= point.x <= cl, 0 <= texture.width <= 0x1_0000_0000
        ;
        assert(0 <= 2 * (point.y as int) * (texture.height as int) <= 2 * (cl as int)
            * 0x1_0000_0000) by (nonlinear_arith)
            requires 0 <= point.y <= cl, 0 <= texture.height <= 0x1_0000_0000
        ;
        let nx = 2 * (point.x as int) * (texture.width as int) + texture.extent.x;
        let dx = 2 * (texture.extent.x as int);
        vstd::arithmetic::div_mod::lemma_div_pos_is_pos(nx, dx);
        vstd::arithmetic::div_mod::lemma_div_nonincreasing(nx, dx);
        let ny = 2 * (point.y as int) * (texture.height as int) + texture.extent.y;
        let dy = 2 * (texture.extent.y as int);
        vstd::arithmetic::div_mod::lemma_div_pos_is_pos(ny, dy);
        vstd::arithmetic::div_mod::lemma_div_nonincreasing(ny, dy);
    }
    let px: i128 = div_nn(
        2 * point.x as i128 * texture.width as i128 + texture.extent.x as i128,
        2 * texture.extent.x as i128,
    );
    let py: i128 = div_nn(
        2 * point.y as i128 * texture.height as i128 + texture.extent.y as i128,
        2 * texture.extent.y as i128,
    );
    (px as i64, py as i64)
}

/// The texel one channel shows at one world point.
pub open spec fn channel_texel_spec<M: Material, P: Profile>(
    world: World<M, P>,
    p: Point2,
    channel: Channel,
) -> Option<Vector3> {
    match channel {
        Channel::Albedo => {
            let c = albedo_channel_spec(world, p);
            Some(Vector3 { x: c.0 as i64, y: c.1 as i64, z: c.2 as i64 })
        },
        Channel::Height => match height_channel_spec(world, p) {
            Some(h) => Some(Vector3 { x: h as i64, y: h as i64, z: h as i64 }),
            None => None,
        },
        Channel::Normal => {
            let c = normal_channel_spec(world, p);
            Some(Vector3 { x: c.0 as i64, y: c.1 as i64, z: c.2 as i64 })
        },
        Channel::Alpha => {
            let a = alpha_channel_spec(world, p);
            Some(Vector3 { x: a as i64, y: a as i64, z: a as i64 })
        },
    }
}

/// Evaluate one channel at one world point.
pub fn channel_texel<M: Material, P: Profile>(
    world: &World<M, P>,
    point: Point2,
    channel: Channel,
) -> (r: Option<Vector3>)
    requires
        world.wf(),
        point.in_bounds(),
    ensures
        r == channel_texel_spec(*world, point, channel),
{
    match channel {
        Channel::Albedo => Some(albedo_function(world, point)),
        Channel::Height => match height_function(world, point) {
            Some(h) => Some(Vector3 { x: h, y: h, z: h }),
            None => None,
        },
        Channel::Normal => Some(normal_function(world, point)),
        Channel::Alpha => {
            let a = alpha_function(world, point);
            Some(Vector3 { x: a, y: a, z: a })
        },
    }
}

/// Fill every pixel of `texture` with the chosen channel of the world
/// field, sampling each pixel's world point.
pub fn apply_function<M: Material, P: Profile>(
    texture: &mut Texture,
    world: &World<M, P>,
    channel: Channel,
)
    requires
        old(texture).wf(),
        1 <= old(texture).width,
        1 <= old(texture).height,
        old(texture).extent.extent_ok(),
        world.wf(),
    ensures
        final(texture).wf(),
        final(texture).width == old(texture).width,
        final(texture).height == old(texture).height,
        final(texture).extent == old(texture).extent,
        forall|x: int, y: int|
            0 <= x < old(texture).width && 0 <= y < old(texture).height ==> final(texture).at(
                x,
                y,
            ) == channel_texel_spec(
                *world,
                pixel_world_point(
                    x,
                    y,
                    old(texture).width as int,
                    old(texture).height as int,
                    old(texture).extent,
                ),
                channel,
            ),
{
    let w = texture.width;
    let h = texture.height;
    let n = texture.data.len();
    proof {
        assert(n == w * h);
    }
    let mut data: Vec<Option<Vector3>> = Vec::new();
    let mut j: usize = 0;
    while j < n
        invariant
            0 <= j <= n,
            n == w * h,
            1 <= w,
            1 <= h,
            w == texture.width,
            h == texture.height,
            texture.extent.extent_ok(),
            world.wf(),
            data@.len() == j,
            forall|k: int|
                0 <= k < j ==> data@[k] == channel_texel_spec(
                    *world,
                    pixel_world_point(
                        k % (w as int),
                        k / (w as int),
                        w as int,
                        h as int,
                        texture.extent,
                    ),
                    channel,
                ),
        decreases n - j,
    {
        let x = j % w;
        let y = j / w;
        proof {
            vstd::arithmetic::div_mod::lemma_mod_division_less_than_divisor(j as int, w as int);
            assert((j as int) < (w as int) * (h as int)) by (nonlinear_arith)
                requires j < n, n == w * h
            ;
            vstd::arithmetic::div_mod::lemma_multiply_divide_lt(j as int, w as int, h as int);
        }
        let wp = texture_point_to_world((x, y), (w, h), &texture.extent);
        let texel = channel_texel(world, wp, channel);
        data.push(texel);
        j = j + 1;
    }
    texture.data = data;
    proof {
        assert forall|x: int, y: int|
            0 <= x < texture.width && 0 <= y < texture.height implies texture.at(x, y)
            == channel_texel_spec(
            *world,
            pixel_world_point(x, y, texture.width as int, texture.height as int, texture.extent),
            channel,
        ) by {
            let wi = texture.width as int;
            let k = y * wi + x;
            assert(0 <= k < (texture.height as int) * wi) by (nonlinear_arith)
                requires 0 <= x < wi, 0 <= y < texture.height, k == y * wi + x
            ;
            vstd::arithmetic::div_mod::lemma_fundamental_div_mod_converse(k, wi, y, x);
        }
    }
}

/// The low three bytes of an identifier, least significant first.
pub open spec fn id_bytes_spec(id: int) -> (u8, u8, u8) {
    ((id % 256) as u8, ((id / 256) % 256) as u8, ((id / 65536) % 256) as u8)
}

/// Split an identifier into its low three bytes.
pub fn id_to_bytes(id: usize) -> (r: (u8, u8, u8))
    ensures
        r == id_bytes_spec(id as int),
{
    proof {
        vstd::arithmetic::div_mod::lemma_mod_division_less_than_divisor(id as int, 256);
        vstd::arithmetic::div_mod::lemma_div_pos_is_pos(id as int, 256);
        vstd::arithmetic::div_mod::lemma_mod_division_less_than_divisor((id as int) / 256, 256);
        vstd::arithmetic::div_mod::lemma_div_pos_is_pos(id as int, 65536);
        vstd::arithmetic::div_mod::lemma_mod_division_less_than_divisor((id as int) / 65536, 256);
    }
    ((id % 256) as u8, ((id / 256) % 256) as u8, ((id / 65536) % 256) as u8)
}

/// Fill every pixel of the byte grid with the low three bytes of the id
/// channel.
pub fn fill_ids<M: Material, P: Profile>(texture: &mut TextureU8, world: &World<M, P>)
    requires
        old(texture).wf(),
        1 <= old(texture).width,
        1 <= old(texture).height,
        old(texture).extent.extent_ok(),
        world.wf(),
    ensures
        final(texture).wf(),
        final(texture).width == old(texture).width,
        final(texture).height == old(texture).height,
        final(texture).extent == old(texture).extent,
        forall|x: int, y: int|
            0 <= x < old(texture).width && 0 <= y < old(texture).height ==> final(texture).at(
                x,
                y,
            ) == id_bytes_spec(
                id_channel_spec(
                    *world,
                    pixel_world_point(
                        x,
                        y,
                        old(texture).width as int,
                        old(texture).height as int,
                        old(texture).extent,
                    ),
                ),
            ),
{
    let w = texture.width;
    let h = texture.height;
    let n = texture.data.len();
    let mut data: Vec<(u8, u8, u8)> = Vec::new();
    let mut j: usize = 0;
    while j < n
        invariant
            0 <= j <= n,
            n == w * h,
            1 <= w,
            1 <= h,
            w == texture.width,
            h == texture.height,
            texture.extent.extent_ok(),
            world.wf(),
            data@.len() == j,
            forall|k: int|
                0 <= k < j ==> data@[k] == id_bytes_spec(
                    id_channel_spec(
                        *world,
                        pixel_world_point(
                            k % (w as int),
                            k / (w as int),
                            w as int,
                            h as int,
                            texture.extent,
                        ),
                    ),
                ),
        decreases n - j,
    {
        let x = j % w;
        let y = j / w;
        proof {
            vstd::arithmetic::div_mod::lemma_mod_division_less_than_divisor(j as int, w as int);
            assert((j as int) < (w as int) * (h as int)) by (nonlinear_arith)
                requires j < n, n == w * h
            ;
            vstd::arithmetic::div_mod::lemma_multiply_divide_lt(j as int, w as int, h as int);
        }
        let wp = texture_point_to_world((x, y), (w, h), &texture.extent);
        let id = id_function(world, wp);
        data.push(id_to_bytes(id));
        j = j + 1;
    }
    texture.data = data;
    proof {
        assert forall|x: int, y: int|
            0 <= x < texture.width && 0 <= y < texture.height implies texture.at(x, y)
            == id_bytes_spec(
            id_channel_spec(
                *world,
                pixel_world_point(
                    x,
                    y,
                    texture.width as int,
                    texture.height as int,
                    texture.extent,
                ),
            ),
        ) by {
            let wi = texture.width as int;
            let k = y * wi + x;
            assert(0 <= k < (texture.height as int) * wi) by (nonlinear_arith)
                requires 0 <= x < wi, 0 <= y < texture.height, k == y * wi + x
            ;
            vstd::arithmetic::div_mod::lemma_fundamental_div_mod_converse(k, wi, y, x);
        }
    }
}

} // verus!
