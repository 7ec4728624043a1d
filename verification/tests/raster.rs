use pbr_texture_generation::Channel;
use pbr_texture_generation::CircleProfile;
use pbr_texture_generation::Point2;
use pbr_texture_generation::Point3;
use pbr_texture_generation::RopeMaterial;
use pbr_texture_generation::SCALE;
use pbr_texture_generation::Texture;
use pbr_texture_generation::TextureU8;
use pbr_texture_generation::Vector2;
use pbr_texture_generation::Vector3;
use pbr_texture_generation::Wire;
use pbr_texture_generation::WireNode;
use pbr_texture_generation::World;
use pbr_texture_generation::apply_function;
use pbr_texture_generation::fill_ids;
use pbr_texture_generation::id_to_bytes;
use pbr_texture_generation::map_texture_normalize;
use pbr_texture_generation::map_texture_range;
use pbr_texture_generation::texture_point_to_world;
use pbr_texture_generation::world_point_to_texture;

fn unit_extent() -> Vector2 {
    Vector2::new(SCALE, SCALE)
}

fn texel(c: i64) -> Option<Vector3> {
    Some(Vector3::new(c, c, c))
}

#[test]
fn textures_start_zeroed() {
    let t = Texture::new(3, 2, unit_extent());
    assert_eq!(t.size(), (3, 2));
    assert_eq!(t.data.len(), 6);
    assert!(t.data.iter().all(|p| *p == texel(0)));

    let b = TextureU8::new(2, 2, unit_extent());
    assert_eq!(b.size(), (2, 2));
    assert_eq!(b.data, vec![(0, 0, 0); 4]);
}

#[test]
fn range_map_moves_unit_range_into_storage_range() {
    let mut t = Texture::new(3, 1, unit_extent());
    t.data = vec![Some(Vector3::new(-SCALE, 0, SCALE)), None, texel(SCALE / 2)];
    map_texture_range(&mut t);
    assert_eq!(t.data[0], Some(Vector3::new(0, SCALE / 2, SCALE)));
    assert_eq!(t.data[1], None);
    assert_eq!(t.data[2], texel(3 * SCALE / 4));
}

#[test]
fn normalization_remaps_the_observed_range() {
    let mut t = Texture::new(4, 1, unit_extent());
    t.data = vec![texel(100), texel(300), None, texel(200)];
    map_texture_normalize(&mut t);
    // The minimum maps to 0.0, the maximum to 1.0, exactly.
    assert_eq!(t.data[0], texel(0));
    assert_eq!(t.data[1], texel(SCALE));
    assert_eq!(t.data[2], None);
    assert_eq!(t.data[3], texel(SCALE / 2));
}

#[test]
fn normalization_without_finite_samples_is_identity() {
    let mut t = Texture::new(2, 1, unit_extent());
    t.data = vec![None, None];
    map_texture_normalize(&mut t);
    assert_eq!(t.data, vec![None, None]);
}

#[test]
fn normalization_of_a_flat_grid_is_identity() {
    let mut t = Texture::new(3, 1, unit_extent());
    t.data = vec![texel(42), None, texel(42)];
    map_texture_normalize(&mut t);
    assert_eq!(t.data, vec![texel(42), None, texel(42)]);
}

#[test]
fn pixel_rows_map_top_down_onto_the_extent() {
    // Row 0 is the top of the world extent; x runs left to right.
    let p = texture_point_to_world((0, 0), (4, 4), &unit_extent());
    assert_eq!((p.x, p.y), (0, SCALE));
    let p = texture_point_to_world((2, 3), (4, 4), &unit_extent());
    assert_eq!((p.x, p.y), (SCALE / 2, SCALE / 4));
}

#[test]
fn world_points_round_to_the_nearest_pixel() {
    let t = Texture::new(4, 4, unit_extent());
    let r = world_point_to_texture(&t, Point2::new(SCALE / 2, SCALE / 4));
    assert_eq!(r, (2, 1));
    let r = world_point_to_texture(&t, Point2::new(0, 0));
    assert_eq!(r, (0, 0));
}

/// A flat wire along the horizontal midline of the unit extent.
fn midline_world(first_index: usize) -> World<RopeMaterial, CircleProfile> {
    let nodes = vec![
        WireNode::new(first_index, Point3::new(0, SCALE / 2, 1000), 3277),
        WireNode::new(first_index + 1, Point3::new(SCALE, SCALE / 2, 1000), 3277),
    ];
    World { wires: vec![Wire::new_from_nodes(nodes, true)] }
}

#[test]
fn alpha_fill_covers_only_the_midline_row() {
    let world = midline_world(1);
    let mut t = Texture::new(2, 2, unit_extent());
    apply_function(&mut t, &world, Channel::Alpha);
    // Row 0 samples world y = SCALE, far from the wire; row 1 samples
    // the midline exactly.
    assert_eq!(t.data[0], texel(0));
    assert_eq!(t.data[1], texel(0));
    assert_eq!(t.data[2], texel(SCALE));
    assert_eq!(t.data[3], texel(SCALE));
}

#[test]
fn height_fill_scales_by_the_display_constant() {
    let world = midline_world(1);
    let mut t = Texture::new(2, 2, unit_extent());
    apply_function(&mut t, &world, Channel::Height);
    // On the axis the elevation is 1000 + 3277; the channel divides by 10.
    assert_eq!(t.data[0], None);
    assert_eq!(t.data[1], None);
    assert_eq!(t.data[2], texel(427));
    assert_eq!(t.data[3], texel(427));
}

#[test]
fn normal_fill_defaults_to_up_off_coverage() {
    let world = midline_world(1);
    let mut t = Texture::new(2, 2, unit_extent());
    apply_function(&mut t, &world, Channel::Normal);
    assert_eq!(t.data[0], Some(Vector3::new(0, 0, SCALE)));
    assert_eq!(t.data[2], Some(Vector3::new(0, 0, SCALE)));
}

#[test]
fn id_bytes_split_little_endian() {
    assert_eq!(id_to_bytes(0), (0, 0, 0));
    assert_eq!(id_to_bytes(300), (44, 1, 0));
    assert_eq!(id_to_bytes(0x030201), (1, 2, 3));
}

#[test]
fn id_fill_writes_the_low_bytes_of_the_winner() {
    let world = midline_world(300);
    let mut t = TextureU8::new(2, 2, unit_extent());
    fill_ids(&mut t, &world);
    assert_eq!(t.data[0], (0, 0, 0));
    assert_eq!(t.data[1], (0, 0, 0));
    assert_eq!(t.data[2], (44, 1, 0));
    assert_eq!(t.data[3], (44, 1, 0));
}
