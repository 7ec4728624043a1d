use pbr_texture_generation::CircleProfile;
use pbr_texture_generation::Drawable;
use pbr_texture_generation::Material;
use pbr_texture_generation::Profile;
use pbr_texture_generation::Point2;
use pbr_texture_generation::Point3;
use pbr_texture_generation::RopeMaterial;
use pbr_texture_generation::SCALE;
use pbr_texture_generation::SimpleColoredMaterial;
use pbr_texture_generation::Vector3;
use pbr_texture_generation::Wire;
use pbr_texture_generation::WireNode;
use pbr_texture_generation::World;
use pbr_texture_generation::albedo_function;
use pbr_texture_generation::alpha_function;
use pbr_texture_generation::height_function;
use pbr_texture_generation::id_function;
use pbr_texture_generation::normal_function;

/// A straight one-unit wire on the x axis: width 0.05 world units at both
/// ends, elevation 0, caps enabled.
fn straight_wire() -> Wire<RopeMaterial, CircleProfile> {
    Wire::new(
        7,
        Point3::new(0, 0, 0),
        8,
        Point3::new(SCALE, 0, 0),
        3277,
        3277,
        true,
    )
}

#[test]
fn straight_wire_midpoint_elevation() {
    // On the axis the cross-section peak adds one full half-width.
    let wire = straight_wire();
    assert_eq!(wire.get_height(Point2::new(SCALE / 2, 0)), Some(3277));
    assert_eq!(wire.get_height(Point2::new(0, 0)), Some(3277));
}

#[test]
fn straight_wire_misses_beyond_the_cap() {
    // 0.1 world units before the start: farther than the width, so the
    // end region offers nothing and the wire reports no coverage.
    let wire = straight_wire();
    assert_eq!(wire.get_height(Point2::new(-6554, 0)), None);
}

#[test]
fn cap_region_contributes_when_close_enough() {
    let wire = straight_wire();
    let h = wire.get_height(Point2::new(-1000, 0));
    assert!(h.is_some());
    // A body hit at the same distance from the axis sits higher than the
    // cap hit, which pays the full radial distance.
    assert!(h.unwrap() < 3277);
}

#[test]
fn caps_disabled_drop_the_end_regions() {
    let wire = Wire::new(
        7,
        Point3::new(0, 0, 0),
        8,
        Point3::new(SCALE, 0, 0),
        3277,
        3277,
        false,
    );
    assert_eq!(wire.get_height(Point2::new(-1000, 0)), None);
    assert_eq!(wire.get_height(Point2::new(SCALE / 2, 0)), Some(3277));
}

#[test]
fn degenerate_wire_is_a_point_tube() {
    // Both nodes share a planar position: the tube is a single disk.
    let nodes = vec![
        WireNode::new(1, Point3::new(1000, 2000, 500), 100),
        WireNode::new(2, Point3::new(1000, 2000, 700), 300),
    ];
    let wire = Wire::new_from_nodes(nodes, true);
    // Distance 100 equals the width at t = 0; the profile is evaluated
    // at the rim: cos_fix(SCALE) = 35498, so 500 + 100 * 35498 / 65536.
    assert_eq!(wire.get_height(Point2::new(1060, 2080)), Some(554));
    // Distance 141 exceeds the width: no coverage.
    assert_eq!(wire.get_height(Point2::new(1100, 2100)), None);
    // Dead centre: the full bump.
    assert_eq!(wire.get_height(Point2::new(1000, 2000)), Some(600));
}

#[test]
fn outside_every_expanded_box_means_no_coverage() {
    let wire = straight_wire();
    // y = 4000 lies outside the box expanded by the width 3277.
    assert_eq!(wire.get_height(Point2::new(SCALE / 2, 4000)), None);
    assert_eq!(wire.get_height(Point2::new(-4000, 4000)), None);
}

#[test]
fn no_seam_at_a_shared_node() {
    // Two segments meeting at a right angle, probed from the outer wedge
    // of the joint: each segment alone reports the same elevation there.
    let a = Wire::new(
        1,
        Point3::new(0, 0, 100),
        2,
        Point3::new(SCALE, 0, 200),
        50,
        50,
        true,
    );
    let b = Wire::new(
        2,
        Point3::new(SCALE, 0, 200),
        3,
        Point3::new(SCALE, SCALE, 300),
        50,
        50,
        true,
    );
    let p = Point2::new(SCALE + 34, -20);
    let ha = a.get_height(p);
    let hb = b.get_height(p);
    assert!(ha.is_some());
    assert_eq!(ha, hb);
}

#[test]
fn id_comes_from_the_winning_body_segment_only() {
    let wire = straight_wire();
    // A body hit reports the segment's first node.
    assert_eq!(
        wire.get_height_with_id(Point2::new(SCALE / 2, 0)),
        (Some(3277), 7)
    );
    // An end-region hit wins the elevation but never sets the id.
    let (h, id) = wire.get_height_with_id(Point2::new(-1000, 0));
    assert!(h.is_some());
    assert_eq!(id, 0);
}

#[test]
fn normal_of_a_straight_level_tube_points_up() {
    let wire = straight_wire();
    let n = wire.get_normal(Point2::new(SCALE / 2, 0));
    assert_eq!((n.x, n.y, n.z), (0, 0, SCALE));
}

#[test]
fn normal_tilts_sideways_at_the_rim() {
    // Halfway to the rim the cross-section parameter is 1/2 in magnitude,
    // so the half-turn sine peaks and the normal leans fully toward the
    // probe's side of the axis before renormalization: (0, 1, 1) in unit
    // terms, scaled back to a unit vector afterwards.
    let wire = Wire::new(
        0,
        Point3::new(0, 0, 0),
        1,
        Point3::new(SCALE, 0, 0),
        100,
        100,
        true,
    );
    let n = wire.get_normal(Point2::new(SCALE / 2, 50));
    assert_eq!((n.x, n.y, n.z), (0, 46341, 46341));
}

#[test]
fn albedo_reports_the_material_color() {
    let nodes = vec![
        WireNode::new(1, Point3::new(0, 0, 0), 3277),
        WireNode::new(2, Point3::new(SCALE, 0, 0), 3277),
    ];
    let wire = Wire::new_from_nodes_with_material(
        nodes,
        true,
        SimpleColoredMaterial::new(Vector3::new(10, 20, 30)),
    );
    let c = wire.get_albedo(Point2::new(SCALE / 2, 0));
    assert_eq!((c.x, c.y, c.z), (10, 20, 30));
    let miss = wire.get_albedo(Point2::new(SCALE / 2, 4000));
    assert_eq!((miss.x, miss.y, miss.z), (0, 0, 0));
}

fn flat_wire(
    first_index: usize,
    z: i64,
    color: Vector3,
) -> Wire<SimpleColoredMaterial, CircleProfile> {
    let nodes = vec![
        WireNode::new(first_index, Point3::new(0, 0, z), 3277),
        WireNode::new(first_index + 1, Point3::new(SCALE, 0, z), 3277),
    ];
    Wire::new_from_nodes_with_material(nodes, true, SimpleColoredMaterial::new(color))
}

#[test]
fn highest_wire_wins_every_channel() {
    // Wire A reaches 1.0 at the probe, wire B reaches 2.0: albedo,
    // normal and id all report wire B, in either iteration order.
    let p = Point2::new(SCALE / 2, 0);
    let a = || flat_wire(1, SCALE - 3277, Vector3::new(11, 12, 13));
    let b = || flat_wire(5, 2 * SCALE - 3277, Vector3::new(21, 22, 23));
    let expected_normal = b().get_normal(p);

    for world in [
        World { wires: vec![a(), b()] },
        World { wires: vec![b(), a()] },
    ] {
        assert_eq!(height_function(&world, p), Some(2 * SCALE / 10));
        let c = albedo_function(&world, p);
        assert_eq!((c.x, c.y, c.z), (21, 22, 23));
        let n = normal_function(&world, p);
        assert_eq!((n.x, n.y, n.z), (expected_normal.x, expected_normal.y, expected_normal.z));
        assert_eq!(id_function(&world, p), 5);
        assert_eq!(alpha_function(&world, p), SCALE);
    }
}

#[test]
fn equal_heights_keep_the_first_wire() {
    let p = Point2::new(SCALE / 2, 0);
    let world = World {
        wires: vec![
            flat_wire(1, 1000, Vector3::new(1, 1, 1)),
            flat_wire(5, 1000, Vector3::new(2, 2, 2)),
        ],
    };
    let c = albedo_function(&world, p);
    assert_eq!((c.x, c.y, c.z), (1, 1, 1));
    assert_eq!(id_function(&world, p), 1);
}

#[test]
fn empty_world_yields_the_sentinels() {
    let world: World<RopeMaterial, CircleProfile> = World { wires: vec![] };
    let p = Point2::new(100, 100);
    assert_eq!(height_function(&world, p), None);
    assert_eq!(alpha_function(&world, p), 0);
    let c = albedo_function(&world, p);
    assert_eq!((c.x, c.y, c.z), (0, 0, 0));
    let n = normal_function(&world, p);
    assert_eq!((n.x, n.y, n.z), (0, 0, SCALE));
    assert_eq!(id_function(&world, p), 0);
}

#[test]
fn uncovered_point_with_wires_present() {
    let world = World { wires: vec![flat_wire(1, 1000, Vector3::new(9, 9, 9))] };
    let p = Point2::new(SCALE / 2, SCALE / 2);
    assert_eq!(height_function(&world, p), None);
    assert_eq!(alpha_function(&world, p), 0);
    let n = normal_function(&world, p);
    assert_eq!((n.x, n.y, n.z), (0, 0, SCALE));
}

#[test]
fn wires_answer_through_the_drawable_interface() {
    fn probe<D: Drawable>(field: &D, p: Point2) -> Option<i64> {
        field.get_height(p)
    }
    let wire = straight_wire();
    assert_eq!(probe(&wire, Point2::new(SCALE / 2, 0)), Some(3277));
}

#[test]
fn profile_height_matches_the_quartic_cosine() {
    let profile = CircleProfile;
    assert_eq!(profile.get_height(0), SCALE);
    assert_eq!(profile.get_height(SCALE), 35498);
    assert_eq!(profile.get_height(-SCALE), 35498);
    assert_eq!(profile.get_height(SCALE / 2), 57514);
}

#[test]
fn materials_expose_their_colors() {
    let rope = RopeMaterial;
    let c = rope.get_color();
    assert_eq!((c.x, c.y, c.z), (0, 0, 0));
    let colored = SimpleColoredMaterial::new(Vector3::new(5, 6, 7));
    let c = colored.get_color();
    assert_eq!((c.x, c.y, c.z), (5, 6, 7));
}
