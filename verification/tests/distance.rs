use pbr_texture_generation::DistanceResult;
use pbr_texture_generation::Line;
use pbr_texture_generation::Point2;
use pbr_texture_generation::SCALE;

fn unit_segment() -> Line {
    Line::new(Point2::new(0, 0), Point2::new(SCALE, 0))
}

#[test]
fn body_point_on_axis() {
    let line = unit_segment();
    let r = line.distance_to_point(Point2::new(SCALE / 2, 0), true);
    assert!(matches!(r, DistanceResult::Full { t, d } if t == SCALE / 2 && d == 0));
}

#[test]
fn body_point_off_axis() {
    let line = unit_segment();
    let r = line.distance_to_point(Point2::new(SCALE / 2, 300), true);
    assert!(matches!(r, DistanceResult::Full { t, d } if t == SCALE / 2 && d == 300));
}

#[test]
fn cap_point_before_start() {
    let line = unit_segment();
    let r = line.distance_to_point(Point2::new(-6554, 0), true);
    assert!(matches!(r, DistanceResult::Caps { t, d } if t == 0 && d == 6554));
}

#[test]
fn cap_point_past_end() {
    let line = unit_segment();
    let r = line.distance_to_point(Point2::new(SCALE + 100, 0), true);
    assert!(matches!(r, DistanceResult::Caps { t, d } if t == SCALE && d == 100));
}

#[test]
fn caps_disabled_refuses_exactly_the_cap_hits() {
    // The end regions become out of bounds; body hits are unchanged.
    let line = unit_segment();
    let probes = [
        Point2::new(-6554, 0),
        Point2::new(SCALE + 100, 77),
        Point2::new(SCALE / 4, 55),
        Point2::new(SCALE, 0),
    ];
    for p in probes {
        let with_caps = line.distance_to_point(p, true);
        let without = line.distance_to_point(p, false);
        match with_caps {
            DistanceResult::Caps { .. } => {
                assert!(matches!(without, DistanceResult::OutOfBounds));
            }
            other => assert_eq!(without, other),
        }
    }
}

#[test]
fn degenerate_segment_is_a_point() {
    let line = Line::new(Point2::new(100, 200), Point2::new(100, 200));
    let r = line.distance_to_point(Point2::new(103, 204), false);
    assert!(matches!(r, DistanceResult::Full { t, d } if t == 0 && d == 5));
}

#[test]
fn degenerate_distance_rounds_down() {
    let line = Line::new(Point2::new(0, 0), Point2::new(0, 0));
    let r = line.distance_to_point(Point2::new(1, 1), true);
    assert!(matches!(r, DistanceResult::Full { t, d } if t == 0 && d == 1));
}

#[test]
fn projection_clamps_at_the_far_end() {
    let line = unit_segment();
    let r = line.distance_to_point(Point2::new(2 * SCALE, 30), true);
    // The projection clamps to the end node, so the distance is to it.
    match r {
        DistanceResult::Caps { t, d } => {
            assert_eq!(t, SCALE);
            // sqrt(65536^2 + 30^2) in fixed point, rounded down
            assert_eq!(d, 65536);
        }
        _ => panic!("expected an end-region hit"),
    }
}
