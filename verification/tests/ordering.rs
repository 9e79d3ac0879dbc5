use eidos::document::{document_order, DocNode, PrimitiveKind};
use eidos::arrow::ArrowIds;
use eidos::depth::{back_to_front_order, compare_key, key_at_least, key_less, merge_by_depth, order_key, Layer};
use eidos::grid::face_corners;
use eidos::spline::catmull_rom_segments;
use eidos::timeline::{animation_phase, Phase};

fn key(x: f64) -> u64 {
    order_key(x.to_bits())
}

fn cmp_key(x: f64) -> Option<u64> {
    compare_key(x.to_bits())
}

#[test]
fn order_key_follows_total_order_of_doubles() {
    let values = [
        f64::NEG_INFINITY,
        -1e300,
        -2.5,
        -0.0,
        0.0,
        1e-300,
        0.25,
        3.0,
        1e300,
        f64::INFINITY,
    ];
    for a in values {
        for b in values {
            assert_eq!(key(a).cmp(&key(b)), a.total_cmp(&b), "{} vs {}", a, b);
        }
    }
}

#[test]
fn back_to_front_order_sorts_largest_first_and_keeps_ties_stable() {
    let keys = vec![key(1.0), key(5.0), key(3.0), key(5.0), key(f64::NEG_INFINITY)];
    assert_eq!(back_to_front_order(&keys), vec![1, 3, 2, 0, 4]);
    assert_eq!(back_to_front_order(&vec![]), Vec::<usize>::new());
}

#[test]
fn merge_places_farther_circles_before_each_primitive() {
    // Existing: two faces (depth 9, then 4) and an overlay at -inf.
    let prims = vec![cmp_key(9.0), cmp_key(4.0), cmp_key(f64::NEG_INFINITY)];
    // Circles at depths 1, 10, 4.
    let depths = [1.0, 10.0, 4.0];
    let order = back_to_front_order(&depths.iter().map(|&d| key(d)).collect());
    assert_eq!(order, vec![1, 2, 0]);
    let circles = depths.iter().map(|&d| cmp_key(d)).collect();
    let layers = merge_by_depth(&prims, &circles, &order);
    assert_eq!(
        layers,
        vec![
            Layer::Scatter(1),
            Layer::Existing(0),
            Layer::Scatter(2),
            Layer::Existing(1),
            Layer::Scatter(0),
            Layer::Existing(2),
        ]
    );
}

#[test]
fn merge_with_no_circles_keeps_the_scene() {
    let prims = vec![cmp_key(2.0), cmp_key(7.0)];
    let layers = merge_by_depth(&prims, &vec![], &vec![]);
    assert_eq!(layers, vec![Layer::Existing(0), Layer::Existing(1)]);
}

#[test]
fn merge_into_empty_scene_appends_circles() {
    let order = back_to_front_order(&vec![key(1.0), key(2.0)]);
    let circles = vec![cmp_key(1.0), cmp_key(2.0)];
    let layers = merge_by_depth(&vec![], &circles, &order);
    assert_eq!(layers, vec![Layer::Scatter(1), Layer::Scatter(0)]);
}

#[test]
fn arrow_ids_are_unique_and_count_up() {
    let mut ids = ArrowIds::new();
    let a1 = ids.next_arrow_id();
    let a2 = ids.next_arrow_id();
    assert_ne!(a1, a2);
    assert_eq!(a1, 0);
    assert_eq!(a2, 1);
}

#[test]
fn grid_2x2_has_one_face() {
    assert_eq!(face_corners(2, 2), vec![(0, 1, 2, 3)]);
}

#[test]
fn grid_faces_are_row_major() {
    assert_eq!(
        face_corners(3, 3),
        vec![(0, 1, 3, 4), (1, 2, 4, 5), (3, 4, 6, 7), (4, 5, 7, 8)]
    );
    assert_eq!(face_corners(1, 3), vec![]);
    assert_eq!(face_corners(30, 30).len(), 29 * 29);
}

#[test]
fn catmull_rom_two_points_duplicate_both_ends() {
    assert_eq!(catmull_rom_segments(2), vec![(0, 0, 1, 1)]);
}

#[test]
fn catmull_rom_segments_count_and_neighbours() {
    let segs = catmull_rom_segments(5);
    // 1 MoveTo + (n-1) CubicTo = n commands
    assert_eq!(segs.len() + 1, 5);
    assert_eq!(segs, vec![(0, 0, 1, 2), (0, 1, 2, 3), (1, 2, 3, 4), (2, 3, 4, 4)]);
    assert_eq!(catmull_rom_segments(1), vec![]);
}

fn ranges(rs: &[(f64, f64)]) -> Vec<(Option<u64>, Option<u64>)> {
    rs.iter().map(|&(s, d)| (cmp_key(s), cmp_key(s + d))).collect()
}

#[test]
fn phase_without_animation() {
    assert_eq!(animation_phase(cmp_key(1.0), &vec![]), Phase::NoAnimation);
}

#[test]
fn phase_before_inside_after() {
    let r = ranges(&[(1.0, 2.0)]);
    assert_eq!(animation_phase(cmp_key(0.5), &r), Phase::Before);
    assert_eq!(animation_phase(cmp_key(1.0), &r), Phase::Active(0));
    assert_eq!(animation_phase(cmp_key(2.0), &r), Phase::Active(0));
    assert_eq!(animation_phase(cmp_key(3.0), &r), Phase::After);
    assert_eq!(animation_phase(cmp_key(100.0), &r), Phase::After);
}

#[test]
fn phase_between_ranges_holds_previous() {
    let r = ranges(&[(0.0, 1.0), (2.0, 1.0)]);
    assert_eq!(animation_phase(cmp_key(1.5), &r), Phase::Gap(Some(0)));
    assert_eq!(animation_phase(cmp_key(2.5), &r), Phase::Active(1));
}

#[test]
fn document_order_puts_arrow_definitions_first() {
    let kinds = vec![
        PrimitiveKind::Circle,
        PrimitiveKind::Arrow,
        PrimitiveKind::Text,
        PrimitiveKind::Arrow,
    ];
    assert_eq!(
        document_order(&kinds),
        vec![
            DocNode::ArrowDefs(1),
            DocNode::ArrowDefs(3),
            DocNode::Shape(0),
            DocNode::Shape(1),
            DocNode::Shape(2),
            DocNode::Shape(3),
        ]
    );
    assert_eq!(document_order(&vec![]), vec![]);
    assert_eq!(
        document_order(&vec![PrimitiveKind::Bezier]),
        vec![DocNode::Shape(0)]
    );
}

#[test]
fn compare_keys_follow_ieee_comparisons() {
    let values = [
        f64::NEG_INFINITY,
        -2.5,
        -0.0,
        0.0,
        1e-300,
        3.0,
        f64::INFINITY,
        f64::NAN,
        -f64::NAN,
    ];
    for a in values {
        for b in values {
            assert_eq!(key_at_least(cmp_key(a), cmp_key(b)), a >= b, "{} >= {}", a, b);
            assert_eq!(key_less(cmp_key(a), cmp_key(b)), a < b, "{} < {}", a, b);
        }
    }
    assert_eq!(cmp_key(f64::NAN), None);
    assert_eq!(cmp_key(-0.0), cmp_key(0.0));
}

#[test]
fn merge_holds_back_circles_behind_a_nan_circle() {
    // The NaN circle sorts first (total order) and fails every `>=`, so it and the
    // circle after it wait until all existing primitives are drawn.
    let prims = vec![cmp_key(9.0), cmp_key(4.0)];
    let depths = [5.0, f64::NAN];
    let order = back_to_front_order(&depths.iter().map(|&d| key(d)).collect());
    assert_eq!(order, vec![1, 0]);
    let circles = depths.iter().map(|&d| cmp_key(d)).collect();
    let layers = merge_by_depth(&prims, &circles, &order);
    assert_eq!(
        layers,
        vec![Layer::Existing(0), Layer::Existing(1), Layer::Scatter(1), Layer::Scatter(0)]
    );
}

#[test]
fn merge_draws_a_nan_primitive_before_pending_circles() {
    let prims = vec![cmp_key(f64::NAN), cmp_key(1.0)];
    let circles = vec![cmp_key(5.0)];
    let layers = merge_by_depth(&prims, &circles, &vec![0]);
    assert_eq!(layers, vec![Layer::Existing(0), Layer::Scatter(0), Layer::Existing(1)]);
}

#[test]
fn merge_treats_negative_zero_as_equal_to_zero() {
    let prims = vec![cmp_key(0.0)];
    let circles = vec![cmp_key(-0.0)];
    let layers = merge_by_depth(&prims, &circles, &vec![0]);
    assert_eq!(layers, vec![Layer::Scatter(0), Layer::Existing(0)]);
}

#[test]
fn phase_of_a_nan_time_is_a_gap_with_nothing_ended() {
    let r = ranges(&[(0.0, 1.0), (2.0, 1.0)]);
    assert_eq!(animation_phase(cmp_key(f64::NAN), &r), Phase::Gap(None));
}

#[test]
fn phase_at_negative_zero_is_inside_a_range_from_zero() {
    let r = ranges(&[(0.0, 1.0)]);
    assert_eq!(animation_phase(cmp_key(-0.0), &r), Phase::Active(0));
}

#[test]
fn phase_with_a_nan_start_is_never_before() {
    let r = vec![(cmp_key(f64::NAN), cmp_key(1.0))];
    assert_eq!(animation_phase(cmp_key(-5.0), &r), Phase::Gap(None));
    assert_eq!(animation_phase(cmp_key(2.0), &r), Phase::After);
}
