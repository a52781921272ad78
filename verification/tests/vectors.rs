use complexcity::fixed::{ceil_sqrt, floor_sqrt};
use complexcity::vector::Vec2;

#[test]
fn floor_sqrt_of_small_and_large_numbers() {
    assert_eq!(floor_sqrt(0), 0);
    assert_eq!(floor_sqrt(1), 1);
    assert_eq!(floor_sqrt(15), 3);
    assert_eq!(floor_sqrt(16), 4);
    assert_eq!(floor_sqrt(17), 4);
    assert_eq!(floor_sqrt(8_000_000_000_000_000_000_000_000), 2_828_427_124_746);
    assert_eq!(floor_sqrt(u128::MAX), 18_446_744_073_709_551_615);
}

#[test]
fn ceil_sqrt_rounds_up_unless_exact() {
    assert_eq!(ceil_sqrt(0), 0);
    assert_eq!(ceil_sqrt(1), 1);
    assert_eq!(ceil_sqrt(2), 2);
    assert_eq!(ceil_sqrt(16), 4);
    assert_eq!(ceil_sqrt(17), 5);
    assert_eq!(ceil_sqrt(u128::MAX), 18_446_744_073_709_551_616);
}

#[test]
fn new_holds_coordinates_inside_the_world() {
    let v = Vec2::new(2_000_000_000_000, -5);
    assert_eq!(v.x(), 1_000_000_000_000);
    assert_eq!(v.y(), -5);
    let w = Vec2::new(i64::MIN, i64::MAX);
    assert_eq!(w.x(), -1_000_000_000_000);
    assert_eq!(w.y(), 1_000_000_000_000);
}

#[test]
fn zero_is_zero() {
    assert!(Vec2::zero().is_zero());
    assert!(Vec2::default().is_zero());
    assert!(!Vec2::new(0, 1).is_zero());
}

#[test]
fn plus_adds_and_stops_at_the_edge() {
    let v = Vec2::new(3, -4).plus(Vec2::new(10, 10));
    assert_eq!((v.x(), v.y()), (13, 6));
    let w = Vec2::new(999_999_999_999, -999_999_999_999).plus(Vec2::new(5, -5));
    assert_eq!((w.x(), w.y()), (1_000_000_000_000, -1_000_000_000_000));
}

#[test]
fn negated_flips_both_coordinates() {
    let v = Vec2::new(7, -9).negated();
    assert_eq!((v.x(), v.y()), (-7, 9));
}

#[test]
fn scaled_rounds_toward_zero() {
    let v = Vec2::new(7, -7).scaled(1, 2);
    assert_eq!((v.x(), v.y()), (3, -3));
    let w = Vec2::new(-250_000, 177_000).scaled(66 * 500_000, 10_000_000);
    assert_eq!((w.x(), w.y()), (-825_000, 584_100));
    let big = Vec2::new(1_000_000_000_000, -1).scaled(u64::MAX, 1);
    assert_eq!((big.x(), big.y()), (1_000_000_000_000, -1_000_000_000_000));
}

#[test]
fn lengths_and_distances_are_exact() {
    assert_eq!(Vec2::new(3_000_000, -4_000_000).length_squared(), 25_000_000_000_000);
    assert_eq!(Vec2::new(1_000, 1_000).distance_squared(&Vec2::new(4_000, 5_000)), 25_000_000);
    let far = Vec2::new(-1_000_000_000_000, -1_000_000_000_000)
        .distance_squared(&Vec2::new(1_000_000_000_000, 1_000_000_000_000));
    assert_eq!(far, 8_000_000_000_000_000_000_000_000);
}

#[test]
fn clamp_length_max_keeps_short_vectors_and_shortens_long_ones() {
    let kept = Vec2::new(3_000_000, 4_000_000).clamp_length_max(5_000_000);
    assert_eq!((kept.x(), kept.y()), (3_000_000, 4_000_000));
    let halved = Vec2::new(6_000_000, 8_000_000).clamp_length_max(5_000_000);
    assert_eq!((halved.x(), halved.y()), (3_000_000, 4_000_000));
    let diagonal = Vec2::new(7_000_000, 7_000_000).clamp_length_max(5_000_000);
    assert_eq!((diagonal.x(), diagonal.y()), (3_535_533, 3_535_533));
    let skewed = Vec2::new(-10_001_000, 3_000).clamp_length_max(5_000_000);
    assert_eq!((skewed.x(), skewed.y()), (-4_999_999, 1_499));
}

#[test]
fn step_toward_is_the_difference_capped() {
    let from = Vec2::new(10_000_000, 0);
    let step = from.step_toward(&Vec2::zero(), 5_000_000);
    assert_eq!((step.x(), step.y()), (-5_000_000, 0));
    let near = from.step_toward(&Vec2::new(10_000_003, -4), 5_000_000);
    assert_eq!((near.x(), near.y()), (3, -4));
}

#[test]
fn clamp_length_stretches_short_vectors_away_from_zero() {
    let v = Vec2::new(3, -4).clamp_length(250_000, 6_500_000);
    assert_eq!((v.x(), v.y()), (150_000, -200_000));
    let w = Vec2::new(10_000, 10_000).clamp_length(250_000, 6_500_000);
    assert_eq!((w.x(), w.y()), (176_777, 176_777));
    let tiny = Vec2::new(1, 1).clamp_length(250_000, 6_500_000);
    assert_eq!((tiny.x(), tiny.y()), (176_777, 176_777));
    let kept = Vec2::new(300_000, 400_000).clamp_length(250_000, 6_500_000);
    assert_eq!((kept.x(), kept.y()), (300_000, 400_000));
    let cut = Vec2::new(0, -20_000_000).clamp_length(250_000, 6_500_000);
    assert_eq!((cut.x(), cut.y()), (0, -6_500_000));
}

#[test]
fn clamp_length_keeps_the_zero_vector() {
    let v = Vec2::zero().clamp_length(250_000, 6_500_000);
    assert!(v.is_zero());
}

#[test]
fn clamped_lengths_lie_in_the_band_and_close_to_its_ends() {
    let samples: [(i64, i64); 13] = [
        (1, 0),
        (0, -1),
        (1, 1),
        (176_776, 176_777),
        (176_777, 176_777),
        (250_000, 0),
        (6_500_000, 0),
        (6_500_001, 1),
        (4_596_194, 4_596_195),
        (1_000_000_000_000, 1_000_000_000_000),
        (-1_000_000_000_000, 1),
        (-123_456_789, 654_321_987),
        (7, -1_000_000_000_000),
    ];
    for (x, y) in samples {
        let before = Vec2::new(x, y).length_squared();
        let n = Vec2::new(x, y).clamp_length(250_000, 6_500_000).length_squared();
        assert!(n >= 250_000 * 250_000, "({x}, {y}) came out too short");
        assert!(n <= 6_500_000 * 6_500_000, "({x}, {y}) came out too long");
        if before < 250_000 * 250_000 {
            assert!(n < 250_003 * 250_003, "({x}, {y}) was stretched too far");
        }
        if before > 6_500_000 * 6_500_000 {
            assert!(n > 6_499_997 * 6_499_997, "({x}, {y}) was shortened too far");
        }
    }
}
