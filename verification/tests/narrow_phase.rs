use merge_physics::fixed::{isqrt, saturate_i32, scale_along, SCALE};
use merge_physics::physics::{ball_ball_collision, ball_rect_collision, Ball, Rectangle, Vec2};

/// A length given in thousandths of a unit.
fn milli(value: i32) -> i32 {
    value * (SCALE / 1_000)
}

/// A ball with a radius in thousandths of a unit.
fn ball(radius: i32, tier: u8) -> Ball {
    Ball { radius: milli(radius), bounciness: SCALE / 2, ball_type: tier }
}

/// A ball with a radius in sub-units.
fn raw_ball(radius: i32, tier: u8) -> Ball {
    Ball { radius, bounciness: SCALE / 2, ball_type: tier }
}

/// A point given in thousandths of a unit.
fn at(x: i32, y: i32) -> Vec2 {
    Vec2 { x: milli(x), y: milli(y) }
}

/// A point given in sub-units.
fn raw(x: i32, y: i32) -> Vec2 {
    Vec2 { x, y }
}

/// A wall with extents in thousandths of a unit.
fn wall(width: i32, height: i32) -> Rectangle {
    Rectangle { width: milli(width), height: milli(height) }
}

#[test]
fn a_unit_has_a_million_sub_units() {
    assert_eq!(SCALE, 1_000_000);
    assert_eq!(milli(14_250), 14_250_000);
}

#[test]
fn isqrt_rounds_down() {
    assert_eq!(isqrt(0), 0);
    assert_eq!(isqrt(1), 1);
    assert_eq!(isqrt(2), 1);
    assert_eq!(isqrt(3), 1);
    assert_eq!(isqrt(4), 2);
    assert_eq!(isqrt(80), 8);
    assert_eq!(isqrt(81), 9);
    assert_eq!(isqrt(82), 9);
    assert_eq!(isqrt(81_000_000), 9_000);
    assert_eq!(isqrt(999_999_999_999), 999_999);
}

#[test]
fn isqrt_of_the_largest_input() {
    assert_eq!(isqrt(u128::MAX), u64::MAX);
    assert_eq!(isqrt(1u128 << 126), 1u64 << 63);
    assert_eq!(isqrt((1u128 << 126) - 1), (1u64 << 63) - 1);
}

#[test]
fn saturate_clamps_to_i32() {
    assert_eq!(saturate_i32(0), 0);
    assert_eq!(saturate_i32(-17), -17);
    assert_eq!(saturate_i32(i32::MAX as i128), i32::MAX);
    assert_eq!(saturate_i32(i32::MAX as i128 + 1), i32::MAX);
    assert_eq!(saturate_i32(i32::MIN as i128), i32::MIN);
    assert_eq!(saturate_i32(i32::MIN as i128 - 1), i32::MIN);
    assert_eq!(saturate_i32(i128::MAX), i32::MAX);
    assert_eq!(saturate_i32(i128::MIN), i32::MIN);
}

#[test]
fn scale_along_an_axis_is_exact() {
    assert_eq!(scale_along(-9_000, 4_750, 81_000_000), -4_750);
    assert_eq!(scale_along(9_000, 4_750, 81_000_000), 4_750);
    assert_eq!(scale_along(9_000, -4_750, 81_000_000), -4_750);
    assert_eq!(scale_along(-9_000, -4_750, 81_000_000), 4_750);
    assert_eq!(scale_along(0, 4_750, 81_000_000), 0);
}

#[test]
fn scale_along_a_diagonal_rounds_toward_zero() {
    // The vector (3, 4) has length 5; rescaled to length 10 it is (6, 8).
    assert_eq!(scale_along(3, 10, 25), 6);
    assert_eq!(scale_along(4, 10, 25), 8);
    // The vector (1, 1) rescaled to length 1000 is (707.1.., 707.1..).
    assert_eq!(scale_along(1, 1_000, 2), 707);
    assert_eq!(scale_along(-1, 1_000, 2), -707);
    // The same vector rescaled to five units: 5 / sqrt(2) = 3.5355339..
    assert_eq!(scale_along(2_500_000, 5_000_000, 12_500_000_000_000), 3_535_533);
}

#[test]
fn ball_at_exactly_one_radius_from_a_wall_does_not_touch() {
    // The wall's top edge is at y = 2.5.
    let contact = ball_rect_collision(&ball(5_000, 0), &at(30_000, 7_500), &wall(100_000, 5_000), &at(50_000, 0));
    assert_eq!(contact, None);
}

#[test]
fn ball_one_step_nearer_than_one_radius_touches_at_the_nearest_point() {
    let contact = ball_rect_collision(
        &ball(5_000, 0),
        &raw(30_000_000, 7_499_999),
        &wall(100_000, 5_000),
        &at(50_000, 0),
    );
    assert_eq!(contact, Some(at(30_000, 2_500)));
}

#[test]
fn ball_one_unit_nearer_than_one_radius_touches_at_the_nearest_point() {
    let contact = ball_rect_collision(&ball(5_000, 0), &at(30_000, 6_500), &wall(100_000, 5_000), &at(50_000, 0));
    assert_eq!(contact, Some(at(30_000, 2_500)));
}

#[test]
fn ball_next_to_a_wall_corner_touches_at_the_corner() {
    // Corner at (5, 5); centre at (8, 9) is 5 away: no contact.
    assert_eq!(ball_rect_collision(&ball(5_000, 0), &at(8_000, 9_000), &wall(10_000, 10_000), &at(0, 0)), None);
    // One step nearer on one axis: contact at the corner.
    assert_eq!(
        ball_rect_collision(&ball(5_000, 0), &raw(8_000_000, 8_999_999), &wall(10_000, 10_000), &at(0, 0)),
        Some(at(5_000, 5_000))
    );
}

#[test]
fn ball_centred_inside_a_wall_touches_at_its_own_centre() {
    assert_eq!(
        ball_rect_collision(&ball(5_000, 0), &at(1_000, -2_000), &wall(10_000, 10_000), &at(0, 0)),
        Some(at(1_000, -2_000))
    );
}

#[test]
fn wall_of_odd_width_has_its_half_width_rounded_down() {
    let wall = Rectangle { width: 5, height: 5 };
    // Half extents are 2 sub-units: the right edge is at x = 2.
    assert_eq!(ball_rect_collision(&raw_ball(10, 0), &raw(11, 0), &wall, &raw(0, 0)), Some(raw(2, 0)));
    assert_eq!(ball_rect_collision(&raw_ball(10, 0), &raw(12, 0), &wall, &raw(0, 0)), None);
}

#[test]
fn balls_that_just_touch_do_not_collide() {
    let contact = ball_ball_collision(&ball(5_000, 0), &at(10_000, 0), &ball(5_000, 0), &at(20_000, 0));
    assert_eq!(contact, None);
}

#[test]
fn balls_one_step_nearer_than_touching_collide() {
    let contact =
        ball_ball_collision(&ball(5_000, 0), &at(10_000, 0), &ball(5_000, 0), &raw(19_999_999, 0));
    // The overlap of one sub-unit has no quarter: the contact is one radius from the second centre.
    assert_eq!(contact, Some(raw(14_999_999, 0)));
}

#[test]
fn contact_point_is_biased_by_a_quarter_of_the_overlap() {
    // Radii 5 and 5, centres 9 apart: overlap 1, delta 0.25, contact 4.75 from the second centre.
    let contact = ball_ball_collision(&ball(5_000, 0), &at(10_000, 0), &ball(5_000, 0), &at(19_000, 0));
    assert_eq!(contact, Some(at(14_250, 0)));
    assert_ne!(contact, Some(at(14_500, 0)));
}

#[test]
fn contact_point_lies_toward_the_first_ball() {
    let contact = ball_ball_collision(&ball(5_000, 0), &at(19_000, 0), &ball(5_000, 0), &at(10_000, 0));
    assert_eq!(contact, Some(at(14_750, 0)));
    let contact = ball_ball_collision(&ball(5_000, 0), &at(0, 9_000), &ball(5_000, 0), &at(0, 0));
    assert_eq!(contact, Some(at(0, 4_750)));
}

#[test]
fn contact_point_on_a_diagonal() {
    // Centres (3, 4) apart, d = 5; radii 4 and 2: overlap 1, delta 0.25,
    // contact 1.75 from the second centre along (0.6, 0.8).
    let contact = ball_ball_collision(&ball(4_000, 0), &at(3_000, 4_000), &ball(2_000, 1), &at(0, 0));
    assert_eq!(contact, Some(at(1_050, 1_400)));
}

#[test]
fn contact_point_is_within_a_ten_thousandth_of_the_real_one() {
    // Radii 5 and 8, centres (7, 9) apart: d = sqrt(130), delta = (13 - d) / 4,
    // contact at (8 - delta) / d along (7, 9).
    let contact =
        ball_ball_collision(&ball(5_000, 0), &at(7_000, 9_000), &ball(8_000, 1), &at(0, 0)).unwrap();
    let d = 130f64.sqrt();
    let reach = 8.0 - (13.0 - d) / 4.0;
    assert!((contact.x as f64 / 1e6 - 7.0 / d * reach).abs() < 1e-5);
    assert!((contact.y as f64 / 1e6 - 9.0 / d * reach).abs() < 1e-5);
}

#[test]
fn balls_with_one_centre_do_not_collide() {
    let contact = ball_ball_collision(&ball(5_000, 0), &at(7, 7), &ball(5_000, 0), &at(7, 7));
    assert_eq!(contact, None);
}

#[test]
fn contact_point_behind_a_small_second_ball() {
    // Radii 40 and 4, centres 4 apart: overlap 40, delta 10, so the contact lies 6 beyond
    // the second centre, away from the first.
    let contact = ball_ball_collision(&raw_ball(40, 0), &raw(4, 0), &raw_ball(4, 1), &raw(0, 0));
    assert_eq!(contact, Some(raw(-6, 0)));
}

#[test]
fn contact_point_saturates_at_the_edge_of_the_plane() {
    let contact = ball_ball_collision(
        &raw_ball(i32::MAX, 0),
        &raw(i32::MAX, 0),
        &raw_ball(i32::MAX, 0),
        &raw(i32::MAX - 4, 0),
    );
    assert_eq!(contact, Some(raw(i32::MAX, 0)));
}
