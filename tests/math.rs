use breakout::math::{isqrt, launch_velocity, random_direction, sign, Aabb, Fraction, HitInfo};
use breakout::vector::{Vec2, UNIT};
use ultraviolet as uv;

/// A point given in world units, on the grid.
fn v(x: f32, y: f32) -> Vec2 {
    Vec2::new((x as f64 * UNIT as f64).round() as i64, (y as f64 * UNIT as f64).round() as i64)
}

fn unit_aabb() -> Aabb {
    Aabb { min: v(-0.5, -0.5), max: v(0.5, 0.5) }
}

const PADDING: (f32, f32) = (0.25, 0.25);

fn padding() -> Option<Vec2> {
    Some(v(PADDING.0, PADDING.1))
}

/// A hit as floating-point values: time, position in world units, unit normal.
#[derive(Debug, PartialEq)]
struct Hit {
    t: f32,
    pos: uv::Vec2,
    normal: uv::Vec2,
}

fn seen(h: Option<HitInfo>) -> Option<Hit> {
    h.map(|h| Hit {
        t: h.t.num as f32 / h.t.den as f32,
        pos: uv::Vec2::new(h.pos.x as f32 / UNIT as f32, h.pos.y as f32 / UNIT as f32),
        normal: uv::Vec2::new(h.normal.x as f32, h.normal.y as f32).normalized(),
    })
}

// Lines from outside

#[test]
fn check_x_axis_left_to_right() {
    // Line starting LEFT of the box and moving RIGHT
    assert_eq!(
        seen(unit_aabb().intersects_with_line(v(-1., 0.), v(1., 0.), None)),
        Some(Hit { t: 0.5, pos: uv::Vec2::new(-0.5, 0.), normal: uv::Vec2::new(-1., 0.) }),
    );
}

#[test]
fn check_x_axis_right_to_left() {
    assert_eq!(
        seen(unit_aabb().intersects_with_line(v(1., 0.), v(-1., 0.), None)),
        Some(Hit { t: 0.5, pos: uv::Vec2::new(0.5, 0.), normal: uv::Vec2::new(1., 0.) }),
    );
}

#[test]
fn check_y_axis_top_to_bottom() {
    assert_eq!(
        seen(unit_aabb().intersects_with_line(v(0., 1.), v(0., -1.), None)),
        Some(Hit { t: 0.5, pos: uv::Vec2::new(0., 0.5), normal: uv::Vec2::new(0., 1.) }),
    );
}

#[test]
fn check_y_axis_bottom_to_top() {
    assert_eq!(
        seen(unit_aabb().intersects_with_line(v(0., -1.), v(0., 1.), None)),
        Some(Hit { t: 0.5, pos: uv::Vec2::new(0., -0.5), normal: uv::Vec2::new(0., -1.) }),
    );
}

#[test]
fn check_corner_hit() {
    // Line starting ABOVE and LEFT of the box, moving DOWN and to the RIGHT
    assert_eq!(
        seen(unit_aabb().intersects_with_line(v(-1., 1.), v(1., -1.), None)),
        Some(Hit { t: 0.5, pos: uv::Vec2::new(-0.5, 0.5), normal: uv::Vec2::new(-1., 1.).normalized() }),
    );
}

// Lines from inside

#[test]
fn check_x_axis_origin_to_right() {
    assert_eq!(
        seen(unit_aabb().intersects_with_line(v(0., 0.), v(1., 0.), None)),
        Some(Hit { t: 0., pos: uv::Vec2::new(0., 0.), normal: -uv::Vec2::new(1., 0.) }),
    );
}

#[test]
fn check_x_axis_origin_to_left() {
    assert_eq!(
        seen(unit_aabb().intersects_with_line(v(0., 0.), v(-1., 0.), None)),
        Some(Hit { t: 0., pos: uv::Vec2::new(0., 0.), normal: -uv::Vec2::new(-1., 0.) }),
    );
}

#[test]
fn check_y_axis_origin_to_bottom() {
    assert_eq!(
        seen(unit_aabb().intersects_with_line(v(0., 0.), v(0., -1.), None)),
        Some(Hit { t: 0., pos: uv::Vec2::new(0., 0.), normal: -uv::Vec2::new(0., -1.) }),
    );
}

#[test]
fn check_y_axis_origin_to_top() {
    assert_eq!(
        seen(unit_aabb().intersects_with_line(v(0., 0.), v(0., 1.), None)),
        Some(Hit { t: 0., pos: uv::Vec2::new(0., 0.), normal: -uv::Vec2::new(0., 1.) }),
    );
}

// Lines against the box grown by a padding

#[test]
fn math_check_x_axis_left_to_right() {
    assert_eq!(
        seen(unit_aabb().intersects_with_line(v(-1., 0.), v(1., 0.), padding())),
        Some(Hit { t: 0.25, pos: uv::Vec2::new(-0.75, 0.), normal: uv::Vec2::new(-1., 0.) }),
    );
}

#[test]
fn math_check_x_axis_right_to_left() {
    assert_eq!(
        seen(unit_aabb().intersects_with_line(v(1., 0.), v(-1., 0.), padding())),
        Some(Hit { t: 0.25, pos: uv::Vec2::new(0.75, 0.), normal: uv::Vec2::new(1., 0.) }),
    );
}

#[test]
fn math_check_y_axis_top_to_bottom() {
    assert_eq!(
        seen(unit_aabb().intersects_with_line(v(0., 1.), v(0., -1.), padding())),
        Some(Hit { t: 0.25, pos: uv::Vec2::new(0., 0.75), normal: uv::Vec2::new(0., 1.) }),
    );
}

#[test]
fn math_check_y_axis_bottom_to_top() {
    assert_eq!(
        seen(unit_aabb().intersects_with_line(v(0., -1.), v(0., 1.), padding())),
        Some(Hit { t: 0.25, pos: uv::Vec2::new(0., -0.75), normal: uv::Vec2::new(0., -1.) }),
    );
}

#[test]
fn math_check_corner_hit() {
    // The normal is the exact diagonal, normalised.
    assert_eq!(
        seen(unit_aabb().intersects_with_line(v(-1., 1.), v(1., -1.), padding())),
        Some(Hit { t: 0.25, pos: uv::Vec2::new(-0.75, 0.75), normal: uv::Vec2::new(-1., 1.).normalized() }),
    );
}

#[test]
fn corner_hit_exact_values() {
    let h = unit_aabb().intersects_with_line(v(-1., 1.), v(1., -1.), None).unwrap();
    assert_eq!(h.t, Fraction { num: 500000, den: 1000000 });
    assert_eq!(h.pos, v(-0.5, 0.5));
    assert_eq!(h.normal, Vec2::new(-1, 1));
}

#[test]
fn line_misses() {
    let b = unit_aabb();
    // Passes above the box.
    assert_eq!(b.intersects_with_line(v(-1., 1.), v(2., 0.), None), None);
    // Stops short of the box.
    assert_eq!(b.intersects_with_line(v(-2., 0.), v(1., 0.), None), None);
    // Ends exactly on the face: time 1 is not a hit.
    assert_eq!(b.intersects_with_line(v(-1.5, 0.), v(1., 0.), None), None);
    // Points away from the box.
    assert_eq!(b.intersects_with_line(v(-1., 0.), v(-1., 0.), None), None);
    // Does not move, outside the box.
    assert_eq!(b.intersects_with_line(v(-1., 0.), v(0., 0.), None), None);
    // Moves along y only, outside the x slab.
    assert_eq!(b.intersects_with_line(v(-1., -1.), v(0., 2.), None), None);
}

#[test]
fn line_hit_diagonal_off_axis() {
    // Enters through the left face at t = 1/2, rounded position on y.
    let h = unit_aabb().intersects_with_line(v(-1., 0.), v(1., 0.3), None).unwrap();
    assert_eq!(h.t, Fraction { num: 500000, den: 1000000 });
    assert_eq!(h.pos, v(-0.5, 0.15));
    assert_eq!(h.normal, Vec2::new(-1, 0));
    // Enters through the top face later than through the left slab.
    let h = unit_aabb().intersects_with_line(v(-0.75, 1.5), v(0.5, -2.), None).unwrap();
    assert_eq!(h.t, Fraction { num: 250000, den: 500000 });
    assert_eq!(h.pos, v(-0.5, 0.5));
    assert_eq!(h.normal, Vec2::new(-1, 1));
    let h = unit_aabb().intersects_with_line(v(-0.6, 1.5), v(0.5, -2.), None).unwrap();
    assert_eq!(h.normal, Vec2::new(0, 1));
    assert_eq!(h.pos, v(-0.35, 0.5));
}

#[test]
fn from_quad_orders_corners() {
    let b = Aabb::new_from_quad(v(1., 2.), v(-3., 4.));
    assert_eq!(b.min, v(-2., 2.));
    assert_eq!(b.max, v(1., 6.));
    let b = Aabb::new_from_quad(v(1., 2.), v(-3., -4.));
    assert!(b.min.x <= b.max.x && b.min.y <= b.max.y);
    assert_eq!(b.min, v(-2., -2.));
    assert_eq!(b.max, v(1., 2.));
    let b = Aabb::new_from_quad(v(1., 2.), v(0., 0.));
    assert_eq!(b.min, b.max);
}

#[test]
fn center_and_half_extents() {
    let b = Aabb { min: Vec2::new(-4, 2), max: Vec2::new(6, 7) };
    assert_eq!(b.center(), Vec2::new(1, 4));
    assert_eq!(b.half_extents(), Vec2::new(5, 2));
    let b = Aabb { min: Vec2::new(-3, -3), max: Vec2::new(0, 0) };
    // Rounded down.
    assert_eq!(b.center(), Vec2::new(-2, -2));
    assert_eq!(unit_aabb().center(), v(0., 0.));
    assert_eq!(unit_aabb().half_extents(), v(0.5, 0.5));
}

#[test]
fn contains_point_is_inclusive() {
    let b = unit_aabb();
    assert!(b.contains_point(v(0.5, -0.5)));
    assert!(b.contains_point(v(0., 0.)));
    assert!(!b.contains_point(v(0.6, 0.)));
    assert!(!b.contains_point(v(0., -0.75)));
}

#[test]
fn aabb_overlap_is_symmetric() {
    let a = unit_aabb();
    let touching = Aabb { min: v(0.5, -0.5), max: v(1.5, 0.5) };
    let apart = Aabb { min: v(0.6, -0.5), max: v(1.5, 0.5) };
    let above = Aabb { min: v(-0.25, 0.25), max: v(0.25, 3.) };
    for b in [touching, apart, above, a] {
        assert_eq!(a.intersects_with_aabb(&b), b.intersects_with_aabb(&a));
    }
    assert!(a.intersects_with_aabb(&touching));
    assert!(!a.intersects_with_aabb(&apart));
    assert!(a.intersects_with_aabb(&above));
}

#[test]
fn sweep_pads_by_half_size() {
    let still = unit_aabb();
    let moving = Aabb { min: v(-1.5, -0.25), max: v(-1., 0.25) };
    // Center (-1.25, 0), half size (0.25, 0.25): the grown box's face is at -0.75.
    // In doubled coordinates the center travels 1 of 2.
    let h = still.intersects_with_aabb_sweep(&moving, v(1., 0.)).unwrap();
    assert_eq!(h.t, Fraction { num: 1000000, den: 2000000 });
    assert_eq!(h.pos, v(-0.75, 0.));
    assert_eq!(h.normal, Vec2::new(-1, 0));
    // A sweep of length zero never hits, even when overlapping.
    assert_eq!(still.intersects_with_aabb_sweep(&still, v(0., 0.)), None);
    // Too short a sweep.
    assert_eq!(still.intersects_with_aabb_sweep(&moving, v(0.4, 0.)), None);
}

#[test]
fn sweep_of_odd_width_box_is_exact() {
    // A box one grid step wide, two steps from a still box, sweeping two steps.
    let still = Aabb { min: Vec2::new(2, 0), max: Vec2::new(3, 2) };
    let moving = Aabb { min: Vec2::new(0, 0), max: Vec2::new(1, 2) };
    let h = still.intersects_with_aabb_sweep(&moving, Vec2::new(2, 0)).unwrap();
    assert_eq!(h.t, Fraction { num: 2, den: 4 });
    assert_eq!(h.normal, Vec2::new(-1, 0));
    // The moved box touches the still one there.
    let moved = Aabb { min: Vec2::new(1, 0), max: Vec2::new(2, 2) };
    assert!(moved.intersects_with_aabb(&still));
    // One step short of touching.
    assert_eq!(still.intersects_with_aabb_sweep(&moving, Vec2::new(1, 0)), None);
}

#[test]
fn negative_padding_can_empty_the_box() {
    let b = Aabb { min: Vec2::new(0, 0), max: Vec2::new(0, 0) };
    // The grown box spans y in [5, -5]: empty, so nothing is hit.
    assert_eq!(b.intersects_with_line(Vec2::new(0, -10), Vec2::new(0, 100), Some(Vec2::new(0, -5))), None);
    // A shrunk box that is not empty is still hit.
    let b = Aabb { min: Vec2::new(-10, -10), max: Vec2::new(10, 10) };
    let h = b.intersects_with_line(Vec2::new(0, -20), Vec2::new(0, 40), Some(Vec2::new(-5, -5))).unwrap();
    assert_eq!(h.t, Fraction { num: 15, den: 40 });
    assert_eq!(h.pos, Vec2::new(0, -5));
}

#[test]
fn sign_values() {
    assert_eq!(sign(-7), -1);
    assert_eq!(sign(0), 0);
    assert_eq!(sign(12), 1);
}

#[test]
fn isqrt_values() {
    assert_eq!(isqrt(0), 0);
    assert_eq!(isqrt(15), 3);
    assert_eq!(isqrt(16), 4);
    assert_eq!(isqrt(135000u128 * 135000), 135000);
}

#[test]
fn launch_velocity_values() {
    assert_eq!(launch_velocity(3, 5), Vec2::new(3, 4));
    assert_eq!(launch_velocity(0, 135000), Vec2::new(0, 135000));
    assert_eq!(launch_velocity(-4, 5), Vec2::new(-4, 3));
    // 135000^2 - 95000^2 = 9200000000, whose square root is 95916.63...
    assert_eq!(launch_velocity(95000, 135000), Vec2::new(95000, 95916));
}

#[test]
fn random_direction_points_up() {
    for _ in 0..200 {
        let d = random_direction(135000);
        assert!(d.y > 0);
        assert!(d.x.abs() <= d.y);
        assert!(d.x.abs() <= 135000 * 707 / 1000);
        let m = d.x * d.x + d.y * d.y;
        assert!(m <= 135000 * 135000);
        assert!(m > 134998 * 134998);
    }
}

#[test]
fn random_direction_varies() {
    let first = random_direction(135000);
    let differs = (0..200).any(|_| random_direction(135000) != first);
    assert!(differs);
}
