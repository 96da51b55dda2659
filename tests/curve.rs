use sword_swing::curve::{
    cubic_bezier, ease_in_out_cubic, lerp, quadratic_bezier, smooth_step, Vec2, UNIT,
};

#[test]
fn lerp_exact_values() {
    assert_eq!(lerp(0, 100, 500_000), 50);
    assert_eq!(lerp(10, -10, 250_000), 5);
    assert_eq!(lerp(-7, 9, 0), -7);
    assert_eq!(lerp(-7, 9, UNIT), 9);
}

#[test]
fn lerp_rounds_down() {
    assert_eq!(lerp(0, -1, 500_000), -1);
    assert_eq!(lerp(0, 1, 500_000), 0);
}

#[test]
fn lerp_extreme_endpoints() {
    assert_eq!(lerp(i64::MIN, i64::MAX, UNIT), i64::MAX);
    assert_eq!(lerp(i64::MAX, i64::MIN, UNIT), i64::MIN);
    assert_eq!(lerp(i64::MIN, i64::MAX, 0), i64::MIN);
}

#[test]
fn vector_lerp() {
    let a = Vec2::new(0, 100);
    let b = Vec2::new(200, -100);
    assert_eq!(a.lerp(b, 250_000), Vec2::new(50, 50));
}

#[test]
fn smooth_step_values() {
    assert_eq!(smooth_step(0), 0);
    assert_eq!(smooth_step(UNIT), UNIT);
    assert_eq!(smooth_step(500_000), 500_000);
    assert_eq!(smooth_step(250_000), 156_250);
}

#[test]
fn ease_in_out_cubic_values() {
    assert_eq!(ease_in_out_cubic(0), 0);
    assert_eq!(ease_in_out_cubic(250_000), 62_500);
    assert_eq!(ease_in_out_cubic(500_000), 500_000);
    assert_eq!(ease_in_out_cubic(750_000), 937_500);
    assert_eq!(ease_in_out_cubic(UNIT), UNIT);
}

#[test]
fn cubic_bezier_endpoints_are_exact() {
    let p0 = Vec2::new(-123_457, 987_655);
    let p1 = Vec2::new(5, -3);
    let p2 = Vec2::new(i64::MAX, i64::MIN);
    let p3 = Vec2::new(31_415, -27_183);
    assert_eq!(cubic_bezier(p0, p1, p2, p3, 0), p0);
    assert_eq!(cubic_bezier(p0, p1, p2, p3, UNIT), p3);
}

#[test]
fn cubic_bezier_midpoint() {
    let r = cubic_bezier(
        Vec2::new(0, 0),
        Vec2::new(0, -200_000),
        Vec2::new(200_000, -200_000),
        Vec2::new(200_000, 0),
        500_000,
    );
    assert_eq!(r, Vec2::new(100_000, -150_000));
}

#[test]
fn quadratic_bezier_values() {
    let p0 = Vec2::new(0, 0);
    let p1 = Vec2::new(100, 100);
    let p2 = Vec2::new(200, 0);
    assert_eq!(quadratic_bezier(p0, p1, p2, 500_000), Vec2::new(100, 50));
    assert_eq!(quadratic_bezier(p0, p1, p2, 0), p0);
    assert_eq!(quadratic_bezier(p0, p1, p2, UNIT), p2);
}

#[test]
fn wrapping_vector_arithmetic() {
    let a = Vec2::new(i64::MAX, 0);
    let b = Vec2::new(1, -1);
    assert_eq!(a.wrapping_add(b), Vec2::new(i64::MIN, -1));
    let t = Vec2::new(i64::MIN, 5);
    assert_eq!(t.wrapping_sub(t.wrapping_sub(a)), a);
}

#[test]
fn lerp_extrapolates_beyond_unit() {
    assert_eq!(lerp(0, 10, 2 * UNIT), 20);
    assert_eq!(lerp(0, 10, -UNIT), -10);
    let v = Vec2::new(0, 10).lerp(Vec2::new(10, 0), 3 * UNIT);
    assert_eq!(v, Vec2::new(30, -20));
}

#[test]
fn smooth_step_beyond_unit() {
    assert_eq!(smooth_step(2 * UNIT), -4 * UNIT);
    assert_eq!(smooth_step(-UNIT), 5 * UNIT);
}

#[test]
fn ease_in_out_cubic_beyond_unit() {
    assert_eq!(ease_in_out_cubic(2 * UNIT), 5 * UNIT);
    assert_eq!(ease_in_out_cubic(-UNIT), -4 * UNIT);
}

#[test]
fn cubic_bezier_extrapolates() {
    let r = cubic_bezier(
        Vec2::new(0, 0),
        Vec2::new(0, -200_000),
        Vec2::new(200_000, -200_000),
        Vec2::new(200_000, 0),
        2 * UNIT,
    );
    assert_eq!(r, Vec2::new(-800_000, 1_200_000));
}

#[test]
fn quadratic_bezier_extrapolates() {
    let r = quadratic_bezier(Vec2::new(0, 0), Vec2::new(100, 100), Vec2::new(200, 0), 2 * UNIT);
    assert_eq!(r, Vec2::new(400, -400));
}
