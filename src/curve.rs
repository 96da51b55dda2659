//! Fixed-point curve evaluation: linear interpolation, easing and Bézier curves.
//!
//! A curve parameter is an integer `t` that stands for the real number `t / UNIT`,
//! so `0` is the start of a curve and `UNIT` its end. Coordinates are plain `i64`
//! values in whatever fixed-point unit the caller picked. Every result is rounded
//! down (towards negative infinity), so evaluation is exact and reproducible.
use vstd::arithmetic::div_mod::{lemma_div_is_ordered, lemma_div_multiples_vanish};
use vstd::arithmetic::mul::lemma_mul_inequality;
use vstd::prelude::*;

verus! {

/// One whole unit of curve parameter: `t` stands for `t / UNIT`.
pub const UNIT: i64 = 1_000_000;

/// A point or displacement in the plane, in fixed-point coordinates.
#[derive(Clone, Copy, Debug, PartialEq, Eq, Structural)]
pub struct Vec2 {
    pub x: i64,
    pub y: i64,
}

/// `a + (b - a) * t / UNIT`, rounded down.
pub open spec fn lerp_spec(a: int, b: int, t: int) -> int {
    a + (b - a) * t / (UNIT as int)
}

/// `t² (3 - 2t)` on the scaled parameter: `t * t * (3 UNIT - 2 t) / UNIT²`, rounded down.
pub open spec fn smooth_step_spec(t: int) -> int {
    t * t * (3 * UNIT - 2 * t) / (UNIT * UNIT)
}

/// Piecewise cubic easing: `4t³` below one half, mirrored above it.
pub open spec fn ease_in_out_cubic_spec(t: int) -> int {
    if 2 * t < UNIT {
        4 * t * t * t / (UNIT * UNIT)
    } else {
        UNIT - (2 * UNIT - 2 * t) * (2 * UNIT - 2 * t) * (2 * UNIT - 2 * t) / (2 * UNIT * UNIT)
    }
}

/// Quadratic Bézier curve in Bernstein form, one coordinate, rounded down.
pub open spec fn quadratic_bezier_spec(p0: int, p1: int, p2: int, t: int) -> int {
    let u = UNIT - t;
    (p0 * (u * u) + p1 * (2 * u * t) + p2 * (t * t)) / (UNIT * UNIT)
}

/// Cubic Bézier curve in Bernstein form, one coordinate, rounded down.
pub open spec fn cubic_bezier_spec(p0: int, p1: int, p2: int, p3: int, t: int) -> int {
    let u = UNIT - t;
    (p0 * (u * u * u) + p1 * (3 * u * u * t) + p2 * (3 * u * t * t) + p3 * (t * t * t)) / (
    UNIT * UNIT * UNIT)
}

/// A value that an `i64` can hold.
pub open spec fn fits_i64(v: int) -> bool {
    i64::MIN <= v <= i64::MAX
}

/// A value that an `i128` can hold.
pub open spec fn fits_i128(v: int) -> bool {
    i128::MIN <= v <= i128::MAX
}

/// A curve parameter that lies on the curve, from its start to its end.
pub open spec fn in_unit(t: int) -> bool {
    0 <= t <= UNIT
}

pub open spec fn min2(a: int, b: int) -> int {
    if a <= b {
        a
    } else {
        b
    }
}

pub open spec fn max2(a: int, b: int) -> int {
    if a <= b {
        b
    } else {
        a
    }
}

impl Vec2 {
    pub open spec fn plus(self, o: Vec2) -> Vec2 {
        Vec2 { x: self.x.wrapping_add(o.x), y: self.y.wrapping_add(o.y) }
    }

    pub open spec fn minus(self, o: Vec2) -> Vec2 {
        Vec2 { x: self.x.wrapping_sub(o.x), y: self.y.wrapping_sub(o.y) }
    }

    pub fn new(x: i64, y: i64) -> (r: Vec2)
        ensures
            r == (Vec2 { x, y }),
    {
        Vec2 { x, y }
    }

    pub fn zero() -> (r: Vec2)
        ensures
            r == (Vec2 { x: 0, y: 0 }),
    {
        Vec2 { x: 0, y: 0 }
    }

    /// Componentwise sum, wrapping around at the bounds of `i64`.
    pub fn wrapping_add(self, o: Vec2) -> (r: Vec2)
        ensures
            r == self.plus(o),
    {
        Vec2 { x: self.x.wrapping_add(o.x), y: self.y.wrapping_add(o.y) }
    }

    /// Componentwise difference, wrapping around at the bounds of `i64`.
    pub fn wrapping_sub(self, o: Vec2) -> (r: Vec2)
        ensures
            r == self.minus(o),
    {
        Vec2 { x: self.x.wrapping_sub(o.x), y: self.y.wrapping_sub(o.y) }
    }

    /// Linear interpolation from `self` to `o`, coordinate by coordinate, with the
    /// parameter not clamped.
    pub fn lerp(self, o: Vec2, t: i64) -> (r: Vec2)
        requires
            fits_i64(lerp_spec(self.x as int, o.x as int, t as int)),
            fits_i64(lerp_spec(self.y as int, o.y as int, t as int)),
        ensures
            r.x == lerp_spec(self.x as int, o.x as int, t as int),
            r.y == lerp_spec(self.y as int, o.y as int, t as int),
    {
        Vec2 { x: lerp(self.x, o.x, t), y: lerp(self.y, o.y, t) }
    }
}

/// Subtracting a difference gives back what was subtracted from: `t - (t - a) == a`,
/// exactly, also where a coordinate wraps around.
pub proof fn lemma_minus_minus(t: Vec2, a: Vec2)
    ensures
        t.minus(t.minus(a)) == a,
{
}

/// Subtracting what was added restores the value: `(a + o) - o == a`.
pub proof fn lemma_plus_minus(a: Vec2, o: Vec2)
    ensures
        a.plus(o).minus(o) == a,
{
}

/// `m <= s / d <= big` whenever `m * d <= s <= big * d` and `d > 0`.
proof fn lemma_div_between(s: int, d: int, m: int, big: int)
    requires
        d > 0,
        m * d <= s <= big * d,
    ensures
        m <= s / d <= big,
{
    lemma_div_is_ordered(m * d, s, d);
    lemma_div_is_ordered(s, big * d, d);
    lemma_div_multiples_vanish(m, d);
    lemma_div_multiples_vanish(big, d);
    assert(d * m == m * d) by (nonlinear_arith);
    assert(d * big == big * d) by (nonlinear_arith);
}

/// A weighted value lies between its bounds times the weight.
proof fn lemma_weighted(p: int, w: int, lo: int, hi: int)
    requires
        lo <= p <= hi,
        w >= 0,
    ensures
        lo * w <= p * w <= hi * w,
{
    lemma_mul_inequality(lo, p, w);
    lemma_mul_inequality(p, hi, w);
}

/// `n / d` rounded down, for a positive `d` and a quotient that fits in an `i128`.
fn div_floor(n: i128, d: i128) -> (r: i128)
    requires
        d > 0,
        i128::MIN <= n / d <= i128::MAX,
    ensures
        r == n / d,
{
    match n.checked_div_euclid(d) {
        Some(q) => q,
        None => 0,
    }
}

/// On the curve, interpolation stays between its two ends.
pub proof fn lemma_lerp_range(a: int, b: int, t: int)
    requires
        in_unit(t),
    ensures
        min2(a, b) <= lerp_spec(a, b, t) <= max2(a, b),
{
    let d = b - a;
    if d >= 0 {
        lemma_weighted(t, d, 0, UNIT as int);
        assert(t * d == d * t) by (nonlinear_arith);
        assert(UNIT * d == d * UNIT) by (nonlinear_arith);
        lemma_div_between(d * t, UNIT as int, 0, d);
    } else {
        lemma_weighted(d, t, d, 0);
        lemma_weighted(t, -d, 0, UNIT as int);
        assert(d * t >= d * UNIT) by (nonlinear_arith)
            requires
                t <= UNIT,
                d < 0,
        ;
        lemma_div_between(d * t, UNIT as int, d, 0);
    }
}

/// A product of two factors bounded by `bx` and `by` is bounded by `bx * by`.
proof fn lemma_mul_within(x: int, y: int, bx: int, by: int)
    requires
        -bx <= x <= bx,
        -by <= y <= by,
    ensures
        -(bx * by) <= x * y <= bx * by,
{
    let ax = if x >= 0 { x } else { -x };
    let ay = if y >= 0 { y } else { -y };
    assert(ax * ay == x * y || ax * ay == -(x * y)) by (nonlinear_arith)
        requires
            ax == x || ax == -x,
            ay == y || ay == -y,
    ;
    assert(ax * ay >= 0) by (nonlinear_arith)
        requires
            ax >= 0,
            ay >= 0,
    ;
    lemma_mul_inequality(ax, bx, ay);
    lemma_mul_inequality(ay, by, bx);
    assert(ay * bx == bx * ay) by (nonlinear_arith);
}

/// Scalar linear interpolation: `a + (b - a) * t / UNIT`, rounded down. The
/// parameter is not clamped: `t` beyond `[0, UNIT]` extrapolates along the line.
pub fn lerp(a: i64, b: i64, t: i64) -> (r: i64)
    requires
        fits_i64(lerp_spec(a as int, b as int, t as int)),
    ensures
        r == lerp_spec(a as int, b as int, t as int),
        in_unit(t as int) ==> min2(a as int, b as int) <= r <= max2(a as int, b as int),
{
    proof {
        if in_unit(t as int) {
            lemma_lerp_range(a as int, b as int, t as int);
        }
    }
    let d: i128 = (b as i128) - (a as i128);
    proof {
        lemma_mul_within(
            d as int,
            t as int,
            0x1_0000_0000_0000_0000,
            0x8000_0000_0000_0000,
        );
        lemma_div_between(d * t, UNIT as int, -0x1_0000_0000_0000_0000_0000_0000_0000, 0x1_0000_0000_0000_0000_0000_0000_0000);
    }
    let q = div_floor(d * (t as i128), UNIT as i128);
    ((a as i128) + q) as i64
}

/// On the curve, smoothstep stays on the curve, and so does its numerator scaled by
/// `UNIT³`.
pub proof fn lemma_smooth_step_range(t: int)
    requires
        in_unit(t),
    ensures
        0 <= smooth_step_spec(t) <= UNIT,
        0 <= t * t * (3 * UNIT - 2 * t) <= UNIT * UNIT * UNIT,
{
    let u = UNIT as int;
    assert(0 <= t * t * (3 * u - 2 * t)) by (nonlinear_arith)
        requires
            0 <= t <= u,
    ;
    assert(u * u * u - t * t * (3 * u - 2 * t) == (u - t) * (u - t) * (u + 2 * t)) by (
    nonlinear_arith);
    assert((u - t) * (u - t) * (u + 2 * t) >= 0) by (nonlinear_arith)
        requires
            0 <= t <= u,
    ;
    assert(u * (u * u) == u * u * u) by (nonlinear_arith);
    lemma_div_between(t * t * (3 * u - 2 * t), u * u, 0, u);
}

/// Smoothstep easing `t² (3 - 2t)` on a scaled parameter. The parameter is not
/// clamped; it only has to keep the arithmetic within range.
pub fn smooth_step(t: i64) -> (r: i64)
    requires
        fits_i128(t * t * (3 * UNIT - 2 * t)),
        fits_i64(smooth_step_spec(t as int)),
    ensures
        r == smooth_step_spec(t as int),
        in_unit(t as int) ==> in_unit(r as int),
{
    proof {
        if in_unit(t as int) {
            lemma_smooth_step_range(t as int);
        }
    }
    let ti: i128 = t as i128;
    proof {
        lemma_mul_within(ti as int, ti as int, 0x8000_0000_0000_0000, 0x8000_0000_0000_0000);
    }
    let n: i128 = ti * ti * (3 * (UNIT as i128) - 2 * ti);
    (div_floor(n, (UNIT as i128) * (UNIT as i128))) as i64
}

proof fn lemma_cube_bounds(t: int, u: int)
    requires
        0 <= 2 * t <= u,
    ensures
        0 <= t * t <= u * u,
        0 <= 4 * t * t <= 4 * (u * u),
        0 <= 4 * t * t * t <= u * u * u,
{
    let s = 2 * t;
    assert(0 <= s * s <= u * s) by (nonlinear_arith)
        requires
            0 <= s <= u,
    ;
    assert(u * s <= u * u) by (nonlinear_arith)
        requires
            0 <= s <= u,
    ;
    assert(0 <= s * s * s <= u * u * s) by (nonlinear_arith)
        requires
            0 <= s * s <= u * u,
            0 <= s,
    ;
    assert(u * u * s <= u * u * u) by (nonlinear_arith)
        requires
            0 <= s <= u,
    ;
    assert(s * s * s == 8 * (t * t * t)) by (nonlinear_arith)
        requires
            s == 2 * t,
    ;
    assert(t * t <= s * s) by (nonlinear_arith)
        requires
            s == 2 * t,
            t >= 0,
    ;
    assert(4 * t * t * t == 4 * (t * t * t)) by (nonlinear_arith);
    assert(4 * t * t == 4 * (t * t)) by (nonlinear_arith);
}

proof fn lemma_ease_in_out_cubic_range(t: int)
    requires
        in_unit(t),
    ensures
        in_unit(ease_in_out_cubic_spec(t)),
{
    let u = UNIT as int;
    if 2 * t < u {
        lemma_cube_bounds(t, u);
        assert(u * (u * u) == u * u * u) by (nonlinear_arith);
        lemma_div_between(4 * t * t * t, u * u, 0, u);
    } else {
        let v = 2 * u - 2 * t;
        assert(0 <= v * v * v <= 2 * u * u * u) by (nonlinear_arith)
            requires
                0 <= v <= u,
        ;
        assert(u * (2 * u * u) == 2 * u * u * u) by (nonlinear_arith);
        lemma_div_between(v * v * v, 2 * u * u, 0, u);
    }
}

/// Cubic ease-in-out: `4t³` for `t` below one half, `1 - (2 - 2t)³ / 2` from one
/// half on. The parameter is not clamped; it only has to keep the arithmetic within
/// range.
pub fn ease_in_out_cubic(t: i64) -> (r: i64)
    requires
        2 * t < UNIT ==> fits_i128(4 * t * t * t),
        2 * t >= UNIT ==> fits_i128(
            (2 * UNIT - 2 * t) * (2 * UNIT - 2 * t) * (2 * UNIT - 2 * t),
        ),
        fits_i64(ease_in_out_cubic_spec(t as int)),
    ensures
        r == ease_in_out_cubic_spec(t as int),
        in_unit(t as int) ==> in_unit(r as int),
{
    proof {
        if in_unit(t as int) {
            lemma_ease_in_out_cubic_range(t as int);
        }
    }
    let u: i128 = UNIT as i128;
    let ti: i128 = t as i128;
    proof {
        lemma_mul_within(ti as int, ti as int, 0x8000_0000_0000_0000, 0x8000_0000_0000_0000);
    }
    if 2 * ti < u {
        let sq: i128 = ti * ti;
        proof {
            assert(4 * ti * ti * ti == 4 * (sq * ti)) by (nonlinear_arith)
                requires
                    sq == ti * ti,
            ;
        }
        let cube: i128 = sq * ti;
        (div_floor(4 * cube, u * u)) as i64
    } else {
        let v: i128 = 2 * u - 2 * ti;
        proof {
            lemma_square_within_cube(v as int, 0x7fff_ffff_ffff_ffff_ffff_ffff_ffff_ffff);
        }
        let q = div_floor(v * v * v, 2 * u * u);
        (u - q) as i64
    }
}

/// A square is no larger than the magnitude of the cube it is part of.
proof fn lemma_square_within_cube(v: int, b: int)
    requires
        -b - 1 <= v * v * v <= b,
        b >= 1,
    ensures
        0 <= v * v <= b,
{
    assert(v * v >= 0) by (nonlinear_arith);
    if v >= 1 {
        assert(v * v <= b) by (nonlinear_arith)
            requires
                v >= 1,
                v * v * v <= b,
        ;
    } else if v <= -2 {
        assert(v * v <= b) by (nonlinear_arith)
            requires
                v <= -2,
                -b - 1 <= v * v * v,
                b >= 1,
        ;
    } else if v == -1 {
        assert(v * v == 1) by (nonlinear_arith)
            requires
                v == -1,
        ;
    }
}

/// A sum of values weighted by non-negative weights lies between the smallest value
/// and the largest value times the total weight.
proof fn lemma_weighted_sum4(
    p0: int,
    p1: int,
    p2: int,
    p3: int,
    w0: int,
    w1: int,
    w2: int,
    w3: int,
    lo: int,
    hi: int,
)
    requires
        lo <= p0 <= hi,
        lo <= p1 <= hi,
        lo <= p2 <= hi,
        lo <= p3 <= hi,
        w0 >= 0,
        w1 >= 0,
        w2 >= 0,
        w3 >= 0,
    ensures
        lo * (w0 + w1 + w2 + w3) <= p0 * w0 + p1 * w1 + p2 * w2 + p3 * w3 <= hi * (w0 + w1 + w2
            + w3),
        lo * (w0 + w1 + w2) <= p0 * w0 + p1 * w1 + p2 * w2 <= hi * (w0 + w1 + w2),
        lo * (w0 + w1) <= p0 * w0 + p1 * w1 <= hi * (w0 + w1),
{
    lemma_weighted(p0, w0, lo, hi);
    lemma_weighted(p1, w1, lo, hi);
    lemma_weighted(p2, w2, lo, hi);
    lemma_weighted(p3, w3, lo, hi);
    assert(lo * (w0 + w1 + w2 + w3) == lo * w0 + lo * w1 + lo * w2 + lo * w3) by (nonlinear_arith);
    assert(hi * (w0 + w1 + w2 + w3) == hi * w0 + hi * w1 + hi * w2 + hi * w3) by (nonlinear_arith);
    assert(lo * (w0 + w1 + w2) == lo * w0 + lo * w1 + lo * w2) by (nonlinear_arith);
    assert(hi * (w0 + w1 + w2) == hi * w0 + hi * w1 + hi * w2) by (nonlinear_arith);
    assert(lo * (w0 + w1) == lo * w0 + lo * w1) by (nonlinear_arith);
    assert(hi * (w0 + w1) == hi * w0 + hi * w1) by (nonlinear_arith);
}

/// The Bernstein weights of degree three are non-negative and add up to `UNIT³`.
proof fn lemma_cubic_weights(t: int)
    requires
        in_unit(t),
    ensures
        ({
            let u = UNIT - t;
            &&& u * u * u >= 0
            &&& 3 * u * u * t >= 0
            &&& 3 * u * t * t >= 0
            &&& t * t * t >= 0
            &&& u * u * u + 3 * u * u * t + 3 * u * t * t + t * t * t == UNIT * UNIT * UNIT
            &&& u * u <= UNIT * UNIT
            &&& t * t <= UNIT * UNIT
            &&& 3 * u * u <= 3 * (UNIT * UNIT)
            &&& 3 * u * t <= 3 * (UNIT * UNIT)
        }),
{
    let u = UNIT - t;
    let big = UNIT as int;
    assert(u * u * u >= 0 && 3 * u * u * t >= 0 && 3 * u * t * t >= 0 && t * t * t >= 0) by (
    nonlinear_arith)
        requires
            0 <= u,
            0 <= t,
    ;
    assert(u * u * u + 3 * u * u * t + 3 * u * t * t + t * t * t == (u + t) * (u + t) * (u + t))
        by (nonlinear_arith);
    assert(u * u <= big * big && t * t <= big * big && u * t <= big * big) by (nonlinear_arith)
        requires
            0 <= u <= big,
            0 <= t <= big,
    ;
    assert(3 * u * u == 3 * (u * u) && 3 * u * t == 3 * (u * t)) by (nonlinear_arith);
}

/// The Bernstein weights of degree two are non-negative and add up to `UNIT²`.
proof fn lemma_quadratic_weights(t: int)
    requires
        in_unit(t),
    ensures
        ({
            let u = UNIT - t;
            &&& u * u >= 0
            &&& 2 * u * t >= 0
            &&& t * t >= 0
            &&& u * u + 2 * u * t + t * t == UNIT * UNIT
            &&& u * u <= UNIT * UNIT
            &&& 2 * u <= 2 * UNIT
        }),
{
    let u = UNIT - t;
    let big = UNIT as int;
    assert(u * u >= 0 && 2 * u * t >= 0 && t * t >= 0) by (nonlinear_arith)
        requires
            0 <= u,
            0 <= t,
    ;
    assert(u * u + 2 * u * t + t * t == (u + t) * (u + t)) by (nonlinear_arith);
    assert(u * u <= big * big) by (nonlinear_arith)
        requires
            0 <= u <= big,
    ;
}

/// Largest magnitude of a Bézier parameter: it keeps the Bernstein weights within
/// the range of an `i128`.
pub const PARAM_LIMIT: i64 = 1_099_511_627_776;

pub open spec fn abs_int(v: int) -> int {
    if v >= 0 {
        v
    } else {
        -v
    }
}

/// The sum of the magnitudes of the terms of the cubic Bernstein sum.
pub open spec fn cubic_bezier_magnitude(p0: int, p1: int, p2: int, p3: int, t: int) -> int {
    let u = UNIT - t;
    abs_int(p0) * abs_int(u * u * u) + abs_int(p1) * abs_int(3 * u * u * t) + abs_int(p2)
        * abs_int(3 * u * t * t) + abs_int(p3) * abs_int(t * t * t)
}

/// The sum of the magnitudes of the terms of the quadratic Bernstein sum.
pub open spec fn quadratic_bezier_magnitude(p0: int, p1: int, p2: int, t: int) -> int {
    let u = UNIT - t;
    abs_int(p0) * abs_int(u * u) + abs_int(p1) * abs_int(2 * u * t) + abs_int(p2) * abs_int(
        t * t,
    )
}

/// A cubic Bézier coordinate that can be computed: the parameter within
/// `PARAM_LIMIT`, the Bernstein sum within an `i128` and the result within an `i64`.
pub open spec fn cubic_in_range(p0: int, p1: int, p2: int, p3: int, t: int) -> bool {
    &&& -PARAM_LIMIT <= t <= PARAM_LIMIT
    &&& cubic_bezier_magnitude(p0, p1, p2, p3, t) <= i128::MAX
    &&& fits_i64(cubic_bezier_spec(p0, p1, p2, p3, t))
}

/// A quadratic Bézier coordinate that can be computed: the parameter within
/// `PARAM_LIMIT`, the Bernstein sum within an `i128` and the result within an `i64`.
pub open spec fn quadratic_in_range(p0: int, p1: int, p2: int, t: int) -> bool {
    &&& -PARAM_LIMIT <= t <= PARAM_LIMIT
    &&& quadratic_bezier_magnitude(p0, p1, p2, t) <= i128::MAX
    &&& fits_i64(quadratic_bezier_spec(p0, p1, p2, t))
}

/// A term lies within its magnitude.
proof fn lemma_term_within(p: int, w: int)
    requires
        true,
    ensures
        0 <= abs_int(p) * abs_int(w),
        -(abs_int(p) * abs_int(w)) <= p * w <= abs_int(p) * abs_int(w),
{
    lemma_mul_within(p, w, abs_int(p), abs_int(w));
    assert(0 <= abs_int(p) * abs_int(w)) by (nonlinear_arith)
        requires
            abs_int(p) >= 0,
            abs_int(w) >= 0,
    ;
}

/// One coordinate of a cubic Bézier curve.
fn cubic_bezier_coord(p0: i64, p1: i64, p2: i64, p3: i64, t: i64) -> (r: i64)
    requires
        cubic_in_range(p0 as int, p1 as int, p2 as int, p3 as int, t as int),
    ensures
        r == cubic_bezier_spec(p0 as int, p1 as int, p2 as int, p3 as int, t as int),
{
    let ti: i128 = t as i128;
    let u: i128 = (UNIT as i128) - ti;
    proof {
        let b: int = 0x200_0000_0000;
        lemma_mul_within(u as int, u as int, b, b);
        lemma_mul_within(u * u, u as int, b * b, b);
        lemma_mul_within(3 * u, u as int, 3 * b, b);
        lemma_mul_within(3 * u * u, ti as int, 3 * b * b, b);
        lemma_mul_within(3 * u, ti as int, 3 * b, b);
        lemma_mul_within(3 * u * ti, ti as int, 3 * b * b, b);
        lemma_mul_within(ti as int, ti as int, b, b);
        lemma_mul_within(ti * ti, ti as int, b * b, b);
    }
    let w0: i128 = u * u * u;
    let w1: i128 = 3 * u * u * ti;
    let w2: i128 = 3 * u * ti * ti;
    let w3: i128 = ti * ti * ti;
    proof {
        lemma_term_within(p0 as int, w0 as int);
        lemma_term_within(p1 as int, w1 as int);
        lemma_term_within(p2 as int, w2 as int);
        lemma_term_within(p3 as int, w3 as int);
    }
    let n: i128 = (p0 as i128) * w0 + (p1 as i128) * w1 + (p2 as i128) * w2 + (p3 as i128) * w3;
    let d: i128 = (UNIT as i128) * (UNIT as i128) * (UNIT as i128);
    (div_floor(n, d)) as i64
}

/// One coordinate of a quadratic Bézier curve.
fn quadratic_bezier_coord(p0: i64, p1: i64, p2: i64, t: i64) -> (r: i64)
    requires
        quadratic_in_range(p0 as int, p1 as int, p2 as int, t as int),
    ensures
        r == quadratic_bezier_spec(p0 as int, p1 as int, p2 as int, t as int),
{
    let ti: i128 = t as i128;
    let u: i128 = (UNIT as i128) - ti;
    proof {
        let b: int = 0x200_0000_0000;
        lemma_mul_within(u as int, u as int, b, b);
        lemma_mul_within(2 * u, ti as int, 2 * b, b);
        lemma_mul_within(ti as int, ti as int, b, b);
    }
    let w0: i128 = u * u;
    let w1: i128 = 2 * u * ti;
    let w2: i128 = ti * ti;
    proof {
        lemma_term_within(p0 as int, w0 as int);
        lemma_term_within(p1 as int, w1 as int);
        lemma_term_within(p2 as int, w2 as int);
    }
    let n: i128 = (p0 as i128) * w0 + (p1 as i128) * w1 + (p2 as i128) * w2;
    let d: i128 = (UNIT as i128) * (UNIT as i128);
    (div_floor(n, d)) as i64
}

/// A point of the quadratic Bézier curve with control points `p0`, `p1`, `p2`. The
/// parameter is not clamped: beyond `[0, UNIT]` the curve is extrapolated.
pub fn quadratic_bezier(p0: Vec2, p1: Vec2, p2: Vec2, t: i64) -> (r: Vec2)
    requires
        quadratic_in_range(p0.x as int, p1.x as int, p2.x as int, t as int),
        quadratic_in_range(p0.y as int, p1.y as int, p2.y as int, t as int),
    ensures
        r.x == quadratic_bezier_spec(p0.x as int, p1.x as int, p2.x as int, t as int),
        r.y == quadratic_bezier_spec(p0.y as int, p1.y as int, p2.y as int, t as int),
{
    Vec2 {
        x: quadratic_bezier_coord(p0.x, p1.x, p2.x, t),
        y: quadratic_bezier_coord(p0.y, p1.y, p2.y, t),
    }
}

/// A point of the cubic Bézier curve with control points `p0` to `p3`. The parameter
/// is not clamped: beyond `[0, UNIT]` the curve is extrapolated.
pub fn cubic_bezier(p0: Vec2, p1: Vec2, p2: Vec2, p3: Vec2, t: i64) -> (r: Vec2)
    requires
        cubic_in_range(p0.x as int, p1.x as int, p2.x as int, p3.x as int, t as int),
        cubic_in_range(p0.y as int, p1.y as int, p2.y as int, p3.y as int, t as int),
    ensures
        r.x == cubic_bezier_spec(p0.x as int, p1.x as int, p2.x as int, p3.x as int, t as int),
        r.y == cubic_bezier_spec(p0.y as int, p1.y as int, p2.y as int, p3.y as int, t as int),
{
    Vec2 {
        x: cubic_bezier_coord(p0.x, p1.x, p2.x, p3.x, t),
        y: cubic_bezier_coord(p0.y, p1.y, p2.y, p3.y, t),
    }
}

/// On the curve, any `i64` control points can be evaluated.
pub proof fn lemma_cubic_in_range_on_curve(p0: i64, p1: i64, p2: i64, p3: i64, t: int)
    requires
        in_unit(t),
    ensures
        cubic_in_range(p0 as int, p1 as int, p2 as int, p3 as int, t),
{
    let u = UNIT - t;
    let big: int = 0x8000_0000_0000_0000;
    lemma_cubic_weights(t);
    lemma_weighted(abs_int(p0 as int), u * u * u, 0, big);
    lemma_weighted(abs_int(p1 as int), 3 * u * u * t, 0, big);
    lemma_weighted(abs_int(p2 as int), 3 * u * t * t, 0, big);
    lemma_weighted(abs_int(p3 as int), t * t * t, 0, big);
    lemma_cubic_bezier_range(p0 as int, p1 as int, p2 as int, p3 as int, t);
}

/// On the curve, any `i64` control points can be evaluated.
pub proof fn lemma_quadratic_in_range_on_curve(p0: i64, p1: i64, p2: i64, t: int)
    requires
        in_unit(t),
    ensures
        quadratic_in_range(p0 as int, p1 as int, p2 as int, t),
{
    let u = UNIT - t;
    let big: int = 0x8000_0000_0000_0000;
    let lo = min2(min2(p0 as int, p1 as int), p2 as int);
    let hi = max2(max2(p0 as int, p1 as int), p2 as int);
    lemma_quadratic_weights(t);
    lemma_weighted(abs_int(p0 as int), u * u, 0, big);
    lemma_weighted(abs_int(p1 as int), 2 * u * t, 0, big);
    lemma_weighted(abs_int(p2 as int), t * t, 0, big);
    lemma_weighted_sum4(p0 as int, p1 as int, p2 as int, lo, u * u, 2 * u * t, t * t, 0, lo, hi);
    lemma_div_between(p0 * (u * u) + p1 * (2 * u * t) + p2 * (t * t), UNIT * UNIT, lo, hi);
}

/// A cubic Bézier curve starts exactly at its first control point and ends exactly
/// at its last one.
pub proof fn lemma_cubic_bezier_endpoints(p0: int, p1: int, p2: int, p3: int)
    ensures
        cubic_bezier_spec(p0, p1, p2, p3, 0) == p0,
        cubic_bezier_spec(p0, p1, p2, p3, UNIT as int) == p3,
{
    let d = (UNIT * UNIT * UNIT) as int;
    assert(d == 1_000_000_000_000_000_000);
    lemma_div_multiples_vanish(p0, d);
    lemma_div_multiples_vanish(p3, d);
    assert(cubic_bezier_spec(p0, p1, p2, p3, 0) == (d * p0) / d) by (nonlinear_arith)
        requires
            d == UNIT * UNIT * UNIT,
    ;
    assert(cubic_bezier_spec(p0, p1, p2, p3, UNIT as int) == (d * p3) / d) by (nonlinear_arith)
        requires
            d == UNIT * UNIT * UNIT,
    ;
}

/// A cubic Bézier curve stays within the range of its control points, coordinate by
/// coordinate.
pub proof fn lemma_cubic_bezier_range(p0: int, p1: int, p2: int, p3: int, t: int)
    requires
        in_unit(t),
    ensures
        min2(min2(p0, p1), min2(p2, p3)) <= cubic_bezier_spec(p0, p1, p2, p3, t) <= max2(
            max2(p0, p1),
            max2(p2, p3),
        ),
{
    let u = UNIT - t;
    let lo = min2(min2(p0, p1), min2(p2, p3));
    let hi = max2(max2(p0, p1), max2(p2, p3));
    lemma_cubic_weights(t);
    lemma_weighted_sum4(
        p0,
        p1,
        p2,
        p3,
        u * u * u,
        3 * u * u * t,
        3 * u * t * t,
        t * t * t,
        lo,
        hi,
    );
    lemma_div_between(
        p0 * (u * u * u) + p1 * (3 * u * u * t) + p2 * (3 * u * t * t) + p3 * (t * t * t),
        UNIT * UNIT * UNIT,
        lo,
        hi,
    );
}

} // verus!
