//! Ball physics: explicit Euler integration of positions, and elastic
//! reflection of velocities across a contact normal.
//!
//! Velocities are integer vectors.  Reflecting across an axis-aligned
//! normal negates one component and is exact.  Reflecting across a corner
//! normal `d` follows `v' = v - 2 (v . d) / (d . d) d`; each component is
//! rounded toward zero, so the rounded reflection never gains speed.

use vstd::prelude::*;
use crate::geom::{dot, normal_wf, Normal, Vec2i, NORMAL_SQ_BOUND, RADIUS_BOUND, RECT_BOUND};

verus! {

/// Upper bound on the squared speed of a ball, `VEL_BOUND * VEL_BOUND`.
pub const SPEED_SQ_BOUND: i64 = 4_000_000_000_000;

/// Largest magnitude a velocity component can take while the squared speed
/// stays within `SPEED_SQ_BOUND`.
pub const VEL_BOUND: i64 = 2_000_000;

/// Largest tick duration, in milliseconds.
pub const DT_BOUND: i64 = 1_000_000;

/// Division rounding toward zero, for a positive divisor; this is how the
/// executable code rounds the two components of a corner reflection.
pub open spec fn div_toward_zero(x: int, d: int) -> int
    recommends
        d > 0,
{
    if x >= 0 {
        x / d
    } else {
        -((-x) / d)
    }
}

/// The direction a contact normal points along, as an integer vector.  Axis
/// normals are unit vectors; a corner normal keeps its offset vector, whose
/// length the reflection divides out.
pub open spec fn normal_dir(n: Normal) -> Vec2i {
    match n {
        Normal::Up => Vec2i { x: 0, y: 1 },
        Normal::Down => Vec2i { x: 0, y: -1 as i64 },
        Normal::Left => Vec2i { x: -1 as i64, y: 0 },
        Normal::Right => Vec2i { x: 1, y: 0 },
        Normal::Corner { dx, dy } => Vec2i { x: dx, y: dy },
    }
}

/// The reflection of `v` across the contact normal `n`: the component of
/// `v` along the normal direction `d` is negated, following
/// `v - 2 (v . d) / (d . d) d`, with each component rounded toward zero.
/// For the four axis normals `d . d == 1`, so the result is exact.
pub open spec fn spec_reflect(v: Vec2i, n: Normal) -> Vec2i
    recommends
        normal_wf(n),
{
    let d = normal_dir(n);
    let dd = dot(d, d);
    let vd = dot(v, d);
    Vec2i {
        x: div_toward_zero(dd * v.x - 2 * vd * d.x, dd) as i64,
        y: div_toward_zero(dd * v.y - 2 * vd * d.y, dd) as i64,
    }
}

/// A squared speed within `SPEED_SQ_BOUND` bounds each component by
/// `VEL_BOUND`.
pub proof fn lemma_component_bound(v: Vec2i)
    requires
        dot(v, v) <= SPEED_SQ_BOUND,
    ensures
        -VEL_BOUND <= v.x <= VEL_BOUND,
        -VEL_BOUND <= v.y <= VEL_BOUND,
{
    assert(-VEL_BOUND <= v.x <= VEL_BOUND && -VEL_BOUND <= v.y <= VEL_BOUND) by (nonlinear_arith)
        requires
            v.x * v.x + v.y * v.y <= SPEED_SQ_BOUND,
            SPEED_SQ_BOUND == VEL_BOUND * VEL_BOUND,
            VEL_BOUND > 0,
    ;
}

/// Rounding toward zero never grows a quotient's magnitude: the square of
/// `div_toward_zero(x, d) * d` stays within the square of `x`.
proof fn lemma_div_toward_zero_sq(x: int, d: int)
    requires
        d > 0,
    ensures
        div_toward_zero(x, d) * d * (div_toward_zero(x, d) * d) <= x * x,
{
    if x >= 0 {
        let q = x / d;
        vstd::arithmetic::div_mod::lemma_fundamental_div_mod(x, d);
        vstd::arithmetic::div_mod::lemma_div_pos_is_pos(x, d);
        vstd::arithmetic::div_mod::lemma_remainder_lower(x, d);
        assert(q * d * (q * d) <= x * x) by (nonlinear_arith)
            requires
                q >= 0,
                d > 0,
                x - q * d >= 0,
                x == d * q + x % d,
                x % d >= 0,
        ;
    } else {
        let q = (-x) / d;
        vstd::arithmetic::div_mod::lemma_fundamental_div_mod(-x, d);
        vstd::arithmetic::div_mod::lemma_div_pos_is_pos(-x, d);
        vstd::arithmetic::div_mod::lemma_remainder_lower(-x, d);
        assert((-q) * d * ((-q) * d) <= x * x) by (nonlinear_arith)
            requires
                q >= 0,
                d > 0,
                -x == d * q + (-x) % d,
                (-x) % d >= 0,
        ;
    }
}

/// The scaled reflection `w = (d . d) v - 2 (v . d) d` satisfies
/// `w . w == (d . d)^2 (v . v)`: before rounding, reflection scales the
/// speed by exactly `d . d`, so the reflected direction carries the same
/// speed as the incoming one.
pub proof fn lemma_scaled_reflection_conserves_speed(v: Vec2i, d: Vec2i)
    ensures
        ({
            let dd = dot(d, d);
            let vd = dot(v, d);
            let wx = dd * v.x - 2 * vd * d.x;
            let wy = dd * v.y - 2 * vd * d.y;
            wx * wx + wy * wy == dd * dd * dot(v, v)
        }),
{
    let vx = v.x as int;
    let vy = v.y as int;
    let dx = d.x as int;
    let dy = d.y as int;
    let dd = dot(d, d);
    let vd = dot(v, d);
    let wx = dd * vx - 2 * vd * dx;
    let wy = dd * vy - 2 * vd * dy;
    let a = dd * vx;
    let b = vd * dx;
    let c = dd * vy;
    let e = vd * dy;
    assert(wx == a - 2 * b && wy == c - 2 * e) by (nonlinear_arith)
        requires
            a == dd * vx,
            b == vd * dx,
            c == dd * vy,
            e == vd * dy,
            wx == dd * vx - 2 * vd * dx,
            wy == dd * vy - 2 * vd * dy,
    ;
    assert(wx * wx == a * a - 4 * (a * b) + 4 * (b * b)) by (nonlinear_arith)
        requires
            wx == a - 2 * b,
    ;
    assert(wy * wy == c * c - 4 * (c * e) + 4 * (e * e)) by (nonlinear_arith)
        requires
            wy == c - 2 * e,
    ;
    assert(a * a + c * c == dd * dd * (vx * vx + vy * vy)) by (nonlinear_arith)
        requires
            a == dd * vx,
            c == dd * vy,
    ;
    assert(a * b == (dd * vd) * (vx * dx)) by (nonlinear_arith)
        requires
            a == dd * vx,
            b == vd * dx,
    ;
    assert(c * e == (dd * vd) * (vy * dy)) by (nonlinear_arith)
        requires
            c == dd * vy,
            e == vd * dy,
    ;
    assert((dd * vd) * (vx * dx) + (dd * vd) * (vy * dy) == (dd * vd) * (vx * dx + vy * dy))
        by (nonlinear_arith);
    assert((dd * vd) * (vx * dx + vy * dy) == dd * (vd * vd)) by (nonlinear_arith)
        requires
            vd == vx * dx + vy * dy,
    ;
    assert(b * b + e * e == dd * (vd * vd)) by (nonlinear_arith)
        requires
            b == vd * dx,
            e == vd * dy,
            dd == dx * dx + dy * dy,
    ;
    assert(wx * wx + wy * wy == dd * dd * (vx * vx + vy * vy));
}

/// Across an axis-aligned normal the reflection simply negates the
/// velocity component along that axis.
pub proof fn lemma_axis_reflect(v: Vec2i, n: Normal)
    requires
        !(n is Corner),
        dot(v, v) <= SPEED_SQ_BOUND,
    ensures
        (n is Up || n is Down) ==> spec_reflect(v, n) == (Vec2i {
            x: v.x,
            y: (-(v.y as int)) as i64,
        }),
        (n is Left || n is Right) ==> spec_reflect(v, n) == (Vec2i {
            x: (-(v.x as int)) as i64,
            y: v.y,
        }),
{
    lemma_component_bound(v);
    let d = normal_dir(n);
    let dd = dot(d, d);
    let vd = dot(v, d);
    lemma_div_toward_zero_by_one(v.x as int);
    lemma_div_toward_zero_by_one(v.y as int);
    lemma_div_toward_zero_by_one(-(v.x as int));
    lemma_div_toward_zero_by_one(-(v.y as int));
    match n {
        Normal::Up => {
            assert(dd * v.x - 2 * vd * d.x == v.x && dd * v.y - 2 * vd * d.y == -v.y && dd == 1)
                by (nonlinear_arith)
                requires
                    d.x == 0,
                    d.y == 1,
                    dd == d.x * d.x + d.y * d.y,
                    vd == v.x * d.x + v.y * d.y,
            ;
        },
        Normal::Down => {
            assert(dd * v.x - 2 * vd * d.x == v.x && dd * v.y - 2 * vd * d.y == -v.y && dd == 1)
                by (nonlinear_arith)
                requires
                    d.x == 0,
                    d.y == -1,
                    dd == d.x * d.x + d.y * d.y,
                    vd == v.x * d.x + v.y * d.y,
            ;
        },
        Normal::Left => {
            assert(dd * v.x - 2 * vd * d.x == -v.x && dd * v.y - 2 * vd * d.y == v.y && dd == 1)
                by (nonlinear_arith)
                requires
                    d.x == -1,
                    d.y == 0,
                    dd == d.x * d.x + d.y * d.y,
                    vd == v.x * d.x + v.y * d.y,
            ;
        },
        Normal::Right => {
            assert(dd * v.x - 2 * vd * d.x == -v.x && dd * v.y - 2 * vd * d.y == v.y && dd == 1)
                by (nonlinear_arith)
                requires
                    d.x == 1,
                    d.y == 0,
                    dd == d.x * d.x + d.y * d.y,
                    vd == v.x * d.x + v.y * d.y,
            ;
        },
        Normal::Corner { .. } => {},
    }
}

/// Speed conservation for elastic reflection.  Across an axis-aligned
/// normal the squared speed is conserved exactly; across a corner normal
/// the mathematical reflection conserves it exactly (previous lemma) and
/// the toward-zero rounding can only lose, never gain, so the rounded
/// squared speed never exceeds the incoming one.
pub proof fn lemma_reflection_conserves_speed(v: Vec2i, n: Normal)
    requires
        normal_wf(n),
        dot(v, v) <= SPEED_SQ_BOUND,
    ensures
        dot(spec_reflect(v, n), spec_reflect(v, n)) <= dot(v, v),
        !(n is Corner) ==> dot(spec_reflect(v, n), spec_reflect(v, n)) == dot(v, v),
{
    lemma_component_bound(v);
    let d = normal_dir(n);
    let dd = dot(d, d);
    let vd = dot(v, d);
    let wx = dd * v.x - 2 * vd * d.x;
    let wy = dd * v.y - 2 * vd * d.y;
    lemma_scaled_reflection_conserves_speed(v, d);
    match n {
        Normal::Corner { dx, dy } => {
            let qx = div_toward_zero(wx, dd);
            let qy = div_toward_zero(wy, dd);
            lemma_div_toward_zero_sq(wx, dd);
            lemma_div_toward_zero_sq(wy, dd);
            assert(qx * qx + qy * qy <= dot(v, v)) by (nonlinear_arith)
                requires
                    dd > 0,
                    qx * dd * (qx * dd) <= wx * wx,
                    qy * dd * (qy * dd) <= wy * wy,
                    wx * wx + wy * wy == dd * dd * dot(v, v),
            ;
            assert(qx * qx <= SPEED_SQ_BOUND && qy * qy <= SPEED_SQ_BOUND) by (nonlinear_arith)
                requires
                    qx * qx + qy * qy <= SPEED_SQ_BOUND,
            ;
            assert(-VEL_BOUND <= qx <= VEL_BOUND && -VEL_BOUND <= qy <= VEL_BOUND)
                by (nonlinear_arith)
                requires
                    qx * qx <= SPEED_SQ_BOUND,
                    qy * qy <= SPEED_SQ_BOUND,
                    SPEED_SQ_BOUND == VEL_BOUND * VEL_BOUND,
                    VEL_BOUND > 0,
            ;
            assert(spec_reflect(v, n).x == qx && spec_reflect(v, n).y == qy);
        },
        _ => {
            lemma_axis_reflect(v, n);
            let r = spec_reflect(v, n);
            assert(r.x * r.x + r.y * r.y == dot(v, v)) by (nonlinear_arith)
                requires
                    (r.x == v.x && r.y == -v.y) || (r.x == -v.x && r.y == v.y),
            ;
        },
    }
}

/// Reflects the velocity `v` across the contact normal `n`.  The result is
/// exactly `spec_reflect(v, n)`, and its squared speed never exceeds the
/// incoming squared speed.
pub fn reflect(v: Vec2i, n: &Normal) -> (res: Vec2i)
    requires
        normal_wf(*n),
        dot(v, v) <= SPEED_SQ_BOUND,
    ensures
        res == spec_reflect(v, *n),
        dot(res, res) <= dot(v, v),
        dot(res, res) <= SPEED_SQ_BOUND,
{
    proof {
        lemma_component_bound(v);
        lemma_reflection_conserves_speed(v, *n);
    }
    proof {
        if !(*n is Corner) {
            lemma_axis_reflect(v, *n);
        }
    }
    match *n {
        Normal::Up => Vec2i { x: v.x, y: -v.y },
        Normal::Down => Vec2i { x: v.x, y: -v.y },
        Normal::Left => Vec2i { x: -v.x, y: v.y },
        Normal::Right => Vec2i { x: -v.x, y: v.y },
        Normal::Corner { dx, dy } => {
            proof {
                assert(0 <= dx * dx && 0 <= dy * dy) by (nonlinear_arith);
                assert(-RADIUS_BOUND <= dx <= RADIUS_BOUND && -RADIUS_BOUND <= dy <= RADIUS_BOUND)
                    by (nonlinear_arith)
                    requires
                        dx * dx + dy * dy <= NORMAL_SQ_BOUND,
                        NORMAL_SQ_BOUND == RADIUS_BOUND * RADIUS_BOUND,
                        RADIUS_BOUND > 0,
                ;
            }
            let dd: i64 = dx * dx + dy * dy;
            proof {
                assert(-200_000_000_000 <= v.x * dx <= 200_000_000_000 && -200_000_000_000 <= v.y
                    * dy <= 200_000_000_000) by (nonlinear_arith)
                    requires
                        -VEL_BOUND <= v.x <= VEL_BOUND,
                        -VEL_BOUND <= v.y <= VEL_BOUND,
                        -RADIUS_BOUND <= dx <= RADIUS_BOUND,
                        -RADIUS_BOUND <= dy <= RADIUS_BOUND,
                        VEL_BOUND == 2_000_000,
                        RADIUS_BOUND == 100_000,
                ;
            }
            let vd: i64 = v.x * dx + v.y * dy;
            proof {
                assert(-20_000_000_000_000_000 <= dd * v.x <= 20_000_000_000_000_000
                    && -20_000_000_000_000_000 <= dd * v.y <= 20_000_000_000_000_000
                    && -40_000_000_000_000_000 <= vd * dx <= 40_000_000_000_000_000
                    && -40_000_000_000_000_000 <= vd * dy <= 40_000_000_000_000_000)
                    by (nonlinear_arith)
                    requires
                        0 < dd <= NORMAL_SQ_BOUND,
                        -VEL_BOUND <= v.x <= VEL_BOUND,
                        -VEL_BOUND <= v.y <= VEL_BOUND,
                        -400_000_000_000 <= vd <= 400_000_000_000,
                        -RADIUS_BOUND <= dx <= RADIUS_BOUND,
                        -RADIUS_BOUND <= dy <= RADIUS_BOUND,
                        NORMAL_SQ_BOUND == 10_000_000_000,
                        VEL_BOUND == 2_000_000,
                        RADIUS_BOUND == 100_000,
                ;
            }
            let wx: i64 = dd * v.x - 2 * (vd * dx);
            let wy: i64 = dd * v.y - 2 * (vd * dy);
            proof {
                assert(wx == dd * v.x - 2 * vd * dx && wy == dd * v.y - 2 * vd * dy)
                    by (nonlinear_arith)
                    requires
                        wx == dd * v.x - 2 * (vd * dx),
                        wy == dd * v.y - 2 * (vd * dy),
                ;
                lemma_div_toward_zero_magnitude(wx as int, dd as int);
                lemma_div_toward_zero_magnitude(wy as int, dd as int);
            }
            let qx: i64 = div_trunc(wx, dd);
            let qy: i64 = div_trunc(wy, dd);
            Vec2i { x: qx, y: qy }
        },
    }
}

/// Truncating division for a positive divisor; the executable counterpart
/// of `div_toward_zero`.
fn div_trunc(x: i64, d: i64) -> (res: i64)
    requires
        d > 0,
        x > i64::MIN,
    ensures
        res == div_toward_zero(x as int, d as int),
{
    proof {
        lemma_div_toward_zero_magnitude(x as int, d as int);
    }
    let q = x.checked_div(d);
    q.unwrap()
}

/// Dividing toward zero by one changes nothing.
proof fn lemma_div_toward_zero_by_one(x: int)
    ensures
        div_toward_zero(x, 1) == x,
{
    vstd::arithmetic::div_mod::lemma_div_basics(x);
    vstd::arithmetic::div_mod::lemma_div_basics(-x);
}

/// The magnitude of a toward-zero quotient never exceeds the dividend's.
proof fn lemma_div_toward_zero_magnitude(x: int, d: int)
    requires
        d > 0,
    ensures
        x >= 0 ==> 0 <= div_toward_zero(x, d) <= x,
        x < 0 ==> x <= div_toward_zero(x, d) <= 0,
{
    if x >= 0 {
        vstd::arithmetic::div_mod::lemma_div_pos_is_pos(x, d);
        vstd::arithmetic::div_mod::lemma_div_nonincreasing(x, d);
    } else {
        vstd::arithmetic::div_mod::lemma_div_pos_is_pos(-x, d);
        vstd::arithmetic::div_mod::lemma_div_nonincreasing(-x, d);
    }
}

/// One explicit Euler step: the position advances by exactly
/// `velocity * dt` on each axis.
pub fn integrate(pos: Vec2i, vel: Vec2i, dt: i64) -> (res: Vec2i)
    requires
        0 <= dt <= DT_BOUND,
        dot(vel, vel) <= SPEED_SQ_BOUND,
        -RECT_BOUND <= pos.x <= RECT_BOUND,
        -RECT_BOUND <= pos.y <= RECT_BOUND,
    ensures
        res.x == pos.x + vel.x * dt,
        res.y == pos.y + vel.y * dt,
{
    proof {
        lemma_component_bound(vel);
        assert(-2_000_000_000_000 <= vel.x * dt <= 2_000_000_000_000 && -2_000_000_000_000 <= vel.y
            * dt <= 2_000_000_000_000) by (nonlinear_arith)
            requires
                -VEL_BOUND <= vel.x <= VEL_BOUND,
                -VEL_BOUND <= vel.y <= VEL_BOUND,
                0 <= dt <= DT_BOUND,
                VEL_BOUND == 2_000_000,
                DT_BOUND == 1_000_000,
        ;
    }
    Vec2i { x: pos.x + vel.x * dt, y: pos.y + vel.y * dt }
}

} // verus!
