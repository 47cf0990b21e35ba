//! Planar geometry for the collision resolver: integer vectors,
//! axis-aligned rectangles, and circle-vs-rectangle contact normals.

use vstd::prelude::*;

verus! {

/// Largest magnitude a moving point's coordinate may take.  Integration can
/// carry a ball far outside the playfield within one tick; the resolver
/// still has to accept such positions without overflowing.
pub const COORD_BOUND: i64 = 1_000_000_000_000_000;

/// Largest magnitude allowed for a collider rectangle's center coordinate.
pub const RECT_BOUND: i64 = 1_000_000_000;

/// Largest half-extent allowed for a collider rectangle.
pub const EXTENT_BOUND: i64 = 1_000_000;

/// Largest circle radius the resolver accepts.
pub const RADIUS_BOUND: i64 = 100_000;

/// Upper bound on the squared length of a corner contact offset; it equals
/// `RADIUS_BOUND * RADIUS_BOUND`.
pub const NORMAL_SQ_BOUND: i64 = 10_000_000_000;

/// A two-dimensional vector with integer (millipixel) components.
#[derive(Clone, Copy, PartialEq, Eq, Structural, Debug)]
pub struct Vec2i {
    pub x: i64,
    pub y: i64,
}

/// An axis-aligned rectangle, given by its center and half-extents.
#[derive(Clone, Copy, PartialEq, Eq, Structural, Debug)]
pub struct Rect {
    pub cx: i64,
    pub cy: i64,
    pub hx: i64,
    pub hy: i64,
}

/// The direction of a resolved contact.  The four axis variants are unit
/// normals; `Corner` carries the (unnormalized) offset from the nearest
/// rectangle corner to the circle's center, which points along the contact
/// normal.
#[derive(Clone, Copy, PartialEq, Eq, Structural, Debug)]
pub enum Normal {
    Up,
    Down,
    Left,
    Right,
    Corner { dx: i64, dy: i64 },
}

/// Dot product of two integer vectors.
pub open spec fn dot(v: Vec2i, w: Vec2i) -> int {
    v.x * w.x + v.y * w.y
}

/// The y coordinate of a rectangle's top edge.
pub open spec fn rect_top(r: Rect) -> int {
    r.cy + r.hy
}

/// The y coordinate of a rectangle's bottom edge.
pub open spec fn rect_bottom(r: Rect) -> int {
    r.cy - r.hy
}

/// The x coordinate of a rectangle's left edge.
pub open spec fn rect_left(r: Rect) -> int {
    r.cx - r.hx
}

/// The x coordinate of a rectangle's right edge.
pub open spec fn rect_right(r: Rect) -> int {
    r.cx + r.hx
}

/// A corner contact exists exactly when the circle's center lies strictly
/// closer to the nearest rectangle corner than the circle's radius; the
/// offset itself is the contact direction.
pub open spec fn spec_corner_contact(dx: int, dy: int, radius: int) -> Option<Normal> {
    if dx * dx + dy * dy < radius * radius {
        Some(Normal::Corner { dx: dx as i64, dy: dy as i64 })
    } else {
        None
    }
}

/// Contact normal between a circle (center `c`, radius `radius`) and the
/// rectangle `r`, by classifying the circle's center into one of nine
/// regions around the rectangle.
///
/// - No bounding-box overlap: no contact.
/// - Center in one of the four corner regions: contact exactly when the
///   nearest rectangle corner lies within the radius; the normal is the
///   offset from that corner to the center.
/// - Center directly above, below, left or right of the rectangle: the
///   axis-aligned unit normal, with no further radius test (the
///   bounding-box overlap already confirmed proximity on the other axis).
/// - Center horizontally between the rectangle's sides and at or below its
///   top edge, other than the left/right strips: no contact is reported,
///   even when the shapes genuinely overlap below the center line.  This
///   coarse treatment of the central and lower-central regions is a
///   deliberate simplification of the game's resolver, kept as designed.
pub open spec fn spec_contact_normal(c: Vec2i, radius: i64, r: Rect) -> Option<Normal> {
    if c.x + radius < rect_left(r) || c.x - radius > rect_right(r) || c.y + radius < rect_bottom(r)
        || c.y - radius > rect_top(r) {
        None
    } else if c.y > rect_top(r) {
        if c.x < rect_left(r) {
            spec_corner_contact(c.x - rect_left(r), c.y - rect_top(r), radius as int)
        } else if c.x > rect_right(r) {
            spec_corner_contact(c.x - rect_right(r), c.y - rect_top(r), radius as int)
        } else {
            Some(Normal::Up)
        }
    } else if c.y > rect_bottom(r) {
        if c.x < rect_left(r) {
            Some(Normal::Left)
        } else if c.x > rect_right(r) {
            Some(Normal::Right)
        } else {
            None
        }
    } else {
        if c.x < rect_left(r) {
            spec_corner_contact(c.x - rect_left(r), c.y - rect_bottom(r), radius as int)
        } else if c.x > rect_right(r) {
            spec_corner_contact(c.x - rect_right(r), c.y - rect_bottom(r), radius as int)
        } else {
            Some(Normal::Down)
        }
    }
}

/// A contact normal is well formed when a corner offset is nonzero and its
/// squared length stays within `NORMAL_SQ_BOUND`; axis normals always are.
pub open spec fn normal_wf(n: Normal) -> bool {
    match n {
        Normal::Corner { dx, dy } => 0 < dx * dx + dy * dy <= NORMAL_SQ_BOUND,
        _ => true,
    }
}

/// Rectangles a collider may use: center within `RECT_BOUND`, positive
/// half-extents within `EXTENT_BOUND`.
pub open spec fn rect_wf(r: Rect) -> bool {
    &&& -RECT_BOUND <= r.cx <= RECT_BOUND
    &&& -RECT_BOUND <= r.cy <= RECT_BOUND
    &&& 0 < r.hx <= EXTENT_BOUND
    &&& 0 < r.hy <= EXTENT_BOUND
}

/// Every contact normal the resolver reports is well formed.
pub proof fn lemma_contact_normal_wf(c: Vec2i, radius: i64, r: Rect)
    requires
        0 < radius <= RADIUS_BOUND,
    ensures
        spec_contact_normal(c, radius, r) matches Some(n) ==> normal_wf(n),
{
    assert(radius * radius <= RADIUS_BOUND * RADIUS_BOUND) by (nonlinear_arith)
        requires
            0 < radius <= RADIUS_BOUND,
    ;
    match spec_contact_normal(c, radius, r) {
        Some(Normal::Corner { dx, dy }) => {
            assert(dx != 0);
            assert(dx * dx > 0) by (nonlinear_arith)
                requires
                    dx != 0,
            ;
            assert(dy * dy >= 0) by (nonlinear_arith);
        },
        _ => {},
    }
}

/// Computes the contact normal between a circle and a rectangle, following
/// the nine-region classification of `spec_contact_normal`.
pub fn contact_normal(c: Vec2i, radius: i64, r: &Rect) -> (res: Option<Normal>)
    requires
        0 < radius <= RADIUS_BOUND,
        -COORD_BOUND <= c.x <= COORD_BOUND,
        -COORD_BOUND <= c.y <= COORD_BOUND,
        rect_wf(*r),
    ensures
        res == spec_contact_normal(c, radius, *r),
        res matches Some(n) ==> normal_wf(n),
{
    proof {
        lemma_contact_normal_wf(c, radius, *r);
    }
    let top: i64 = r.cy + r.hy;
    let bottom: i64 = r.cy - r.hy;
    let left: i64 = r.cx - r.hx;
    let right: i64 = r.cx + r.hx;
    if c.x + radius < left || c.x - radius > right || c.y + radius < bottom || c.y - radius > top {
        None
    } else if c.y > top {
        if c.x < left {
            corner_contact(c.x - left, c.y - top, radius)
        } else if c.x > right {
            corner_contact(c.x - right, c.y - top, radius)
        } else {
            Some(Normal::Up)
        }
    } else if c.y > bottom {
        if c.x < left {
            Some(Normal::Left)
        } else if c.x > right {
            Some(Normal::Right)
        } else {
            None
        }
    } else {
        if c.x < left {
            corner_contact(c.x - left, c.y - bottom, radius)
        } else if c.x > right {
            corner_contact(c.x - right, c.y - bottom, radius)
        } else {
            Some(Normal::Down)
        }
    }
}

/// Radius test for the four corner regions.
fn corner_contact(dx: i64, dy: i64, radius: i64) -> (res: Option<Normal>)
    requires
        0 < radius <= RADIUS_BOUND,
        -RADIUS_BOUND <= dx <= RADIUS_BOUND,
        -RADIUS_BOUND <= dy <= RADIUS_BOUND,
    ensures
        res == spec_corner_contact(dx as int, dy as int, radius as int),
{
    proof {
        assert(0 <= dx * dx <= RADIUS_BOUND * RADIUS_BOUND && 0 <= dy * dy <= RADIUS_BOUND
            * RADIUS_BOUND && 0 <= radius * radius <= RADIUS_BOUND * RADIUS_BOUND) by (nonlinear_arith)
            requires
                0 < radius <= RADIUS_BOUND,
                -RADIUS_BOUND <= dx <= RADIUS_BOUND,
                -RADIUS_BOUND <= dy <= RADIUS_BOUND,
        ;
    }
    if dx * dx + dy * dy < radius * radius {
        Some(Normal::Corner { dx, dy })
    } else {
        None
    }
}

} // verus!
