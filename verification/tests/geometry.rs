use breakout_core::geom::{contact_normal, Normal, Rect, Vec2i};
use breakout_core::physics::{integrate, reflect};
use breakout_core::world::BALL_RADIUS;

fn brick_at_origin() -> Rect {
    Rect { cx: 0, cy: 0, hx: 50_000, hy: 15_000 }
}

#[test]
fn no_contact_when_bounding_boxes_are_apart() {
    let r = brick_at_origin();
    let far = Vec2i { x: -100_000, y: 0 };
    assert_eq!(contact_normal(far, BALL_RADIUS, &r), None);
    let above = Vec2i { x: 0, y: 40_000 };
    assert_eq!(contact_normal(above, BALL_RADIUS, &r), None);
}

#[test]
fn left_edge_strip_returns_axis_normal() {
    // A ball exactly at the brick's left edge, in the horizontal strip:
    // the resolver reports the axis-aligned normal, not a corner normal.
    let r = brick_at_origin();
    let c = Vec2i { x: -55_000, y: 0 };
    assert_eq!(contact_normal(c, BALL_RADIUS, &r), Some(Normal::Left));
}

#[test]
fn right_edge_strip_returns_axis_normal() {
    let r = brick_at_origin();
    let c = Vec2i { x: 55_000, y: 5_000 };
    assert_eq!(contact_normal(c, BALL_RADIUS, &r), Some(Normal::Right));
}

#[test]
fn top_and_bottom_strips_return_axis_normals() {
    let r = brick_at_origin();
    let above = Vec2i { x: 10_000, y: 20_000 };
    assert_eq!(contact_normal(above, BALL_RADIUS, &r), Some(Normal::Up));
    let below = Vec2i { x: -10_000, y: -20_000 };
    assert_eq!(contact_normal(below, BALL_RADIUS, &r), Some(Normal::Down));
}

#[test]
fn center_inside_rectangle_reports_no_contact() {
    // The center region is a known gap of the resolver: a circle whose
    // center lies between the rectangle's edges reports no contact.
    let r = brick_at_origin();
    let inside = Vec2i { x: 0, y: 0 };
    assert_eq!(contact_normal(inside, BALL_RADIUS, &r), None);
}

#[test]
fn corner_within_radius_returns_offset_normal() {
    let r = brick_at_origin();
    let c = Vec2i { x: -51_000, y: 16_000 };
    assert_eq!(
        contact_normal(c, BALL_RADIUS, &r),
        Some(Normal::Corner { dx: -1_000, dy: 1_000 })
    );
}

#[test]
fn corner_outside_radius_reports_no_contact() {
    // Bounding boxes overlap, but the nearest corner is farther away than
    // the radius: the corner test rejects the contact.
    let r = brick_at_origin();
    let c = Vec2i { x: -60_000, y: 16_000 };
    assert_eq!(contact_normal(c, BALL_RADIUS, &r), None);
}

#[test]
fn axis_reflection_negates_one_component() {
    let v = Vec2i { x: 283, y: -283 };
    assert_eq!(reflect(v, &Normal::Up), Vec2i { x: 283, y: 283 });
    assert_eq!(reflect(v, &Normal::Down), Vec2i { x: 283, y: 283 });
    assert_eq!(reflect(v, &Normal::Left), Vec2i { x: -283, y: -283 });
    assert_eq!(reflect(v, &Normal::Right), Vec2i { x: -283, y: -283 });
}

#[test]
fn axis_reflection_conserves_squared_speed() {
    let v = Vec2i { x: 400, y: -300 };
    let r = reflect(v, &Normal::Left);
    assert_eq!(v.x * v.x + v.y * v.y, r.x * r.x + r.y * r.y);
}

#[test]
fn corner_reflection_of_a_diagonal_is_exact() {
    // Reflecting (400, -300) across the diagonal corner offset (-1, 1)
    // swaps and negates the components; the squared speed is conserved
    // exactly because no rounding occurs.
    let v = Vec2i { x: 400, y: -300 };
    let n = Normal::Corner { dx: -1_000, dy: 1_000 };
    let r = reflect(v, &n);
    assert_eq!(r, Vec2i { x: -300, y: 400 });
    assert_eq!(v.x * v.x + v.y * v.y, r.x * r.x + r.y * r.y);
}

#[test]
fn corner_reflection_never_gains_speed() {
    let v = Vec2i { x: 283, y: 283 };
    let n = Normal::Corner { dx: -700, dy: 900 };
    let r = reflect(v, &n);
    assert!(r.x * r.x + r.y * r.y <= v.x * v.x + v.y * v.y);
}

#[test]
fn integrate_advances_by_velocity_times_dt() {
    let pos = Vec2i { x: 1_000, y: 2_000 };
    let vel = Vec2i { x: 3, y: -4 };
    assert_eq!(integrate(pos, vel, 16), Vec2i { x: 1_048, y: 1_936 });
    assert_eq!(integrate(pos, vel, 0), pos);
}
