use wandersim::force::{Force, ForceType};
use wandersim::vec2::Vec2;

fn emitter(force_type: ForceType, newton: i64, influence: i64) -> Force {
    Force { newton, influence, force_type }
}

#[test]
fn passive_never_pushes() {
    let f = emitter(ForceType::Passive, 500_000, 50_000);
    let origin = Vec2::new(0, 0);
    assert!(f.get_force(Vec2::new(10_000, 0), origin).is_none());
    assert!(f.get_force(Vec2::new(0, 0), origin).is_none());
    assert!(f.get_force(Vec2::new(-70_000, 35_000), origin).is_none());
}

#[test]
fn attract_points_toward_emitter() {
    let f = emitter(ForceType::Attract, 500_000, 50_000);
    let fv = f
        .get_force(Vec2::new(0, 0), Vec2::new(100_000, 0))
        .expect("within reach");
    assert_eq!(fv.dx, 100_000);
    assert_eq!(fv.dy, 0);
    assert_eq!(fv.newton, 500_000);
    let c = fv.cartesian();
    assert_eq!(c.x, 500_000);
    assert_eq!(c.y, 0);
}

#[test]
fn repel_points_away_from_emitter() {
    let f = emitter(ForceType::Repel, 500_000, 50_000);
    let fv = f
        .get_force(Vec2::new(0, 30_000), Vec2::new(0, 0))
        .expect("within reach");
    assert_eq!(fv.dx, 0);
    assert_eq!(fv.dy, 30_000);
    let c = fv.cartesian();
    assert_eq!(c.x, 0);
    assert_eq!(c.y, 500_000);
}

// A repel emitter of radius 50 and strength 500 at the origin: a mover at
// scaled distance 10 feels exactly 500 newtons straight away from the
// origin; at scaled distance 60 it feels nothing.
#[test]
fn repel_scenario_at_origin() {
    let f = emitter(ForceType::Repel, 500_000, 50_000);
    // Scaled distance is the world distance divided by four, so a mover at
    // forty world units sits at scaled distance ten.
    let near = f
        .get_force(Vec2::new(40_000, 0), Vec2::new(0, 0))
        .expect("distance ten is inside radius fifty");
    assert_eq!(near.newton, 500_000);
    let c = near.cartesian();
    assert_eq!(c.x, 500_000);
    assert_eq!(c.y, 0);
    // A mover at two hundred forty world units sits at scaled distance
    // sixty, outside the radius.
    assert!(f.get_force(Vec2::new(240_000, 0), Vec2::new(0, 0)).is_none());
}

#[test]
fn force_bounds_at_zero_and_radius() {
    let f = emitter(ForceType::Attract, 500_000, 50_000);
    // Zero distance: no force, avoiding a degenerate normalisation.
    assert!(f.get_force(Vec2::new(0, 0), Vec2::new(0, 0)).is_none());
    // Exactly at the radius (scaled distance fifty = two hundred thousand
    // raw): no force.
    assert!(f.get_force(Vec2::new(0, 0), Vec2::new(200_000, 0)).is_none());
    // Just inside the radius: a force of exactly the configured strength.
    let fv = f
        .get_force(Vec2::new(0, 0), Vec2::new(199_999, 0))
        .expect("just inside the radius");
    assert_eq!(fv.newton, 500_000);
}

#[test]
fn diagonal_force_magnitude_within_strength() {
    let f = emitter(ForceType::Attract, 500_000, 50_000);
    let fv = f
        .get_force(Vec2::new(0, 0), Vec2::new(30_000, 40_000))
        .expect("within reach");
    let c = fv.cartesian();
    // 3-4-5 triangle: components are exactly three and four fifths.
    assert_eq!(c.x, 300_000);
    assert_eq!(c.y, 400_000);
}

#[test]
fn prices_per_type() {
    assert_eq!(ForceType::Passive.price(), 30);
    assert_eq!(ForceType::Attract.price(), 50);
    assert_eq!(ForceType::Repel.price(), 45);
}
