use collision2d::algebra::Vec2;
use collision2d::detection_narrow_phase::detect_collision_circle_and_circle;
use collision2d::rational::Rat;
use collision2d::shapes::{Circle, Mass, Material, RigidBody};

fn narrow_vec2i(x: i64, y: i64) -> Vec2 {
    Vec2::new(Rat::from_int(x), Rat::from_int(y))
}

fn narrow_circle(x: Rat, y: i64, radius: Rat) -> Circle {
    let zero = narrow_vec2i(0, 0);
    Circle::new(
        Material { restitution: Rat::from_int(1) },
        RigidBody {
            mass: Mass::Finite(Rat::from_int(1)),
            position: Vec2::new(x, Rat::from_int(y)),
            velocity: zero,
            acceleration: zero,
        },
        radius,
    )
    .unwrap()
}

#[test]
fn test_detect_collision_circle_and_circle() {
    // the engine's tolerance-sized probe: one millionth
    let epsilon = Rat::new(1, 1_000_000).unwrap();
    let circle1 = narrow_circle(Rat::from_int(10), 10, Rat::from_int(10));
    let mut circle2 = narrow_circle(Rat::from_int(30), 10, Rat::from_int(10));

    // tangent circles: tangency is not a collision — no deformation, no
    // force, nothing to resolve
    assert!(detect_collision_circle_and_circle(&circle1, &circle2).unwrap().is_none());

    // barely intersecting circles: a penetration depth of one millionth must
    // still be detected
    circle2.rigid_body.position = Vec2::new(
        Rat::from_int(30).checked_sub(&epsilon).unwrap(),
        Rat::from_int(10),
    );
    let result = detect_collision_circle_and_circle(&circle1, &circle2).unwrap();
    assert!(result.is_some());
    let info = result.unwrap();
    assert!(Rat::from_int(0).lt(&info.penetration));
    assert!(!(info.penetration == Rat::from_int(0)));
    assert_eq!(info.normal, narrow_vec2i(1, 0));
    // with exact arithmetic the depth is exactly the probe distance
    assert_eq!(info.penetration, epsilon);
}
