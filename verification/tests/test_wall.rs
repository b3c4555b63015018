use collision2d::algebra::Vec2;
use collision2d::collide_calculation::collide_wall_and_circle;
use collision2d::rational::Rat;
use collision2d::shapes::{Circle, Mass, Material, Orientation, RigidBody, Wall};
use rand::Rng;

fn wall_vec2i(x: i64, y: i64) -> Vec2 {
    Vec2::new(Rat::from_int(x), Rat::from_int(y))
}

/// A circle at (10, 10) whose radius slightly exceeds the box [(0,0),(20,20)]:
/// it crosses a wall on each of the four sides, which makes every orientation
/// easy to exercise.
fn wall_test_circle() -> Circle {
    let epsilon = Rat::new(1, 1_000_000).unwrap();
    Circle::new(
        Material { restitution: Rat::from_int(1) },
        RigidBody {
            mass: Mass::Finite(Rat::from_int(1)),
            position: wall_vec2i(10, 10),
            velocity: wall_vec2i(0, 0),
            acceleration: wall_vec2i(0, 0),
        },
        Rat::from_int(10).checked_add(&epsilon).unwrap(),
    )
    .unwrap()
}

fn check_circle_and_wall(wall_bound: i64, wall_orientation: Orientation) {
    let mut rng = rand::thread_rng();
    let mut circle = wall_test_circle();
    let v = wall_vec2i(rng.gen_range(-100..=100), rng.gen_range(-100..=100));
    circle.rigid_body.velocity = v;
    let wall = Wall::new(
        Material { restitution: Rat::from_int(1) },
        Rat::from_int(wall_bound),
        wall_orientation,
    );

    // first resolution: the velocity along the wall's normal reverses
    // exactly, the tangential component stays untouched
    collide_wall_and_circle(&wall, &mut circle).unwrap();
    match wall_orientation {
        Orientation::Left | Orientation::Right => {
            assert_eq!(
                circle.rigid_body.velocity,
                Vec2::new(v.x.checked_neg().unwrap(), v.y)
            )
        },
        Orientation::Top | Orientation::Bottom => {
            assert_eq!(
                circle.rigid_body.velocity,
                Vec2::new(v.x, v.y.checked_neg().unwrap())
            )
        },
    }

    // second resolution: the first one fully settled the contact, so nothing
    // may change
    let v_before = circle.rigid_body.velocity;
    let p_before = circle.rigid_body.position;
    collide_wall_and_circle(&wall, &mut circle).unwrap();
    assert_eq!(circle.rigid_body.velocity, v_before);
    assert_eq!(circle.rigid_body.position, p_before);
}

#[test]
fn test_collide_circle_and_wall() {
    for _ in 0..2_500 {
        check_circle_and_wall(0, Orientation::Left);
        check_circle_and_wall(20, Orientation::Top);
        check_circle_and_wall(20, Orientation::Right);
        check_circle_and_wall(0, Orientation::Bottom);
    }
}
