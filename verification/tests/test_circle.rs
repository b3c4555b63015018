use collision2d::algebra::Vec2;
use collision2d::collide_calculation::collide_circle_and_circle;
use collision2d::detection_narrow_phase::detect_collision_circle_and_circle;
use collision2d::rational::Rat;
use collision2d::shapes::{Circle, Mass, Material, RigidBody};
use rand::Rng;

fn circle_vec2i(x: i64, y: i64) -> Vec2 {
    Vec2::new(Rat::from_int(x), Rat::from_int(y))
}

/// Two circles whose boundaries overlap by one millionth, centers 20 apart.
fn get_two_intersecting_circle() -> (Circle, Circle) {
    let zero = circle_vec2i(0, 0);
    let epsilon = Rat::new(1, 1_000_000).unwrap();

    let circle1 = Circle::new(
        Material { restitution: Rat::from_int(1) },
        RigidBody {
            mass: Mass::Finite(Rat::from_int(1)),
            position: circle_vec2i(10, 10),
            velocity: zero,
            acceleration: zero,
        },
        Rat::from_int(10),
    )
    .unwrap();
    let circle2 = Circle::new(
        Material { restitution: Rat::from_int(1) },
        RigidBody {
            mass: Mass::Finite(Rat::from_int(1)),
            position: circle_vec2i(30, 10),
            velocity: zero,
            acceleration: zero,
        },
        Rat::from_int(10).checked_add(&epsilon).unwrap(),
    )
    .unwrap();

    (circle1, circle2)
}

fn get_momentum(p1: &RigidBody, p2: &RigidBody, m1: &Rat, m2: &Rat) -> Vec2 {
    p1.velocity
        .checked_scale(m1)
        .unwrap()
        .checked_add(&p2.velocity.checked_scale(m2).unwrap())
        .unwrap()
}

fn get_kinetic_energy(p1: &RigidBody, p2: &RigidBody, m1: &Rat, m2: &Rat) -> Rat {
    let e1 = m1.checked_mul(&p1.velocity.length_squared().unwrap()).unwrap();
    let e2 = m2.checked_mul(&p2.velocity.length_squared().unwrap()).unwrap();
    e1.checked_add(&e2).unwrap().checked_div(&Rat::from_int(2)).unwrap()
}

#[test]
fn test_collide_circle_speed_exchange() {
    // equal masses, head-on, fully elastic: the velocities swap exactly
    let (mut circle1, mut circle2) = get_two_intersecting_circle();
    let v1 = circle_vec2i(32, 0);
    let v2 = circle_vec2i(-10086, 0);

    circle1.rigid_body.velocity = v1;
    circle2.rigid_body.velocity = v2;

    collide_circle_and_circle(&mut circle1, &mut circle2).unwrap();
    assert_ne!(circle1.rigid_body.velocity, circle2.rigid_body.velocity);
    assert_eq!(circle1.rigid_body.velocity, v2);
    assert_eq!(circle2.rigid_body.velocity, v1);
}

#[test]
fn test_collide_circle_moving_away() {
    // circles moving apart must not be resolved
    let (mut circle1, mut circle2) = get_two_intersecting_circle();
    let v1 = circle_vec2i(-32, -21);
    let v2 = circle_vec2i(10086, 42);

    circle1.rigid_body.velocity = v1;
    circle2.rigid_body.velocity = v2;

    collide_circle_and_circle(&mut circle1, &mut circle2).unwrap();
    assert_eq!(circle1.rigid_body.velocity, v1);
    assert_eq!(circle2.rigid_body.velocity, v2);
}

#[test]
fn test_collide_circle_mass_infinity() {
    // head-on, fully elastic, one body immovable: the finite-mass circle
    // flies back with its speed reversed, the immovable one stays at rest
    let (mut circle1, mut circle2) = get_two_intersecting_circle();
    // an immovable body only makes sense at rest
    let v1 = circle_vec2i(0, 0);
    let v2 = circle_vec2i(-42, 0);
    circle1.rigid_body.velocity = v1;
    circle1.rigid_body.mass = Mass::Infinite;

    circle2.rigid_body.velocity = v2;

    collide_circle_and_circle(&mut circle1, &mut circle2).unwrap();
    assert_eq!(circle1.rigid_body.velocity, v1);
    assert_eq!(circle2.rigid_body.velocity, circle_vec2i(42, 0));
}

#[test]
fn test_collide_circle_momentum_and_energy_conservation() {
    let mut rng = rand::thread_rng();
    for _ in 0..10_000 {
        let (mut circle1, mut circle2) = get_two_intersecting_circle();
        circle1.rigid_body.velocity = circle_vec2i(
            rng.gen_range(-100..=100),
            rng.gen_range(-100..=100),
        );
        let m1 = Rat::from_int(rng.gen_range(1..=100));
        circle1.rigid_body.mass = Mass::Finite(m1);
        circle2.rigid_body.velocity = circle_vec2i(
            rng.gen_range(-100..=100),
            rng.gen_range(-100..=100),
        );
        let m2 = Rat::from_int(rng.gen_range(1..=100));
        circle2.rigid_body.mass = Mass::Finite(m2);
        // place the second circle at a random strictly overlapping offset
        let mut dx: i64 = rng.gen_range(-10..=10);
        let mut dy: i64 = rng.gen_range(-10..=10);
        if dx == 0 && dy == 0 {
            dx = 3;
            dy = 4;
        }
        circle2.rigid_body.position = circle_vec2i(10 + dx, 10 + dy);

        let momentum_before = get_momentum(&circle1.rigid_body, &circle2.rigid_body, &m1, &m2);
        let kinetic_energy_before =
            get_kinetic_energy(&circle1.rigid_body, &circle2.rigid_body, &m1, &m2);

        assert!(detect_collision_circle_and_circle(&circle1, &circle2).unwrap().is_some());
        collide_circle_and_circle(&mut circle1, &mut circle2).unwrap();

        let momentum_after = get_momentum(&circle1.rigid_body, &circle2.rigid_body, &m1, &m2);
        let kinetic_energy_after =
            get_kinetic_energy(&circle1.rigid_body, &circle2.rigid_body, &m1, &m2);

        // with exact rational arithmetic and restitution 1, momentum and
        // kinetic energy are both preserved exactly
        assert_eq!(momentum_before, momentum_after);
        assert_eq!(kinetic_energy_before, kinetic_energy_after);
    }
}
