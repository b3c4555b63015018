use collision2d::algebra::{min, Vec2};
use collision2d::box2d::{drive_particle, Arena};
use collision2d::collide_calculation::{
    collide_circle_and_circle, collide_circle_and_rectangle, collide_rectangle_and_rectange,
    collide_wall_and_circle, collide_wall_and_rectangle,
};
use collision2d::detection_narrow_phase::detect_collision_circle_and_circle;
use collision2d::rational::Rat;
use collision2d::shapes::{Circle, Mass, Material, Orientation, Rectangle, RigidBody, Wall};
use collision2d::EngineError;

fn engine_vec2i(x: i64, y: i64) -> Vec2 {
    Vec2::new(Rat::from_int(x), Rat::from_int(y))
}

fn engine_circle(x: i64, y: i64, radius: i64, vx: i64, vy: i64) -> Circle {
    Circle::new(
        Material { restitution: Rat::from_int(1) },
        RigidBody {
            mass: Mass::Finite(Rat::from_int(1)),
            position: engine_vec2i(x, y),
            velocity: engine_vec2i(vx, vy),
            acceleration: engine_vec2i(0, 0),
        },
        Rat::from_int(radius),
    )
    .unwrap()
}

#[test]
fn test_rat_construction_and_order() {
    assert!(Rat::new(1, 0).is_none());
    assert_eq!(Rat::new(2, 4).unwrap(), Rat::new(1, 2).unwrap());
    assert_eq!(Rat::new(1, -2).unwrap(), Rat::new(-1, 2).unwrap());
    assert!(Rat::new(1, 3).unwrap().lt(&Rat::new(1, 2).unwrap()));
    assert_eq!(
        min(Rat::from_int(3), Rat::from_int(2)),
        Rat::from_int(2)
    );
    assert_eq!(
        Rat::from_int(1).checked_div(&Rat::from_int(3)).unwrap(),
        Rat::new(1, 3).unwrap()
    );
    assert!(Rat::from_int(1).checked_div(&Rat::from_int(0)).is_none());
}

#[test]
fn test_rat_sqrt_floor() {
    // exact roots come out exact
    assert_eq!(Rat::from_int(9).sqrt_floor(), Rat::from_int(3));
    assert_eq!(Rat::new(1, 4).unwrap().sqrt_floor(), Rat::new(1, 2).unwrap());
    // irrational roots are floored at a granularity of one millionth
    assert_eq!(
        Rat::from_int(10).sqrt_floor(),
        Rat::new(3_162_277, 1_000_000).unwrap()
    );
    assert_eq!(
        Rat::from_int(2).sqrt_floor(),
        Rat::new(1_414_213, 1_000_000).unwrap()
    );
}

#[test]
fn test_shallow_overlap_stays_within_slop() {
    // radii 500 and 500, centers 990 and 141 apart: the true penetration is
    // 1000 - sqrt(999981), about 0.0095, below the slop of 1/100 — so
    // resolution must leave both positions exactly where they are
    let mut c1 = engine_circle(0, 0, 500, 0, 0);
    let mut c2 = engine_circle(990, 141, 500, 0, 0);
    let info = detect_collision_circle_and_circle(&c1, &c2).unwrap().unwrap();
    assert!(info.penetration.le(&Rat::new(1, 100).unwrap()));
    assert!(Rat::from_int(0).lt(&info.penetration));
    collide_circle_and_circle(&mut c1, &mut c2).unwrap();
    assert_eq!(c1.rigid_body.position, engine_vec2i(0, 0));
    assert_eq!(c2.rigid_body.position, engine_vec2i(990, 141));
    assert_eq!(c1.rigid_body.velocity, engine_vec2i(0, 0));
    assert_eq!(c2.rigid_body.velocity, engine_vec2i(0, 0));
}

#[test]
fn test_tangent_circles_resolution_is_noop() {
    // tangency is not a collision: resolution leaves both circles alone
    let mut c1 = engine_circle(10, 10, 10, 5, 0);
    let mut c2 = engine_circle(30, 10, 10, -5, 0);
    assert!(detect_collision_circle_and_circle(&c1, &c2).unwrap().is_none());
    collide_circle_and_circle(&mut c1, &mut c2).unwrap();
    assert_eq!(c1.rigid_body.velocity, engine_vec2i(5, 0));
    assert_eq!(c2.rigid_body.velocity, engine_vec2i(-5, 0));
    assert_eq!(c1.rigid_body.position, engine_vec2i(10, 10));
    assert_eq!(c2.rigid_body.position, engine_vec2i(30, 10));
}

#[test]
fn test_coincident_centers_is_degenerate() {
    let c1 = engine_circle(10, 10, 10, 0, 0);
    let c2 = engine_circle(10, 10, 5, 0, 0);
    assert!(matches!(
        detect_collision_circle_and_circle(&c1, &c2),
        Err(EngineError::DegenerateGeometry)
    ));
    let mut a = c1;
    let mut b = c2;
    assert_eq!(
        collide_circle_and_circle(&mut a, &mut b),
        Err(EngineError::DegenerateGeometry)
    );
    // an error never mutates the participants
    assert_eq!(a.rigid_body.position, engine_vec2i(10, 10));
    assert_eq!(b.rigid_body.position, engine_vec2i(10, 10));
}

#[test]
fn test_invalid_inputs_are_rejected() {
    let body = RigidBody::particle(
        Mass::Finite(Rat::from_int(1)),
        engine_vec2i(0, 0),
        engine_vec2i(0, 0),
        engine_vec2i(0, 0),
    );
    assert!(matches!(
        Circle::new(Material { restitution: Rat::from_int(1) }, body, Rat::from_int(0)),
        Err(EngineError::InvalidInput)
    ));
    assert!(matches!(
        Rectangle::new(
            Material { restitution: Rat::from_int(1) },
            body,
            Rat::from_int(-3),
            Rat::from_int(2),
            Rat::from_int(0),
        ),
        Err(EngineError::InvalidInput)
    ));
    let weightless = RigidBody {
        mass: Mass::Finite(Rat::from_int(0)),
        position: engine_vec2i(0, 0),
        velocity: engine_vec2i(0, 0),
        acceleration: engine_vec2i(0, 0),
    };
    assert_eq!(weightless.inverse_mass(), Err(EngineError::InvalidInput));
    assert_eq!(
        RigidBody { mass: Mass::Infinite, ..weightless }.inverse_mass(),
        Ok(Rat::from_int(0))
    );

    // a zero-mass body inside an approaching overlap surfaces the error
    let mut c1 = engine_circle(10, 10, 10, 5, 0);
    c1.rigid_body.mass = Mass::Finite(Rat::from_int(0));
    let mut c2 = engine_circle(25, 10, 10, -5, 0);
    assert_eq!(
        collide_circle_and_circle(&mut c1, &mut c2),
        Err(EngineError::InvalidInput)
    );
}

#[test]
fn test_out_of_range_is_reported() {
    let huge = 0x7fff_ffff_ffff_fffe;
    let c1 = engine_circle(huge, 0, huge, 0, 0);
    let c2 = engine_circle(0, 0, 1, 0, 0);
    let shapes = vec![c1, c2];
    assert_eq!(
        collision2d::detection_broad_phase::detect_by_broad_phase(&shapes),
        Err(EngineError::OutOfRange)
    );
}

#[test]
fn test_unsupported_pairings_fail_loudly() {
    let mut circle = engine_circle(10, 10, 10, 0, 0);
    let body = circle.rigid_body;
    let mut rect1 = Rectangle::new(
        Material { restitution: Rat::from_int(1) },
        body,
        Rat::from_int(4),
        Rat::from_int(2),
        Rat::from_int(0),
    )
    .unwrap();
    let mut rect2 = rect1;
    let wall = Wall::new(
        Material { restitution: Rat::from_int(1) },
        Rat::from_int(0),
        Orientation::Left,
    );
    assert_eq!(
        collide_circle_and_rectangle(&mut circle, &mut rect1),
        Err(EngineError::Unsupported)
    );
    assert_eq!(
        collide_rectangle_and_rectange(&mut rect1, &mut rect2),
        Err(EngineError::Unsupported)
    );
    assert_eq!(
        collide_wall_and_rectangle(&wall, &mut rect1),
        Err(EngineError::Unsupported)
    );
}

#[test]
fn test_drive_particle_exact_kinematics() {
    let mut body = RigidBody::particle(
        Mass::Finite(Rat::from_int(1)),
        engine_vec2i(0, 0),
        engine_vec2i(2, 0),
        engine_vec2i(4, -2),
    );
    let half = Rat::new(1, 2).unwrap();
    drive_particle(&mut body, half).unwrap();
    // position += v*dt + a*dt^2/2 = (1, 0) + (1/2, -1/4)
    assert_eq!(
        body.position,
        Vec2::new(Rat::new(3, 2).unwrap(), Rat::new(-1, 4).unwrap())
    );
    // velocity += a*dt = (2, -1)
    assert_eq!(body.velocity, Vec2::new(Rat::from_int(4), Rat::from_int(-1)));
}

#[test]
fn test_next_frame_moves_and_bounces() {
    // a single circle flying into the right wall within one frame
    let wall_mat = Material { restitution: Rat::from_int(1) };
    let circle = engine_circle(19, 10, 2, 3, 0);
    let mut arena = Arena::new(
        Wall::new(wall_mat, Rat::from_int(0), Orientation::Left),
        Wall::new(wall_mat, Rat::from_int(20), Orientation::Top),
        Wall::new(wall_mat, Rat::from_int(20), Orientation::Right),
        Wall::new(wall_mat, Rat::from_int(0), Orientation::Bottom),
        vec![circle],
    );
    arena.next_frame(Rat::from_int(1)).unwrap();
    // integrated to x = 22, then clamped to 20 - 2 = 18 with the velocity
    // reflected
    assert_eq!(arena.shapes[0].rigid_body.position, engine_vec2i(18, 10));
    assert_eq!(arena.shapes[0].rigid_body.velocity, engine_vec2i(-3, 0));
}

#[test]
fn test_next_frame_resolves_pairs() {
    // two equal circles drifting into each other head-on: after one frame the
    // velocities have swapped
    let wall_mat = Material { restitution: Rat::from_int(1) };
    let c1 = engine_circle(6, 10, 4, 1, 0);
    let c2 = engine_circle(14, 10, 4, -1, 0);
    let mut arena = Arena::new(
        Wall::new(wall_mat, Rat::from_int(0), Orientation::Left),
        Wall::new(wall_mat, Rat::from_int(20), Orientation::Top),
        Wall::new(wall_mat, Rat::from_int(20), Orientation::Right),
        Wall::new(wall_mat, Rat::from_int(0), Orientation::Bottom),
        vec![c1, c2],
    );
    arena.next_frame(Rat::from_int(1)).unwrap();
    assert_eq!(arena.shapes[0].rigid_body.velocity, engine_vec2i(-1, 0));
    assert_eq!(arena.shapes[1].rigid_body.velocity, engine_vec2i(1, 0));
}

#[test]
fn test_fully_inelastic_head_on_collision_stops_both() {
    // equal masses, restitution 0: the pair moves together afterwards, here
    // with zero net momentum, so both stop
    let mut c1 = engine_circle(10, 10, 10, 2, 0);
    let mut c2 = engine_circle(25, 10, 10, -2, 0);
    c1.material.restitution = Rat::from_int(0);
    c2.material.restitution = Rat::from_int(0);
    collide_circle_and_circle(&mut c1, &mut c2).unwrap();
    assert_eq!(c1.rigid_body.velocity, engine_vec2i(0, 0));
    assert_eq!(c2.rigid_body.velocity, engine_vec2i(0, 0));
}

#[test]
fn test_wall_uses_smaller_restitution() {
    // circle restitution 1, wall restitution 1/2: the reflected component is
    // scaled by the smaller of the two
    let mut circle = engine_circle(5, 10, 10, -8, 3);
    let wall = Wall::new(
        Material { restitution: Rat::new(1, 2).unwrap() },
        Rat::from_int(0),
        Orientation::Left,
    );
    collide_wall_and_circle(&wall, &mut circle).unwrap();
    assert_eq!(
        circle.rigid_body.velocity,
        Vec2::new(Rat::from_int(4), Rat::from_int(3))
    );
    // and the circle sits exactly on the boundary
    assert_eq!(
        circle.rigid_body.position,
        Vec2::new(Rat::from_int(10), Rat::from_int(10))
    );
}

#[test]
fn test_next_frame_applies_constant_acceleration() {
    let wall_mat = Material { restitution: Rat::from_int(1) };
    let mut circle = engine_circle(10, 10, 2, 0, 0);
    circle.rigid_body.acceleration = engine_vec2i(0, -2);
    let mut arena = Arena::new(
        Wall::new(wall_mat, Rat::from_int(0), Orientation::Left),
        Wall::new(wall_mat, Rat::from_int(20), Orientation::Top),
        Wall::new(wall_mat, Rat::from_int(20), Orientation::Right),
        Wall::new(wall_mat, Rat::from_int(0), Orientation::Bottom),
        vec![circle],
    );
    arena.next_frame(Rat::from_int(1)).unwrap();
    // position += v*dt + a*dt^2/2 = (0, -1); velocity += a*dt = (0, -2)
    assert_eq!(arena.shapes[0].rigid_body.position, engine_vec2i(10, 9));
    assert_eq!(arena.shapes[0].rigid_body.velocity, engine_vec2i(0, -2));
}

#[test]
fn test_partial_restitution_scales_rebound() {
    // equal masses, head-on, restitution 1/2: the relative velocity along the
    // center line reverses at half its magnitude
    let mut c1 = engine_circle(0, 0, 6, 4, 0);
    let mut c2 = engine_circle(10, 0, 6, -4, 0);
    c1.material.restitution = Rat::new(1, 2).unwrap();
    c2.material.restitution = Rat::new(1, 2).unwrap();
    collide_circle_and_circle(&mut c1, &mut c2).unwrap();
    assert_eq!(c1.rigid_body.velocity, engine_vec2i(-2, 0));
    assert_eq!(c2.rigid_body.velocity, engine_vec2i(2, 0));
}
