use collision2d::algebra::Vec2;
use collision2d::detection_broad_phase::{detect_by_broad_phase, ShapeIndexPair};
use collision2d::detection_narrow_phase::detect_collision_circle_and_circle;
use collision2d::rational::Rat;
use collision2d::shapes::{Circle, Mass, Material, RigidBody};

fn broad_vec2i(x: i64, y: i64) -> Vec2 {
    Vec2::new(Rat::from_int(x), Rat::from_int(y))
}

fn broad_circle_at(x: i64, y: i64, radius: i64) -> Circle {
    let zero = broad_vec2i(0, 0);
    Circle::new(
        Material { restitution: Rat::from_int(1) },
        RigidBody {
            mass: Mass::Finite(Rat::from_int(1)),
            position: broad_vec2i(x, y),
            velocity: zero,
            acceleration: zero,
        },
        Rat::from_int(radius),
    )
    .unwrap()
}

#[test]
fn test_detect_by_broad_phase_circle() {
    let circle1 = broad_circle_at(10, 10, 10);
    let mut circle2 = broad_circle_at(20, 10, 10);

    // intersecting circles
    {
        let circles = vec![circle2, circle1];
        let results = detect_by_broad_phase(&circles).unwrap();

        assert_eq!(results.len(), 1);
        assert_eq!(results[0], ShapeIndexPair(0, 1));
    }

    // tangent circles: tangency is not a collision — there is no deformation
    // and no force to resolve, in the broad phase as in the narrow phase
    {
        circle2.rigid_body.position = broad_vec2i(30, 10);
        let circles = vec![circle1, circle2];
        let results = detect_by_broad_phase(&circles).unwrap();

        assert_eq!(results.len(), 0);
    }

    // separated circles
    {
        circle2.rigid_body.position = broad_vec2i(31, 10);
        let circles = vec![circle1, circle2];
        let results = detect_by_broad_phase(&circles).unwrap();

        assert_eq!(results.len(), 0);
    }

    // the broad phase reports a candidate that the narrow phase rejects
    {
        circle2.rigid_body.position = broad_vec2i(25, 25);
        let circles = vec![circle2, circle1];
        let results = detect_by_broad_phase(&circles).unwrap();

        assert_eq!(results.len(), 1);
        assert_eq!(results[0], ShapeIndexPair(0, 1));
        assert!(detect_collision_circle_and_circle(&circle1, &circle2).unwrap().is_none());
    }
}
