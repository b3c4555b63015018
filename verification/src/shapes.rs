//! The entity model: rigid bodies, materials, and the shape variants.

use crate::algebra::Vec2;
use crate::rational::{flt, opt_rat_view, spec_add_rat, spec_sub_rat, Rat};
use crate::EngineError;
use vstd::prelude::*;

verus! {

/// A body's mass: a finite amount (positive for a valid body) or infinite
/// (an immovable body that no impulse can accelerate).
#[derive(Clone, Copy, Debug)]
pub enum Mass {
    Finite(Rat),
    Infinite,
}

/// The finite mass as a fraction, `None` for an infinite mass.
pub open spec fn mass_view(m: Mass) -> Option<(int, int)> {
    match m {
        Mass::Finite(r) => Some(r@),
        Mass::Infinite => None,
    }
}

/// The state of a point mass.
#[derive(Clone, Copy, Debug)]
pub struct RigidBody {
    pub mass: Mass,
    pub position: Vec2,
    pub velocity: Vec2,
    pub acceleration: Vec2,
}

/// What `inverse_mass` returns at the fraction level: zero for an immovable
/// body, the exact reciprocal for a positive finite mass, and an error for a
/// non-positive finite mass.
pub open spec fn spec_inverse_mass(m: Option<(int, int)>) -> Result<(int, int), EngineError> {
    match m {
        None => Ok((0int, 1int)),
        Some(mv) => if mv.0 >= 1 {
            Ok((mv.1, mv.0))
        } else {
            Err(EngineError::InvalidInput)
        },
    }
}

/// A `Result` of a rational, at the fraction level.
pub open spec fn result_rat_view(r: Result<Rat, EngineError>) -> Result<(int, int), EngineError> {
    match r {
        Ok(v) => Ok(v@),
        Err(e) => Err(e),
    }
}

impl RigidBody {
    /// A body from its four defining quantities.
    pub fn particle(mass: Mass, position: Vec2, velocity: Vec2, acceleration: Vec2) -> (r:
        RigidBody)
        ensures
            r == (RigidBody { mass, position, velocity, acceleration }),
    {
        RigidBody { mass, position, velocity, acceleration }
    }

    /// `1 / mass`, with `0` standing for an infinite mass; a finite mass must
    /// be strictly positive.
    pub fn inverse_mass(&self) -> (r: Result<Rat, EngineError>)
        ensures
            result_rat_view(r) == spec_inverse_mass(mass_view(self.mass)),
    {
        match self.mass {
            Mass::Infinite => Ok(Rat::from_int(0)),
            Mass::Finite(m) => match m.recip_positive() {
                Some(r) => Ok(r),
                None => Err(EngineError::InvalidInput),
            },
        }
    }
}

/// Surface material: only the restitution (elasticity) coefficient.
#[derive(Clone, Copy, Debug)]
pub struct Material {
    pub restitution: Rat,
}

/// Which side of the arena a wall closes off.
#[derive(Clone, Copy, Debug, PartialEq, Eq, Structural)]
pub enum Orientation {
    Left,
    Top,
    Right,
    Bottom,
}

/// A static, infinite, axis-aligned half-plane boundary.
#[derive(Clone, Copy, Debug)]
pub struct Wall {
    pub material: Material,
    /// The boundary coordinate: an `x` bound for left/right walls, a `y`
    /// bound for top/bottom walls.
    pub bound: Rat,
    pub orientation: Orientation,
}

impl Wall {
    pub fn new(material: Material, bound: Rat, orientation: Orientation) -> (r: Wall)
        ensures
            r == (Wall { material, bound, orientation }),
    {
        Wall { material, bound, orientation }
    }
}

/// A circle with a rigid body and a material.
#[derive(Clone, Copy, Debug)]
pub struct Circle {
    pub material: Material,
    pub rigid_body: RigidBody,
    pub radius: Rat,
}

/// The circle's bounding extents, at the fraction level.
pub open spec fn spec_bound_left(c: Circle) -> Option<(int, int)> {
    spec_sub_rat(c.rigid_body.position.x@, c.radius@)
}

pub open spec fn spec_bound_right(c: Circle) -> Option<(int, int)> {
    spec_add_rat(c.rigid_body.position.x@, c.radius@)
}

pub open spec fn spec_bound_top(c: Circle) -> Option<(int, int)> {
    spec_add_rat(c.rigid_body.position.y@, c.radius@)
}

pub open spec fn spec_bound_bottom(c: Circle) -> Option<(int, int)> {
    spec_sub_rat(c.rigid_body.position.y@, c.radius@)
}

impl Circle {
    /// A circle; the radius must be strictly positive.
    pub fn new(material: Material, rigid_body: RigidBody, radius: Rat) -> (r: Result<
        Circle,
        EngineError,
    >)
        ensures
            flt((0int, 1int), radius@) ==> r == Ok::<Circle, EngineError>(Circle { material, rigid_body, radius }),
            !flt((0int, 1int), radius@) ==> r == Err::<Circle, EngineError>(
                EngineError::InvalidInput,
            ),
    {
        if radius.is_positive() {
            Ok(Circle { material, rigid_body, radius })
        } else {
            Err(EngineError::InvalidInput)
        }
    }

    /// Leftmost extent, `x - radius`.
    pub fn bound_left(&self) -> (r: Option<Rat>)
        ensures
            opt_rat_view(r) == spec_bound_left(*self),
    {
        self.rigid_body.position.x.checked_sub(&self.radius)
    }

    /// Topmost extent, `y + radius`.
    pub fn bound_top(&self) -> (r: Option<Rat>)
        ensures
            opt_rat_view(r) == spec_bound_top(*self),
    {
        self.rigid_body.position.y.checked_add(&self.radius)
    }

    /// Rightmost extent, `x + radius`.
    pub fn bound_right(&self) -> (r: Option<Rat>)
        ensures
            opt_rat_view(r) == spec_bound_right(*self),
    {
        self.rigid_body.position.x.checked_add(&self.radius)
    }

    /// Bottommost extent, `y - radius`.
    pub fn bound_bottom(&self) -> (r: Option<Rat>)
        ensures
            opt_rat_view(r) == spec_bound_bottom(*self),
    {
        self.rigid_body.position.y.checked_sub(&self.radius)
    }
}

/// A rectangle with a rigid body and a material.  Exact detection and
/// resolution against rectangles is intentionally unsupported; the rotated
/// bounding extents need trigonometry, which has no exact rational form, so
/// the type carries its defining data only.
#[derive(Clone, Copy, Debug)]
pub struct Rectangle {
    pub material: Material,
    pub rigid_body: RigidBody,
    pub width: Rat,
    pub height: Rat,
    /// Rotation around the body's position, in radians.
    pub angle: Rat,
}

impl Rectangle {
    /// A rectangle; width and height must be strictly positive.
    pub fn new(material: Material, rigid_body: RigidBody, width: Rat, height: Rat, angle: Rat) -> (r:
        Result<Rectangle, EngineError>)
        ensures
            flt((0int, 1int), width@) && flt((0int, 1int), height@) ==> r == Ok::<Rectangle, EngineError>(
                Rectangle { material, rigid_body, width, height, angle },
            ),
            !(flt((0int, 1int), width@) && flt((0int, 1int), height@)) ==> r == Err::<
                Rectangle,
                EngineError,
            >(EngineError::InvalidInput),
    {
        if width.is_positive() && height.is_positive() {
            Ok(Rectangle { material, rigid_body, width, height, angle })
        } else {
            Err(EngineError::InvalidInput)
        }
    }
}

} // verus!
