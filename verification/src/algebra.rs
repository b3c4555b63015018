//! 2D vector algebra over exact rationals.

use crate::rational::{
    feq, flt, opt_rat_view, spec_add_rat, spec_div_rat, spec_mul_rat, spec_sub_rat, Rat,
};
use vstd::prelude::*;

verus! {

/// The smaller of two rationals by value (the right one on ties, as
/// `if a < b { a } else { b }` has it).
pub fn min(a: Rat, b: Rat) -> (r: Rat)
    ensures
        r == if flt(a@, b@) {
            a
        } else {
            b
        },
{
    if a.lt(&b) {
        a
    } else {
        b
    }
}

/// A 2D vector of exact rationals.
#[derive(Clone, Copy, Debug)]
pub struct Vec2 {
    pub x: Rat,
    pub y: Rat,
}

impl View for Vec2 {
    type V = ((int, int), (int, int));

    open spec fn view(&self) -> ((int, int), (int, int)) {
        (self.x@, self.y@)
    }
}

/// Componentwise value equality.
pub open spec fn v2eq(a: ((int, int), (int, int)), b: ((int, int), (int, int))) -> bool {
    feq(a.0, b.0) && feq(a.1, b.1)
}

/// The vector a checked operation hands back, if any.
pub open spec fn opt_vec2_view(r: Option<Vec2>) -> Option<((int, int), (int, int))> {
    match r {
        Some(v) => Some(v@),
        None => None,
    }
}

/// What the checked vector operations return, componentwise.
pub open spec fn spec_v2_add(a: ((int, int), (int, int)), b: ((int, int), (int, int))) -> Option<
    ((int, int), (int, int)),
> {
    match (spec_add_rat(a.0, b.0), spec_add_rat(a.1, b.1)) {
        (Some(x), Some(y)) => Some((x, y)),
        _ => None,
    }
}

pub open spec fn spec_v2_sub(a: ((int, int), (int, int)), b: ((int, int), (int, int))) -> Option<
    ((int, int), (int, int)),
> {
    match (spec_sub_rat(a.0, b.0), spec_sub_rat(a.1, b.1)) {
        (Some(x), Some(y)) => Some((x, y)),
        _ => None,
    }
}

pub open spec fn spec_v2_scale(a: ((int, int), (int, int)), k: (int, int)) -> Option<
    ((int, int), (int, int)),
> {
    match (spec_mul_rat(a.0, k), spec_mul_rat(a.1, k)) {
        (Some(x), Some(y)) => Some((x, y)),
        _ => None,
    }
}

pub open spec fn spec_v2_div(a: ((int, int), (int, int)), k: (int, int)) -> Option<
    ((int, int), (int, int)),
> {
    match (spec_div_rat(a.0, k), spec_div_rat(a.1, k)) {
        (Some(x), Some(y)) => Some((x, y)),
        _ => None,
    }
}

pub open spec fn spec_v2_dot(a: ((int, int), (int, int)), b: ((int, int), (int, int))) -> Option<
    (int, int),
> {
    match (spec_mul_rat(a.0, b.0), spec_mul_rat(a.1, b.1)) {
        (Some(p), Some(q)) => spec_add_rat(p, q),
        _ => None,
    }
}

impl Vec2 {
    /// The vector `(x, y)`.
    pub fn new(x: Rat, y: Rat) -> (r: Vec2)
        ensures
            r == (Vec2 { x, y }),
    {
        Vec2 { x, y }
    }

    /// Componentwise sum.
    pub fn checked_add(&self, rhs: &Vec2) -> (r: Option<Vec2>)
        ensures
            opt_vec2_view(r) == spec_v2_add(self@, rhs@),
    {
        match (self.x.checked_add(&rhs.x), self.y.checked_add(&rhs.y)) {
            (Some(x), Some(y)) => Some(Vec2 { x, y }),
            _ => None,
        }
    }

    /// Componentwise difference.
    pub fn checked_sub(&self, rhs: &Vec2) -> (r: Option<Vec2>)
        ensures
            opt_vec2_view(r) == spec_v2_sub(self@, rhs@),
    {
        match (self.x.checked_sub(&rhs.x), self.y.checked_sub(&rhs.y)) {
            (Some(x), Some(y)) => Some(Vec2 { x, y }),
            _ => None,
        }
    }

    /// The vector scaled by `k`.
    pub fn checked_scale(&self, k: &Rat) -> (r: Option<Vec2>)
        ensures
            opt_vec2_view(r) == spec_v2_scale(self@, k@),
    {
        match (self.x.checked_mul(k), self.y.checked_mul(k)) {
            (Some(x), Some(y)) => Some(Vec2 { x, y }),
            _ => None,
        }
    }

    /// The vector divided by the scalar `k`.
    pub fn checked_div_scalar(&self, k: &Rat) -> (r: Option<Vec2>)
        ensures
            opt_vec2_view(r) == spec_v2_div(self@, k@),
    {
        match (self.x.checked_div(k), self.y.checked_div(k)) {
            (Some(x), Some(y)) => Some(Vec2 { x, y }),
            _ => None,
        }
    }

    /// The dot product.
    pub fn dot(&self, rhs: &Vec2) -> (r: Option<Rat>)
        ensures
            opt_rat_view(r) == spec_v2_dot(self@, rhs@),
    {
        match (self.x.checked_mul(&rhs.x), self.y.checked_mul(&rhs.y)) {
            (Some(p), Some(q)) => p.checked_add(&q),
            _ => None,
        }
    }

    /// The squared Euclidean length.
    pub fn length_squared(&self) -> (r: Option<Rat>)
        ensures
            opt_rat_view(r) == spec_v2_dot(self@, self@),
    {
        self.dot(self)
    }
}

impl PartialEq for Vec2 {
    /// Exact componentwise value equality.
    fn eq(&self, other: &Vec2) -> (r: bool) {
        self.x == other.x && self.y == other.y
    }
}

impl vstd::std_specs::cmp::PartialEqSpecImpl for Vec2 {
    open spec fn obeys_eq_spec() -> bool {
        true
    }

    open spec fn eq_spec(&self, other: &Vec2) -> bool {
        v2eq(self@, other@)
    }
}

} // verus!
