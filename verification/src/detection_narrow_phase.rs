//! Narrow phase: exact circle–circle overlap detection.

use crate::algebra::{spec_v2_div, spec_v2_dot, spec_v2_sub, Vec2};
use crate::rational::{feq, flt, spec_add_rat, spec_mul_rat, spec_sqrt_floor, spec_sub_rat, Rat};
use crate::shapes::Circle;
use crate::EngineError;
use vstd::prelude::*;

verus! {

/// A confirmed overlap: how deep, and along which direction (a normal of
/// unit length up to the square-root granularity of one millionth, pointing
/// from the first circle toward the second).
#[derive(Clone, Copy, Debug)]
pub struct CollisionInfo {
    pub penetration: Rat,
    pub normal: Vec2,
}

/// The sum of the two radii, reduced.
pub open spec fn spec_min_dist(c1: Circle, c2: Circle) -> Option<(int, int)> {
    spec_add_rat(c1.radius@, c2.radius@)
}

/// The center-to-center vector, from the first circle toward the second.
pub open spec fn spec_delta(c1: Circle, c2: Circle) -> Option<((int, int), (int, int))> {
    spec_v2_sub(c2.rigid_body.position@, c1.rigid_body.position@)
}

/// What detection returns, at the fraction level: `Ok(None)` for separated or
/// exactly tangent circles (tangency is not a collision: zero penetration
/// needs no corrective force), the penetration depth and normal on strict
/// overlap, an error for coincident centers or an unrepresentable
/// intermediate.
pub open spec fn spec_detect(c1: Circle, c2: Circle) -> Result<
    Option<((int, int), ((int, int), (int, int)))>,
    EngineError,
> {
    match (spec_min_dist(c1, c2), spec_delta(c1, c2)) {
        (Some(m), Some(d)) => match (spec_mul_rat(m, m), spec_v2_dot(d, d)) {
            (Some(m2), Some(ds)) => if !flt(ds, m2) {
                Ok(None)
            } else if feq(ds, (0int, 1int)) {
                Err(EngineError::DegenerateGeometry)
            } else {
                let root = spec_sqrt_floor(ds);
                match spec_sub_rat(m, root) {
                    Some(pen) => match spec_v2_div(d, root) {
                        Some(n) => Ok(Some((pen, n))),
                        None => Err(EngineError::OutOfRange),
                    },
                    None => Err(EngineError::OutOfRange),
                }
            },
            _ => Err(EngineError::OutOfRange),
        },
        _ => Err(EngineError::OutOfRange),
    }
}

/// A detection result, at the fraction level.
pub open spec fn detect_result_view(r: Result<Option<CollisionInfo>, EngineError>) -> Result<
    Option<((int, int), ((int, int), (int, int)))>,
    EngineError,
> {
    match r {
        Ok(None) => Ok(None),
        Ok(Some(info)) => Ok(Some((info.penetration@, info.normal@))),
        Err(e) => Err(e),
    }
}

/// A dot product of a well-formed vector with itself is non-negative.
pub proof fn lemma_dot_self_nonneg(p: (int, int), q: (int, int), r: (int, int))
    requires
        fwf_pair(p, q),
        fwf_one(r),
        feq(r, crate::rational::fadd(p, q)),
        exists|a: (int, int)| feq(p, crate::rational::fmul(a, a)) && fwf_one(a),
        exists|b: (int, int)| feq(q, crate::rational::fmul(b, b)) && fwf_one(b),
    ensures
        r.0 >= 0,
{
    let a = choose|a: (int, int)| feq(p, crate::rational::fmul(a, a)) && fwf_one(a);
    let b = choose|b: (int, int)| feq(q, crate::rational::fmul(b, b)) && fwf_one(b);
    assert(p.0 >= 0) by (nonlinear_arith)
        requires
            p.0 * (a.1 * a.1) == (a.0 * a.0) * p.1,
            p.1 > 0,
            a.1 > 0,
    ;
    assert(q.0 >= 0) by (nonlinear_arith)
        requires
            q.0 * (b.1 * b.1) == (b.0 * b.0) * q.1,
            q.1 > 0,
            b.1 > 0,
    ;
    assert(r.0 * (p.1 * q.1) == (p.0 * q.1 + q.0 * p.1) * r.1);
    assert(r.0 >= 0) by (nonlinear_arith)
        requires
            r.0 * (p.1 * q.1) == (p.0 * q.1 + q.0 * p.1) * r.1,
            p.0 >= 0,
            q.0 >= 0,
            p.1 > 0,
            q.1 > 0,
            r.1 > 0,
    ;
}

/// Both fractions are well-formed.
pub open spec fn fwf_pair(p: (int, int), q: (int, int)) -> bool {
    p.1 > 0 && q.1 > 0
}

/// One fraction is well-formed.
pub open spec fn fwf_one(a: (int, int)) -> bool {
    a.1 > 0
}

/// Exact circle–circle detection: `Ok(None)` when separated or tangent,
/// otherwise the penetration depth and contact normal.
pub fn detect_collision_circle_and_circle(c1: &Circle, c2: &Circle) -> (r: Result<
    Option<CollisionInfo>,
    EngineError,
>)
    ensures
        detect_result_view(r) == spec_detect(*c1, *c2),
{
    let m = match c1.radius.checked_add(&c2.radius) {
        Some(m) => m,
        None => {
            return Err(EngineError::OutOfRange);
        },
    };
    let d = match c2.rigid_body.position.checked_sub(&c1.rigid_body.position) {
        Some(d) => d,
        None => {
            return Err(EngineError::OutOfRange);
        },
    };
    let m2 = match m.checked_mul(&m) {
        Some(m2) => m2,
        None => {
            return Err(EngineError::OutOfRange);
        },
    };
    let p = match d.x.checked_mul(&d.x) {
        Some(p) => p,
        None => {
            return Err(EngineError::OutOfRange);
        },
    };
    let q = match d.y.checked_mul(&d.y) {
        Some(q) => q,
        None => {
            return Err(EngineError::OutOfRange);
        },
    };
    let ds = match p.checked_add(&q) {
        Some(ds) => ds,
        None => {
            return Err(EngineError::OutOfRange);
        },
    };
    if !ds.lt(&m2) {
        return Ok(None);
    }
    if ds.is_zero() {
        return Err(EngineError::DegenerateGeometry);
    }
    proof {
        crate::rational::lemma_rat_wf(d.x);
        crate::rational::lemma_rat_wf(d.y);
        crate::rational::lemma_rat_wf(p);
        crate::rational::lemma_rat_wf(q);
        crate::rational::lemma_rat_wf(ds);
        crate::rational::lemma_fops_wf(d.x@, d.x@);
        crate::rational::lemma_fops_wf(d.y@, d.y@);
        crate::rational::lemma_norm_value(crate::rational::fmul(d.x@, d.x@));
        crate::rational::lemma_norm_value(crate::rational::fmul(d.y@, d.y@));
        crate::rational::lemma_fops_wf(p@, q@);
        crate::rational::lemma_norm_value(crate::rational::fadd(p@, q@));
        assert(feq(p@, crate::rational::fmul(d.x@, d.x@)) && fwf_one(d.x@));
        assert(feq(q@, crate::rational::fmul(d.y@, d.y@)) && fwf_one(d.y@));
        lemma_dot_self_nonneg(p@, q@, ds@);
    }
    let root = ds.sqrt_floor();
    let pen = match m.checked_sub(&root) {
        Some(pen) => pen,
        None => {
            return Err(EngineError::OutOfRange);
        },
    };
    let normal = match d.checked_div_scalar(&root) {
        Some(n) => n,
        None => {
            return Err(EngineError::OutOfRange);
        },
    };
    Ok(Some(CollisionInfo { penetration: pen, normal }))
}

} // verus!
