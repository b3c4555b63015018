//! Impulse-based collision resolution.
//!
//! The impulse on a circle pair is `n * (-(1+e) * (rel_vel . n) / (im1+im2))`
//! for the unit normal `n = d / |d|`, where `d` is the center-to-center
//! vector.  The normal enters that product twice, so `|d|` only appears
//! squared and the square root cancels: the whole velocity update is the
//! exact rational `d * (-(1+e) * (rel_vel . d) / (|d|^2 * (im1+im2)))`, which
//! is how it is computed here.  Only the positional correction needs the
//! square-root floor.

use crate::algebra::{
    min, spec_v2_add, spec_v2_div, spec_v2_dot, spec_v2_scale, spec_v2_sub, Vec2,
};
use crate::detection_narrow_phase::{spec_delta, spec_min_dist};
use crate::rational::{
    feq, flt, opt_rat_view, spec_add_rat, spec_div_rat, spec_mul_rat, spec_neg_rat,
    spec_sqrt_floor, spec_sub_rat, Rat,
};
use crate::shapes::{mass_view, spec_inverse_mass, Circle, Orientation, Rectangle, Wall};
use crate::EngineError;
use vstd::prelude::*;

verus! {

/// The post-resolution state of one body: everything else is untouched.
pub ghost struct BodyUpdate {
    pub position: ((int, int), (int, int)),
    pub velocity: ((int, int), (int, int)),
}

/// `c2` is `c` after the update `u`: same material, radius, mass and
/// acceleration, and the updated position and velocity.
pub open spec fn circle_with_update(c: Circle, u: BodyUpdate, c2: Circle) -> bool {
    &&& c2.material == c.material
    &&& c2.radius == c.radius
    &&& c2.rigid_body.mass == c.rigid_body.mass
    &&& c2.rigid_body.acceleration == c.rigid_body.acceleration
    &&& c2.rigid_body.position@ == u.position
    &&& c2.rigid_body.velocity@ == u.velocity
}

/// The body's current position and velocity, unchanged.
pub open spec fn spec_unchanged(c: Circle) -> BodyUpdate {
    BodyUpdate { position: c.rigid_body.position@, velocity: c.rigid_body.velocity@ }
}

/// The impulse and positional-correction tail of circle–circle resolution,
/// once the pair is known to overlap, approach, and have at least one movable
/// body.
pub open spec fn spec_apply_impulse(
    c1: Circle,
    c2: Circle,
    m: (int, int),
    d: ((int, int), (int, int)),
    ds: (int, int),
    e: (int, int),
    im1: (int, int),
    im2: (int, int),
    s: (int, int),
    u: (int, int),
) -> Result<(BodyUpdate, BodyUpdate), EngineError> {
    match spec_add_rat((1int, 1int), e) {
        Some(ope) => match spec_mul_rat(ope, u) {
            Some(t) => match spec_neg_rat(t) {
                Some(tn) => match spec_mul_rat(ds, s) {
                    Some(den) => match spec_div_rat(tn, den) {
                        Some(g) => match spec_v2_scale(d, g) {
                            Some(jv) => match (spec_v2_scale(jv, im1), spec_v2_scale(jv, im2)) {
                                (Some(j1), Some(j2)) => match (
                                    spec_v2_sub(c1.rigid_body.velocity@, j1),
                                    spec_v2_add(c2.rigid_body.velocity@, j2),
                                ) {
                                    (Some(v1n), Some(v2n)) => spec_position_correction(
                                        c1,
                                        c2,
                                        m,
                                        d,
                                        ds,
                                        im1,
                                        im2,
                                        s,
                                        v1n,
                                        v2n,
                                    ),
                                    _ => Err(EngineError::OutOfRange),
                                },
                                _ => Err(EngineError::OutOfRange),
                            },
                            None => Err(EngineError::OutOfRange),
                        },
                        None => Err(EngineError::OutOfRange),
                    },
                    None => Err(EngineError::OutOfRange),
                },
                None => Err(EngineError::OutOfRange),
            },
            None => Err(EngineError::OutOfRange),
        },
        None => Err(EngineError::OutOfRange),
    }
}

/// Baumgarte-style positional correction: while the penetration exceeds the
/// slop `1/100`, push the bodies apart along the approximate unit normal by
/// a fifth of the penetration, split by inverse mass.
pub open spec fn spec_position_correction(
    c1: Circle,
    c2: Circle,
    m: (int, int),
    d: ((int, int), (int, int)),
    ds: (int, int),
    im1: (int, int),
    im2: (int, int),
    s: (int, int),
    v1n: ((int, int), (int, int)),
    v2n: ((int, int), (int, int)),
) -> Result<(BodyUpdate, BodyUpdate), EngineError> {
    let root = spec_sqrt_floor(ds);
    match spec_sub_rat(m, root) {
        Some(pen) => if flt((1int, 100int), pen) {
            match spec_div_rat(pen, s) {
                Some(q1) => match spec_mul_rat(q1, (1int, 5int)) {
                    Some(q2) => match spec_v2_div(d, root) {
                        Some(nrm) => match spec_v2_scale(nrm, q2) {
                            Some(corr) => match (
                                spec_v2_scale(corr, im1),
                                spec_v2_scale(corr, im2),
                            ) {
                                (Some(cr1), Some(cr2)) => match (
                                    spec_v2_sub(c1.rigid_body.position@, cr1),
                                    spec_v2_add(c2.rigid_body.position@, cr2),
                                ) {
                                    (Some(p1n), Some(p2n)) => Ok(
                                        (
                                            BodyUpdate { position: p1n, velocity: v1n },
                                            BodyUpdate { position: p2n, velocity: v2n },
                                        ),
                                    ),
                                    _ => Err(EngineError::OutOfRange),
                                },
                                _ => Err(EngineError::OutOfRange),
                            },
                            None => Err(EngineError::OutOfRange),
                        },
                        None => Err(EngineError::OutOfRange),
                    },
                    None => Err(EngineError::OutOfRange),
                },
                None => Err(EngineError::OutOfRange),
            }
        } else {
            Ok(
                (
                    BodyUpdate { position: c1.rigid_body.position@, velocity: v1n },
                    BodyUpdate { position: c2.rigid_body.position@, velocity: v2n },
                ),
            )
        },
        None => Err(EngineError::OutOfRange),
    }
}

/// What circle–circle resolution does, at the fraction level: nothing for
/// separated or tangent circles, nothing for a pair receding along the
/// normal, nothing when both bodies are immovable; otherwise the exact
/// impulse and, past the slop, the positional correction.
pub open spec fn spec_resolve_circles(c1: Circle, c2: Circle) -> Result<
    (BodyUpdate, BodyUpdate),
    EngineError,
> {
    match (spec_min_dist(c1, c2), spec_delta(c1, c2)) {
        (Some(m), Some(d)) => match (spec_mul_rat(m, m), spec_v2_dot(d, d)) {
            (Some(m2), Some(ds)) => if !flt(ds, m2) {
                Ok((spec_unchanged(c1), spec_unchanged(c2)))
            } else if feq(ds, (0int, 1int)) {
                Err(EngineError::DegenerateGeometry)
            } else {
                let e = if flt(c1.material.restitution@, c2.material.restitution@) {
                    c1.material.restitution@
                } else {
                    c2.material.restitution@
                };
                match spec_v2_sub(c2.rigid_body.velocity@, c1.rigid_body.velocity@) {
                    Some(rel) => match spec_v2_dot(rel, d) {
                        Some(u) => if flt((0int, 1int), u) {
                            Ok((spec_unchanged(c1), spec_unchanged(c2)))
                        } else {
                            match (
                                spec_inverse_mass(mass_view(c1.rigid_body.mass)),
                                spec_inverse_mass(mass_view(c2.rigid_body.mass)),
                            ) {
                                (Ok(im1), Ok(im2)) => match spec_add_rat(im1, im2) {
                                    Some(s) => if feq(s, (0int, 1int)) {
                                        Ok((spec_unchanged(c1), spec_unchanged(c2)))
                                    } else {
                                        spec_apply_impulse(c1, c2, m, d, ds, e, im1, im2, s, u)
                                    },
                                    None => Err(EngineError::OutOfRange),
                                },
                                (Err(e1), _) => Err(e1),
                                (_, Err(e2)) => Err(e2),
                            }
                        },
                        None => Err(EngineError::OutOfRange),
                    },
                    None => Err(EngineError::OutOfRange),
                }
            },
            _ => Err(EngineError::OutOfRange),
        },
        _ => Err(EngineError::OutOfRange),
    }
}

/// Resolve a confirmed or absent overlap between two circles: velocities get
/// the exact impulse response, positions the partial correction; on any
/// error, neither circle is touched.
pub fn collide_circle_and_circle(c1: &mut Circle, c2: &mut Circle) -> (r: Result<
    (),
    EngineError,
>)
    ensures
        match spec_resolve_circles(*old(c1), *old(c2)) {
            Ok((u1, u2)) => {
                &&& r == Ok::<(), EngineError>(())
                &&& final(c1).rigid_body.position@ == u1.position
                &&& final(c1).rigid_body.velocity@ == u1.velocity
                &&& final(c2).rigid_body.position@ == u2.position
                &&& final(c2).rigid_body.velocity@ == u2.velocity
                &&& final(c1).material == old(c1).material
                &&& final(c2).material == old(c2).material
                &&& final(c1).radius == old(c1).radius
                &&& final(c2).radius == old(c2).radius
                &&& final(c1).rigid_body.mass == old(c1).rigid_body.mass
                &&& final(c2).rigid_body.mass == old(c2).rigid_body.mass
                &&& final(c1).rigid_body.acceleration == old(c1).rigid_body.acceleration
                &&& final(c2).rigid_body.acceleration == old(c2).rigid_body.acceleration
            },
            Err(e) => r == Err::<(), EngineError>(e) && *final(c1) == *old(c1) && *final(c2) == *old(
                c2,
            ),
        },
{
    let m = match c1.radius.checked_add(&c2.radius) {
        Some(m) => m,
        None => {
            return Err(EngineError::OutOfRange);
        },
    };
    let d = match c2.rigid_body.position.checked_sub(&c1.rigid_body.position) {
        Some(d) => d,
        None => {
            return Err(EngineError::OutOfRange);
        },
    };
    let m2 = match m.checked_mul(&m) {
        Some(m2) => m2,
        None => {
            return Err(EngineError::OutOfRange);
        },
    };
    let ds = match d.length_squared() {
        Some(ds) => ds,
        None => {
            return Err(EngineError::OutOfRange);
        },
    };
    if !ds.lt(&m2) {
        return Ok(());
    }
    if ds.is_zero() {
        return Err(EngineError::DegenerateGeometry);
    }
    let e = min(c1.material.restitution, c2.material.restitution);
    let rel = match c2.rigid_body.velocity.checked_sub(&c1.rigid_body.velocity) {
        Some(rel) => rel,
        None => {
            return Err(EngineError::OutOfRange);
        },
    };
    let u = match rel.dot(&d) {
        Some(u) => u,
        None => {
            return Err(EngineError::OutOfRange);
        },
    };
    if u.is_positive() {
        return Ok(());
    }
    let im1 = match c1.rigid_body.inverse_mass() {
        Ok(v) => v,
        Err(err) => {
            return Err(err);
        },
    };
    let im2 = match c2.rigid_body.inverse_mass() {
        Ok(v) => v,
        Err(err) => {
            return Err(err);
        },
    };
    let s = match im1.checked_add(&im2) {
        Some(s) => s,
        None => {
            return Err(EngineError::OutOfRange);
        },
    };
    if s.is_zero() {
        return Ok(());
    }
    let ope = match Rat::from_int(1).checked_add(&e) {
        Some(v) => v,
        None => {
            return Err(EngineError::OutOfRange);
        },
    };
    let t = match ope.checked_mul(&u) {
        Some(v) => v,
        None => {
            return Err(EngineError::OutOfRange);
        },
    };
    let tn = match t.checked_neg() {
        Some(v) => v,
        None => {
            return Err(EngineError::OutOfRange);
        },
    };
    let den = match ds.checked_mul(&s) {
        Some(v) => v,
        None => {
            return Err(EngineError::OutOfRange);
        },
    };
    let g = match tn.checked_div(&den) {
        Some(v) => v,
        None => {
            return Err(EngineError::OutOfRange);
        },
    };
    let jv = match d.checked_scale(&g) {
        Some(v) => v,
        None => {
            return Err(EngineError::OutOfRange);
        },
    };
    let j1 = match jv.checked_scale(&im1) {
        Some(v) => v,
        None => {
            return Err(EngineError::OutOfRange);
        },
    };
    let j2 = match jv.checked_scale(&im2) {
        Some(v) => v,
        None => {
            return Err(EngineError::OutOfRange);
        },
    };
    let v1n = match c1.rigid_body.velocity.checked_sub(&j1) {
        Some(v) => v,
        None => {
            return Err(EngineError::OutOfRange);
        },
    };
    let v2n = match c2.rigid_body.velocity.checked_add(&j2) {
        Some(v) => v,
        None => {
            return Err(EngineError::OutOfRange);
        },
    };
    // Positional correction past the slop, along the approximate unit normal.
    proof {
        lemma_resolve_ds_nonneg(d, ds);
    }
    let root = ds.sqrt_floor();
    let pen = match m.checked_sub(&root) {
        Some(v) => v,
        None => {
            return Err(EngineError::OutOfRange);
        },
    };
    let slop = Rat::from_parts(1, 100);
    if slop.lt(&pen) {
        let q1 = match pen.checked_div(&s) {
            Some(v) => v,
            None => {
                return Err(EngineError::OutOfRange);
            },
        };
        let q2 = match q1.checked_mul(&Rat::from_parts(1, 5)) {
            Some(v) => v,
            None => {
                return Err(EngineError::OutOfRange);
            },
        };
        let nrm = match d.checked_div_scalar(&root) {
            Some(v) => v,
            None => {
                return Err(EngineError::OutOfRange);
            },
        };
        let corr = match nrm.checked_scale(&q2) {
            Some(v) => v,
            None => {
                return Err(EngineError::OutOfRange);
            },
        };
        let cr1 = match corr.checked_scale(&im1) {
            Some(v) => v,
            None => {
                return Err(EngineError::OutOfRange);
            },
        };
        let cr2 = match corr.checked_scale(&im2) {
            Some(v) => v,
            None => {
                return Err(EngineError::OutOfRange);
            },
        };
        let p1n = match c1.rigid_body.position.checked_sub(&cr1) {
            Some(v) => v,
            None => {
                return Err(EngineError::OutOfRange);
            },
        };
        let p2n = match c2.rigid_body.position.checked_add(&cr2) {
            Some(v) => v,
            None => {
                return Err(EngineError::OutOfRange);
            },
        };
        c1.rigid_body.velocity = v1n;
        c2.rigid_body.velocity = v2n;
        c1.rigid_body.position = p1n;
        c2.rigid_body.position = p2n;
        Ok(())
    } else {
        c1.rigid_body.velocity = v1n;
        c2.rigid_body.velocity = v2n;
        Ok(())
    }
}

/// The squared distance computed inside the resolver is non-negative.
proof fn lemma_resolve_ds_nonneg(d: Vec2, ds: Rat)
    requires
        opt_rat_view(Some(ds)) == spec_v2_dot(d@, d@),
    ensures
        ds@.0 >= 0,
{
    crate::rational::lemma_rat_wf(d.x);
    crate::rational::lemma_rat_wf(d.y);
    crate::rational::lemma_rat_wf(ds);
    crate::rational::lemma_fops_wf(d.x@, d.x@);
    crate::rational::lemma_fops_wf(d.y@, d.y@);
    let p = crate::rational::freduce(crate::rational::fmul(d.x@, d.x@));
    let q = crate::rational::freduce(crate::rational::fmul(d.y@, d.y@));
    crate::rational::lemma_norm_value(crate::rational::fmul(d.x@, d.x@));
    crate::rational::lemma_norm_value(crate::rational::fmul(d.y@, d.y@));
    crate::rational::lemma_fops_wf(p, q);
    crate::rational::lemma_norm_value(crate::rational::fadd(p, q));
    assert(feq(p, crate::rational::fmul(d.x@, d.x@))
        && crate::detection_narrow_phase::fwf_one(d.x@));
    assert(feq(q, crate::rational::fmul(d.y@, d.y@))
        && crate::detection_narrow_phase::fwf_one(d.y@));
    crate::detection_narrow_phase::lemma_dot_self_nonneg(p, q, ds@);
}

/// Circle–rectangle resolution is intentionally unsupported and fails loudly
/// rather than pretending there is no overlap.
pub fn collide_circle_and_rectangle(circle: &mut Circle, rect: &mut Rectangle) -> (r: Result<
    (),
    EngineError,
>)
    ensures
        r == Err::<(), EngineError>(EngineError::Unsupported),
        *final(circle) == *old(circle),
        *final(rect) == *old(rect),
{
    Err(EngineError::Unsupported)
}

/// Rectangle–rectangle resolution is intentionally unsupported and fails
/// loudly rather than pretending there is no overlap.
pub fn collide_rectangle_and_rectange(rect1: &mut Rectangle, rect2: &mut Rectangle) -> (r: Result<
    (),
    EngineError,
>)
    ensures
        r == Err::<(), EngineError>(EngineError::Unsupported),
        *final(rect1) == *old(rect1),
        *final(rect2) == *old(rect2),
{
    Err(EngineError::Unsupported)
}

/// Wall–rectangle resolution is intentionally unsupported and fails loudly
/// rather than pretending there is no overlap.
pub fn collide_wall_and_rectangle(wall: &Wall, rect: &mut Rectangle) -> (r: Result<
    (),
    EngineError,
>)
    ensures
        r == Err::<(), EngineError>(EngineError::Unsupported),
        *final(rect) == *old(rect),
{
    let _ = wall;
    Err(EngineError::Unsupported)
}

/// What wall–circle resolution does, at the fraction level: when the
/// circle's extent has crossed the wall's boundary, clamp the position so
/// the circle sits exactly on the boundary and reflect the velocity
/// component along the wall's normal, scaled by the smaller restitution;
/// otherwise nothing.
pub open spec fn spec_resolve_wall_circle(w: Wall, c: Circle) -> Result<BodyUpdate, EngineError> {
    let e = if flt(c.material.restitution@, w.material.restitution@) {
        c.material.restitution@
    } else {
        w.material.restitution@
    };
    match w.orientation {
        Orientation::Left => match crate::shapes::spec_bound_left(c) {
            Some(bl) => if flt(bl, w.bound@) {
                match (spec_add_rat(w.bound@, c.radius@), spec_neg_rat(e)) {
                    (Some(px), Some(ne)) => match spec_mul_rat(ne, c.rigid_body.velocity.x@) {
                        Some(vx) => Ok(
                            BodyUpdate {
                                position: (px, c.rigid_body.position.y@),
                                velocity: (vx, c.rigid_body.velocity.y@),
                            },
                        ),
                        None => Err(EngineError::OutOfRange),
                    },
                    _ => Err(EngineError::OutOfRange),
                }
            } else {
                Ok(spec_unchanged(c))
            },
            None => Err(EngineError::OutOfRange),
        },
        Orientation::Top => match crate::shapes::spec_bound_top(c) {
            Some(bt) => if flt(w.bound@, bt) {
                match (spec_sub_rat(w.bound@, c.radius@), spec_neg_rat(e)) {
                    (Some(py), Some(ne)) => match spec_mul_rat(ne, c.rigid_body.velocity.y@) {
                        Some(vy) => Ok(
                            BodyUpdate {
                                position: (c.rigid_body.position.x@, py),
                                velocity: (c.rigid_body.velocity.x@, vy),
                            },
                        ),
                        None => Err(EngineError::OutOfRange),
                    },
                    _ => Err(EngineError::OutOfRange),
                }
            } else {
                Ok(spec_unchanged(c))
            },
            None => Err(EngineError::OutOfRange),
        },
        Orientation::Right => match crate::shapes::spec_bound_right(c) {
            Some(br) => if flt(w.bound@, br) {
                match (spec_sub_rat(w.bound@, c.radius@), spec_neg_rat(e)) {
                    (Some(px), Some(ne)) => match spec_mul_rat(ne, c.rigid_body.velocity.x@) {
                        Some(vx) => Ok(
                            BodyUpdate {
                                position: (px, c.rigid_body.position.y@),
                                velocity: (vx, c.rigid_body.velocity.y@),
                            },
                        ),
                        None => Err(EngineError::OutOfRange),
                    },
                    _ => Err(EngineError::OutOfRange),
                }
            } else {
                Ok(spec_unchanged(c))
            },
            None => Err(EngineError::OutOfRange),
        },
        Orientation::Bottom => match crate::shapes::spec_bound_bottom(c) {
            Some(bb) => if flt(bb, w.bound@) {
                match (spec_add_rat(w.bound@, c.radius@), spec_neg_rat(e)) {
                    (Some(py), Some(ne)) => match spec_mul_rat(ne, c.rigid_body.velocity.y@) {
                        Some(vy) => Ok(
                            BodyUpdate {
                                position: (c.rigid_body.position.x@, py),
                                velocity: (c.rigid_body.velocity.x@, vy),
                            },
                        ),
                        None => Err(EngineError::OutOfRange),
                    },
                    _ => Err(EngineError::OutOfRange),
                }
            } else {
                Ok(spec_unchanged(c))
            },
            None => Err(EngineError::OutOfRange),
        },
    }
}

/// Resolve a circle against a static boundary wall: clamp the crossed extent
/// back onto the boundary and reflect the normal velocity component, scaled
/// by the smaller restitution; on any error the circle is not touched.
pub fn collide_wall_and_circle(wall: &Wall, circle: &mut Circle) -> (r: Result<(), EngineError>)
    ensures
        match spec_resolve_wall_circle(*wall, *old(circle)) {
            Ok(u) => {
                &&& r == Ok::<(), EngineError>(())
                &&& final(circle).rigid_body.position@ == u.position
                &&& final(circle).rigid_body.velocity@ == u.velocity
                &&& final(circle).material == old(circle).material
                &&& final(circle).radius == old(circle).radius
                &&& final(circle).rigid_body.mass == old(circle).rigid_body.mass
                &&& final(circle).rigid_body.acceleration == old(circle).rigid_body.acceleration
            },
            Err(e) => r == Err::<(), EngineError>(e) && *final(circle) == *old(circle),
        },
{
    let e = min(circle.material.restitution, wall.material.restitution);
    match wall.orientation {
        Orientation::Left => {
            let bl = match circle.bound_left() {
                Some(v) => v,
                None => {
                    return Err(EngineError::OutOfRange);
                },
            };
            if bl.lt(&wall.bound) {
                let px = match wall.bound.checked_add(&circle.radius) {
                    Some(v) => v,
                    None => {
                        return Err(EngineError::OutOfRange);
                    },
                };
                let ne = match e.checked_neg() {
                    Some(v) => v,
                    None => {
                        return Err(EngineError::OutOfRange);
                    },
                };
                let vx = match ne.checked_mul(&circle.rigid_body.velocity.x) {
                    Some(v) => v,
                    None => {
                        return Err(EngineError::OutOfRange);
                    },
                };
                circle.rigid_body.position.x = px;
                circle.rigid_body.velocity.x = vx;
            }
            Ok(())
        },
        Orientation::Top => {
            let bt = match circle.bound_top() {
                Some(v) => v,
                None => {
                    return Err(EngineError::OutOfRange);
                },
            };
            if wall.bound.lt(&bt) {
                let py = match wall.bound.checked_sub(&circle.radius) {
                    Some(v) => v,
                    None => {
                        return Err(EngineError::OutOfRange);
                    },
                };
                let ne = match e.checked_neg() {
                    Some(v) => v,
                    None => {
                        return Err(EngineError::OutOfRange);
                    },
                };
                let vy = match ne.checked_mul(&circle.rigid_body.velocity.y) {
                    Some(v) => v,
                    None => {
                        return Err(EngineError::OutOfRange);
                    },
                };
                circle.rigid_body.position.y = py;
                circle.rigid_body.velocity.y = vy;
            }
            Ok(())
        },
        Orientation::Right => {
            let br = match circle.bound_right() {
                Some(v) => v,
                None => {
                    return Err(EngineError::OutOfRange);
                },
            };
            if wall.bound.lt(&br) {
                let px = match wall.bound.checked_sub(&circle.radius) {
                    Some(v) => v,
                    None => {
                        return Err(EngineError::OutOfRange);
                    },
                };
                let ne = match e.checked_neg() {
                    Some(v) => v,
                    None => {
                        return Err(EngineError::OutOfRange);
                    },
                };
                let vx = match ne.checked_mul(&circle.rigid_body.velocity.x) {
                    Some(v) => v,
                    None => {
                        return Err(EngineError::OutOfRange);
                    },
                };
                circle.rigid_body.position.x = px;
                circle.rigid_body.velocity.x = vx;
            }
            Ok(())
        },
        Orientation::Bottom => {
            let bb = match circle.bound_bottom() {
                Some(v) => v,
                None => {
                    return Err(EngineError::OutOfRange);
                },
            };
            if bb.lt(&wall.bound) {
                let py = match wall.bound.checked_add(&circle.radius) {
                    Some(v) => v,
                    None => {
                        return Err(EngineError::OutOfRange);
                    },
                };
                let ne = match e.checked_neg() {
                    Some(v) => v,
                    None => {
                        return Err(EngineError::OutOfRange);
                    },
                };
                let vy = match ne.checked_mul(&circle.rigid_body.velocity.y) {
                    Some(v) => v,
                    None => {
                        return Err(EngineError::OutOfRange);
                    },
                };
                circle.rigid_body.position.y = py;
                circle.rigid_body.velocity.y = vy;
            }
            Ok(())
        },
    }
}

} // verus!
