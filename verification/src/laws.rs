//! The engine's physical laws, proved once and for all against the
//! resolution and detection specifications.

use crate::collide_calculation::{
    circle_with_update, spec_resolve_circles, spec_resolve_wall_circle, spec_unchanged, BodyUpdate,
};
use crate::detection_narrow_phase::{spec_delta, spec_detect, spec_min_dist};
use crate::rational::{
    fadd, fdiv, feq, flt, fmul, fneg, fsub, fwf, is_isqrt, lemma_fadd_assoc, lemma_fadd_cong,
    spec_sqrt_floor, sqrt_scale,
    lemma_fadd_pos, lemma_fadd_sub_inverse, lemma_fadd_zero, lemma_feq_trans, lemma_flt_cong,
    lemma_fmul_assoc, lemma_fmul_cancel, lemma_fmul_cong, lemma_fmul_one, lemma_fneg_cong,
    lemma_fops_wf, lemma_fsub_add_inverse, lemma_isqrt_exists, lemma_norm_value, lemma_rat_wf,
    norm, spec_add_rat, spec_div_rat, spec_mul_rat, spec_neg_rat, spec_sub_rat,
};
use crate::shapes::{mass_view, spec_inverse_mass, Circle, Mass, Orientation, Wall};
use crate::EngineError;
use vstd::prelude::*;

verus! {

/// The total momentum of two bodies along one axis.
pub open spec fn fmomentum(m1: (int, int), v1: (int, int), m2: (int, int), v2: (int, int)) -> (
    int,
    int,
) {
    fadd(fmul(m1, v1), fmul(m2, v2))
}

/// Momentum bookkeeping for one axis: applying opposite impulses scaled by
/// each body's inverse mass leaves `m1*v1 + m2*v2` unchanged.
proof fn lemma_momentum_component(
    m1: (int, int),
    im1: (int, int),
    m2: (int, int),
    im2: (int, int),
    v1: (int, int),
    v2: (int, int),
    jx: (int, int),
    j1: (int, int),
    j2: (int, int),
    v1n: (int, int),
    v2n: (int, int),
)
    requires
        fwf(m1),
        fwf(im1),
        fwf(m2),
        fwf(im2),
        fwf(v1),
        fwf(v2),
        fwf(jx),
        fwf(j1),
        fwf(j2),
        fwf(v1n),
        fwf(v2n),
        feq(fmul(m1, im1), (1int, 1int)),
        feq(fmul(m2, im2), (1int, 1int)),
        feq(j1, fmul(jx, im1)),
        feq(j2, fmul(jx, im2)),
        feq(v1n, fsub(v1, j1)),
        feq(v2n, fadd(v2, j2)),
    ensures
        feq(fmomentum(m1, v1n, m2, v2n), fmomentum(m1, v1, m2, v2)),
{
    lemma_fops_wf(m1, im1);
    lemma_fops_wf(m2, im2);
    lemma_fops_wf(jx, im1);
    lemma_fops_wf(jx, im2);
    lemma_fops_wf(jx, fmul(m1, im1));
    lemma_fops_wf(jx, fmul(m2, im2));
    lemma_fops_wf(m1, fmul(jx, im1));
    lemma_fops_wf(m2, fmul(jx, im2));
    lemma_fops_wf(v1, j1);
    lemma_fops_wf(v2, j2);
    lemma_fops_wf(m1, fsub(v1, j1));
    lemma_fops_wf(m2, fadd(v2, j2));
    lemma_fops_wf(m1, j1);
    lemma_fops_wf(m2, j2);
    lemma_fops_wf(m1, v1);
    lemma_fops_wf(m2, v2);
    lemma_fops_wf(m1, v1n);
    lemma_fops_wf(m2, v2n);
    lemma_fops_wf(v1, j1);
    lemma_fops_wf(v2, j2);
    // m1 * j1 has the value of jx (the inverse mass cancels against the mass)
    lemma_fmul_cong(m1, m1, j1, fmul(jx, im1));
    lemma_fmul_assoc(m1, jx, im1);
    lemma_fmul_assoc(jx, m1, im1);
    assert(fmul(m1, fmul(jx, im1)) == fmul(jx, fmul(m1, im1)));
    lemma_fmul_one(jx, fmul(m1, im1));
    lemma_feq_trans(fmul(m1, j1), fmul(m1, fmul(jx, im1)), fmul(jx, fmul(m1, im1)));
    lemma_feq_trans(fmul(m1, j1), fmul(jx, fmul(m1, im1)), jx);
    // likewise m2 * j2
    lemma_fmul_cong(m2, m2, j2, fmul(jx, im2));
    lemma_fmul_assoc(m2, jx, im2);
    lemma_fmul_assoc(jx, m2, im2);
    assert(fmul(m2, fmul(jx, im2)) == fmul(jx, fmul(m2, im2)));
    lemma_fmul_one(jx, fmul(m2, im2));
    lemma_feq_trans(fmul(m2, j2), fmul(m2, fmul(jx, im2)), fmul(jx, fmul(m2, im2)));
    lemma_feq_trans(fmul(m2, j2), fmul(jx, fmul(m2, im2)), jx);
    // m1 * v1n has the value of m1*v1 - jx
    let f1 = fmul(m1, v1);
    let f2 = fmul(m2, v2);
    lemma_fops_wf(v1, j1);
    lemma_fops_wf(v2, j2);
    lemma_fmul_cong(m1, m1, v1n, fsub(v1, j1));
    crate::rational::lemma_fmul_distrib(m1, v1, j1);
    lemma_fops_wf(fmul(m1, v1), fmul(m1, j1));
    lemma_fops_wf(fmul(m2, v2), fmul(m2, j2));
    lemma_feq_trans(fmul(m1, v1n), fmul(m1, fsub(v1, j1)), fsub(f1, fmul(m1, j1)));
    lemma_fops_wf(f1, fmul(m1, j1));
    lemma_fops_wf(f1, jx);
    lemma_fadd_cong(f1, f1, fmul(m1, j1), jx);
    lemma_feq_trans(fmul(m1, v1n), fsub(f1, fmul(m1, j1)), fsub(f1, jx));
    // m2 * v2n has the value of m2*v2 + jx
    lemma_fmul_cong(m2, m2, v2n, fadd(v2, j2));
    crate::rational::lemma_fmul_distrib(m2, v2, j2);
    lemma_feq_trans(fmul(m2, v2n), fmul(m2, fadd(v2, j2)), fadd(f2, fmul(m2, j2)));
    lemma_fops_wf(f2, fmul(m2, j2));
    lemma_fops_wf(f2, jx);
    lemma_fadd_cong(f2, f2, fmul(m2, j2), jx);
    lemma_feq_trans(fmul(m2, v2n), fadd(f2, fmul(m2, j2)), fadd(f2, jx));
    // and the sum telescopes
    lemma_fops_wf(fmul(m1, v1n), fmul(m2, v2n));
    lemma_fops_wf(fsub(f1, jx), fadd(f2, jx));
    lemma_fadd_cong(fmul(m1, v1n), fsub(f1, jx), fmul(m2, v2n), fadd(f2, jx));
    lemma_fadd_assoc(f2, jx, jx);
    assert(fadd(f2, jx) == fadd(jx, f2));
    lemma_fadd_assoc(fsub(f1, jx), jx, f2);
    assert(fadd(fsub(f1, jx), fadd(jx, f2)) == fadd(fadd(fsub(f1, jx), jx), f2));
    lemma_fadd_sub_inverse(f1, jx);
    lemma_fops_wf(fsub(f1, jx), jx);
    lemma_fops_wf(fadd(fsub(f1, jx), jx), f2);
    lemma_fadd_cong(fadd(fsub(f1, jx), jx), f1, f2, f2);
    lemma_fops_wf(f1, f2);
    lemma_feq_trans(
        fadd(fsub(f1, jx), fadd(f2, jx)),
        fadd(fadd(fsub(f1, jx), jx), f2),
        fadd(f1, f2),
    );
    lemma_feq_trans(
        fadd(fmul(m1, v1n), fmul(m2, v2n)),
        fadd(fsub(f1, jx), fadd(f2, jx)),
        fadd(f1, f2),
    );
}

/// Momentum conservation: one circle–circle resolution between two bodies of
/// finite mass preserves the total momentum `m1*v1 + m2*v2` exactly, on each
/// axis.
pub proof fn theorem_momentum_conservation(
    c1: Circle,
    c2: Circle,
    u1: BodyUpdate,
    u2: BodyUpdate,
    m1: (int, int),
    m2: (int, int),
)
    requires
        spec_resolve_circles(c1, c2) == Ok::<(BodyUpdate, BodyUpdate), EngineError>((u1, u2)),
        mass_view(c1.rigid_body.mass) == Some(m1),
        mass_view(c2.rigid_body.mass) == Some(m2),
    ensures
        feq(
            fmomentum(m1, u1.velocity.0, m2, u2.velocity.0),
            fmomentum(m1, c1.rigid_body.velocity@.0, m2, c2.rigid_body.velocity@.0),
        ),
        feq(
            fmomentum(m1, u1.velocity.1, m2, u2.velocity.1),
            fmomentum(m1, c1.rigid_body.velocity@.1, m2, c2.rigid_body.velocity@.1),
        ),
{
    let m = spec_min_dist(c1, c2)->Some_0;
    let d = spec_delta(c1, c2)->Some_0;
    let m2v = spec_mul_rat(m, m)->Some_0;
    let ds = crate::algebra::spec_v2_dot(d, d)->Some_0;
    let v1 = c1.rigid_body.velocity@;
    let v2 = c2.rigid_body.velocity@;
    if !flt(ds, m2v) || flt((0int, 1int), crate::algebra::spec_v2_dot(
        crate::algebra::spec_v2_sub(v2, v1)->Some_0,
        d,
    )->Some_0) || feq(
        spec_add_rat(
            spec_inverse_mass(mass_view(c1.rigid_body.mass))->Ok_0,
            spec_inverse_mass(mass_view(c2.rigid_body.mass))->Ok_0,
        )->Some_0,
        (0int, 1int),
    ) {
        // a no-op resolution: the velocities are unchanged
        assert(u1.velocity == v1 && u2.velocity == v2);
    } else {
        let im1 = spec_inverse_mass(mass_view(c1.rigid_body.mass))->Ok_0;
        let im2 = spec_inverse_mass(mass_view(c2.rigid_body.mass))->Ok_0;
        assert(m1.0 >= 1 && im1 == (m1.1, m1.0));
        assert(m2.0 >= 1 && im2 == (m2.1, m2.0));
        let rel = crate::algebra::spec_v2_sub(v2, v1)->Some_0;
        let u = crate::algebra::spec_v2_dot(rel, d)->Some_0;
        let s = spec_add_rat(im1, im2)->Some_0;
        let e = if flt(c1.material.restitution@, c2.material.restitution@) {
            c1.material.restitution@
        } else {
            c2.material.restitution@
        };
        let ope = spec_add_rat((1int, 1int), e)->Some_0;
        let t = spec_mul_rat(ope, u)->Some_0;
        let tn = spec_neg_rat(t)->Some_0;
        let den = spec_mul_rat(ds, s)->Some_0;
        let g = spec_div_rat(tn, den)->Some_0;
        let jv = crate::algebra::spec_v2_scale(d, g)->Some_0;
        let j1 = crate::algebra::spec_v2_scale(jv, im1)->Some_0;
        let j2 = crate::algebra::spec_v2_scale(jv, im2)->Some_0;
        let v1n = crate::algebra::spec_v2_sub(v1, j1)->Some_0;
        let v2n = crate::algebra::spec_v2_add(v2, j2)->Some_0;
        assert(u1.velocity == v1n && u2.velocity == v2n);
        // fraction well-formedness, following the computation
        lemma_rat_wf(c1.rigid_body.velocity.x);
        lemma_rat_wf(c1.rigid_body.velocity.y);
        lemma_rat_wf(c2.rigid_body.velocity.x);
        lemma_rat_wf(c2.rigid_body.velocity.y);
        lemma_rat_wf(c1.rigid_body.position.x);
        lemma_rat_wf(c1.rigid_body.position.y);
        lemma_rat_wf(c2.rigid_body.position.x);
        lemma_rat_wf(c2.rigid_body.position.y);
        lemma_rat_wf(c1.material.restitution);
        lemma_rat_wf(c2.material.restitution);
        assert(fwf(m1) && fwf(m2)) by {
            match c1.rigid_body.mass {
                Mass::Finite(r) => lemma_rat_wf(r),
                Mass::Infinite => (),
            }
            match c2.rigid_body.mass {
                Mass::Finite(r) => lemma_rat_wf(r),
                Mass::Infinite => (),
            }
        }
        assert(fwf(im1) && fwf(im2));
        lemma_fops_wf(c2.rigid_body.position.x@, c1.rigid_body.position.x@);
        lemma_fops_wf(c2.rigid_body.position.y@, c1.rigid_body.position.y@);
        lemma_wf_only(fsub(c2.rigid_body.position.x@, c1.rigid_body.position.x@), d.0);
        lemma_wf_only(fsub(c2.rigid_body.position.y@, c1.rigid_body.position.y@), d.1);
        lemma_fops_wf(v2.0, v1.0);
        lemma_fops_wf(v2.1, v1.1);
        lemma_wf_only(fsub(v2.0, v1.0), rel.0);
        lemma_wf_only(fsub(v2.1, v1.1), rel.1);
        let pp = spec_mul_rat(rel.0, d.0)->Some_0;
        let qq = spec_mul_rat(rel.1, d.1)->Some_0;
        lemma_fops_wf(rel.0, d.0);
        lemma_fops_wf(rel.1, d.1);
        lemma_wf_only(fmul(rel.0, d.0), pp);
        lemma_wf_only(fmul(rel.1, d.1), qq);
        lemma_fops_wf(pp, qq);
        lemma_wf_only(fadd(pp, qq), u);
        let dp = spec_mul_rat(d.0, d.0)->Some_0;
        let dq = spec_mul_rat(d.1, d.1)->Some_0;
        lemma_fops_wf(d.0, d.0);
        lemma_fops_wf(d.1, d.1);
        lemma_wf_only(fmul(d.0, d.0), dp);
        lemma_wf_only(fmul(d.1, d.1), dq);
        lemma_fops_wf(dp, dq);
        lemma_wf_only(fadd(dp, dq), ds);
        lemma_fops_wf(im1, im2);
        lemma_wf_only(fadd(im1, im2), s);
        lemma_fops_wf((1int, 1int), e);
        lemma_wf_only(fadd((1int, 1int), e), ope);
        lemma_fops_wf(ope, u);
        lemma_wf_only(fmul(ope, u), t);
        lemma_fops_wf(t, t);
        lemma_wf_only(fneg(t), tn);
        lemma_fops_wf(ds, s);
        lemma_wf_only(fmul(ds, s), den);
        lemma_fops_wf(tn, den);
        lemma_wf_only(fdiv(tn, den), g);
        lemma_fops_wf(d.0, g);
        lemma_fops_wf(d.1, g);
        lemma_wf_only(fmul(d.0, g), jv.0);
        lemma_wf_only(fmul(d.1, g), jv.1);
        // the reduced values relate to the exact products and sums
        lemma_fops_wf(jv.0, im1);
        lemma_fops_wf(jv.1, im1);
        lemma_fops_wf(jv.0, im2);
        lemma_fops_wf(jv.1, im2);
        lemma_wf_of_norm(fmul(jv.0, im1), j1.0);
        lemma_wf_of_norm(fmul(jv.1, im1), j1.1);
        lemma_wf_of_norm(fmul(jv.0, im2), j2.0);
        lemma_wf_of_norm(fmul(jv.1, im2), j2.1);
        lemma_fops_wf(v1.0, j1.0);
        lemma_fops_wf(v1.1, j1.1);
        lemma_fops_wf(v2.0, j2.0);
        lemma_fops_wf(v2.1, j2.1);
        lemma_wf_of_norm(fsub(v1.0, j1.0), v1n.0);
        lemma_wf_of_norm(fsub(v1.1, j1.1), v1n.1);
        lemma_wf_of_norm(fadd(v2.0, j2.0), v2n.0);
        lemma_wf_of_norm(fadd(v2.1, j2.1), v2n.1);
        assert(feq(fmul(m1, im1), (1int, 1int))) by {
            vstd::arithmetic::mul::lemma_mul_is_commutative(m1.0, m1.1);
        }
        assert(feq(fmul(m2, im2), (1int, 1int))) by {
            vstd::arithmetic::mul::lemma_mul_is_commutative(m2.0, m2.1);
        }
        lemma_momentum_component(
            m1,
            im1,
            m2,
            im2,
            v1.0,
            v2.0,
            jv.0,
            j1.0,
            j2.0,
            v1n.0,
            v2n.0,
        );
        lemma_momentum_component(
            m1,
            im1,
            m2,
            im2,
            v1.1,
            v2.1,
            jv.1,
            j1.1,
            j2.1,
            v1n.1,
            v2n.1,
        );
    }
}

/// From `norm(f) == Some(v)` (with any well-formed pieces of `f`): `v` is
/// well-formed and has `f`'s value.
proof fn lemma_wf_of_norm(f: (int, int), v: (int, int))
    requires
        fwf(f),
        norm(f) == Some(v),
    ensures
        fwf(v),
        feq(v, f),
        feq(f, v),
{
    lemma_norm_value(f);
}

/// From `norm(f) == Some(v)` alone, with `f` well-formed: `v` is well-formed.
proof fn lemma_wf_only(f: (int, int), v: (int, int))
    requires
        fwf(f),
        norm(f) == Some(v),
    ensures
        fwf(v),
{
    lemma_norm_value(f);
}

/// Tangency is not a collision: circles whose squared center distance equals
/// the squared radius sum are neither detected nor resolved.
pub proof fn theorem_tangency_is_not_collision(
    c1: Circle,
    c2: Circle,
    m: (int, int),
    d: ((int, int), (int, int)),
    m2v: (int, int),
    ds: (int, int),
)
    requires
        spec_min_dist(c1, c2) == Some(m),
        spec_delta(c1, c2) == Some(d),
        spec_mul_rat(m, m) == Some(m2v),
        crate::algebra::spec_v2_dot(d, d) == Some(ds),
        feq(ds, m2v),
    ensures
        spec_detect(c1, c2) == Ok::<Option<((int, int), ((int, int), (int, int)))>, EngineError>(
            None,
        ),
        spec_resolve_circles(c1, c2) == Ok::<(BodyUpdate, BodyUpdate), EngineError>(
            (spec_unchanged(c1), spec_unchanged(c2)),
        ),
{
    assert(!flt(ds, m2v));
}

/// A pair receding along the contact normal is left alone: overlapping
/// circles whose relative velocity points away keep their state.
pub proof fn theorem_separating_pair_is_noop(
    c1: Circle,
    c2: Circle,
    m: (int, int),
    d: ((int, int), (int, int)),
    m2v: (int, int),
    ds: (int, int),
    rel: ((int, int), (int, int)),
    u: (int, int),
)
    requires
        spec_min_dist(c1, c2) == Some(m),
        spec_delta(c1, c2) == Some(d),
        spec_mul_rat(m, m) == Some(m2v),
        crate::algebra::spec_v2_dot(d, d) == Some(ds),
        flt(ds, m2v),
        !feq(ds, (0int, 1int)),
        crate::algebra::spec_v2_sub(c2.rigid_body.velocity@, c1.rigid_body.velocity@) == Some(rel),
        crate::algebra::spec_v2_dot(rel, d) == Some(u),
        flt((0int, 1int), u),
    ensures
        spec_resolve_circles(c1, c2) == Ok::<(BodyUpdate, BodyUpdate), EngineError>(
            (spec_unchanged(c1), spec_unchanged(c2)),
        ),
{
}

/// Wall resolution is idempotent: once a circle has been resolved against a
/// wall, resolving the updated circle against the same wall changes nothing
/// (at worst it reports an unrepresentable bound, still changing nothing).
pub proof fn theorem_wall_resolution_idempotent(w: Wall, c: Circle, u: BodyUpdate, c2: Circle)
    requires
        spec_resolve_wall_circle(w, c) == Ok::<BodyUpdate, EngineError>(u),
        circle_with_update(c, u, c2),
    ensures
        match spec_resolve_wall_circle(w, c2) {
            Ok(u2) => u2 == spec_unchanged(c2),
            Err(e) => e == EngineError::OutOfRange,
        },
{
    lemma_rat_wf(w.bound);
    lemma_rat_wf(c.radius);
    lemma_rat_wf(c.rigid_body.position.x);
    lemma_rat_wf(c.rigid_body.position.y);
    lemma_rat_wf(c2.rigid_body.position.x);
    lemma_rat_wf(c2.rigid_body.position.y);
    let wb = w.bound@;
    let r = c.radius@;
    match w.orientation {
        Orientation::Left => {
            let bl = crate::shapes::spec_bound_left(c)->Some_0;
            if flt(bl, wb) {
                let px = spec_add_rat(wb, r)->Some_0;
                lemma_fops_wf(wb, r);
                lemma_wf_of_norm(fadd(wb, r), px);
                assert(c2.rigid_body.position@.0 == px);
                match spec_sub_rat(px, r) {
                    Some(bl2) => {
                        lemma_fops_wf(px, r);
                        lemma_wf_of_norm(fsub(px, r), bl2);
                        lemma_fadd_cong(px, fadd(wb, r), r, r);
                        lemma_fsub_add_inverse(wb, r);
                        lemma_fops_wf(fadd(wb, r), r);
                        lemma_feq_trans(bl2, fsub(px, r), fsub(fadd(wb, r), r));
                        lemma_feq_trans(bl2, fsub(fadd(wb, r), r), wb);
                        lemma_flt_cong(bl2, wb, wb, wb);
                        assert(!flt(bl2, wb));
                    },
                    None => {},
                }
            }
        },
        Orientation::Top => {
            let bt = crate::shapes::spec_bound_top(c)->Some_0;
            if flt(wb, bt) {
                let py = spec_sub_rat(wb, r)->Some_0;
                lemma_fops_wf(wb, r);
                lemma_wf_of_norm(fsub(wb, r), py);
                assert(c2.rigid_body.position@.1 == py);
                match spec_add_rat(py, r) {
                    Some(bt2) => {
                        lemma_fops_wf(py, r);
                        lemma_wf_of_norm(fadd(py, r), bt2);
                        lemma_fadd_cong(py, fsub(wb, r), r, r);
                        lemma_fadd_sub_inverse(wb, r);
                        lemma_fops_wf(fsub(wb, r), r);
                        lemma_feq_trans(bt2, fadd(py, r), fadd(fsub(wb, r), r));
                        lemma_feq_trans(bt2, fadd(fsub(wb, r), r), wb);
                        lemma_flt_cong(wb, wb, bt2, wb);
                        assert(!flt(wb, bt2));
                    },
                    None => {},
                }
            }
        },
        Orientation::Right => {
            let br = crate::shapes::spec_bound_right(c)->Some_0;
            if flt(wb, br) {
                let px = spec_sub_rat(wb, r)->Some_0;
                lemma_fops_wf(wb, r);
                lemma_wf_of_norm(fsub(wb, r), px);
                assert(c2.rigid_body.position@.0 == px);
                match spec_add_rat(px, r) {
                    Some(br2) => {
                        lemma_fops_wf(px, r);
                        lemma_wf_of_norm(fadd(px, r), br2);
                        lemma_fadd_cong(px, fsub(wb, r), r, r);
                        lemma_fadd_sub_inverse(wb, r);
                        lemma_fops_wf(fsub(wb, r), r);
                        lemma_feq_trans(br2, fadd(px, r), fadd(fsub(wb, r), r));
                        lemma_feq_trans(br2, fadd(fsub(wb, r), r), wb);
                        lemma_flt_cong(wb, wb, br2, wb);
                        assert(!flt(wb, br2));
                    },
                    None => {},
                }
            }
        },
        Orientation::Bottom => {
            let bb = crate::shapes::spec_bound_bottom(c)->Some_0;
            if flt(bb, wb) {
                let py = spec_add_rat(wb, r)->Some_0;
                lemma_fops_wf(wb, r);
                lemma_wf_of_norm(fadd(wb, r), py);
                assert(c2.rigid_body.position@.1 == py);
                match spec_sub_rat(py, r) {
                    Some(bb2) => {
                        lemma_fops_wf(py, r);
                        lemma_wf_of_norm(fsub(py, r), bb2);
                        lemma_fadd_cong(py, fadd(wb, r), r, r);
                        lemma_fsub_add_inverse(wb, r);
                        lemma_fops_wf(fadd(wb, r), r);
                        lemma_feq_trans(bb2, fsub(py, r), fsub(fadd(wb, r), r));
                        lemma_feq_trans(bb2, fsub(fadd(wb, r), r), wb);
                        lemma_flt_cong(bb2, wb, wb, wb);
                        assert(!flt(bb2, wb));
                    },
                    None => {},
                }
            }
        },
    }
}

/// A detected overlap between circles of positive radius has strictly
/// positive penetration.
pub proof fn theorem_detected_penetration_positive(
    c1: Circle,
    c2: Circle,
    pen: (int, int),
    nrm: ((int, int), (int, int)),
)
    requires
        spec_detect(c1, c2) == Ok::<Option<((int, int), ((int, int), (int, int)))>, EngineError>(
            Some((pen, nrm)),
        ),
        flt((0int, 1int), c1.radius@),
        flt((0int, 1int), c2.radius@),
    ensures
        flt((0int, 1int), pen),
{
    let m = spec_min_dist(c1, c2)->Some_0;
    let d = spec_delta(c1, c2)->Some_0;
    let m2v = spec_mul_rat(m, m)->Some_0;
    let ds = crate::algebra::spec_v2_dot(d, d)->Some_0;
    let root = spec_sqrt_floor(ds);
    lemma_rat_wf(c1.radius);
    lemma_rat_wf(c2.radius);
    lemma_rat_wf(c1.rigid_body.position.x);
    lemma_rat_wf(c1.rigid_body.position.y);
    lemma_rat_wf(c2.rigid_body.position.x);
    lemma_rat_wf(c2.rigid_body.position.y);
    // the radius sum is positive
    lemma_fops_wf(c1.radius@, c2.radius@);
    lemma_fadd_pos(c1.radius@, c2.radius@);
    lemma_wf_of_norm(fadd(c1.radius@, c2.radius@), m);
    lemma_flt_cong((0int, 1int), (0int, 1int), fadd(c1.radius@, c2.radius@), m);
    assert(flt((0int, 1int), m));
    assert(m.0 >= 1);
    // the squared distance is non-negative, so the square root exists
    lemma_fops_wf(c2.rigid_body.position.x@, c1.rigid_body.position.x@);
    lemma_fops_wf(c2.rigid_body.position.y@, c1.rigid_body.position.y@);
    lemma_wf_only(fsub(c2.rigid_body.position.x@, c1.rigid_body.position.x@), d.0);
    lemma_wf_only(fsub(c2.rigid_body.position.y@, c1.rigid_body.position.y@), d.1);
    let dp = spec_mul_rat(d.0, d.0)->Some_0;
    let dq = spec_mul_rat(d.1, d.1)->Some_0;
    lemma_fops_wf(d.0, d.0);
    lemma_fops_wf(d.1, d.1);
    lemma_wf_of_norm(fmul(d.0, d.0), dp);
    lemma_wf_of_norm(fmul(d.1, d.1), dq);
    lemma_fops_wf(dp, dq);
    lemma_wf_of_norm(fadd(dp, dq), ds);
    assert(feq(dp, fmul(d.0, d.0)) && crate::detection_narrow_phase::fwf_one(d.0));
    assert(feq(dq, fmul(d.1, d.1)) && crate::detection_narrow_phase::fwf_one(d.1));
    crate::detection_narrow_phase::lemma_dot_self_nonneg(dp, dq, ds);
    let sc = sqrt_scale(ds.1);
    crate::rational::lemma_sqrt_scale(ds.1);
    assert(sc >= 1);
    let rad = ds.0 * ds.1 * sc * sc;
    assert(rad >= 0) by (nonlinear_arith)
        requires
            rad == ds.0 * ds.1 * sc * sc,
            ds.0 >= 0,
            ds.1 >= 1,
            sc >= 1,
    ;
    lemma_isqrt_exists(rad);
    assert(is_isqrt(rad, root.0));
    // the root's denominator is the refined one
    let e = ds.1 * sc;
    assert(e >= 1) by (nonlinear_arith)
        requires
            e == ds.1 * sc,
            ds.1 >= 1,
            sc >= 1,
    ;
    assert(root.1 == e);
    // the squared distance is below the squared radius sum
    lemma_fops_wf(m, m);
    lemma_wf_of_norm(fmul(m, m), m2v);
    lemma_flt_cong(ds, ds, m2v, fmul(m, m));
    assert(flt(ds, fmul(m, m)));
    // so the root stays strictly below the radius sum
    let rv = root.0;
    assert(rv * m.1 < m.0 * e) by {
        assert((rv * m.1) * (rv * m.1) == (rv * rv) * (m.1 * m.1)) by {
            crate::rational::lemma_mul_swap(rv, m.1, rv, m.1);
        }
        assert((rv * rv) * (m.1 * m.1) <= rad * (m.1 * m.1)) by {
            vstd::arithmetic::mul::lemma_mul_inequality(rv * rv, rad, m.1 * m.1);
            vstd::arithmetic::mul::lemma_mul_strictly_positive(m.1, m.1);
        }
        assert(rad * (m.1 * m.1) == (ds.0 * (m.1 * m.1)) * (ds.1 * (sc * sc))) by {
            vstd::arithmetic::mul::lemma_mul_is_associative(ds.0 * ds.1, sc, sc);
            assert((ds.0 * ds.1) * (sc * sc) == ds.0 * (ds.1 * (sc * sc))) by {
                vstd::arithmetic::mul::lemma_mul_is_associative(ds.0, ds.1, sc * sc);
            }
            crate::rational::lemma_mul_swap(ds.0, ds.1 * (sc * sc), m.1, m.1);
            assert((ds.0 * (ds.1 * (sc * sc))) * (m.1 * m.1) == (ds.0 * m.1) * ((ds.1 * (sc * sc))
                * m.1));
            assert((ds.0 * m.1) * ((ds.1 * (sc * sc)) * m.1) == (ds.0 * (m.1 * m.1)) * (ds.1 * (sc
                * sc))) by (nonlinear_arith);
        }
        assert((ds.0 * (m.1 * m.1)) * (ds.1 * (sc * sc)) < ((m.0 * m.0) * ds.1) * (ds.1 * (sc
            * sc))) by {
            assert(ds.1 * (sc * sc) >= 1) by (nonlinear_arith)
                requires
                    ds.1 >= 1,
                    sc >= 1,
            ;
            vstd::arithmetic::mul::lemma_mul_strict_inequality(
                ds.0 * (m.1 * m.1),
                (m.0 * m.0) * ds.1,
                ds.1 * (sc * sc),
            );
        }
        assert(((m.0 * m.0) * ds.1) * (ds.1 * (sc * sc)) == (m.0 * e) * (m.0 * e))
            by (nonlinear_arith)
            requires
                e == ds.1 * sc,
        ;
        assert(rv * m.1 < m.0 * e) by (nonlinear_arith)
            requires
                (rv * m.1) * (rv * m.1) < (m.0 * e) * (m.0 * e),
                rv >= 0,
                m.1 >= 1,
                m.0 >= 1,
                e >= 1,
        ;
    }
    // hence the reduced penetration is positive
    assert(fwf(root));
    assert(flt((0int, 1int), fsub(m, root)));
    lemma_fops_wf(m, root);
    lemma_wf_of_norm(fsub(m, root), pen);
    lemma_flt_cong((0int, 1int), (0int, 1int), fsub(m, root), pen);
}

/// For a relative velocity parallel to the direction vector, the dot product
/// recovers each component: `u * d_a == rel_a * |d|^2`.
proof fn lemma_parallel_one(
    ra: (int, int),
    rb: (int, int),
    da: (int, int),
    db: (int, int),
    u: (int, int),
    ds: (int, int),
)
    requires
        fwf(ra),
        fwf(rb),
        fwf(da),
        fwf(db),
        fwf(u),
        fwf(ds),
        feq(u, fadd(fmul(ra, da), fmul(rb, db))),
        feq(ds, fadd(fmul(da, da), fmul(db, db))),
        feq(fmul(ra, db), fmul(rb, da)),
    ensures
        feq(fmul(u, da), fmul(ra, ds)),
{
    let pa = fmul(ra, da);
    let pb = fmul(rb, db);
    let qa = fmul(da, da);
    let qb = fmul(db, db);
    lemma_fops_wf(ra, da);
    lemma_fops_wf(rb, db);
    lemma_fops_wf(da, da);
    lemma_fops_wf(db, db);
    lemma_fops_wf(pa, pb);
    lemma_fops_wf(qa, qb);
    lemma_fops_wf(u, da);
    lemma_fops_wf(fadd(pa, pb), da);
    // u*da has the value (pa + pb)*da
    lemma_fmul_cong(u, fadd(pa, pb), da, da);
    // which distributes into pa*da + pb*da
    crate::rational::lemma_fmul_distrib(da, pa, pb);
    assert(fmul(fadd(pa, pb), da) == fmul(da, fadd(pa, pb))) by {
        lemma_fmul_assoc(fadd(pa, pb), da, da);
    }
    assert(fadd(fmul(da, pa), fmul(da, pb)) == fadd(fmul(pa, da), fmul(pb, da))) by {
        lemma_fmul_assoc(da, pa, pa);
        lemma_fmul_assoc(da, pb, pb);
        lemma_fadd_assoc(fmul(pa, da), fmul(pb, da), fmul(pb, da));
    }
    // pa*da is ra*(da*da), as pairs
    assert(fmul(pa, da) == fmul(ra, qa)) by {
        lemma_fmul_assoc(ra, da, da);
    }
    // pb*da has the value ra*(db*db)
    assert(fmul(pb, da) == fmul(fmul(rb, da), db)) by {
        assert(((rb.0 * db.0) * da.0 == (rb.0 * da.0) * db.0) && ((rb.1 * db.1) * da.1 == (rb.1
            * da.1) * db.1)) by (nonlinear_arith);
    }
    lemma_fops_wf(rb, da);
    lemma_fops_wf(ra, db);
    lemma_fops_wf(fmul(rb, da), db);
    lemma_fmul_cong(fmul(rb, da), fmul(ra, db), db, db);
    assert(fmul(fmul(ra, db), db) == fmul(ra, qb)) by {
        lemma_fmul_assoc(ra, db, db);
    }
    // so u*da has the value ra*qa + ra*qb
    lemma_fops_wf(ra, qa);
    lemma_fops_wf(ra, qb);
    lemma_fadd_cong(fmul(pa, da), fmul(ra, qa), fmul(pb, da), fmul(ra, qb));
    lemma_fops_wf(fmul(pa, da), fmul(pb, da));
    lemma_fops_wf(fmul(ra, qa), fmul(ra, qb));
    lemma_fops_wf(da, fadd(pa, pb));
    lemma_fops_wf(fmul(da, pa), fmul(da, pb));
    lemma_feq_trans(
        fmul(u, da),
        fmul(da, fadd(pa, pb)),
        fadd(fmul(da, pa), fmul(da, pb)),
    );
    lemma_feq_trans(
        fmul(u, da),
        fadd(fmul(pa, da), fmul(pb, da)),
        fadd(fmul(ra, qa), fmul(ra, qb)),
    );
    // and that folds back into ra*ds
    crate::rational::lemma_fmul_distrib(ra, qa, qb);
    lemma_fmul_cong(ra, ra, fadd(qa, qb), ds);
    lemma_fops_wf(ra, fadd(qa, qb));
    lemma_fops_wf(ra, ds);
    lemma_feq_trans(fmul(u, da), fadd(fmul(ra, qa), fmul(ra, qb)), fmul(ra, fadd(qa, qb)));
    lemma_feq_trans(fmul(u, da), fmul(ra, fadd(qa, qb)), fmul(ra, ds));
}

/// The impulse bookkeeping of one velocity component in a fully elastic,
/// head-on collision between bodies sharing the inverse mass `im`: the
/// velocities swap.
proof fn lemma_exchange_component(
    dxc: (int, int),
    relc: (int, int),
    v1c: (int, int),
    v2c: (int, int),
    g: (int, int),
    im: (int, int),
    im2: (int, int),
    den: (int, int),
    tn: (int, int),
    u: (int, int),
    ds: (int, int),
    s: (int, int),
    j1c: (int, int),
    j2c: (int, int),
    v1nc: (int, int),
    v2nc: (int, int),
)
    requires
        fwf(dxc),
        fwf(relc),
        fwf(v1c),
        fwf(v2c),
        fwf(g),
        fwf(im),
        fwf(im2),
        fwf(den),
        fwf(tn),
        fwf(u),
        fwf(ds),
        fwf(s),
        fwf(j1c),
        fwf(j2c),
        fwf(v1nc),
        fwf(v2nc),
        den.0 != 0,
        feq(relc, fsub(v2c, v1c)),
        feq(fmul(g, den), tn),
        feq(tn, fneg(fmul((2int, 1int), u))),
        feq(den, fmul(ds, s)),
        feq(s, fmul((2int, 1int), im)),
        feq(im2, im),
        feq(fmul(u, dxc), fmul(relc, ds)),
        feq(j1c, fmul(fmul(dxc, g), im)),
        feq(j2c, fmul(fmul(dxc, g), im2)),
        feq(v1nc, fsub(v1c, j1c)),
        feq(v2nc, fadd(v2c, j2c)),
    ensures
        feq(v1nc, v2c),
        feq(v2nc, v1c),
{
    let two = (2int, 1int);
    let x = fmul(fmul(dxc, g), im);
    lemma_fops_wf(dxc, g);
    lemma_fops_wf(fmul(dxc, g), im);
    lemma_fops_wf(dxc, im);
    lemma_fops_wf(g, den);
    lemma_fops_wf(two, u);
    lemma_fops_wf(two, im);
    lemma_fops_wf(u, dxc);
    lemma_fops_wf(relc, ds);
    lemma_fops_wf(fmul(two, im), fmul(u, dxc));
    lemma_fops_wf(fmul(two, im), fmul(relc, ds));
    lemma_fops_wf(x, den);
    lemma_fops_wf(fmul(dxc, im), tn);
    lemma_fops_wf(ds, s);
    lemma_fops_wf(ds, fmul(two, im));
    lemma_fops_wf(relc, relc);
    lemma_fops_wf(fneg(relc), den);
    lemma_fops_wf(fneg(relc), fmul(ds, s));
    lemma_fops_wf(fneg(relc), fmul(ds, fmul(two, im)));
    // x*den regrouped as (dxc*im)*(g*den)
    assert(fmul(x, den) == fmul(fmul(dxc, im), fmul(g, den))) by {
        assert((((dxc.0 * g.0) * im.0) * den.0 == (dxc.0 * im.0) * (g.0 * den.0)) && (((dxc.1
            * g.1) * im.1) * den.1 == (dxc.1 * im.1) * (g.1 * den.1))) by (nonlinear_arith);
    }
    // g*den has the value tn == -(2u)
    lemma_fmul_cong(fmul(dxc, im), fmul(dxc, im), fmul(g, den), tn);
    lemma_fops_wf(fneg(fmul(two, u)), fneg(fmul(two, u)));
    lemma_fmul_cong(fmul(dxc, im), fmul(dxc, im), tn, fneg(fmul(two, u)));
    // (dxc*im) * -(2u) regrouped as -((2*im)*(u*dxc))
    assert(fmul(fmul(dxc, im), fneg(fmul(two, u))) == fneg(
        fmul(fmul(two, im), fmul(u, dxc)),
    )) by {
        assert(((dxc.0 * im.0) * (-(2 * u.0)) == -((2 * im.0) * (u.0 * dxc.0))) && ((dxc.1 * im.1)
            * (1 * u.1) == (1 * im.1) * (u.1 * dxc.1))) by (nonlinear_arith);
    }
    // u*dxc has the value relc*ds (head-on)
    lemma_fmul_cong(fmul(two, im), fmul(two, im), fmul(u, dxc), fmul(relc, ds));
    lemma_fneg_cong(fmul(fmul(two, im), fmul(u, dxc)), fmul(fmul(two, im), fmul(relc, ds)));
    // the right side: -relc * den regrouped the same way
    lemma_fmul_cong(fneg(relc), fneg(relc), den, fmul(ds, s));
    lemma_fmul_cong(ds, ds, s, fmul(two, im));
    lemma_fmul_cong(fneg(relc), fneg(relc), fmul(ds, s), fmul(ds, fmul(two, im)));
    assert(fmul(fneg(relc), fmul(ds, fmul(two, im))) == fneg(
        fmul(fmul(two, im), fmul(relc, ds)),
    )) by {
        assert(((-relc.0) * (ds.0 * (2 * im.0)) == -((2 * im.0) * (relc.0 * ds.0))) && (relc.1
            * (ds.1 * (1 * im.1)) == (1 * im.1) * (relc.1 * ds.1))) by (nonlinear_arith);
    }
    // hence x*den and (-relc)*den share a value, and den cancels
    let mid = fneg(fmul(fmul(two, im), fmul(relc, ds)));
    assert(fwf(mid));
    lemma_feq_trans(fmul(x, den), fmul(fmul(dxc, im), tn), fmul(fmul(dxc, im), fneg(fmul(two, u))));
    lemma_feq_trans(fmul(x, den), fmul(fmul(dxc, im), fneg(fmul(two, u))), mid);
    lemma_feq_trans(
        fmul(fneg(relc), den),
        fmul(fneg(relc), fmul(ds, s)),
        fmul(fneg(relc), fmul(ds, fmul(two, im))),
    );
    lemma_feq_trans(fmul(fneg(relc), den), fmul(fneg(relc), fmul(ds, fmul(two, im))), mid);
    assert(feq(mid, fmul(fneg(relc), den)));
    lemma_feq_trans(fmul(x, den), mid, fmul(fneg(relc), den));
    assert(!feq(den, (0int, 1int)));
    lemma_fmul_cancel(x, fneg(relc), den);
    // j1c therefore has the value v1c - v2c
    lemma_fops_wf(v2c, v1c);
    lemma_fops_wf(v1c, v2c);
    crate::rational::lemma_fsub_antisym(v1c, v2c);
    lemma_fneg_cong(relc, fsub(v2c, v1c));
    lemma_fops_wf(fneg(fsub(v2c, v1c)), fneg(fsub(v2c, v1c)));
    lemma_feq_trans(j1c, x, fneg(relc));
    lemma_feq_trans(j1c, fneg(relc), fneg(fsub(v2c, v1c)));
    assert(feq(fneg(fsub(v2c, v1c)), fsub(v1c, v2c)));
    lemma_feq_trans(j1c, fneg(fsub(v2c, v1c)), fsub(v1c, v2c));
    // so the first velocity lands on v2c
    lemma_fops_wf(v1c, j1c);
    lemma_fadd_cong(v1c, v1c, j1c, fsub(v1c, v2c));
    lemma_fops_wf(v1c, fsub(v1c, v2c));
    crate::rational::lemma_fsub_fsub(v1c, v2c);
    lemma_feq_trans(v1nc, fsub(v1c, j1c), fsub(v1c, fsub(v1c, v2c)));
    lemma_feq_trans(v1nc, fsub(v1c, fsub(v1c, v2c)), v2c);
    // the second impulse shares the value of the first
    let x2 = fmul(fmul(dxc, g), im2);
    lemma_fops_wf(fmul(dxc, g), im2);
    lemma_fmul_cong(fmul(dxc, g), fmul(dxc, g), im2, im);
    lemma_feq_trans(j2c, x2, x);
    lemma_feq_trans(j2c, x, fneg(relc));
    lemma_feq_trans(j2c, fneg(relc), fneg(fsub(v2c, v1c)));
    lemma_feq_trans(j2c, fneg(fsub(v2c, v1c)), fsub(v1c, v2c));
    // and the second velocity lands on v1c
    lemma_fops_wf(v2c, j2c);
    lemma_fadd_cong(v2c, v2c, j2c, fsub(v1c, v2c));
    lemma_fops_wf(v2c, fsub(v1c, v2c));
    assert(fadd(v2c, fsub(v1c, v2c)) == fadd(fsub(v1c, v2c), v2c)) by {
        lemma_fadd_assoc(v2c, fsub(v1c, v2c), v2c);
    }
    lemma_fadd_sub_inverse(v1c, v2c);
    lemma_feq_trans(v2nc, fadd(v2c, j2c), fadd(v2c, fsub(v1c, v2c)));
    lemma_feq_trans(v2nc, fadd(v2c, fsub(v1c, v2c)), v1c);
}

/// The pair is strictly overlapping with distinct centers, approaching along
/// the center line, and every needed intermediate is representable.
pub open spec fn actively_colliding(c1: Circle, c2: Circle) -> bool {
    &&& spec_min_dist(c1, c2) is Some
    &&& spec_delta(c1, c2) is Some
    &&& spec_mul_rat(spec_min_dist(c1, c2)->Some_0, spec_min_dist(c1, c2)->Some_0) is Some
    &&& crate::algebra::spec_v2_dot(spec_delta(c1, c2)->Some_0, spec_delta(c1, c2)->Some_0)
        is Some
    &&& flt(
        crate::algebra::spec_v2_dot(spec_delta(c1, c2)->Some_0, spec_delta(c1, c2)->Some_0)->Some_0,
        spec_mul_rat(spec_min_dist(c1, c2)->Some_0, spec_min_dist(c1, c2)->Some_0)->Some_0,
    )
    &&& !feq(
        crate::algebra::spec_v2_dot(spec_delta(c1, c2)->Some_0, spec_delta(c1, c2)->Some_0)->Some_0,
        (0int, 1int),
    )
    &&& crate::algebra::spec_v2_sub(c2.rigid_body.velocity@, c1.rigid_body.velocity@) is Some
    &&& crate::algebra::spec_v2_dot(
        crate::algebra::spec_v2_sub(c2.rigid_body.velocity@, c1.rigid_body.velocity@)->Some_0,
        spec_delta(c1, c2)->Some_0,
    ) is Some
    &&& !flt(
        (0int, 1int),
        crate::algebra::spec_v2_dot(
            crate::algebra::spec_v2_sub(c2.rigid_body.velocity@, c1.rigid_body.velocity@)->Some_0,
            spec_delta(c1, c2)->Some_0,
        )->Some_0,
    )
}

/// The pair collides head-on: the relative velocity is parallel to the
/// center-to-center direction.
pub open spec fn head_on(c1: Circle, c2: Circle) -> bool {
    let d = spec_delta(c1, c2)->Some_0;
    let rel = crate::algebra::spec_v2_sub(c2.rigid_body.velocity@, c1.rigid_body.velocity@)->Some_0;
    feq(fmul(rel.0, d.1), fmul(rel.1, d.0))
}

/// Speed exchange: an actively colliding, head-on, fully elastic pair of
/// equal finite masses swaps the two velocities exactly.
pub proof fn theorem_speed_exchange(
    c1: Circle,
    c2: Circle,
    u1: BodyUpdate,
    u2: BodyUpdate,
    m1: (int, int),
    m2: (int, int),
)
    requires
        spec_resolve_circles(c1, c2) == Ok::<(BodyUpdate, BodyUpdate), EngineError>((u1, u2)),
        actively_colliding(c1, c2),
        head_on(c1, c2),
        mass_view(c1.rigid_body.mass) == Some(m1),
        mass_view(c2.rigid_body.mass) == Some(m2),
        feq(m1, m2),
        feq(c1.material.restitution@, (1int, 1int)),
        feq(c2.material.restitution@, (1int, 1int)),
    ensures
        crate::algebra::v2eq(u1.velocity, c2.rigid_body.velocity@),
        crate::algebra::v2eq(u2.velocity, c1.rigid_body.velocity@),
{
    let m = spec_min_dist(c1, c2)->Some_0;
    let d = spec_delta(c1, c2)->Some_0;
    let m2v = spec_mul_rat(m, m)->Some_0;
    let ds = crate::algebra::spec_v2_dot(d, d)->Some_0;
    let v1 = c1.rigid_body.velocity@;
    let v2 = c2.rigid_body.velocity@;
    let im1 = spec_inverse_mass(mass_view(c1.rigid_body.mass))->Ok_0;
    let im2 = spec_inverse_mass(mass_view(c2.rigid_body.mass))->Ok_0;
    let rel = crate::algebra::spec_v2_sub(v2, v1)->Some_0;
    let u = crate::algebra::spec_v2_dot(rel, d)->Some_0;
    let s = spec_add_rat(im1, im2)->Some_0;
    let e = if flt(c1.material.restitution@, c2.material.restitution@) {
        c1.material.restitution@
    } else {
        c2.material.restitution@
    };
    let ope = spec_add_rat((1int, 1int), e)->Some_0;
    let t = spec_mul_rat(ope, u)->Some_0;
    let tn = spec_neg_rat(t)->Some_0;
    let den = spec_mul_rat(ds, s)->Some_0;
    let g = spec_div_rat(tn, den)->Some_0;
    let jv = crate::algebra::spec_v2_scale(d, g)->Some_0;
    let j1 = crate::algebra::spec_v2_scale(jv, im1)->Some_0;
    let j2 = crate::algebra::spec_v2_scale(jv, im2)->Some_0;
    let v1n = crate::algebra::spec_v2_sub(v1, j1)->Some_0;
    let v2n = crate::algebra::spec_v2_add(v2, j2)->Some_0;
    assert(m1.0 >= 1 && im1 == (m1.1, m1.0));
    assert(m2.0 >= 1 && im2 == (m2.1, m2.0));
    lemma_common_wf(c1, c2);
    assert(fwf(m1) && fwf(m2)) by {
        match c1.rigid_body.mass {
            Mass::Finite(r) => lemma_rat_wf(r),
            Mass::Infinite => (),
        }
        match c2.rigid_body.mass {
            Mass::Finite(r) => lemma_rat_wf(r),
            Mass::Infinite => (),
        }
    }
    assert(fwf(im1) && fwf(im2));
    // at least one movable body, so the resolution is not a no-op
    assert(!feq(s, (0int, 1int))) by {
        lemma_fops_wf(im1, im2);
        lemma_wf_only(fadd(im1, im2), s);
        lemma_fadd_pos(im1, im2);
        lemma_norm_value(fadd(im1, im2));
        lemma_flt_cong((0int, 1int), (0int, 1int), fadd(im1, im2), s);
    }
    assert(u1.velocity == v1n && u2.velocity == v2n);
    lemma_fops_wf(c2.rigid_body.position.x@, c1.rigid_body.position.x@);
    lemma_fops_wf(c2.rigid_body.position.y@, c1.rigid_body.position.y@);
    lemma_wf_only(fsub(c2.rigid_body.position.x@, c1.rigid_body.position.x@), d.0);
    lemma_wf_only(fsub(c2.rigid_body.position.y@, c1.rigid_body.position.y@), d.1);
    lemma_fops_wf(v2.0, v1.0);
    lemma_fops_wf(v2.1, v1.1);
    lemma_wf_of_norm(fsub(v2.0, v1.0), rel.0);
    lemma_wf_of_norm(fsub(v2.1, v1.1), rel.1);
    let pp = spec_mul_rat(rel.0, d.0)->Some_0;
    let qq = spec_mul_rat(rel.1, d.1)->Some_0;
    lemma_fops_wf(rel.0, d.0);
    lemma_fops_wf(rel.1, d.1);
    lemma_wf_of_norm(fmul(rel.0, d.0), pp);
    lemma_wf_of_norm(fmul(rel.1, d.1), qq);
    lemma_fops_wf(pp, qq);
    lemma_wf_of_norm(fadd(pp, qq), u);
    let dp = spec_mul_rat(d.0, d.0)->Some_0;
    let dq = spec_mul_rat(d.1, d.1)->Some_0;
    lemma_fops_wf(d.0, d.0);
    lemma_fops_wf(d.1, d.1);
    lemma_wf_of_norm(fmul(d.0, d.0), dp);
    lemma_wf_of_norm(fmul(d.1, d.1), dq);
    lemma_fops_wf(dp, dq);
    lemma_wf_of_norm(fadd(dp, dq), ds);
    lemma_fops_wf(im1, im2);
    lemma_wf_of_norm(fadd(im1, im2), s);
    lemma_fops_wf((1int, 1int), e);
    lemma_wf_of_norm(fadd((1int, 1int), e), ope);
    lemma_fops_wf(ope, u);
    lemma_wf_of_norm(fmul(ope, u), t);
    lemma_fops_wf(t, t);
    lemma_wf_of_norm(fneg(t), tn);
    lemma_fops_wf(ds, s);
    lemma_wf_of_norm(fmul(ds, s), den);
    lemma_fops_wf(tn, den);
    lemma_wf_of_norm(fdiv(tn, den), g);
    lemma_fops_wf(d.0, g);
    lemma_fops_wf(d.1, g);
    lemma_wf_of_norm(fmul(d.0, g), jv.0);
    lemma_wf_of_norm(fmul(d.1, g), jv.1);
    lemma_fops_wf(jv.0, im1);
    lemma_fops_wf(jv.1, im1);
    lemma_fops_wf(jv.0, im2);
    lemma_fops_wf(jv.1, im2);
    lemma_wf_of_norm(fmul(jv.0, im1), j1.0);
    lemma_wf_of_norm(fmul(jv.1, im1), j1.1);
    lemma_wf_of_norm(fmul(jv.0, im2), j2.0);
    lemma_wf_of_norm(fmul(jv.1, im2), j2.1);
    lemma_fops_wf(v1.0, j1.0);
    lemma_fops_wf(v1.1, j1.1);
    lemma_fops_wf(v2.0, j2.0);
    lemma_fops_wf(v2.1, j2.1);
    lemma_wf_of_norm(fsub(v1.0, j1.0), v1n.0);
    lemma_wf_of_norm(fsub(v1.1, j1.1), v1n.1);
    lemma_wf_of_norm(fadd(v2.0, j2.0), v2n.0);
    lemma_wf_of_norm(fadd(v2.1, j2.1), v2n.1);
    // the picked restitution has value one, so (1 + e) has value two
    assert(feq(e, (1int, 1int)));
    assert(fwf(e));
    assert(feq(ope, (2int, 1int))) by {
        lemma_fadd_cong((1int, 1int), (1int, 1int), e, (1int, 1int));
        assert(fadd((1int, 1int), (1int, 1int)) == (2int, 1int));
        lemma_feq_trans(ope, fadd((1int, 1int), e), (2int, 1int));
    }
    // so the negated numerator has the value -(2u)
    lemma_fops_wf((2int, 1int), u);
    assert(feq(tn, fneg(fmul((2int, 1int), u)))) by {
        lemma_fmul_cong(ope, (2int, 1int), u, u);
        lemma_feq_trans(t, fmul(ope, u), fmul((2int, 1int), u));
        lemma_fneg_cong(t, fmul((2int, 1int), u));
        lemma_fops_wf(fmul((2int, 1int), u), fmul((2int, 1int), u));
        lemma_feq_trans(tn, fneg(t), fneg(fmul((2int, 1int), u)));
    }
    // dividing and multiplying back by the denominator recovers tn
    assert(feq(fmul(g, den), tn)) by {
        lemma_fmul_cong(g, fdiv(tn, den), den, den);
        crate::rational::lemma_fdiv_mul(tn, den);
        lemma_fops_wf(g, den);
        lemma_fops_wf(fdiv(tn, den), den);
        lemma_feq_trans(fmul(g, den), fmul(fdiv(tn, den), den), tn);
    }
    // equal masses share the inverse mass, so s has the value 2*im1
    assert(m2.1 * m1.0 == m1.1 * m2.0) by (nonlinear_arith)
        requires
            m1.0 * m2.1 == m2.0 * m1.1,
    ;
    assert(feq(im2, im1));
    lemma_fops_wf((2int, 1int), im1);
    assert(feq(s, fmul((2int, 1int), im1))) by {
        lemma_fadd_cong(im1, im1, im2, im1);
        crate::rational::lemma_fadd_self(im1);
        lemma_fops_wf(im1, im1);
        lemma_feq_trans(s, fadd(im1, im2), fadd(im1, im1));
        lemma_feq_trans(s, fadd(im1, im1), fmul((2int, 1int), im1));
    }
    // the head-on hypothesis gives the componentwise dot identities
    assert(feq(u, fadd(fmul(rel.0, d.0), fmul(rel.1, d.1)))) by {
        lemma_fadd_cong(pp, fmul(rel.0, d.0), qq, fmul(rel.1, d.1));
        lemma_fops_wf(fmul(rel.0, d.0), fmul(rel.1, d.1));
        lemma_feq_trans(u, fadd(pp, qq), fadd(fmul(rel.0, d.0), fmul(rel.1, d.1)));
    }
    assert(feq(ds, fadd(fmul(d.0, d.0), fmul(d.1, d.1)))) by {
        lemma_fadd_cong(dp, fmul(d.0, d.0), dq, fmul(d.1, d.1));
        lemma_fops_wf(fmul(d.0, d.0), fmul(d.1, d.1));
        lemma_feq_trans(ds, fadd(dp, dq), fadd(fmul(d.0, d.0), fmul(d.1, d.1)));
    }
    lemma_parallel_one(rel.0, rel.1, d.0, d.1, u, ds);
    assert(feq(u, fadd(fmul(rel.1, d.1), fmul(rel.0, d.0)))) by {
        lemma_fadd_assoc(fmul(rel.0, d.0), fmul(rel.1, d.1), u);
    }
    assert(feq(ds, fadd(fmul(d.1, d.1), fmul(d.0, d.0)))) by {
        lemma_fadd_assoc(fmul(d.0, d.0), fmul(d.1, d.1), ds);
    }
    lemma_parallel_one(rel.1, rel.0, d.1, d.0, u, ds);
    // combined impulse values per component
    assert(feq(j1.0, fmul(fmul(d.0, g), im1))) by {
        lemma_fmul_cong(jv.0, fmul(d.0, g), im1, im1);
        lemma_fops_wf(fmul(d.0, g), im1);
        lemma_feq_trans(j1.0, fmul(jv.0, im1), fmul(fmul(d.0, g), im1));
    }
    assert(feq(j1.1, fmul(fmul(d.1, g), im1))) by {
        lemma_fmul_cong(jv.1, fmul(d.1, g), im1, im1);
        lemma_fops_wf(fmul(d.1, g), im1);
        lemma_feq_trans(j1.1, fmul(jv.1, im1), fmul(fmul(d.1, g), im1));
    }
    assert(feq(j2.0, fmul(fmul(d.0, g), im2))) by {
        lemma_fmul_cong(jv.0, fmul(d.0, g), im2, im2);
        lemma_fops_wf(fmul(d.0, g), im2);
        lemma_feq_trans(j2.0, fmul(jv.0, im2), fmul(fmul(d.0, g), im2));
    }
    assert(feq(j2.1, fmul(fmul(d.1, g), im2))) by {
        lemma_fmul_cong(jv.1, fmul(d.1, g), im2, im2);
        lemma_fops_wf(fmul(d.1, g), im2);
        lemma_feq_trans(j2.1, fmul(jv.1, im2), fmul(fmul(d.1, g), im2));
    }
    assert(den.0 != 0);
    lemma_exchange_component(
        d.0,
        rel.0,
        v1.0,
        v2.0,
        g,
        im1,
        im2,
        den,
        tn,
        u,
        ds,
        s,
        j1.0,
        j2.0,
        v1n.0,
        v2n.0,
    );
    lemma_exchange_component(
        d.1,
        rel.1,
        v1.1,
        v2.1,
        g,
        im1,
        im2,
        den,
        tn,
        u,
        ds,
        s,
        j1.1,
        j2.1,
        v1n.1,
        v2n.1,
    );
}

/// Fraction well-formedness of the circles' own fields.
proof fn lemma_common_wf(c1: Circle, c2: Circle)
    ensures
        fwf(c1.rigid_body.velocity@.0),
        fwf(c1.rigid_body.velocity@.1),
        fwf(c2.rigid_body.velocity@.0),
        fwf(c2.rigid_body.velocity@.1),
        fwf(c1.rigid_body.position.x@),
        fwf(c1.rigid_body.position.y@),
        fwf(c2.rigid_body.position.x@),
        fwf(c2.rigid_body.position.y@),
        fwf(c1.material.restitution@),
        fwf(c2.material.restitution@),
        fwf(c1.radius@),
        fwf(c2.radius@),
{
    lemma_rat_wf(c1.rigid_body.velocity.x);
    lemma_rat_wf(c1.rigid_body.velocity.y);
    lemma_rat_wf(c2.rigid_body.velocity.x);
    lemma_rat_wf(c2.rigid_body.velocity.y);
    lemma_rat_wf(c1.rigid_body.position.x);
    lemma_rat_wf(c1.rigid_body.position.y);
    lemma_rat_wf(c2.rigid_body.position.x);
    lemma_rat_wf(c2.rigid_body.position.y);
    lemma_rat_wf(c1.material.restitution);
    lemma_rat_wf(c2.material.restitution);
    lemma_rat_wf(c1.radius);
    lemma_rat_wf(c2.radius);
}

/// The impulse bookkeeping of one velocity component when the first body is
/// immovable and at rest and the collision is fully elastic and head-on: the
/// immovable body stays at rest and the other body's velocity reverses.
proof fn lemma_reflect_component(
    dxc: (int, int),
    relc: (int, int),
    v1c: (int, int),
    v2c: (int, int),
    g: (int, int),
    im2: (int, int),
    den: (int, int),
    tn: (int, int),
    u: (int, int),
    ds: (int, int),
    s: (int, int),
    j1c: (int, int),
    j2c: (int, int),
    v1nc: (int, int),
    v2nc: (int, int),
)
    requires
        fwf(dxc),
        fwf(relc),
        fwf(v1c),
        fwf(v2c),
        fwf(g),
        fwf(im2),
        fwf(den),
        fwf(tn),
        fwf(u),
        fwf(ds),
        fwf(s),
        fwf(j1c),
        fwf(j2c),
        fwf(v1nc),
        fwf(v2nc),
        den.0 != 0,
        feq(v1c, (0int, 1int)),
        feq(relc, fsub(v2c, v1c)),
        feq(fmul(g, den), tn),
        feq(tn, fneg(fmul((2int, 1int), u))),
        feq(den, fmul(ds, s)),
        feq(s, im2),
        feq(fmul(u, dxc), fmul(relc, ds)),
        feq(j1c, (0int, 1int)),
        feq(j2c, fmul(fmul(dxc, g), im2)),
        feq(v1nc, fsub(v1c, j1c)),
        feq(v2nc, fadd(v2c, j2c)),
    ensures
        feq(v1nc, (0int, 1int)),
        feq(v2nc, fneg(v2c)),
{
    let two = (2int, 1int);
    // the immovable body keeps its (zero) velocity
    crate::rational::lemma_fadd_zero(v1c, j1c);
    lemma_fops_wf(v1c, j1c);
    lemma_feq_trans(v1nc, fsub(v1c, j1c), v1c);
    lemma_feq_trans(v1nc, v1c, (0int, 1int));
    // the relative velocity is the second body's velocity
    lemma_fops_wf(v2c, v1c);
    crate::rational::lemma_fadd_zero(v2c, v1c);
    lemma_feq_trans(relc, fsub(v2c, v1c), v2c);
    // the impulse component equals -2 * v2c
    let x = fmul(fmul(dxc, g), im2);
    lemma_fops_wf(dxc, g);
    lemma_fops_wf(fmul(dxc, g), im2);
    lemma_fops_wf(dxc, im2);
    lemma_fops_wf(g, den);
    lemma_fops_wf(two, u);
    lemma_fops_wf(two, im2);
    lemma_fops_wf(u, dxc);
    lemma_fops_wf(relc, ds);
    lemma_fops_wf(fmul(two, im2), fmul(u, dxc));
    lemma_fops_wf(fmul(two, im2), fmul(relc, ds));
    lemma_fops_wf(v2c, ds);
    lemma_fops_wf(fmul(two, im2), fmul(v2c, ds));
    lemma_fops_wf(x, den);
    lemma_fops_wf(fmul(dxc, im2), tn);
    lemma_fops_wf(ds, s);
    lemma_fops_wf(ds, im2);
    lemma_fops_wf((-2int, 1int), v2c);
    let m2v2 = fmul((-2int, 1int), v2c);
    lemma_fops_wf(m2v2, den);
    lemma_fops_wf(m2v2, fmul(ds, s));
    lemma_fops_wf(m2v2, fmul(ds, im2));
    assert(fmul(x, den) == fmul(fmul(dxc, im2), fmul(g, den))) by {
        assert((((dxc.0 * g.0) * im2.0) * den.0 == (dxc.0 * im2.0) * (g.0 * den.0)) && (((dxc.1
            * g.1) * im2.1) * den.1 == (dxc.1 * im2.1) * (g.1 * den.1))) by (nonlinear_arith);
    }
    lemma_fmul_cong(fmul(dxc, im2), fmul(dxc, im2), fmul(g, den), tn);
    lemma_fops_wf(fneg(fmul(two, u)), fneg(fmul(two, u)));
    lemma_fmul_cong(fmul(dxc, im2), fmul(dxc, im2), tn, fneg(fmul(two, u)));
    assert(fmul(fmul(dxc, im2), fneg(fmul(two, u))) == fneg(
        fmul(fmul(two, im2), fmul(u, dxc)),
    )) by {
        assert(((dxc.0 * im2.0) * (-(2 * u.0)) == -((2 * im2.0) * (u.0 * dxc.0))) && ((dxc.1
            * im2.1) * (1 * u.1) == (1 * im2.1) * (u.1 * dxc.1))) by (nonlinear_arith);
    }
    lemma_fmul_cong(fmul(two, im2), fmul(two, im2), fmul(u, dxc), fmul(relc, ds));
    lemma_fmul_cong(relc, v2c, ds, ds);
    lemma_fops_wf(fmul(v2c, ds), fmul(v2c, ds));
    lemma_fmul_cong(fmul(two, im2), fmul(two, im2), fmul(relc, ds), fmul(v2c, ds));
    lemma_feq_trans(
        fmul(fmul(two, im2), fmul(u, dxc)),
        fmul(fmul(two, im2), fmul(relc, ds)),
        fmul(fmul(two, im2), fmul(v2c, ds)),
    );
    lemma_fneg_cong(fmul(fmul(two, im2), fmul(u, dxc)), fmul(fmul(two, im2), fmul(v2c, ds)));
    // the target value -2*v2c, multiplied by the denominator, matches
    lemma_fmul_cong(m2v2, m2v2, den, fmul(ds, s));
    lemma_fmul_cong(ds, ds, s, im2);
    lemma_fmul_cong(m2v2, m2v2, fmul(ds, s), fmul(ds, im2));
    assert(fmul(m2v2, fmul(ds, im2)) == fneg(fmul(fmul(two, im2), fmul(v2c, ds)))) by {
        assert(((-2 * v2c.0) * (ds.0 * im2.0) == -((2 * im2.0) * (v2c.0 * ds.0))) && ((1 * v2c.1)
            * (ds.1 * im2.1) == (1 * im2.1) * (v2c.1 * ds.1))) by (nonlinear_arith);
    }
    let mid = fneg(fmul(fmul(two, im2), fmul(v2c, ds)));
    assert(fwf(mid));
    lemma_feq_trans(fmul(x, den), fmul(fmul(dxc, im2), tn), fmul(fmul(dxc, im2), fneg(fmul(two, u))));
    lemma_feq_trans(
        fmul(x, den),
        fmul(fmul(dxc, im2), fneg(fmul(two, u))),
        fneg(fmul(fmul(two, im2), fmul(v2c, ds))),
    );
    lemma_feq_trans(fmul(m2v2, den), fmul(m2v2, fmul(ds, s)), fmul(m2v2, fmul(ds, im2)));
    assert(feq(mid, fmul(m2v2, den)));
    lemma_feq_trans(fmul(x, den), mid, fmul(m2v2, den));
    assert(!feq(den, (0int, 1int)));
    lemma_fmul_cancel(x, m2v2, den);
    lemma_feq_trans(j2c, x, m2v2);
    // and adding -2*v2c to v2c reverses it
    crate::rational::lemma_fadd_double_neg(v2c, j2c);
    lemma_fops_wf(v2c, j2c);
    lemma_feq_trans(v2nc, fadd(v2c, j2c), fneg(v2c));
}

/// Infinite mass: in an actively colliding, head-on, fully elastic pair whose
/// first body is immovable and at rest, the immovable body stays at rest and
/// the finite-mass body's velocity reverses exactly.
pub proof fn theorem_infinite_mass_reflection(
    c1: Circle,
    c2: Circle,
    u1: BodyUpdate,
    u2: BodyUpdate,
    m2: (int, int),
)
    requires
        spec_resolve_circles(c1, c2) == Ok::<(BodyUpdate, BodyUpdate), EngineError>((u1, u2)),
        actively_colliding(c1, c2),
        head_on(c1, c2),
        mass_view(c1.rigid_body.mass) is None,
        mass_view(c2.rigid_body.mass) == Some(m2),
        feq(c1.rigid_body.velocity@.0, (0int, 1int)),
        feq(c1.rigid_body.velocity@.1, (0int, 1int)),
        feq(c1.material.restitution@, (1int, 1int)),
        feq(c2.material.restitution@, (1int, 1int)),
    ensures
        feq(u1.velocity.0, (0int, 1int)),
        feq(u1.velocity.1, (0int, 1int)),
        feq(u2.velocity.0, fneg(c2.rigid_body.velocity@.0)),
        feq(u2.velocity.1, fneg(c2.rigid_body.velocity@.1)),
{
    let m = spec_min_dist(c1, c2)->Some_0;
    let d = spec_delta(c1, c2)->Some_0;
    let m2v = spec_mul_rat(m, m)->Some_0;
    let ds = crate::algebra::spec_v2_dot(d, d)->Some_0;
    let v1 = c1.rigid_body.velocity@;
    let v2 = c2.rigid_body.velocity@;
    let im1 = spec_inverse_mass(mass_view(c1.rigid_body.mass))->Ok_0;
    let im2 = spec_inverse_mass(mass_view(c2.rigid_body.mass))->Ok_0;
    let rel = crate::algebra::spec_v2_sub(v2, v1)->Some_0;
    let u = crate::algebra::spec_v2_dot(rel, d)->Some_0;
    let s = spec_add_rat(im1, im2)->Some_0;
    let e = if flt(c1.material.restitution@, c2.material.restitution@) {
        c1.material.restitution@
    } else {
        c2.material.restitution@
    };
    let ope = spec_add_rat((1int, 1int), e)->Some_0;
    let t = spec_mul_rat(ope, u)->Some_0;
    let tn = spec_neg_rat(t)->Some_0;
    let den = spec_mul_rat(ds, s)->Some_0;
    let g = spec_div_rat(tn, den)->Some_0;
    let jv = crate::algebra::spec_v2_scale(d, g)->Some_0;
    let j1 = crate::algebra::spec_v2_scale(jv, im1)->Some_0;
    let j2 = crate::algebra::spec_v2_scale(jv, im2)->Some_0;
    let v1n = crate::algebra::spec_v2_sub(v1, j1)->Some_0;
    let v2n = crate::algebra::spec_v2_add(v2, j2)->Some_0;
    assert(im1 == (0int, 1int));
    assert(m2.0 >= 1 && im2 == (m2.1, m2.0));
    lemma_common_wf(c1, c2);
    assert(fwf(m2)) by {
        match c2.rigid_body.mass {
            Mass::Finite(r) => lemma_rat_wf(r),
            Mass::Infinite => (),
        }
    }
    assert(fwf(im1) && fwf(im2));
    // the movable body keeps the pair from being a no-op
    assert(fadd(im1, im2) == im2);
    assert(!feq(s, (0int, 1int))) by {
        lemma_norm_value(im2);
        assert(feq(s, im2));
        assert(flt((0int, 1int), im2));
        lemma_flt_cong((0int, 1int), (0int, 1int), im2, s);
    }
    assert(u1.velocity == v1n && u2.velocity == v2n);
    lemma_fops_wf(c2.rigid_body.position.x@, c1.rigid_body.position.x@);
    lemma_fops_wf(c2.rigid_body.position.y@, c1.rigid_body.position.y@);
    lemma_wf_only(fsub(c2.rigid_body.position.x@, c1.rigid_body.position.x@), d.0);
    lemma_wf_only(fsub(c2.rigid_body.position.y@, c1.rigid_body.position.y@), d.1);
    lemma_fops_wf(v2.0, v1.0);
    lemma_fops_wf(v2.1, v1.1);
    lemma_wf_of_norm(fsub(v2.0, v1.0), rel.0);
    lemma_wf_of_norm(fsub(v2.1, v1.1), rel.1);
    let pp = spec_mul_rat(rel.0, d.0)->Some_0;
    let qq = spec_mul_rat(rel.1, d.1)->Some_0;
    lemma_fops_wf(rel.0, d.0);
    lemma_fops_wf(rel.1, d.1);
    lemma_wf_of_norm(fmul(rel.0, d.0), pp);
    lemma_wf_of_norm(fmul(rel.1, d.1), qq);
    lemma_fops_wf(pp, qq);
    lemma_wf_of_norm(fadd(pp, qq), u);
    let dp = spec_mul_rat(d.0, d.0)->Some_0;
    let dq = spec_mul_rat(d.1, d.1)->Some_0;
    lemma_fops_wf(d.0, d.0);
    lemma_fops_wf(d.1, d.1);
    lemma_wf_of_norm(fmul(d.0, d.0), dp);
    lemma_wf_of_norm(fmul(d.1, d.1), dq);
    lemma_fops_wf(dp, dq);
    lemma_wf_of_norm(fadd(dp, dq), ds);
    lemma_fops_wf(im1, im2);
    lemma_wf_of_norm(fadd(im1, im2), s);
    lemma_fops_wf((1int, 1int), e);
    lemma_wf_of_norm(fadd((1int, 1int), e), ope);
    lemma_fops_wf(ope, u);
    lemma_wf_of_norm(fmul(ope, u), t);
    lemma_fops_wf(t, t);
    lemma_wf_of_norm(fneg(t), tn);
    lemma_fops_wf(ds, s);
    lemma_wf_of_norm(fmul(ds, s), den);
    lemma_fops_wf(tn, den);
    lemma_wf_of_norm(fdiv(tn, den), g);
    lemma_fops_wf(d.0, g);
    lemma_fops_wf(d.1, g);
    lemma_wf_of_norm(fmul(d.0, g), jv.0);
    lemma_wf_of_norm(fmul(d.1, g), jv.1);
    lemma_fops_wf(jv.0, im1);
    lemma_fops_wf(jv.1, im1);
    lemma_fops_wf(jv.0, im2);
    lemma_fops_wf(jv.1, im2);
    lemma_wf_of_norm(fmul(jv.0, im1), j1.0);
    lemma_wf_of_norm(fmul(jv.1, im1), j1.1);
    lemma_wf_of_norm(fmul(jv.0, im2), j2.0);
    lemma_wf_of_norm(fmul(jv.1, im2), j2.1);
    lemma_fops_wf(v1.0, j1.0);
    lemma_fops_wf(v1.1, j1.1);
    lemma_fops_wf(v2.0, j2.0);
    lemma_fops_wf(v2.1, j2.1);
    lemma_wf_of_norm(fsub(v1.0, j1.0), v1n.0);
    lemma_wf_of_norm(fsub(v1.1, j1.1), v1n.1);
    lemma_wf_of_norm(fadd(v2.0, j2.0), v2n.0);
    lemma_wf_of_norm(fadd(v2.1, j2.1), v2n.1);
    // the scaling by a zero inverse mass has value zero
    assert(feq(j1.0, (0int, 1int)) && feq(j1.1, (0int, 1int))) by {
        assert(fmul(jv.0, im1) == (jv.0.0 * 0, jv.0.1 * 1));
        assert(fmul(jv.1, im1) == (jv.1.0 * 0, jv.1.1 * 1));
        assert(feq(fmul(jv.0, im1), (0int, 1int)));
        assert(feq(fmul(jv.1, im1), (0int, 1int)));
        lemma_feq_trans(j1.0, fmul(jv.0, im1), (0int, 1int));
        lemma_feq_trans(j1.1, fmul(jv.1, im1), (0int, 1int));
    }
    // restitution one: the negated numerator has the value -(2u)
    assert(feq(e, (1int, 1int)));
    assert(fwf(e));
    assert(feq(ope, (2int, 1int))) by {
        lemma_fadd_cong((1int, 1int), (1int, 1int), e, (1int, 1int));
        assert(fadd((1int, 1int), (1int, 1int)) == (2int, 1int));
        lemma_feq_trans(ope, fadd((1int, 1int), e), (2int, 1int));
    }
    lemma_fops_wf((2int, 1int), u);
    assert(feq(tn, fneg(fmul((2int, 1int), u)))) by {
        lemma_fmul_cong(ope, (2int, 1int), u, u);
        lemma_feq_trans(t, fmul(ope, u), fmul((2int, 1int), u));
        lemma_fneg_cong(t, fmul((2int, 1int), u));
        lemma_fops_wf(fmul((2int, 1int), u), fmul((2int, 1int), u));
        lemma_feq_trans(tn, fneg(t), fneg(fmul((2int, 1int), u)));
    }
    assert(feq(fmul(g, den), tn)) by {
        lemma_fmul_cong(g, fdiv(tn, den), den, den);
        crate::rational::lemma_fdiv_mul(tn, den);
        lemma_fops_wf(g, den);
        lemma_fops_wf(fdiv(tn, den), den);
        lemma_feq_trans(fmul(g, den), fmul(fdiv(tn, den), den), tn);
    }
    assert(feq(s, im2)) by {
        lemma_norm_value(im2);
    }
    // head-on: the componentwise dot identities
    assert(feq(u, fadd(fmul(rel.0, d.0), fmul(rel.1, d.1)))) by {
        lemma_fadd_cong(pp, fmul(rel.0, d.0), qq, fmul(rel.1, d.1));
        lemma_fops_wf(fmul(rel.0, d.0), fmul(rel.1, d.1));
        lemma_feq_trans(u, fadd(pp, qq), fadd(fmul(rel.0, d.0), fmul(rel.1, d.1)));
    }
    assert(feq(ds, fadd(fmul(d.0, d.0), fmul(d.1, d.1)))) by {
        lemma_fadd_cong(dp, fmul(d.0, d.0), dq, fmul(d.1, d.1));
        lemma_fops_wf(fmul(d.0, d.0), fmul(d.1, d.1));
        lemma_feq_trans(ds, fadd(dp, dq), fadd(fmul(d.0, d.0), fmul(d.1, d.1)));
    }
    lemma_parallel_one(rel.0, rel.1, d.0, d.1, u, ds);
    assert(feq(u, fadd(fmul(rel.1, d.1), fmul(rel.0, d.0)))) by {
        lemma_fadd_assoc(fmul(rel.0, d.0), fmul(rel.1, d.1), u);
    }
    assert(feq(ds, fadd(fmul(d.1, d.1), fmul(d.0, d.0)))) by {
        lemma_fadd_assoc(fmul(d.0, d.0), fmul(d.1, d.1), ds);
    }
    lemma_parallel_one(rel.1, rel.0, d.1, d.0, u, ds);
    assert(feq(j2.0, fmul(fmul(d.0, g), im2))) by {
        lemma_fmul_cong(jv.0, fmul(d.0, g), im2, im2);
        lemma_fops_wf(fmul(d.0, g), im2);
        lemma_feq_trans(j2.0, fmul(jv.0, im2), fmul(fmul(d.0, g), im2));
    }
    assert(feq(j2.1, fmul(fmul(d.1, g), im2))) by {
        lemma_fmul_cong(jv.1, fmul(d.1, g), im2, im2);
        lemma_fops_wf(fmul(d.1, g), im2);
        lemma_feq_trans(j2.1, fmul(jv.1, im2), fmul(fmul(d.1, g), im2));
    }
    assert(den.0 != 0);
    lemma_reflect_component(
        d.0,
        rel.0,
        v1.0,
        v2.0,
        g,
        im2,
        den,
        tn,
        u,
        ds,
        s,
        j1.0,
        j2.0,
        v1n.0,
        v2n.0,
    );
    lemma_reflect_component(
        d.1,
        rel.1,
        v1.1,
        v2.1,
        g,
        im2,
        den,
        tn,
        u,
        ds,
        s,
        j1.1,
        j2.1,
        v1n.1,
        v2n.1,
    );
}

/// The kinetic-energy bookkeeping of one velocity component: for
/// `vn == v - j` with `j == d*k` and `m*k == q`,
/// `m*vn^2 == m*v^2 - 2*q*(v*d) + q*k*d^2` as values.
proof fn lemma_body_energy_component(
    m: (int, int),
    k: (int, int),
    q: (int, int),
    dc: (int, int),
    vc: (int, int),
    jc: (int, int),
    vnc: (int, int),
)
    requires
        fwf(m),
        fwf(k),
        fwf(q),
        fwf(dc),
        fwf(vc),
        fwf(jc),
        fwf(vnc),
        feq(vnc, fsub(vc, jc)),
        feq(jc, fmul(dc, k)),
        feq(fmul(m, k), q),
    ensures
        feq(
            fmul(m, fmul(vnc, vnc)),
            fadd(
                fsub(fmul(m, fmul(vc, vc)), fmul((2int, 1int), fmul(q, fmul(vc, dc)))),
                fmul(q, fmul(k, fmul(dc, dc))),
            ),
        ),
{
    let two = (2int, 1int);
    lemma_fops_wf(vc, jc);
    let sb = fsub(vc, jc);
    lemma_fops_wf(vnc, vnc);
    lemma_fops_wf(sb, sb);
    lemma_fmul_cong(vnc, sb, vnc, sb);
    crate::rational::lemma_fsq_sub(vc, jc);
    lemma_fops_wf(vc, vc);
    lemma_fops_wf(vc, dc);
    lemma_fops_wf(jc, jc);
    lemma_fops_wf(m, k);
    lemma_fops_wf(dc, dc);
    lemma_fops_wf(dc, k);
    lemma_fops_wf(vc, fmul(dc, k));
    lemma_fops_wf(m, jc);
    lemma_fops_wf(dc, q);
    lemma_fops_wf(q, fmul(vc, dc));
    lemma_fops_wf(two, fmul(q, fmul(vc, dc)));
    lemma_fops_wf(vc, fmul(m, jc));
    lemma_fops_wf(vc, fmul(dc, q));
    lemma_fops_wf(m, fmul(vc, jc));
    lemma_fops_wf(two, fmul(m, fmul(vc, jc)));
    lemma_fops_wf(vc, fmul(vc, jc));
    lemma_fops_wf(k, fmul(dc, dc));
    lemma_fops_wf(q, fmul(k, fmul(dc, dc)));
    lemma_fops_wf(fmul(m, k), fmul(k, fmul(dc, dc)));
    let sq = fadd(fsub(fmul(vc, vc), fmul(two, fmul(vc, jc))), fmul(jc, jc));
    lemma_fops_wf(two, fmul(vc, jc));
    lemma_fops_wf(fmul(vc, vc), fmul(two, fmul(vc, jc)));
    lemma_fops_wf(fsub(fmul(vc, vc), fmul(two, fmul(vc, jc))), fmul(jc, jc));
    lemma_feq_trans(fmul(vnc, vnc), fmul(sb, sb), sq);
    lemma_fops_wf(m, fmul(vnc, vnc));
    lemma_fops_wf(m, sq);
    lemma_fmul_cong(m, m, fmul(vnc, vnc), sq);
    // distribute m over the expansion
    crate::rational::lemma_fmul_distrib(
        m,
        fsub(fmul(vc, vc), fmul(two, fmul(vc, jc))),
        fmul(jc, jc),
    );
    crate::rational::lemma_fmul_distrib(m, fmul(vc, vc), fmul(two, fmul(vc, jc)));
    lemma_fops_wf(m, fmul(vc, vc));
    lemma_fops_wf(m, fmul(two, fmul(vc, jc)));
    lemma_fops_wf(m, fsub(fmul(vc, vc), fmul(two, fmul(vc, jc))));
    lemma_fops_wf(m, fmul(jc, jc));
    lemma_fops_wf(fmul(m, fmul(vc, vc)), fmul(m, fmul(two, fmul(vc, jc))));
    lemma_fops_wf(
        fsub(fmul(m, fmul(vc, vc)), fmul(m, fmul(two, fmul(vc, jc)))),
        fmul(m, fmul(jc, jc)),
    );
    lemma_fadd_cong(
        fmul(m, fsub(fmul(vc, vc), fmul(two, fmul(vc, jc)))),
        fsub(fmul(m, fmul(vc, vc)), fmul(m, fmul(two, fmul(vc, jc)))),
        fmul(m, fmul(jc, jc)),
        fmul(m, fmul(jc, jc)),
    );
    lemma_fops_wf(
        fmul(m, fsub(fmul(vc, vc), fmul(two, fmul(vc, jc)))),
        fmul(m, fmul(jc, jc)),
    );
    lemma_feq_trans(
        fmul(m, sq),
        fadd(
            fmul(m, fsub(fmul(vc, vc), fmul(two, fmul(vc, jc)))),
            fmul(m, fmul(jc, jc)),
        ),
        fadd(
            fsub(fmul(m, fmul(vc, vc)), fmul(m, fmul(two, fmul(vc, jc)))),
            fmul(m, fmul(jc, jc)),
        ),
    );
    lemma_feq_trans(
        fmul(m, fmul(vnc, vnc)),
        fmul(m, sq),
        fadd(
            fsub(fmul(m, fmul(vc, vc)), fmul(m, fmul(two, fmul(vc, jc)))),
            fmul(m, fmul(jc, jc)),
        ),
    );
    // the middle term: m * (2*(vc*jc)) has the value 2*(q*(vc*dc))
    assert(fmul(m, fmul(two, fmul(vc, jc))) == fmul(two, fmul(vc, fmul(m, jc)))) by {
        assert((m.0 * (2 * (vc.0 * jc.0)) == 2 * (vc.0 * (m.0 * jc.0))) && (m.1 * (1 * (vc.1
            * jc.1)) == 1 * (vc.1 * (m.1 * jc.1)))) by (nonlinear_arith);
    }
    assert(feq(fmul(m, jc), fmul(dc, q))) by {
        lemma_fmul_cong(m, m, jc, fmul(dc, k));
        assert(fmul(m, fmul(dc, k)) == fmul(dc, fmul(m, k))) by {
            assert((m.0 * (dc.0 * k.0) == dc.0 * (m.0 * k.0)) && (m.1 * (dc.1 * k.1) == dc.1 * (m.1
                * k.1))) by (nonlinear_arith);
        }
        lemma_fmul_cong(dc, dc, fmul(m, k), q);
        lemma_fops_wf(m, fmul(dc, k));
        lemma_fops_wf(dc, fmul(m, k));
        lemma_feq_trans(fmul(m, jc), fmul(m, fmul(dc, k)), fmul(dc, fmul(m, k)));
        lemma_feq_trans(fmul(m, jc), fmul(dc, fmul(m, k)), fmul(dc, q));
    }
    assert(fmul(vc, fmul(dc, q)) == fmul(q, fmul(vc, dc))) by {
        assert((vc.0 * (dc.0 * q.0) == q.0 * (vc.0 * dc.0)) && (vc.1 * (dc.1 * q.1) == q.1 * (vc.1
            * dc.1))) by (nonlinear_arith);
    }
    assert(feq(fmul(m, fmul(two, fmul(vc, jc))), fmul(two, fmul(q, fmul(vc, dc))))) by {
        lemma_fmul_cong(vc, vc, fmul(m, jc), fmul(dc, q));
        lemma_fmul_cong(two, two, fmul(vc, fmul(m, jc)), fmul(vc, fmul(dc, q)));
        lemma_fops_wf(two, fmul(vc, fmul(m, jc)));
        lemma_fops_wf(two, fmul(vc, fmul(dc, q)));
        lemma_feq_trans(
            fmul(m, fmul(two, fmul(vc, jc))),
            fmul(two, fmul(vc, fmul(m, jc))),
            fmul(two, fmul(vc, fmul(dc, q))),
        );
    }
    // the last term: m * jc^2 has the value q*k*dc^2
    assert(feq(fmul(m, fmul(jc, jc)), fmul(q, fmul(k, fmul(dc, dc))))) by {
        lemma_fmul_cong(jc, fmul(dc, k), jc, fmul(dc, k));
        lemma_fops_wf(fmul(dc, k), fmul(dc, k));
        lemma_fmul_cong(m, m, fmul(jc, jc), fmul(fmul(dc, k), fmul(dc, k)));
        assert(fmul(m, fmul(fmul(dc, k), fmul(dc, k))) == fmul(fmul(m, k), fmul(k, fmul(dc, dc))))
            by {
            assert((m.0 * ((dc.0 * k.0) * (dc.0 * k.0)) == (m.0 * k.0) * (k.0 * (dc.0 * dc.0)))
                && (m.1 * ((dc.1 * k.1) * (dc.1 * k.1)) == (m.1 * k.1) * (k.1 * (dc.1
                * dc.1)))) by (nonlinear_arith);
        }
        lemma_fmul_cong(fmul(m, k), q, fmul(k, fmul(dc, dc)), fmul(k, fmul(dc, dc)));
        lemma_fops_wf(m, fmul(fmul(dc, k), fmul(dc, k)));
        lemma_feq_trans(
            fmul(m, fmul(jc, jc)),
            fmul(m, fmul(fmul(dc, k), fmul(dc, k))),
            fmul(fmul(m, k), fmul(k, fmul(dc, dc))),
        );
        lemma_feq_trans(
            fmul(m, fmul(jc, jc)),
            fmul(fmul(m, k), fmul(k, fmul(dc, dc))),
            fmul(q, fmul(k, fmul(dc, dc))),
        );
    }
    // assemble
    lemma_fadd_cong(
        fmul(m, fmul(vc, vc)),
        fmul(m, fmul(vc, vc)),
        fmul(m, fmul(two, fmul(vc, jc))),
        fmul(two, fmul(q, fmul(vc, dc))),
    );
    lemma_fops_wf(fmul(m, fmul(vc, vc)), fmul(two, fmul(q, fmul(vc, dc))));
    lemma_fadd_cong(
        fsub(fmul(m, fmul(vc, vc)), fmul(m, fmul(two, fmul(vc, jc)))),
        fsub(fmul(m, fmul(vc, vc)), fmul(two, fmul(q, fmul(vc, dc)))),
        fmul(m, fmul(jc, jc)),
        fmul(q, fmul(k, fmul(dc, dc))),
    );
    lemma_fops_wf(
        fsub(fmul(m, fmul(vc, vc)), fmul(two, fmul(q, fmul(vc, dc)))),
        fmul(q, fmul(k, fmul(dc, dc))),
    );
    lemma_feq_trans(
        fmul(m, fmul(vnc, vnc)),
        fadd(
            fsub(fmul(m, fmul(vc, vc)), fmul(m, fmul(two, fmul(vc, jc)))),
            fmul(m, fmul(jc, jc)),
        ),
        fadd(
            fsub(fmul(m, fmul(vc, vc)), fmul(two, fmul(q, fmul(vc, dc)))),
            fmul(q, fmul(k, fmul(dc, dc))),
        ),
    );
}

/// Kinetic-energy conservation: a fully elastic resolution between two
/// finite-mass bodies preserves `(m1*|v1|^2 + m2*|v2|^2) / 2` exactly.
pub proof fn theorem_kinetic_energy_conservation(
    c1: Circle,
    c2: Circle,
    u1: BodyUpdate,
    u2: BodyUpdate,
    m1: (int, int),
    m2: (int, int),
)
    requires
        spec_resolve_circles(c1, c2) == Ok::<(BodyUpdate, BodyUpdate), EngineError>((u1, u2)),
        actively_colliding(c1, c2),
        mass_view(c1.rigid_body.mass) == Some(m1),
        mass_view(c2.rigid_body.mass) == Some(m2),
        feq(c1.material.restitution@, (1int, 1int)),
        feq(c2.material.restitution@, (1int, 1int)),
    ensures
        feq(
            fmul(
                (1int, 2int),
                fadd(
                    fmul(m1, fadd(fmul(u1.velocity.0, u1.velocity.0), fmul(u1.velocity.1, u1.velocity.1))),
                    fmul(m2, fadd(fmul(u2.velocity.0, u2.velocity.0), fmul(u2.velocity.1, u2.velocity.1))),
                ),
            ),
            fmul(
                (1int, 2int),
                fadd(
                    fmul(
                        m1,
                        fadd(
                            fmul(c1.rigid_body.velocity@.0, c1.rigid_body.velocity@.0),
                            fmul(c1.rigid_body.velocity@.1, c1.rigid_body.velocity@.1),
                        ),
                    ),
                    fmul(
                        m2,
                        fadd(
                            fmul(c2.rigid_body.velocity@.0, c2.rigid_body.velocity@.0),
                            fmul(c2.rigid_body.velocity@.1, c2.rigid_body.velocity@.1),
                        ),
                    ),
                ),
            ),
        ),
{
    let two = (2int, 1int);
    let m = spec_min_dist(c1, c2)->Some_0;
    let d = spec_delta(c1, c2)->Some_0;
    let m2v = spec_mul_rat(m, m)->Some_0;
    let ds = crate::algebra::spec_v2_dot(d, d)->Some_0;
    let v1 = c1.rigid_body.velocity@;
    let v2 = c2.rigid_body.velocity@;
    let im1 = spec_inverse_mass(mass_view(c1.rigid_body.mass))->Ok_0;
    let im2 = spec_inverse_mass(mass_view(c2.rigid_body.mass))->Ok_0;
    let rel = crate::algebra::spec_v2_sub(v2, v1)->Some_0;
    let u = crate::algebra::spec_v2_dot(rel, d)->Some_0;
    let s = spec_add_rat(im1, im2)->Some_0;
    let e = if flt(c1.material.restitution@, c2.material.restitution@) {
        c1.material.restitution@
    } else {
        c2.material.restitution@
    };
    let ope = spec_add_rat((1int, 1int), e)->Some_0;
    let t = spec_mul_rat(ope, u)->Some_0;
    let tn = spec_neg_rat(t)->Some_0;
    let den = spec_mul_rat(ds, s)->Some_0;
    let g = spec_div_rat(tn, den)->Some_0;
    let jv = crate::algebra::spec_v2_scale(d, g)->Some_0;
    let j1 = crate::algebra::spec_v2_scale(jv, im1)->Some_0;
    let j2 = crate::algebra::spec_v2_scale(jv, im2)->Some_0;
    let v1n = crate::algebra::spec_v2_sub(v1, j1)->Some_0;
    let v2n = crate::algebra::spec_v2_add(v2, j2)->Some_0;
    assert(m1.0 >= 1 && im1 == (m1.1, m1.0));
    assert(m2.0 >= 1 && im2 == (m2.1, m2.0));
    lemma_common_wf(c1, c2);
    assert(fwf(m1) && fwf(m2)) by {
        match c1.rigid_body.mass {
            Mass::Finite(r) => lemma_rat_wf(r),
            Mass::Infinite => (),
        }
        match c2.rigid_body.mass {
            Mass::Finite(r) => lemma_rat_wf(r),
            Mass::Infinite => (),
        }
    }
    assert(fwf(im1) && fwf(im2));
    assert(!feq(s, (0int, 1int))) by {
        lemma_fops_wf(im1, im2);
        lemma_wf_only(fadd(im1, im2), s);
        lemma_fadd_pos(im1, im2);
        lemma_norm_value(fadd(im1, im2));
        lemma_flt_cong((0int, 1int), (0int, 1int), fadd(im1, im2), s);
    }
    assert(u1.velocity == v1n && u2.velocity == v2n);
    lemma_fops_wf(c2.rigid_body.position.x@, c1.rigid_body.position.x@);
    lemma_fops_wf(c2.rigid_body.position.y@, c1.rigid_body.position.y@);
    lemma_wf_only(fsub(c2.rigid_body.position.x@, c1.rigid_body.position.x@), d.0);
    lemma_wf_only(fsub(c2.rigid_body.position.y@, c1.rigid_body.position.y@), d.1);
    lemma_fops_wf(v2.0, v1.0);
    lemma_fops_wf(v2.1, v1.1);
    lemma_wf_of_norm(fsub(v2.0, v1.0), rel.0);
    lemma_wf_of_norm(fsub(v2.1, v1.1), rel.1);
    let pp = spec_mul_rat(rel.0, d.0)->Some_0;
    let qq = spec_mul_rat(rel.1, d.1)->Some_0;
    lemma_fops_wf(rel.0, d.0);
    lemma_fops_wf(rel.1, d.1);
    lemma_wf_of_norm(fmul(rel.0, d.0), pp);
    lemma_wf_of_norm(fmul(rel.1, d.1), qq);
    lemma_fops_wf(pp, qq);
    lemma_wf_of_norm(fadd(pp, qq), u);
    let dp = spec_mul_rat(d.0, d.0)->Some_0;
    let dq = spec_mul_rat(d.1, d.1)->Some_0;
    lemma_fops_wf(d.0, d.0);
    lemma_fops_wf(d.1, d.1);
    lemma_wf_of_norm(fmul(d.0, d.0), dp);
    lemma_wf_of_norm(fmul(d.1, d.1), dq);
    lemma_fops_wf(dp, dq);
    lemma_wf_of_norm(fadd(dp, dq), ds);
    lemma_fops_wf(im1, im2);
    lemma_wf_of_norm(fadd(im1, im2), s);
    lemma_fops_wf((1int, 1int), e);
    lemma_wf_of_norm(fadd((1int, 1int), e), ope);
    lemma_fops_wf(ope, u);
    lemma_wf_of_norm(fmul(ope, u), t);
    lemma_fops_wf(t, t);
    lemma_wf_of_norm(fneg(t), tn);
    lemma_fops_wf(ds, s);
    lemma_wf_of_norm(fmul(ds, s), den);
    lemma_fops_wf(tn, den);
    lemma_wf_of_norm(fdiv(tn, den), g);
    lemma_fops_wf(d.0, g);
    lemma_fops_wf(d.1, g);
    lemma_wf_of_norm(fmul(d.0, g), jv.0);
    lemma_wf_of_norm(fmul(d.1, g), jv.1);
    lemma_fops_wf(jv.0, im1);
    lemma_fops_wf(jv.1, im1);
    lemma_fops_wf(jv.0, im2);
    lemma_fops_wf(jv.1, im2);
    lemma_wf_of_norm(fmul(jv.0, im1), j1.0);
    lemma_wf_of_norm(fmul(jv.1, im1), j1.1);
    lemma_wf_of_norm(fmul(jv.0, im2), j2.0);
    lemma_wf_of_norm(fmul(jv.1, im2), j2.1);
    lemma_fops_wf(v1.0, j1.0);
    lemma_fops_wf(v1.1, j1.1);
    lemma_fops_wf(v2.0, j2.0);
    lemma_fops_wf(v2.1, j2.1);
    lemma_wf_of_norm(fsub(v1.0, j1.0), v1n.0);
    lemma_wf_of_norm(fsub(v1.1, j1.1), v1n.1);
    lemma_wf_of_norm(fadd(v2.0, j2.0), v2n.0);
    lemma_wf_of_norm(fadd(v2.1, j2.1), v2n.1);
    assert(feq(fmul(m1, im1), (1int, 1int))) by {
        vstd::arithmetic::mul::lemma_mul_is_commutative(m1.0, m1.1);
    }
    assert(feq(fmul(m2, im2), (1int, 1int))) by {
        vstd::arithmetic::mul::lemma_mul_is_commutative(m2.0, m2.1);
    }
    // restitution one: the negated numerator has the value -(2u)
    assert(feq(e, (1int, 1int)));
    assert(fwf(e));
    assert(feq(ope, two)) by {
        lemma_fadd_cong((1int, 1int), (1int, 1int), e, (1int, 1int));
        assert(fadd((1int, 1int), (1int, 1int)) == (2int, 1int));
        lemma_feq_trans(ope, fadd((1int, 1int), e), two);
    }
    lemma_fops_wf(two, u);
    assert(feq(tn, fneg(fmul(two, u)))) by {
        lemma_fmul_cong(ope, two, u, u);
        lemma_feq_trans(t, fmul(ope, u), fmul(two, u));
        lemma_fneg_cong(t, fmul(two, u));
        lemma_fops_wf(fmul(two, u), fmul(two, u));
        lemma_feq_trans(tn, fneg(t), fneg(fmul(two, u)));
    }
    assert(feq(fmul(g, den), tn)) by {
        lemma_fmul_cong(g, fdiv(tn, den), den, den);
        crate::rational::lemma_fdiv_mul(tn, den);
        lemma_fops_wf(g, den);
        lemma_fops_wf(fdiv(tn, den), den);
        lemma_feq_trans(fmul(g, den), fmul(fdiv(tn, den), den), tn);
    }
    // body parameters for the energy bookkeeping
    let k1 = fmul(g, im1);
    let gim2 = fmul(g, im2);
    let k2 = fneg(gim2);
    let qn = fneg(g);
    lemma_fops_wf(g, im1);
    lemma_fops_wf(g, im2);
    assert(fwf(k1) && fwf(gim2) && fwf(k2) && fwf(qn));
    // j1 components have the value d*k1
    assert(feq(j1.0, fmul(d.0, k1))) by {
        lemma_fmul_cong(jv.0, fmul(d.0, g), im1, im1);
        lemma_fmul_assoc(d.0, g, im1);
        lemma_fops_wf(fmul(d.0, g), im1);
        lemma_feq_trans(j1.0, fmul(jv.0, im1), fmul(fmul(d.0, g), im1));
    }
    assert(feq(j1.1, fmul(d.1, k1))) by {
        lemma_fmul_cong(jv.1, fmul(d.1, g), im1, im1);
        lemma_fmul_assoc(d.1, g, im1);
        lemma_fops_wf(fmul(d.1, g), im1);
        lemma_feq_trans(j1.1, fmul(jv.1, im1), fmul(fmul(d.1, g), im1));
    }
    // m1*k1 has the value g
    assert(feq(fmul(m1, k1), g)) by {
        assert(fmul(m1, fmul(g, im1)) == fmul(g, fmul(m1, im1))) by {
            assert((m1.0 * (g.0 * im1.0) == g.0 * (m1.0 * im1.0)) && (m1.1 * (g.1 * im1.1) == g.1
                * (m1.1 * im1.1))) by (nonlinear_arith);
        }
        lemma_fops_wf(m1, im1);
        lemma_fmul_one(g, fmul(m1, im1));
    }
    // the negated j2 components have the value d*k2
    let nj2x = fneg(j2.0);
    let nj2y = fneg(j2.1);
    assert(fwf(nj2x) && fwf(nj2y));
    assert(feq(nj2x, fmul(d.0, k2))) by {
        lemma_fmul_cong(jv.0, fmul(d.0, g), im2, im2);
        lemma_fmul_assoc(d.0, g, im2);
        lemma_fops_wf(fmul(d.0, g), im2);
        lemma_feq_trans(j2.0, fmul(jv.0, im2), fmul(d.0, gim2));
        lemma_fneg_cong(j2.0, fmul(d.0, gim2));
        crate::rational::lemma_fmul_neg(d.0, gim2);
        lemma_fops_wf(d.0, gim2);
        lemma_fops_wf(fneg(fmul(d.0, gim2)), fneg(fmul(d.0, gim2)));
        lemma_feq_trans(nj2x, fneg(fmul(d.0, gim2)), fmul(d.0, k2));
    }
    assert(feq(nj2y, fmul(d.1, k2))) by {
        lemma_fmul_cong(jv.1, fmul(d.1, g), im2, im2);
        lemma_fmul_assoc(d.1, g, im2);
        lemma_fops_wf(fmul(d.1, g), im2);
        lemma_feq_trans(j2.1, fmul(jv.1, im2), fmul(d.1, gim2));
        lemma_fneg_cong(j2.1, fmul(d.1, gim2));
        crate::rational::lemma_fmul_neg(d.1, gim2);
        lemma_fops_wf(d.1, gim2);
        lemma_fops_wf(fneg(fmul(d.1, gim2)), fneg(fmul(d.1, gim2)));
        lemma_feq_trans(nj2y, fneg(fmul(d.1, gim2)), fmul(d.1, k2));
    }
    // m2*k2 has the value -g
    assert(feq(fmul(m2, k2), qn)) by {
        crate::rational::lemma_fmul_neg(m2, gim2);
        assert(fmul(m2, gim2) == fmul(g, fmul(m2, im2))) by {
            assert((m2.0 * (g.0 * im2.0) == g.0 * (m2.0 * im2.0)) && (m2.1 * (g.1 * im2.1) == g.1
                * (m2.1 * im2.1))) by (nonlinear_arith);
        }
        lemma_fops_wf(m2, im2);
        lemma_fmul_one(g, fmul(m2, im2));
        lemma_fops_wf(m2, gim2);
        lemma_fneg_cong(fmul(m2, gim2), g);
    }
    // the second body's update is also a subtraction, of the negated impulse
    assert(feq(v2n.0, fsub(v2.0, nj2x))) by {
        crate::rational::lemma_fsub_is_fadd_neg(v2.0, nj2x);
        assert(fneg(nj2x) == j2.0);
        assert(fsub(v2.0, nj2x) == fadd(v2.0, j2.0));
    }
    assert(feq(v2n.1, fsub(v2.1, nj2y))) by {
        crate::rational::lemma_fsub_is_fadd_neg(v2.1, nj2y);
        assert(fneg(nj2y) == j2.1);
        assert(fsub(v2.1, nj2y) == fadd(v2.1, j2.1));
    }
    // per-component energy bookkeeping
    lemma_body_energy_component(m1, k1, g, d.0, v1.0, j1.0, v1n.0);
    lemma_body_energy_component(m1, k1, g, d.1, v1.1, j1.1, v1n.1);
    lemma_body_energy_component(m2, k2, qn, d.0, v2.0, nj2x, v2n.0);
    lemma_body_energy_component(m2, k2, qn, d.1, v2.1, nj2y, v2n.1);
    assert(feq(u, fadd(fmul(rel.0, d.0), fmul(rel.1, d.1)))) by {
        lemma_fadd_cong(pp, fmul(rel.0, d.0), qq, fmul(rel.1, d.1));
        lemma_fops_wf(fmul(rel.0, d.0), fmul(rel.1, d.1));
        lemma_feq_trans(u, fadd(pp, qq), fadd(fmul(rel.0, d.0), fmul(rel.1, d.1)));
    }
    assert(feq(ds, fadd(fmul(d.0, d.0), fmul(d.1, d.1)))) by {
        lemma_fadd_cong(dp, fmul(d.0, d.0), dq, fmul(d.1, d.1));
        lemma_fops_wf(fmul(d.0, d.0), fmul(d.1, d.1));
        lemma_feq_trans(ds, fadd(dp, dq), fadd(fmul(d.0, d.0), fmul(d.1, d.1)));
    }
    assert(feq(s, fadd(im1, im2)));
    lemma_energy_sum(m1, m2, im1, im2, g, d, v1, v2, rel, u, ds, s, den, tn, v1n, v2n);
    // and the one-half factor carries the equality to the kinetic energies
    let sum_after = fadd(
        fmul(m1, fadd(fmul(v1n.0, v1n.0), fmul(v1n.1, v1n.1))),
        fmul(m2, fadd(fmul(v2n.0, v2n.0), fmul(v2n.1, v2n.1))),
    );
    let sum_before = fadd(
        fmul(m1, fadd(fmul(v1.0, v1.0), fmul(v1.1, v1.1))),
        fmul(m2, fadd(fmul(v2.0, v2.0), fmul(v2.1, v2.1))),
    );
    assert(feq(sum_after, sum_before));
    lemma_sum_wf_half(m1, m2, v1n, v2n);
    lemma_sum_wf_half(m1, m2, v1, v2);
    lemma_fmul_cong((1int, 2int), (1int, 2int), sum_after, sum_before);
}

/// The doubled kinetic-energy sum is well-formed.
proof fn lemma_sum_wf_half(
    m1: (int, int),
    m2: (int, int),
    w1: ((int, int), (int, int)),
    w2: ((int, int), (int, int)),
)
    requires
        fwf(m1),
        fwf(m2),
        fwf(w1.0),
        fwf(w1.1),
        fwf(w2.0),
        fwf(w2.1),
    ensures
        fwf(
            fadd(
                fmul(m1, fadd(fmul(w1.0, w1.0), fmul(w1.1, w1.1))),
                fmul(m2, fadd(fmul(w2.0, w2.0), fmul(w2.1, w2.1))),
            ),
        ),
{
    lemma_fops_wf(w1.0, w1.0);
    lemma_fops_wf(w1.1, w1.1);
    lemma_fops_wf(w2.0, w2.0);
    lemma_fops_wf(w2.1, w2.1);
    lemma_fops_wf(fmul(w1.0, w1.0), fmul(w1.1, w1.1));
    lemma_fops_wf(fmul(w2.0, w2.0), fmul(w2.1, w2.1));
    lemma_fops_wf(m1, fadd(fmul(w1.0, w1.0), fmul(w1.1, w1.1)));
    lemma_fops_wf(m2, fadd(fmul(w2.0, w2.0), fmul(w2.1, w2.1)));
    lemma_fops_wf(
        fmul(m1, fadd(fmul(w1.0, w1.0), fmul(w1.1, w1.1))),
        fmul(m2, fadd(fmul(w2.0, w2.0), fmul(w2.1, w2.1))),
    );
}

/// Summing the four per-component energy expansions: the cross terms cancel
/// against the squared-impulse terms, leaving the original energy sum.
proof fn lemma_energy_sum(
    m1: (int, int),
    m2: (int, int),
    im1: (int, int),
    im2: (int, int),
    g: (int, int),
    d: ((int, int), (int, int)),
    v1: ((int, int), (int, int)),
    v2: ((int, int), (int, int)),
    rel: ((int, int), (int, int)),
    u: (int, int),
    ds: (int, int),
    s: (int, int),
    den: (int, int),
    tn: (int, int),
    v1n: ((int, int), (int, int)),
    v2n: ((int, int), (int, int)),
)
    requires
        fwf(m1),
        fwf(m2),
        fwf(im1),
        fwf(im2),
        fwf(g),
        fwf(d.0),
        fwf(d.1),
        fwf(v1.0),
        fwf(v1.1),
        fwf(v2.0),
        fwf(v2.1),
        fwf(rel.0),
        fwf(rel.1),
        fwf(u),
        fwf(ds),
        fwf(s),
        fwf(den),
        fwf(tn),
        fwf(v1n.0),
        fwf(v1n.1),
        fwf(v2n.0),
        fwf(v2n.1),
        feq(rel.0, fsub(v2.0, v1.0)),
        feq(rel.1, fsub(v2.1, v1.1)),
        feq(u, fadd(fmul(rel.0, d.0), fmul(rel.1, d.1))),
        feq(ds, fadd(fmul(d.0, d.0), fmul(d.1, d.1))),
        feq(s, fadd(im1, im2)),
        feq(den, fmul(ds, s)),
        feq(fmul(g, den), tn),
        feq(tn, fneg(fmul((2int, 1int), u))),
        feq(
            fmul(m1, fmul(v1n.0, v1n.0)),
            fadd(
                fsub(fmul(m1, fmul(v1.0, v1.0)), fmul((2int, 1int), fmul(g, fmul(v1.0, d.0)))),
                fmul(g, fmul(fmul(g, im1), fmul(d.0, d.0))),
            ),
        ),
        feq(
            fmul(m1, fmul(v1n.1, v1n.1)),
            fadd(
                fsub(fmul(m1, fmul(v1.1, v1.1)), fmul((2int, 1int), fmul(g, fmul(v1.1, d.1)))),
                fmul(g, fmul(fmul(g, im1), fmul(d.1, d.1))),
            ),
        ),
        feq(
            fmul(m2, fmul(v2n.0, v2n.0)),
            fadd(
                fsub(
                    fmul(m2, fmul(v2.0, v2.0)),
                    fmul((2int, 1int), fmul(fneg(g), fmul(v2.0, d.0))),
                ),
                fmul(fneg(g), fmul(fneg(fmul(g, im2)), fmul(d.0, d.0))),
            ),
        ),
        feq(
            fmul(m2, fmul(v2n.1, v2n.1)),
            fadd(
                fsub(
                    fmul(m2, fmul(v2.1, v2.1)),
                    fmul((2int, 1int), fmul(fneg(g), fmul(v2.1, d.1))),
                ),
                fmul(fneg(g), fmul(fneg(fmul(g, im2)), fmul(d.1, d.1))),
            ),
        ),
    ensures
        feq(
            fadd(
                fmul(m1, fadd(fmul(v1n.0, v1n.0), fmul(v1n.1, v1n.1))),
                fmul(m2, fadd(fmul(v2n.0, v2n.0), fmul(v2n.1, v2n.1))),
            ),
            fadd(
                fmul(m1, fadd(fmul(v1.0, v1.0), fmul(v1.1, v1.1))),
                fmul(m2, fadd(fmul(v2.0, v2.0), fmul(v2.1, v2.1))),
            ),
        ),
{
    let two = (2int, 1int);
    let qn = fneg(g);
    let k1 = fmul(g, im1);
    let gim2 = fmul(g, im2);
    let k2 = fneg(gim2);
    let w1x = fmul(m1, fmul(v1.0, v1.0));
    let w1y = fmul(m1, fmul(v1.1, v1.1));
    let w2x = fmul(m2, fmul(v2.0, v2.0));
    let w2y = fmul(m2, fmul(v2.1, v2.1));
    let p1x = fmul(two, fmul(g, fmul(v1.0, d.0)));
    let p1y = fmul(two, fmul(g, fmul(v1.1, d.1)));
    let p2x = fmul(two, fmul(qn, fmul(v2.0, d.0)));
    let p2y = fmul(two, fmul(qn, fmul(v2.1, d.1)));
    let q1x = fmul(g, fmul(k1, fmul(d.0, d.0)));
    let q1y = fmul(g, fmul(k1, fmul(d.1, d.1)));
    let q2x = fmul(qn, fmul(k2, fmul(d.0, d.0)));
    let q2y = fmul(qn, fmul(k2, fmul(d.1, d.1)));
    let aa = fadd(fmul(v1.0, d.0), fmul(v1.1, d.1));
    let bb = fadd(fmul(v2.0, d.0), fmul(v2.1, d.1));
    let dss = fadd(fmul(d.0, d.0), fmul(d.1, d.1));
    // well-formedness of the pieces
    lemma_fops_wf(v1.0, v1.0);
    lemma_fops_wf(v1.1, v1.1);
    lemma_fops_wf(v2.0, v2.0);
    lemma_fops_wf(v2.1, v2.1);
    lemma_fops_wf(v1n.0, v1n.0);
    lemma_fops_wf(v1n.1, v1n.1);
    lemma_fops_wf(v2n.0, v2n.0);
    lemma_fops_wf(v2n.1, v2n.1);
    lemma_fops_wf(m1, fmul(v1.0, v1.0));
    lemma_fops_wf(m1, fmul(v1.1, v1.1));
    lemma_fops_wf(m2, fmul(v2.0, v2.0));
    lemma_fops_wf(m2, fmul(v2.1, v2.1));
    lemma_fops_wf(m1, fmul(v1n.0, v1n.0));
    lemma_fops_wf(m1, fmul(v1n.1, v1n.1));
    lemma_fops_wf(m2, fmul(v2n.0, v2n.0));
    lemma_fops_wf(m2, fmul(v2n.1, v2n.1));
    lemma_fops_wf(v1.0, d.0);
    lemma_fops_wf(v1.1, d.1);
    lemma_fops_wf(v2.0, d.0);
    lemma_fops_wf(v2.1, d.1);
    lemma_fops_wf(g, im1);
    lemma_fops_wf(g, im2);
    assert(fwf(qn) && fwf(k1) && fwf(gim2) && fwf(k2));
    lemma_fops_wf(g, fmul(v1.0, d.0));
    lemma_fops_wf(g, fmul(v1.1, d.1));
    lemma_fops_wf(qn, fmul(v2.0, d.0));
    lemma_fops_wf(qn, fmul(v2.1, d.1));
    lemma_fops_wf(two, fmul(g, fmul(v1.0, d.0)));
    lemma_fops_wf(two, fmul(g, fmul(v1.1, d.1)));
    lemma_fops_wf(two, fmul(qn, fmul(v2.0, d.0)));
    lemma_fops_wf(two, fmul(qn, fmul(v2.1, d.1)));
    lemma_fops_wf(d.0, d.0);
    lemma_fops_wf(d.1, d.1);
    lemma_fops_wf(k1, fmul(d.0, d.0));
    lemma_fops_wf(k1, fmul(d.1, d.1));
    lemma_fops_wf(k2, fmul(d.0, d.0));
    lemma_fops_wf(k2, fmul(d.1, d.1));
    lemma_fops_wf(g, fmul(k1, fmul(d.0, d.0)));
    lemma_fops_wf(g, fmul(k1, fmul(d.1, d.1)));
    lemma_fops_wf(qn, fmul(k2, fmul(d.0, d.0)));
    lemma_fops_wf(qn, fmul(k2, fmul(d.1, d.1)));
    lemma_fops_wf(fmul(v1.0, d.0), fmul(v1.1, d.1));
    lemma_fops_wf(fmul(v2.0, d.0), fmul(v2.1, d.1));
    lemma_fops_wf(fmul(d.0, d.0), fmul(d.1, d.1));
    lemma_fops_wf(w1x, w1y);
    lemma_fops_wf(w2x, w2y);
    lemma_fops_wf(p1x, p1y);
    lemma_fops_wf(p2x, p2y);
    lemma_fops_wf(q1x, q1y);
    lemma_fops_wf(q2x, q2y);
    // the sum of the per-component expansions, regrouped per body
    let c1x = fadd(fsub(w1x, p1x), q1x);
    let c1y = fadd(fsub(w1y, p1y), q1y);
    let c2xc = fadd(fsub(w2x, p2x), q2x);
    let c2yc = fadd(fsub(w2y, p2y), q2y);
    lemma_fops_wf(w1x, p1x);
    lemma_fops_wf(w1y, p1y);
    lemma_fops_wf(w2x, p2x);
    lemma_fops_wf(w2y, p2y);
    lemma_fops_wf(fsub(w1x, p1x), q1x);
    lemma_fops_wf(fsub(w1y, p1y), q1y);
    lemma_fops_wf(fsub(w2x, p2x), q2x);
    lemma_fops_wf(fsub(w2y, p2y), q2y);
    crate::rational::lemma_fmul_distrib(m1, fmul(v1n.0, v1n.0), fmul(v1n.1, v1n.1));
    crate::rational::lemma_fmul_distrib(m2, fmul(v2n.0, v2n.0), fmul(v2n.1, v2n.1));
    lemma_fops_wf(fmul(v1n.0, v1n.0), fmul(v1n.1, v1n.1));
    lemma_fops_wf(fmul(v2n.0, v2n.0), fmul(v2n.1, v2n.1));
    lemma_fops_wf(m1, fadd(fmul(v1n.0, v1n.0), fmul(v1n.1, v1n.1)));
    lemma_fops_wf(m2, fadd(fmul(v2n.0, v2n.0), fmul(v2n.1, v2n.1)));
    lemma_fadd_cong(fmul(m1, fmul(v1n.0, v1n.0)), c1x, fmul(m1, fmul(v1n.1, v1n.1)), c1y);
    lemma_fadd_cong(fmul(m2, fmul(v2n.0, v2n.0)), c2xc, fmul(m2, fmul(v2n.1, v2n.1)), c2yc);
    lemma_fops_wf(fmul(m1, fmul(v1n.0, v1n.0)), fmul(m1, fmul(v1n.1, v1n.1)));
    lemma_fops_wf(fmul(m2, fmul(v2n.0, v2n.0)), fmul(m2, fmul(v2n.1, v2n.1)));
    lemma_fops_wf(c1x, c1y);
    lemma_fops_wf(c2xc, c2yc);
    crate::rational::lemma_fadd_regroup6(w1x, p1x, q1x, w1y, p1y, q1y);
    crate::rational::lemma_fadd_regroup6(w2x, p2x, q2x, w2y, p2y, q2y);
    let s1 = fadd(w1x, w1y);
    let s2 = fadd(w2x, w2y);
    let psum1 = fadd(p1x, p1y);
    let psum2 = fadd(p2x, p2y);
    let qsum1 = fadd(q1x, q1y);
    let qsum2 = fadd(q2x, q2y);
    lemma_fops_wf(s1, psum1);
    lemma_fops_wf(s2, psum2);
    lemma_fops_wf(fsub(s1, psum1), qsum1);
    lemma_fops_wf(fsub(s2, psum2), qsum2);
    // m_i * |v_in|^2 has the regrouped value
    let t1 = fadd(fsub(s1, psum1), qsum1);
    let t2 = fadd(fsub(s2, psum2), qsum2);
    lemma_feq_trans(
        fmul(m1, fadd(fmul(v1n.0, v1n.0), fmul(v1n.1, v1n.1))),
        fadd(fmul(m1, fmul(v1n.0, v1n.0)), fmul(m1, fmul(v1n.1, v1n.1))),
        fadd(c1x, c1y),
    );
    lemma_feq_trans(
        fmul(m2, fadd(fmul(v2n.0, v2n.0), fmul(v2n.1, v2n.1))),
        fadd(fmul(m2, fmul(v2n.0, v2n.0)), fmul(m2, fmul(v2n.1, v2n.1))),
        fadd(c2xc, c2yc),
    );
    assert(fadd(c1x, c1y) == t1);
    assert(fadd(c2xc, c2yc) == t2);
    // the whole after-sum, regrouped across the two bodies
    let after = fadd(
        fmul(m1, fadd(fmul(v1n.0, v1n.0), fmul(v1n.1, v1n.1))),
        fmul(m2, fadd(fmul(v2n.0, v2n.0), fmul(v2n.1, v2n.1))),
    );
    lemma_fadd_cong(
        fmul(m1, fadd(fmul(v1n.0, v1n.0), fmul(v1n.1, v1n.1))),
        t1,
        fmul(m2, fadd(fmul(v2n.0, v2n.0), fmul(v2n.1, v2n.1))),
        t2,
    );
    lemma_fops_wf(t1, t2);
    crate::rational::lemma_fadd_regroup6(s1, psum1, qsum1, s2, psum2, qsum2);
    let big_s = fadd(s1, s2);
    let big_p = fadd(psum1, psum2);
    let big_q = fadd(qsum1, qsum2);
    assert(fadd(t1, t2) == fadd(fsub(big_s, big_p), big_q));
    lemma_fops_wf(s1, s2);
    lemma_fops_wf(psum1, psum2);
    lemma_fops_wf(qsum1, qsum2);
    lemma_fops_wf(big_s, big_p);
    lemma_fops_wf(fsub(big_s, big_p), big_q);
    lemma_fops_wf(
        fmul(m1, fadd(fmul(v1n.0, v1n.0), fmul(v1n.1, v1n.1))),
        fmul(m2, fadd(fmul(v2n.0, v2n.0), fmul(v2n.1, v2n.1))),
    );
    lemma_feq_trans(after, fadd(t1, t2), fadd(fsub(big_s, big_p), big_q));
    // u has the value bb - aa
    lemma_fops_wf(bb, aa);
    assert(feq(u, fsub(bb, aa))) by {
        lemma_fops_wf(v2.0, v1.0);
        lemma_fops_wf(v2.1, v1.1);
        lemma_fops_wf(rel.0, d.0);
        lemma_fops_wf(rel.1, d.1);
        lemma_fmul_cong(rel.0, fsub(v2.0, v1.0), d.0, d.0);
        lemma_fmul_cong(rel.1, fsub(v2.1, v1.1), d.1, d.1);
        lemma_fops_wf(fsub(v2.0, v1.0), d.0);
        lemma_fops_wf(fsub(v2.1, v1.1), d.1);
        assert(fmul(fsub(v2.0, v1.0), d.0) == fmul(d.0, fsub(v2.0, v1.0))) by {
            lemma_fmul_assoc(fsub(v2.0, v1.0), d.0, d.0);
        }
        assert(fmul(fsub(v2.1, v1.1), d.1) == fmul(d.1, fsub(v2.1, v1.1))) by {
            lemma_fmul_assoc(fsub(v2.1, v1.1), d.1, d.1);
        }
        crate::rational::lemma_fmul_distrib(d.0, v2.0, v1.0);
        crate::rational::lemma_fmul_distrib(d.1, v2.1, v1.1);
        assert(fsub(fmul(d.0, v2.0), fmul(d.0, v1.0)) == fsub(fmul(v2.0, d.0), fmul(v1.0, d.0)))
            by {
            lemma_fmul_assoc(d.0, v2.0, v2.0);
            lemma_fmul_assoc(d.0, v1.0, v1.0);
        }
        assert(fsub(fmul(d.1, v2.1), fmul(d.1, v1.1)) == fsub(fmul(v2.1, d.1), fmul(v1.1, d.1)))
            by {
            lemma_fmul_assoc(d.1, v2.1, v2.1);
            lemma_fmul_assoc(d.1, v1.1, v1.1);
        }
        lemma_fops_wf(d.0, v2.0);
        lemma_fops_wf(d.0, v1.0);
        lemma_fops_wf(d.1, v2.1);
        lemma_fops_wf(d.1, v1.1);
        lemma_fops_wf(fmul(v2.0, d.0), fmul(v1.0, d.0));
        lemma_fops_wf(fmul(v2.1, d.1), fmul(v1.1, d.1));
        lemma_fops_wf(d.0, fsub(v2.0, v1.0));
        lemma_fops_wf(d.1, fsub(v2.1, v1.1));
        lemma_feq_trans(
            fmul(rel.0, d.0),
            fmul(d.0, fsub(v2.0, v1.0)),
            fsub(fmul(d.0, v2.0), fmul(d.0, v1.0)),
        );
        lemma_feq_trans(
            fmul(rel.1, d.1),
            fmul(d.1, fsub(v2.1, v1.1)),
            fsub(fmul(d.1, v2.1), fmul(d.1, v1.1)),
        );
        lemma_fadd_cong(
            fmul(rel.0, d.0),
            fsub(fmul(v2.0, d.0), fmul(v1.0, d.0)),
            fmul(rel.1, d.1),
            fsub(fmul(v2.1, d.1), fmul(v1.1, d.1)),
        );
        crate::rational::lemma_fadd_regroup4(
            fmul(v2.0, d.0),
            fmul(v1.0, d.0),
            fmul(v2.1, d.1),
            fmul(v1.1, d.1),
        );
        lemma_fops_wf(fmul(rel.0, d.0), fmul(rel.1, d.1));
        lemma_fops_wf(
            fsub(fmul(v2.0, d.0), fmul(v1.0, d.0)),
            fsub(fmul(v2.1, d.1), fmul(v1.1, d.1)),
        );
        lemma_feq_trans(
            u,
            fadd(fmul(rel.0, d.0), fmul(rel.1, d.1)),
            fadd(
                fsub(fmul(v2.0, d.0), fmul(v1.0, d.0)),
                fsub(fmul(v2.1, d.1), fmul(v1.1, d.1)),
            ),
        );
    }
    // the linear terms collapse per body
    let target = fneg(fmul(two, fmul(g, u)));
    lemma_fops_wf(g, u);
    lemma_fops_wf(two, fmul(g, u));
    assert(fwf(target));
    let ga = fmul(g, aa);
    let gb = fmul(g, bb);
    lemma_fops_wf(g, aa);
    lemma_fops_wf(g, bb);
    lemma_fops_wf(ga, gb);
    lemma_fops_wf(gb, ga);
    lemma_fops_wf(two, ga);
    lemma_fops_wf(two, gb);
    assert(feq(psum1, fmul(two, ga))) by {
        crate::rational::lemma_fmul_distrib(g, fmul(v1.0, d.0), fmul(v1.1, d.1));
        crate::rational::lemma_fmul_distrib(two, fmul(g, fmul(v1.0, d.0)), fmul(g, fmul(v1.1, d.1)));
        lemma_fops_wf(fmul(g, fmul(v1.0, d.0)), fmul(g, fmul(v1.1, d.1)));
        lemma_fops_wf(two, fadd(fmul(g, fmul(v1.0, d.0)), fmul(g, fmul(v1.1, d.1))));
        lemma_fmul_cong(
            two,
            two,
            fadd(fmul(g, fmul(v1.0, d.0)), fmul(g, fmul(v1.1, d.1))),
            ga,
        );
        lemma_feq_trans(
            psum1,
            fmul(two, fadd(fmul(g, fmul(v1.0, d.0)), fmul(g, fmul(v1.1, d.1)))),
            fmul(two, ga),
        );
    }
    let qnb = fmul(qn, bb);
    lemma_fops_wf(qn, bb);
    lemma_fops_wf(two, qnb);
    assert(feq(psum2, fmul(two, qnb))) by {
        crate::rational::lemma_fmul_distrib(qn, fmul(v2.0, d.0), fmul(v2.1, d.1));
        crate::rational::lemma_fmul_distrib(
            two,
            fmul(qn, fmul(v2.0, d.0)),
            fmul(qn, fmul(v2.1, d.1)),
        );
        lemma_fops_wf(fmul(qn, fmul(v2.0, d.0)), fmul(qn, fmul(v2.1, d.1)));
        lemma_fops_wf(two, fadd(fmul(qn, fmul(v2.0, d.0)), fmul(qn, fmul(v2.1, d.1))));
        lemma_fmul_cong(
            two,
            two,
            fadd(fmul(qn, fmul(v2.0, d.0)), fmul(qn, fmul(v2.1, d.1))),
            qnb,
        );
        lemma_feq_trans(
            psum2,
            fmul(two, fadd(fmul(qn, fmul(v2.0, d.0)), fmul(qn, fmul(v2.1, d.1)))),
            fmul(two, qnb),
        );
    }
    assert(feq(big_p, target)) by {
        assert(fmul(qn, bb) == fneg(gb)) by {
            crate::rational::lemma_fmul_neg(g, bb);
        }
        assert(fmul(two, fneg(gb)) == fneg(fmul(two, gb))) by {
            crate::rational::lemma_fmul_neg(two, gb);
        }
        lemma_fadd_cong(psum1, fmul(two, ga), psum2, fneg(fmul(two, gb)));
        crate::rational::lemma_fsub_is_fadd_neg(fmul(two, ga), fmul(two, gb));
        crate::rational::lemma_fmul_distrib(two, ga, gb);
        crate::rational::lemma_fsub_antisym(ga, gb);
        crate::rational::lemma_fmul_distrib(g, bb, aa);
        lemma_fmul_cong(g, g, u, fsub(bb, aa));
        lemma_fops_wf(g, fsub(bb, aa));
        lemma_feq_trans(fmul(g, u), fmul(g, fsub(bb, aa)), fsub(gb, ga));
        lemma_fneg_cong(fmul(g, u), fsub(gb, ga));
        lemma_fops_wf(fneg(fsub(gb, ga)), fneg(fsub(gb, ga)));
        assert(feq(fsub(ga, gb), fneg(fmul(g, u)))) by {
            lemma_fops_wf(fneg(fmul(g, u)), fneg(fmul(g, u)));
            lemma_feq_trans(fsub(ga, gb), fneg(fsub(gb, ga)), fneg(fmul(g, u)));
        }
        lemma_fmul_cong(two, two, fsub(ga, gb), fneg(fmul(g, u)));
        assert(fmul(two, fneg(fmul(g, u))) == target) by {
            crate::rational::lemma_fmul_neg(two, fmul(g, u));
        }
        lemma_fops_wf(fmul(two, ga), fneg(fmul(two, gb)));
        lemma_fops_wf(fmul(two, ga), fmul(two, gb));
        lemma_fops_wf(two, fsub(ga, gb));
        lemma_feq_trans(big_p, fadd(fmul(two, ga), fneg(fmul(two, gb))), fmul(two, fsub(ga, gb)));
        lemma_feq_trans(big_p, fmul(two, fsub(ga, gb)), target);
    }
    // the quadratic terms collapse to the same value
    assert(feq(big_q, target)) by {
        assert(q2x == fmul(g, fmul(gim2, fmul(d.0, d.0))) && q2y == fmul(
            g,
            fmul(gim2, fmul(d.1, d.1)),
        )) by {
            assert(((-g.0) * ((-gim2.0) * (d.0.0 * d.0.0)) == g.0 * (gim2.0 * (d.0.0 * d.0.0)))
                && (g.1 * (gim2.1 * (d.0.1 * d.0.1)) == g.1 * (gim2.1 * (d.0.1 * d.0.1))) && ((
            -g.0) * ((-gim2.0) * (d.1.0 * d.1.0)) == g.0 * (gim2.0 * (d.1.0 * d.1.0)))) by (nonlinear_arith);
        }
        lemma_fops_wf(gim2, fmul(d.0, d.0));
        lemma_fops_wf(gim2, fmul(d.1, d.1));
        lemma_fops_wf(g, fmul(gim2, fmul(d.0, d.0)));
        lemma_fops_wf(g, fmul(gim2, fmul(d.1, d.1)));
        // first body: q1 components sum to g*(k1*dss)
        crate::rational::lemma_fmul_distrib(g, fmul(k1, fmul(d.0, d.0)), fmul(k1, fmul(d.1, d.1)));
        crate::rational::lemma_fmul_distrib(k1, fmul(d.0, d.0), fmul(d.1, d.1));
        lemma_fops_wf(fmul(k1, fmul(d.0, d.0)), fmul(k1, fmul(d.1, d.1)));
        lemma_fops_wf(g, fadd(fmul(k1, fmul(d.0, d.0)), fmul(k1, fmul(d.1, d.1))));
        lemma_fops_wf(k1, dss);
        lemma_fmul_cong(
            g,
            g,
            fadd(fmul(k1, fmul(d.0, d.0)), fmul(k1, fmul(d.1, d.1))),
            fmul(k1, dss),
        );
        lemma_fops_wf(g, fmul(k1, dss));
        lemma_feq_trans(
            qsum1,
            fmul(g, fadd(fmul(k1, fmul(d.0, d.0)), fmul(k1, fmul(d.1, d.1)))),
            fmul(g, fmul(k1, dss)),
        );
        // second body likewise
        crate::rational::lemma_fmul_distrib(
            g,
            fmul(gim2, fmul(d.0, d.0)),
            fmul(gim2, fmul(d.1, d.1)),
        );
        crate::rational::lemma_fmul_distrib(gim2, fmul(d.0, d.0), fmul(d.1, d.1));
        lemma_fops_wf(fmul(gim2, fmul(d.0, d.0)), fmul(gim2, fmul(d.1, d.1)));
        lemma_fops_wf(g, fadd(fmul(gim2, fmul(d.0, d.0)), fmul(gim2, fmul(d.1, d.1))));
        lemma_fops_wf(gim2, dss);
        lemma_fmul_cong(
            g,
            g,
            fadd(fmul(gim2, fmul(d.0, d.0)), fmul(gim2, fmul(d.1, d.1))),
            fmul(gim2, dss),
        );
        lemma_fops_wf(g, fmul(gim2, dss));
        lemma_feq_trans(
            qsum2,
            fmul(g, fadd(fmul(gim2, fmul(d.0, d.0)), fmul(gim2, fmul(d.1, d.1)))),
            fmul(g, fmul(gim2, dss)),
        );
        // their sum is g*((k1 + g*im2)*dss) == g*(g*(s*dss)) == g*tn
        lemma_fadd_cong(qsum1, fmul(g, fmul(k1, dss)), qsum2, fmul(g, fmul(gim2, dss)));
        crate::rational::lemma_fmul_distrib(g, fmul(k1, dss), fmul(gim2, dss));
        lemma_fops_wf(fmul(g, fmul(k1, dss)), fmul(g, fmul(gim2, dss)));
        lemma_fops_wf(fmul(k1, dss), fmul(gim2, dss));
        lemma_fops_wf(g, fadd(fmul(k1, dss), fmul(gim2, dss)));
        lemma_feq_trans(
            big_q,
            fadd(fmul(g, fmul(k1, dss)), fmul(g, fmul(gim2, dss))),
            fmul(g, fadd(fmul(k1, dss), fmul(gim2, dss))),
        );
        crate::rational::lemma_fmul_distrib(dss, k1, gim2);
        assert(fmul(dss, fadd(k1, gim2)) == fmul(fadd(k1, gim2), dss)) by {
            lemma_fmul_assoc(dss, fadd(k1, gim2), dss);
        }
        assert(fmul(dss, k1) == fmul(k1, dss) && fmul(dss, gim2) == fmul(gim2, dss)) by {
            lemma_fmul_assoc(dss, k1, k1);
            lemma_fmul_assoc(dss, gim2, gim2);
        }
        lemma_fops_wf(k1, gim2);
        lemma_fops_wf(fadd(k1, gim2), dss);
        // k1 + g*im2 has the value g*s
        crate::rational::lemma_fmul_distrib(g, im1, im2);
        lemma_fops_wf(im1, im2);
        lemma_fops_wf(g, fadd(im1, im2));
        lemma_fmul_cong(g, g, fadd(im1, im2), s);
        lemma_fops_wf(g, s);
        assert(feq(fadd(k1, gim2), fmul(g, s))) by {
            lemma_feq_trans(fadd(k1, gim2), fmul(g, fadd(im1, im2)), fmul(g, s));
        }
        lemma_fmul_cong(fadd(k1, gim2), fmul(g, s), dss, dss);
        lemma_fops_wf(fmul(g, s), dss);
        lemma_feq_trans(
            fadd(fmul(k1, dss), fmul(gim2, dss)),
            fmul(fadd(k1, gim2), dss),
            fmul(fmul(g, s), dss),
        );
        assert(fmul(fmul(g, s), dss) == fmul(g, fmul(s, dss))) by {
            lemma_fmul_assoc(g, s, dss);
        }
        // s*dss has the value den
        assert(fmul(s, dss) == fmul(dss, s)) by {
            lemma_fmul_assoc(s, dss, dss);
        }
        lemma_fmul_cong(dss, ds, s, s);
        lemma_fops_wf(dss, s);
        lemma_fops_wf(ds, s);
        assert(feq(fmul(s, dss), den)) by {
            lemma_feq_trans(fmul(dss, s), fmul(ds, s), den);
        }
        lemma_fmul_cong(g, g, fmul(s, dss), den);
        lemma_fops_wf(g, fmul(s, dss));
        lemma_fops_wf(g, den);
        lemma_fmul_cong(g, g, fmul(g, den), tn);
        lemma_fops_wf(g, tn);
        lemma_fmul_cong(g, g, tn, fneg(fmul(two, u)));
        lemma_fops_wf(fneg(fmul(two, u)), fneg(fmul(two, u)));
        lemma_fops_wf(g, fneg(fmul(two, u)));
        assert(fmul(g, fneg(fmul(two, u))) == fneg(fmul(g, fmul(two, u)))) by {
            crate::rational::lemma_fmul_neg(g, fmul(two, u));
        }
        assert(fmul(g, fmul(two, u)) == fmul(two, fmul(g, u))) by {
            assert((g.0 * (2 * u.0) == 2 * (g.0 * u.0)) && (g.1 * (1 * u.1) == 1 * (g.1
                * u.1))) by (nonlinear_arith);
        }
        lemma_feq_trans(
            fadd(fmul(k1, dss), fmul(gim2, dss)),
            fmul(fmul(g, s), dss),
            fmul(g, fmul(s, dss)),
        );
        lemma_fmul_cong(g, g, fadd(fmul(k1, dss), fmul(gim2, dss)), fmul(g, fmul(s, dss)));
        lemma_fops_wf(fmul(k1, dss), fmul(gim2, dss));
        lemma_fops_wf(g, fadd(fmul(k1, dss), fmul(gim2, dss)));
        lemma_fops_wf(g, fmul(g, fmul(s, dss)));
        lemma_feq_trans(
            big_q,
            fmul(g, fadd(fmul(k1, dss), fmul(gim2, dss))),
            fmul(g, fmul(g, fmul(s, dss))),
        );
        lemma_fmul_cong(g, g, fmul(g, fmul(s, dss)), fmul(g, den));
        lemma_fops_wf(g, fmul(g, fmul(s, dss)));
        lemma_fops_wf(g, fmul(g, den));
        lemma_feq_trans(big_q, fmul(g, fmul(g, fmul(s, dss))), fmul(g, fmul(g, den)));
        lemma_fmul_cong(g, g, fmul(g, den), tn);
        lemma_feq_trans(big_q, fmul(g, fmul(g, den)), fmul(g, tn));
        lemma_feq_trans(big_q, fmul(g, tn), fmul(g, fneg(fmul(two, u))));
        lemma_feq_trans(big_q, fmul(g, fneg(fmul(two, u))), target);
    }
    // so the correction and cross terms cancel
    assert(feq(big_q, big_p)) by {
        lemma_feq_trans(big_q, target, big_p);
    }
    lemma_fadd_cong(fsub(big_s, big_p), fsub(big_s, big_p), big_q, big_p);
    lemma_fadd_sub_inverse(big_s, big_p);
    lemma_fops_wf(fsub(big_s, big_p), big_p);
    lemma_feq_trans(after, fadd(fsub(big_s, big_p), big_q), fadd(fsub(big_s, big_p), big_p));
    lemma_feq_trans(after, fadd(fsub(big_s, big_p), big_p), big_s);
    // and the original sum is exactly big_s, distributed
    let before = fadd(
        fmul(m1, fadd(fmul(v1.0, v1.0), fmul(v1.1, v1.1))),
        fmul(m2, fadd(fmul(v2.0, v2.0), fmul(v2.1, v2.1))),
    );
    crate::rational::lemma_fmul_distrib(m1, fmul(v1.0, v1.0), fmul(v1.1, v1.1));
    crate::rational::lemma_fmul_distrib(m2, fmul(v2.0, v2.0), fmul(v2.1, v2.1));
    lemma_fops_wf(fmul(v1.0, v1.0), fmul(v1.1, v1.1));
    lemma_fops_wf(fmul(v2.0, v2.0), fmul(v2.1, v2.1));
    lemma_fops_wf(m1, fadd(fmul(v1.0, v1.0), fmul(v1.1, v1.1)));
    lemma_fops_wf(m2, fadd(fmul(v2.0, v2.0), fmul(v2.1, v2.1)));
    lemma_fadd_cong(
        fmul(m1, fadd(fmul(v1.0, v1.0), fmul(v1.1, v1.1))),
        s1,
        fmul(m2, fadd(fmul(v2.0, v2.0), fmul(v2.1, v2.1))),
        s2,
    );
    lemma_fops_wf(
        fmul(m1, fadd(fmul(v1.0, v1.0), fmul(v1.1, v1.1))),
        fmul(m2, fadd(fmul(v2.0, v2.0), fmul(v2.1, v2.1))),
    );
    lemma_feq_trans(after, big_s, before);
}

/// The two fraction vectors are parallel: their cross product is zero.
pub open spec fn parallel(a: ((int, int), (int, int)), b: ((int, int), (int, int))) -> bool {
    feq(fmul(a.0, b.1), fmul(a.1, b.0))
}

/// The impulse changes velocities only along the center line: each body's
/// velocity change is parallel to the center-to-center direction, so the
/// tangential velocity components are untouched.
pub proof fn theorem_velocity_change_along_center_line(
    c1: Circle,
    c2: Circle,
    u1: BodyUpdate,
    u2: BodyUpdate,
)
    requires
        spec_resolve_circles(c1, c2) == Ok::<(BodyUpdate, BodyUpdate), EngineError>((u1, u2)),
    ensures
        ({
            let d = spec_delta(c1, c2)->Some_0;
            let dv1 = (
                fsub(u1.velocity.0, c1.rigid_body.velocity@.0),
                fsub(u1.velocity.1, c1.rigid_body.velocity@.1),
            );
            let dv2 = (
                fsub(u2.velocity.0, c2.rigid_body.velocity@.0),
                fsub(u2.velocity.1, c2.rigid_body.velocity@.1),
            );
            parallel(dv1, d) && parallel(dv2, d)
        }),
{
    let m = spec_min_dist(c1, c2)->Some_0;
    let d = spec_delta(c1, c2)->Some_0;
    let m2v = spec_mul_rat(m, m)->Some_0;
    let ds = crate::algebra::spec_v2_dot(d, d)->Some_0;
    let v1 = c1.rigid_body.velocity@;
    let v2 = c2.rigid_body.velocity@;
    lemma_common_wf(c1, c2);
    lemma_fops_wf(c2.rigid_body.position.x@, c1.rigid_body.position.x@);
    lemma_fops_wf(c2.rigid_body.position.y@, c1.rigid_body.position.y@);
    lemma_wf_only(fsub(c2.rigid_body.position.x@, c1.rigid_body.position.x@), d.0);
    lemma_wf_only(fsub(c2.rigid_body.position.y@, c1.rigid_body.position.y@), d.1);
    if !flt(ds, m2v) || flt((0int, 1int), crate::algebra::spec_v2_dot(
        crate::algebra::spec_v2_sub(v2, v1)->Some_0,
        d,
    )->Some_0) || feq(
        spec_add_rat(
            spec_inverse_mass(mass_view(c1.rigid_body.mass))->Ok_0,
            spec_inverse_mass(mass_view(c2.rigid_body.mass))->Ok_0,
        )->Some_0,
        (0int, 1int),
    ) {
        // a no-op resolution: zero change is parallel to anything
        assert(u1.velocity == v1 && u2.velocity == v2);
        assert(fsub(v1.0, v1.0).0 == 0 && fsub(v1.1, v1.1).0 == 0);
        assert(fsub(v2.0, v2.0).0 == 0 && fsub(v2.1, v2.1).0 == 0);
        assert(parallel((fsub(v1.0, v1.0), fsub(v1.1, v1.1)), d)) by (nonlinear_arith)
            requires
                fsub(v1.0, v1.0).0 == 0,
                fsub(v1.1, v1.1).0 == 0,
        ;
        assert(parallel((fsub(v2.0, v2.0), fsub(v2.1, v2.1)), d)) by (nonlinear_arith)
            requires
                fsub(v2.0, v2.0).0 == 0,
                fsub(v2.1, v2.1).0 == 0,
        ;
    } else {
        let im1 = spec_inverse_mass(mass_view(c1.rigid_body.mass))->Ok_0;
        let im2 = spec_inverse_mass(mass_view(c2.rigid_body.mass))->Ok_0;
        let rel = crate::algebra::spec_v2_sub(v2, v1)->Some_0;
        let u = crate::algebra::spec_v2_dot(rel, d)->Some_0;
        let s = spec_add_rat(im1, im2)->Some_0;
        let e = if flt(c1.material.restitution@, c2.material.restitution@) {
            c1.material.restitution@
        } else {
            c2.material.restitution@
        };
        let ope = spec_add_rat((1int, 1int), e)->Some_0;
        let t = spec_mul_rat(ope, u)->Some_0;
        let tn = spec_neg_rat(t)->Some_0;
        let den = spec_mul_rat(ds, s)->Some_0;
        let g = spec_div_rat(tn, den)->Some_0;
        let jv = crate::algebra::spec_v2_scale(d, g)->Some_0;
        let j1 = crate::algebra::spec_v2_scale(jv, im1)->Some_0;
        let j2 = crate::algebra::spec_v2_scale(jv, im2)->Some_0;
        let v1n = crate::algebra::spec_v2_sub(v1, j1)->Some_0;
        let v2n = crate::algebra::spec_v2_add(v2, j2)->Some_0;
        assert(u1.velocity == v1n && u2.velocity == v2n);
        assert(fwf(im1) && fwf(im2)) by {
            match c1.rigid_body.mass {
                Mass::Finite(r) => lemma_rat_wf(r),
                Mass::Infinite => (),
            }
            match c2.rigid_body.mass {
                Mass::Finite(r) => lemma_rat_wf(r),
                Mass::Infinite => (),
            }
        }
        lemma_fops_wf(v2.0, v1.0);
        lemma_fops_wf(v2.1, v1.1);
        lemma_wf_of_norm(fsub(v2.0, v1.0), rel.0);
        lemma_wf_of_norm(fsub(v2.1, v1.1), rel.1);
        let pp = spec_mul_rat(rel.0, d.0)->Some_0;
        let qq = spec_mul_rat(rel.1, d.1)->Some_0;
        lemma_fops_wf(rel.0, d.0);
        lemma_fops_wf(rel.1, d.1);
        lemma_wf_only(fmul(rel.0, d.0), pp);
        lemma_wf_only(fmul(rel.1, d.1), qq);
        lemma_fops_wf(pp, qq);
        lemma_wf_only(fadd(pp, qq), u);
        let dp = spec_mul_rat(d.0, d.0)->Some_0;
        let dq = spec_mul_rat(d.1, d.1)->Some_0;
        lemma_fops_wf(d.0, d.0);
        lemma_fops_wf(d.1, d.1);
        lemma_wf_only(fmul(d.0, d.0), dp);
        lemma_wf_only(fmul(d.1, d.1), dq);
        lemma_fops_wf(dp, dq);
        lemma_wf_only(fadd(dp, dq), ds);
        lemma_fops_wf(im1, im2);
        lemma_wf_only(fadd(im1, im2), s);
        lemma_fops_wf((1int, 1int), e);
        lemma_wf_only(fadd((1int, 1int), e), ope);
        lemma_fops_wf(ope, u);
        lemma_wf_only(fmul(ope, u), t);
        lemma_fops_wf(t, t);
        lemma_wf_only(fneg(t), tn);
        lemma_fops_wf(ds, s);
        lemma_wf_only(fmul(ds, s), den);
        lemma_fops_wf(tn, den);
        lemma_wf_only(fdiv(tn, den), g);
        lemma_fops_wf(d.0, g);
        lemma_fops_wf(d.1, g);
        lemma_wf_of_norm(fmul(d.0, g), jv.0);
        lemma_wf_of_norm(fmul(d.1, g), jv.1);
        lemma_fops_wf(jv.0, im1);
        lemma_fops_wf(jv.1, im1);
        lemma_fops_wf(jv.0, im2);
        lemma_fops_wf(jv.1, im2);
        lemma_wf_of_norm(fmul(jv.0, im1), j1.0);
        lemma_wf_of_norm(fmul(jv.1, im1), j1.1);
        lemma_wf_of_norm(fmul(jv.0, im2), j2.0);
        lemma_wf_of_norm(fmul(jv.1, im2), j2.1);
        lemma_fops_wf(v1.0, j1.0);
        lemma_fops_wf(v1.1, j1.1);
        lemma_fops_wf(v2.0, j2.0);
        lemma_fops_wf(v2.1, j2.1);
        lemma_wf_of_norm(fsub(v1.0, j1.0), v1n.0);
        lemma_wf_of_norm(fsub(v1.1, j1.1), v1n.1);
        lemma_wf_of_norm(fadd(v2.0, j2.0), v2n.0);
        lemma_wf_of_norm(fadd(v2.1, j2.1), v2n.1);
        lemma_change_parallel(d, g, im1, jv, j1, v1, v1n, true);
        lemma_change_parallel(d, g, im2, jv, j2, v2, v2n, false);
    }
}

/// One body's velocity change is parallel to the direction the impulse was
/// scaled from.
proof fn lemma_change_parallel(
    d: ((int, int), (int, int)),
    g: (int, int),
    im: (int, int),
    jv: ((int, int), (int, int)),
    j: ((int, int), (int, int)),
    v: ((int, int), (int, int)),
    vn: ((int, int), (int, int)),
    subtracting: bool,
)
    requires
        fwf(d.0),
        fwf(d.1),
        fwf(g),
        fwf(im),
        fwf(jv.0),
        fwf(jv.1),
        fwf(j.0),
        fwf(j.1),
        fwf(v.0),
        fwf(v.1),
        fwf(vn.0),
        fwf(vn.1),
        feq(jv.0, fmul(d.0, g)),
        feq(jv.1, fmul(d.1, g)),
        feq(j.0, fmul(jv.0, im)),
        feq(j.1, fmul(jv.1, im)),
        subtracting ==> feq(vn.0, fsub(v.0, j.0)) && feq(vn.1, fsub(v.1, j.1)),
        !subtracting ==> feq(vn.0, fadd(v.0, j.0)) && feq(vn.1, fadd(v.1, j.1)),
    ensures
        parallel((fsub(vn.0, v.0), fsub(vn.1, v.1)), d),
{
    let x = fmul(fmul(d.0, g), im);
    let y = fmul(fmul(d.1, g), im);
    lemma_fops_wf(d.0, g);
    lemma_fops_wf(d.1, g);
    lemma_fops_wf(fmul(d.0, g), im);
    lemma_fops_wf(fmul(d.1, g), im);
    // the impulse components have the values x and y
    lemma_fmul_cong(jv.0, fmul(d.0, g), im, im);
    lemma_fmul_cong(jv.1, fmul(d.1, g), im, im);
    lemma_fops_wf(jv.0, im);
    lemma_fops_wf(jv.1, im);
    lemma_feq_trans(j.0, fmul(jv.0, im), x);
    lemma_feq_trans(j.1, fmul(jv.1, im), y);
    // the change is the (possibly negated) impulse
    let dvx = fsub(vn.0, v.0);
    let dvy = fsub(vn.1, v.1);
    lemma_fops_wf(vn.0, v.0);
    lemma_fops_wf(vn.1, v.1);
    lemma_fops_wf(j.0, j.0);
    lemma_fops_wf(j.1, j.1);
    lemma_fops_wf(x, x);
    lemma_fops_wf(y, y);
    crate::rational::lemma_fsub_shift(v.0, j.0);
    crate::rational::lemma_fsub_shift(v.1, j.1);
    lemma_fops_wf(v.0, j.0);
    lemma_fops_wf(v.1, j.1);
    if subtracting {
        lemma_fadd_cong(vn.0, fsub(v.0, j.0), v.0, v.0);
        lemma_fadd_cong(vn.1, fsub(v.1, j.1), v.1, v.1);
        lemma_fops_wf(fsub(v.0, j.0), v.0);
        lemma_fops_wf(fsub(v.1, j.1), v.1);
        lemma_feq_trans(dvx, fsub(fsub(v.0, j.0), v.0), fneg(j.0));
        lemma_feq_trans(dvy, fsub(fsub(v.1, j.1), v.1), fneg(j.1));
        lemma_fneg_cong(j.0, x);
        lemma_fneg_cong(j.1, y);
        lemma_fops_wf(fneg(j.0), fneg(x));
        lemma_feq_trans(dvx, fneg(j.0), fneg(x));
        lemma_feq_trans(dvy, fneg(j.1), fneg(y));
        // cross product of the scaled direction with the direction vanishes
        assert(fmul(fneg(x), d.1) == fneg(fmul(x, d.1)) && fmul(fneg(y), d.0) == fneg(
            fmul(y, d.0),
        )) by {
            crate::rational::lemma_fmul_neg(x, d.1);
            crate::rational::lemma_fmul_neg(y, d.0);
            assert(fmul(fneg(x), d.1) == fneg(fmul(x, d.1)));
            assert(fmul(fneg(y), d.0) == fneg(fmul(y, d.0)));
        }
        assert(fmul(x, d.1) == fmul(y, d.0)) by {
            assert((((d.0.0 * g.0) * im.0) * d.1.0 == ((d.1.0 * g.0) * im.0) * d.0.0) && (((d.0.1
                * g.1) * im.1) * d.1.1 == ((d.1.1 * g.1) * im.1) * d.0.1)) by (nonlinear_arith);
        }
        lemma_fops_wf(fneg(x), d.1);
        lemma_fops_wf(fneg(y), d.0);
        lemma_fmul_cong(dvx, fneg(x), d.1, d.1);
        lemma_fmul_cong(dvy, fneg(y), d.0, d.0);
        lemma_fops_wf(dvx, d.1);
        lemma_fops_wf(dvy, d.0);
        lemma_feq_trans(fmul(dvx, d.1), fmul(fneg(x), d.1), fmul(fneg(y), d.0));
        assert(feq(fmul(fneg(y), d.0), fmul(dvy, d.0)));
        lemma_feq_trans(fmul(dvx, d.1), fmul(fneg(y), d.0), fmul(dvy, d.0));
    } else {
        lemma_fadd_cong(vn.0, fadd(v.0, j.0), v.0, v.0);
        lemma_fadd_cong(vn.1, fadd(v.1, j.1), v.1, v.1);
        lemma_fops_wf(fadd(v.0, j.0), v.0);
        lemma_fops_wf(fadd(v.1, j.1), v.1);
        lemma_feq_trans(dvx, fsub(fadd(v.0, j.0), v.0), j.0);
        lemma_feq_trans(dvy, fsub(fadd(v.1, j.1), v.1), j.1);
        lemma_feq_trans(dvx, j.0, x);
        lemma_feq_trans(dvy, j.1, y);
        assert(fmul(x, d.1) == fmul(y, d.0)) by {
            assert((((d.0.0 * g.0) * im.0) * d.1.0 == ((d.1.0 * g.0) * im.0) * d.0.0) && (((d.0.1
                * g.1) * im.1) * d.1.1 == ((d.1.1 * g.1) * im.1) * d.0.1)) by (nonlinear_arith);
        }
        lemma_fmul_cong(dvx, x, d.1, d.1);
        lemma_fmul_cong(dvy, y, d.0, d.0);
        lemma_fops_wf(dvx, d.1);
        lemma_fops_wf(dvy, d.0);
        lemma_fops_wf(x, d.1);
        lemma_fops_wf(y, d.0);
        lemma_feq_trans(fmul(dvx, d.1), fmul(x, d.1), fmul(y, d.0));
        assert(feq(fmul(y, d.0), fmul(dvy, d.0)));
        lemma_feq_trans(fmul(dvx, d.1), fmul(y, d.0), fmul(dvy, d.0));
    }
}

/// The restitution law along the contact normal: after resolving an actively
/// colliding pair with at least one movable body, the relative velocity
/// projected on the center-to-center direction reverses, scaled by the
/// smaller restitution: `(v2n - v1n) . d == -(e * ((v2 - v1) . d))`.
pub proof fn theorem_restitution_along_normal(
    c1: Circle,
    c2: Circle,
    u1: BodyUpdate,
    u2: BodyUpdate,
)
    requires
        spec_resolve_circles(c1, c2) == Ok::<(BodyUpdate, BodyUpdate), EngineError>((u1, u2)),
        actively_colliding(c1, c2),
        !(mass_view(c1.rigid_body.mass) is None && mass_view(c2.rigid_body.mass) is None),
    ensures
        ({
            let d = spec_delta(c1, c2)->Some_0;
            let e = if flt(c1.material.restitution@, c2.material.restitution@) {
                c1.material.restitution@
            } else {
                c2.material.restitution@
            };
            let un_after = fadd(
                fmul(fsub(u2.velocity.0, u1.velocity.0), d.0),
                fmul(fsub(u2.velocity.1, u1.velocity.1), d.1),
            );
            let un_before = fadd(
                fmul(fsub(c2.rigid_body.velocity@.0, c1.rigid_body.velocity@.0), d.0),
                fmul(fsub(c2.rigid_body.velocity@.1, c1.rigid_body.velocity@.1), d.1),
            );
            feq(un_after, fneg(fmul(e, un_before)))
        }),
{
    let m = spec_min_dist(c1, c2)->Some_0;
    let d = spec_delta(c1, c2)->Some_0;
    let m2v = spec_mul_rat(m, m)->Some_0;
    let ds = crate::algebra::spec_v2_dot(d, d)->Some_0;
    let v1 = c1.rigid_body.velocity@;
    let v2 = c2.rigid_body.velocity@;
    let im1 = spec_inverse_mass(mass_view(c1.rigid_body.mass))->Ok_0;
    let im2 = spec_inverse_mass(mass_view(c2.rigid_body.mass))->Ok_0;
    let rel = crate::algebra::spec_v2_sub(v2, v1)->Some_0;
    let u = crate::algebra::spec_v2_dot(rel, d)->Some_0;
    let s = spec_add_rat(im1, im2)->Some_0;
    let e = if flt(c1.material.restitution@, c2.material.restitution@) {
        c1.material.restitution@
    } else {
        c2.material.restitution@
    };
    let ope = spec_add_rat((1int, 1int), e)->Some_0;
    let t = spec_mul_rat(ope, u)->Some_0;
    let tn = spec_neg_rat(t)->Some_0;
    let den = spec_mul_rat(ds, s)->Some_0;
    let g = spec_div_rat(tn, den)->Some_0;
    let jv = crate::algebra::spec_v2_scale(d, g)->Some_0;
    let j1 = crate::algebra::spec_v2_scale(jv, im1)->Some_0;
    let j2 = crate::algebra::spec_v2_scale(jv, im2)->Some_0;
    let v1n = crate::algebra::spec_v2_sub(v1, j1)->Some_0;
    let v2n = crate::algebra::spec_v2_add(v2, j2)->Some_0;
    lemma_common_wf(c1, c2);
    assert(fwf(im1) && fwf(im2)) by {
        match c1.rigid_body.mass {
            Mass::Finite(r) => lemma_rat_wf(r),
            Mass::Infinite => (),
        }
        match c2.rigid_body.mass {
            Mass::Finite(r) => lemma_rat_wf(r),
            Mass::Infinite => (),
        }
    }
    // with a movable body in the pair, the inverse-mass sum is positive
    assert(im1.0 >= 0 && im2.0 >= 0 && (im1.0 >= 1 || im2.0 >= 1)) by {
        match c1.rigid_body.mass {
            Mass::Finite(r) => {
                lemma_rat_wf(r);
                assert(r@.0 >= 1 && im1 == (r@.1, r@.0));
                assert(im1.0 >= 1);
            },
            Mass::Infinite => {
                assert(im1 == (0int, 1int));
            },
        }
        match c2.rigid_body.mass {
            Mass::Finite(r) => {
                lemma_rat_wf(r);
                assert(r@.0 >= 1 && im2 == (r@.1, r@.0));
                assert(im2.0 >= 1);
            },
            Mass::Infinite => {
                assert(im2 == (0int, 1int));
            },
        }
    }
    assert(!feq(s, (0int, 1int))) by {
        lemma_fops_wf(im1, im2);
        lemma_wf_only(fadd(im1, im2), s);
        assert(flt((0int, 1int), fadd(im1, im2))) by (nonlinear_arith)
            requires
                im1.1 >= 1,
                im2.1 >= 1,
                im1.0 >= 0,
                im2.0 >= 0,
                im1.0 >= 1 || im2.0 >= 1,
        ;
        lemma_norm_value(fadd(im1, im2));
        lemma_flt_cong((0int, 1int), (0int, 1int), fadd(im1, im2), s);
    }
    assert(u1.velocity == v1n && u2.velocity == v2n);
    lemma_fops_wf(c2.rigid_body.position.x@, c1.rigid_body.position.x@);
    lemma_fops_wf(c2.rigid_body.position.y@, c1.rigid_body.position.y@);
    lemma_wf_only(fsub(c2.rigid_body.position.x@, c1.rigid_body.position.x@), d.0);
    lemma_wf_only(fsub(c2.rigid_body.position.y@, c1.rigid_body.position.y@), d.1);
    lemma_fops_wf(v2.0, v1.0);
    lemma_fops_wf(v2.1, v1.1);
    lemma_wf_of_norm(fsub(v2.0, v1.0), rel.0);
    lemma_wf_of_norm(fsub(v2.1, v1.1), rel.1);
    let pp = spec_mul_rat(rel.0, d.0)->Some_0;
    let qq = spec_mul_rat(rel.1, d.1)->Some_0;
    lemma_fops_wf(rel.0, d.0);
    lemma_fops_wf(rel.1, d.1);
    lemma_wf_of_norm(fmul(rel.0, d.0), pp);
    lemma_wf_of_norm(fmul(rel.1, d.1), qq);
    lemma_fops_wf(pp, qq);
    lemma_wf_of_norm(fadd(pp, qq), u);
    let dp = spec_mul_rat(d.0, d.0)->Some_0;
    let dq = spec_mul_rat(d.1, d.1)->Some_0;
    lemma_fops_wf(d.0, d.0);
    lemma_fops_wf(d.1, d.1);
    lemma_wf_of_norm(fmul(d.0, d.0), dp);
    lemma_wf_of_norm(fmul(d.1, d.1), dq);
    lemma_fops_wf(dp, dq);
    lemma_wf_of_norm(fadd(dp, dq), ds);
    lemma_fops_wf(im1, im2);
    lemma_wf_of_norm(fadd(im1, im2), s);
    lemma_fops_wf((1int, 1int), e);
    lemma_wf_of_norm(fadd((1int, 1int), e), ope);
    lemma_fops_wf(ope, u);
    lemma_wf_of_norm(fmul(ope, u), t);
    lemma_fops_wf(t, t);
    lemma_wf_of_norm(fneg(t), tn);
    lemma_fops_wf(ds, s);
    lemma_wf_of_norm(fmul(ds, s), den);
    lemma_fops_wf(tn, den);
    lemma_wf_of_norm(fdiv(tn, den), g);
    lemma_fops_wf(d.0, g);
    lemma_fops_wf(d.1, g);
    lemma_wf_of_norm(fmul(d.0, g), jv.0);
    lemma_wf_of_norm(fmul(d.1, g), jv.1);
    lemma_fops_wf(jv.0, im1);
    lemma_fops_wf(jv.1, im1);
    lemma_fops_wf(jv.0, im2);
    lemma_fops_wf(jv.1, im2);
    lemma_wf_of_norm(fmul(jv.0, im1), j1.0);
    lemma_wf_of_norm(fmul(jv.1, im1), j1.1);
    lemma_wf_of_norm(fmul(jv.0, im2), j2.0);
    lemma_wf_of_norm(fmul(jv.1, im2), j2.1);
    lemma_fops_wf(v1.0, j1.0);
    lemma_fops_wf(v1.1, j1.1);
    lemma_fops_wf(v2.0, j2.0);
    lemma_fops_wf(v2.1, j2.1);
    lemma_wf_of_norm(fsub(v1.0, j1.0), v1n.0);
    lemma_wf_of_norm(fsub(v1.1, j1.1), v1n.1);
    lemma_wf_of_norm(fadd(v2.0, j2.0), v2n.0);
    lemma_wf_of_norm(fadd(v2.1, j2.1), v2n.1);
    // g * den has the value tn == -((1 + e) * u)
    assert(feq(fmul(g, den), tn)) by {
        lemma_fmul_cong(g, fdiv(tn, den), den, den);
        crate::rational::lemma_fdiv_mul(tn, den);
        lemma_fops_wf(g, den);
        lemma_fops_wf(fdiv(tn, den), den);
        lemma_feq_trans(fmul(g, den), fmul(fdiv(tn, den), den), tn);
    }
    lemma_fops_wf(fadd((1int, 1int), e), u);
    assert(feq(tn, fneg(fmul(fadd((1int, 1int), e), u)))) by {
        lemma_fmul_cong(ope, fadd((1int, 1int), e), u, u);
        lemma_feq_trans(t, fmul(ope, u), fmul(fadd((1int, 1int), e), u));
        lemma_fneg_cong(t, fmul(fadd((1int, 1int), e), u));
        lemma_fops_wf(fmul(fadd((1int, 1int), e), u), fmul(fadd((1int, 1int), e), u));
        lemma_feq_trans(tn, fneg(t), fneg(fmul(fadd((1int, 1int), e), u)));
    }
    assert(feq(u, fadd(fmul(rel.0, d.0), fmul(rel.1, d.1)))) by {
        lemma_fadd_cong(pp, fmul(rel.0, d.0), qq, fmul(rel.1, d.1));
        lemma_fops_wf(fmul(rel.0, d.0), fmul(rel.1, d.1));
        lemma_feq_trans(u, fadd(pp, qq), fadd(fmul(rel.0, d.0), fmul(rel.1, d.1)));
    }
    assert(feq(ds, fadd(fmul(d.0, d.0), fmul(d.1, d.1)))) by {
        lemma_fadd_cong(dp, fmul(d.0, d.0), dq, fmul(d.1, d.1));
        lemma_fops_wf(fmul(d.0, d.0), fmul(d.1, d.1));
        lemma_feq_trans(ds, fadd(dp, dq), fadd(fmul(d.0, d.0), fmul(d.1, d.1)));
    }
    lemma_restitution_main(d, v1, v2, rel, u, ds, s, den, tn, e, g, im1, im2, jv, j1, j2, v1n, v2n);
}

/// The value-level core of the restitution law: expanding the two velocity
/// updates, the relative velocity along the direction picks up exactly
/// `-(1 + e)` times itself, leaving `-(e * u)`.
proof fn lemma_restitution_main(
    d: ((int, int), (int, int)),
    v1: ((int, int), (int, int)),
    v2: ((int, int), (int, int)),
    rel: ((int, int), (int, int)),
    u: (int, int),
    ds: (int, int),
    s: (int, int),
    den: (int, int),
    tn: (int, int),
    e: (int, int),
    g: (int, int),
    im1: (int, int),
    im2: (int, int),
    jv: ((int, int), (int, int)),
    j1: ((int, int), (int, int)),
    j2: ((int, int), (int, int)),
    v1n: ((int, int), (int, int)),
    v2n: ((int, int), (int, int)),
)
    requires
        fwf(d.0),
        fwf(d.1),
        fwf(v1.0),
        fwf(v1.1),
        fwf(v2.0),
        fwf(v2.1),
        fwf(rel.0),
        fwf(rel.1),
        fwf(u),
        fwf(ds),
        fwf(s),
        fwf(den),
        fwf(tn),
        fwf(e),
        fwf(g),
        fwf(im1),
        fwf(im2),
        fwf(jv.0),
        fwf(jv.1),
        fwf(j1.0),
        fwf(j1.1),
        fwf(j2.0),
        fwf(j2.1),
        fwf(v1n.0),
        fwf(v1n.1),
        fwf(v2n.0),
        fwf(v2n.1),
        feq(rel.0, fsub(v2.0, v1.0)),
        feq(rel.1, fsub(v2.1, v1.1)),
        feq(u, fadd(fmul(rel.0, d.0), fmul(rel.1, d.1))),
        feq(ds, fadd(fmul(d.0, d.0), fmul(d.1, d.1))),
        feq(s, fadd(im1, im2)),
        feq(den, fmul(ds, s)),
        feq(fmul(g, den), tn),
        feq(tn, fneg(fmul(fadd((1int, 1int), e), u))),
        feq(jv.0, fmul(d.0, g)),
        feq(jv.1, fmul(d.1, g)),
        feq(j1.0, fmul(jv.0, im1)),
        feq(j1.1, fmul(jv.1, im1)),
        feq(j2.0, fmul(jv.0, im2)),
        feq(j2.1, fmul(jv.1, im2)),
        feq(v1n.0, fsub(v1.0, j1.0)),
        feq(v1n.1, fsub(v1.1, j1.1)),
        feq(v2n.0, fadd(v2.0, j2.0)),
        feq(v2n.1, fadd(v2.1, j2.1)),
    ensures
        feq(
            fadd(fmul(fsub(v2n.0, v1n.0), d.0), fmul(fsub(v2n.1, v1n.1), d.1)),
            fneg(
                fmul(
                    e,
                    fadd(fmul(fsub(v2.0, v1.0), d.0), fmul(fsub(v2.1, v1.1), d.1)),
                ),
            ),
        ),
{
    let one = (1int, 1int);
    let r0 = fsub(v2.0, v1.0);
    let r1 = fsub(v2.1, v1.1);
    let ub = fadd(fmul(r0, d.0), fmul(r1, d.1));
    let dv0 = fsub(v2n.0, v1n.0);
    let dv1c = fsub(v2n.1, v1n.1);
    let ua = fadd(fmul(dv0, d.0), fmul(dv1c, d.1));
    let jj0 = fadd(j2.0, j1.0);
    let jj1 = fadd(j2.1, j1.1);
    lemma_fops_wf(v2.0, v1.0);
    lemma_fops_wf(v2.1, v1.1);
    lemma_fops_wf(r0, d.0);
    lemma_fops_wf(r1, d.1);
    lemma_fops_wf(fmul(r0, d.0), fmul(r1, d.1));
    lemma_fops_wf(v2n.0, v1n.0);
    lemma_fops_wf(v2n.1, v1n.1);
    lemma_fops_wf(dv0, d.0);
    lemma_fops_wf(dv1c, d.1);
    lemma_fops_wf(fmul(dv0, d.0), fmul(dv1c, d.1));
    lemma_fops_wf(j2.0, j1.0);
    lemma_fops_wf(j2.1, j1.1);
    lemma_fops_wf(r0, jj0);
    lemma_fops_wf(r1, jj1);
    // the approach speed along the direction is ub
    assert(feq(u, ub)) by {
        lemma_fmul_cong(rel.0, r0, d.0, d.0);
        lemma_fmul_cong(rel.1, r1, d.1, d.1);
        lemma_fops_wf(rel.0, d.0);
        lemma_fops_wf(rel.1, d.1);
        lemma_fadd_cong(fmul(rel.0, d.0), fmul(r0, d.0), fmul(rel.1, d.1), fmul(r1, d.1));
        lemma_fops_wf(fmul(rel.0, d.0), fmul(rel.1, d.1));
        lemma_feq_trans(u, fadd(fmul(rel.0, d.0), fmul(rel.1, d.1)), ub);
    }
    // each relative component gains its pair of impulses
    assert(feq(dv0, fadd(r0, jj0))) by {
        lemma_fops_wf(v2.0, j2.0);
        lemma_fops_wf(v1.0, j1.0);
        lemma_fadd_cong(v2n.0, fadd(v2.0, j2.0), v1n.0, fsub(v1.0, j1.0));
        crate::rational::lemma_sub_of_mixed(v2.0, j2.0, v1.0, j1.0);
        lemma_fops_wf(fadd(v2.0, j2.0), fsub(v1.0, j1.0));
        lemma_feq_trans(dv0, fsub(fadd(v2.0, j2.0), fsub(v1.0, j1.0)), fadd(r0, jj0));
    }
    assert(feq(dv1c, fadd(r1, jj1))) by {
        lemma_fops_wf(v2.1, j2.1);
        lemma_fops_wf(v1.1, j1.1);
        lemma_fadd_cong(v2n.1, fadd(v2.1, j2.1), v1n.1, fsub(v1.1, j1.1));
        crate::rational::lemma_sub_of_mixed(v2.1, j2.1, v1.1, j1.1);
        lemma_fops_wf(fadd(v2.1, j2.1), fsub(v1.1, j1.1));
        lemma_feq_trans(dv1c, fsub(fadd(v2.1, j2.1), fsub(v1.1, j1.1)), fadd(r1, jj1));
    }
    // distribute the direction over each component
    assert(feq(fmul(dv0, d.0), fadd(fmul(r0, d.0), fmul(jj0, d.0)))) by {
        lemma_fmul_cong(dv0, fadd(r0, jj0), d.0, d.0);
        assert(fmul(fadd(r0, jj0), d.0) == fmul(d.0, fadd(r0, jj0))) by {
            lemma_fmul_assoc(fadd(r0, jj0), d.0, d.0);
        }
        crate::rational::lemma_fmul_distrib(d.0, r0, jj0);
        assert(fadd(fmul(d.0, r0), fmul(d.0, jj0)) == fadd(fmul(r0, d.0), fmul(jj0, d.0))) by {
            lemma_fmul_assoc(d.0, r0, r0);
            lemma_fmul_assoc(d.0, jj0, jj0);
            lemma_fadd_assoc(fmul(r0, d.0), fmul(jj0, d.0), d.0);
        }
        lemma_fops_wf(fadd(r0, jj0), d.0);
        lemma_fops_wf(jj0, d.0);
        lemma_fops_wf(fmul(r0, d.0), fmul(jj0, d.0));
        lemma_feq_trans(fmul(dv0, d.0), fmul(fadd(r0, jj0), d.0), fadd(fmul(r0, d.0), fmul(jj0, d.0)));
    }
    assert(feq(fmul(dv1c, d.1), fadd(fmul(r1, d.1), fmul(jj1, d.1)))) by {
        lemma_fmul_cong(dv1c, fadd(r1, jj1), d.1, d.1);
        assert(fmul(fadd(r1, jj1), d.1) == fmul(d.1, fadd(r1, jj1))) by {
            lemma_fmul_assoc(fadd(r1, jj1), d.1, d.1);
        }
        crate::rational::lemma_fmul_distrib(d.1, r1, jj1);
        assert(fadd(fmul(d.1, r1), fmul(d.1, jj1)) == fadd(fmul(r1, d.1), fmul(jj1, d.1))) by {
            lemma_fmul_assoc(d.1, r1, r1);
            lemma_fmul_assoc(d.1, jj1, jj1);
            lemma_fadd_assoc(fmul(r1, d.1), fmul(jj1, d.1), d.1);
        }
        lemma_fops_wf(fadd(r1, jj1), d.1);
        lemma_fops_wf(jj1, d.1);
        lemma_fops_wf(fmul(r1, d.1), fmul(jj1, d.1));
        lemma_feq_trans(fmul(dv1c, d.1), fmul(fadd(r1, jj1), d.1), fadd(fmul(r1, d.1), fmul(jj1, d.1)));
    }
    // so ua splits into ub plus the impulse dot product
    let jd = fadd(fmul(jj0, d.0), fmul(jj1, d.1));
    lemma_fops_wf(jj0, d.0);
    lemma_fops_wf(jj1, d.1);
    lemma_fops_wf(fmul(r0, d.0), fmul(jj0, d.0));
    lemma_fops_wf(fmul(r1, d.1), fmul(jj1, d.1));
    lemma_fops_wf(fmul(jj0, d.0), fmul(jj1, d.1));
    lemma_fops_wf(ub, jd);
    assert(feq(ua, fadd(ub, jd))) by {
        lemma_fadd_cong(
            fmul(dv0, d.0),
            fadd(fmul(r0, d.0), fmul(jj0, d.0)),
            fmul(dv1c, d.1),
            fadd(fmul(r1, d.1), fmul(jj1, d.1)),
        );
        crate::rational::lemma_fadd_swap_mid(
            fmul(r0, d.0),
            fmul(jj0, d.0),
            fmul(r1, d.1),
            fmul(jj1, d.1),
        );
        lemma_fops_wf(
            fadd(fmul(r0, d.0), fmul(jj0, d.0)),
            fadd(fmul(r1, d.1), fmul(jj1, d.1)),
        );
        lemma_feq_trans(
            ua,
            fadd(fadd(fmul(r0, d.0), fmul(jj0, d.0)), fadd(fmul(r1, d.1), fmul(jj1, d.1))),
            fadd(ub, jd),
        );
    }
    // the impulse dot product is the scaled direction length: g * ds * s
    let w0 = fmul(jv.0, d.0);
    let w1 = fmul(jv.1, d.1);
    let ww = fadd(w0, w1);
    let dss = fadd(fmul(d.0, d.0), fmul(d.1, d.1));
    lemma_fops_wf(jv.0, d.0);
    lemma_fops_wf(jv.1, d.1);
    lemma_fops_wf(w0, w1);
    lemma_fops_wf(d.0, d.0);
    lemma_fops_wf(d.1, d.1);
    lemma_fops_wf(fmul(d.0, d.0), fmul(d.1, d.1));
    lemma_fops_wf(ww, im1);
    lemma_fops_wf(ww, im2);
    lemma_fops_wf(im1, im2);
    assert(feq(jd, fadd(fmul(ww, im2), fmul(ww, im1)))) by {
        // each component's impulse pair regroups by inverse mass
        assert(fmul(fmul(jv.0, im2), d.0) == fmul(w0, im2) && fmul(fmul(jv.0, im1), d.0) == fmul(
            w0,
            im1,
        ) && fmul(fmul(jv.1, im2), d.1) == fmul(w1, im2) && fmul(fmul(jv.1, im1), d.1) == fmul(
            w1,
            im1,
        )) by {
            assert(((jv.0.0 * im2.0) * d.0.0 == (jv.0.0 * d.0.0) * im2.0) && ((jv.0.1 * im2.1)
                * d.0.1 == (jv.0.1 * d.0.1) * im2.1) && ((jv.0.0 * im1.0) * d.0.0 == (jv.0.0
                * d.0.0) * im1.0) && ((jv.0.1 * im1.1) * d.0.1 == (jv.0.1 * d.0.1) * im1.1) && ((
            jv.1.0 * im2.0) * d.1.0 == (jv.1.0 * d.1.0) * im2.0) && ((jv.1.1 * im2.1) * d.1.1 == (
            jv.1.1 * d.1.1) * im2.1) && ((jv.1.0 * im1.0) * d.1.0 == (jv.1.0 * d.1.0) * im1.0)
                && ((jv.1.1 * im1.1) * d.1.1 == (jv.1.1 * d.1.1) * im1.1)) by (nonlinear_arith);
        }
        lemma_fops_wf(jv.0, im2);
        lemma_fops_wf(jv.0, im1);
        lemma_fops_wf(jv.1, im2);
        lemma_fops_wf(jv.1, im1);
        // jj_c * d_c splits into the two per-mass parts
        lemma_fadd_cong(j2.0, fmul(jv.0, im2), j1.0, fmul(jv.0, im1));
        lemma_fadd_cong(j2.1, fmul(jv.1, im2), j1.1, fmul(jv.1, im1));
        lemma_fops_wf(fmul(jv.0, im2), fmul(jv.0, im1));
        lemma_fops_wf(fmul(jv.1, im2), fmul(jv.1, im1));
        assert(feq(fmul(jj0, d.0), fadd(fmul(w0, im2), fmul(w0, im1)))) by {
            lemma_fmul_cong(jj0, fadd(fmul(jv.0, im2), fmul(jv.0, im1)), d.0, d.0);
            assert(fmul(fadd(fmul(jv.0, im2), fmul(jv.0, im1)), d.0) == fmul(
                d.0,
                fadd(fmul(jv.0, im2), fmul(jv.0, im1)),
            )) by {
                lemma_fmul_assoc(fadd(fmul(jv.0, im2), fmul(jv.0, im1)), d.0, d.0);
            }
            crate::rational::lemma_fmul_distrib(d.0, fmul(jv.0, im2), fmul(jv.0, im1));
            assert(fadd(fmul(d.0, fmul(jv.0, im2)), fmul(d.0, fmul(jv.0, im1))) == fadd(
                fmul(fmul(jv.0, im2), d.0),
                fmul(fmul(jv.0, im1), d.0),
            )) by {
                lemma_fmul_assoc(d.0, fmul(jv.0, im2), d.0);
                lemma_fmul_assoc(d.0, fmul(jv.0, im1), d.0);
                lemma_fadd_assoc(fmul(fmul(jv.0, im2), d.0), fmul(fmul(jv.0, im1), d.0), d.0);
            }
            lemma_fops_wf(fadd(fmul(jv.0, im2), fmul(jv.0, im1)), d.0);
            lemma_fops_wf(w0, im2);
            lemma_fops_wf(w0, im1);
            lemma_fops_wf(fmul(w0, im2), fmul(w0, im1));
            lemma_feq_trans(
                fmul(jj0, d.0),
                fmul(fadd(fmul(jv.0, im2), fmul(jv.0, im1)), d.0),
                fadd(fmul(w0, im2), fmul(w0, im1)),
            );
        }
        assert(feq(fmul(jj1, d.1), fadd(fmul(w1, im2), fmul(w1, im1)))) by {
            lemma_fmul_cong(jj1, fadd(fmul(jv.1, im2), fmul(jv.1, im1)), d.1, d.1);
            assert(fmul(fadd(fmul(jv.1, im2), fmul(jv.1, im1)), d.1) == fmul(
                d.1,
                fadd(fmul(jv.1, im2), fmul(jv.1, im1)),
            )) by {
                lemma_fmul_assoc(fadd(fmul(jv.1, im2), fmul(jv.1, im1)), d.1, d.1);
            }
            crate::rational::lemma_fmul_distrib(d.1, fmul(jv.1, im2), fmul(jv.1, im1));
            assert(fadd(fmul(d.1, fmul(jv.1, im2)), fmul(d.1, fmul(jv.1, im1))) == fadd(
                fmul(fmul(jv.1, im2), d.1),
                fmul(fmul(jv.1, im1), d.1),
            )) by {
                lemma_fmul_assoc(d.1, fmul(jv.1, im2), d.1);
                lemma_fmul_assoc(d.1, fmul(jv.1, im1), d.1);
                lemma_fadd_assoc(fmul(fmul(jv.1, im2), d.1), fmul(fmul(jv.1, im1), d.1), d.1);
            }
            lemma_fops_wf(fadd(fmul(jv.1, im2), fmul(jv.1, im1)), d.1);
            lemma_fops_wf(w1, im2);
            lemma_fops_wf(w1, im1);
            lemma_fops_wf(fmul(w1, im2), fmul(w1, im1));
            lemma_feq_trans(
                fmul(jj1, d.1),
                fmul(fadd(fmul(jv.1, im2), fmul(jv.1, im1)), d.1),
                fadd(fmul(w1, im2), fmul(w1, im1)),
            );
        }
        // and the four parts regroup per inverse mass
        lemma_fops_wf(w0, im2);
        lemma_fops_wf(w0, im1);
        lemma_fops_wf(w1, im2);
        lemma_fops_wf(w1, im1);
        lemma_fops_wf(fmul(w0, im2), fmul(w0, im1));
        lemma_fops_wf(fmul(w1, im2), fmul(w1, im1));
        lemma_fadd_cong(
            fmul(jj0, d.0),
            fadd(fmul(w0, im2), fmul(w0, im1)),
            fmul(jj1, d.1),
            fadd(fmul(w1, im2), fmul(w1, im1)),
        );
        crate::rational::lemma_fadd_swap_mid(
            fmul(w0, im2),
            fmul(w0, im1),
            fmul(w1, im2),
            fmul(w1, im1),
        );
        lemma_fops_wf(w0, im2);
        lemma_fops_wf(w0, im1);
        lemma_fops_wf(w1, im2);
        lemma_fops_wf(w1, im1);
        lemma_fops_wf(fmul(w0, im2), fmul(w0, im1));
        lemma_fops_wf(fmul(w1, im2), fmul(w1, im1));
        lemma_fops_wf(
            fadd(fmul(w0, im2), fmul(w0, im1)),
            fadd(fmul(w1, im2), fmul(w1, im1)),
        );
        assert(feq(fadd(fmul(w0, im2), fmul(w1, im2)), fmul(ww, im2))) by {
            crate::rational::lemma_fmul_distrib(im2, w0, w1);
            assert(fadd(fmul(im2, w0), fmul(im2, w1)) == fadd(fmul(w0, im2), fmul(w1, im2))) by {
                lemma_fmul_assoc(im2, w0, w0);
                lemma_fmul_assoc(im2, w1, w1);
                lemma_fadd_assoc(fmul(w0, im2), fmul(w1, im2), w0);
            }
            assert(fmul(im2, ww) == fmul(ww, im2)) by {
                lemma_fmul_assoc(im2, ww, ww);
            }
            lemma_fops_wf(im2, ww);
            lemma_fops_wf(fmul(w0, im2), fmul(w1, im2));
        }
        assert(feq(fadd(fmul(w0, im1), fmul(w1, im1)), fmul(ww, im1))) by {
            crate::rational::lemma_fmul_distrib(im1, w0, w1);
            assert(fadd(fmul(im1, w0), fmul(im1, w1)) == fadd(fmul(w0, im1), fmul(w1, im1))) by {
                lemma_fmul_assoc(im1, w0, w0);
                lemma_fmul_assoc(im1, w1, w1);
                lemma_fadd_assoc(fmul(w0, im1), fmul(w1, im1), w0);
            }
            assert(fmul(im1, ww) == fmul(ww, im1)) by {
                lemma_fmul_assoc(im1, ww, ww);
            }
            lemma_fops_wf(im1, ww);
            lemma_fops_wf(fmul(w0, im1), fmul(w1, im1));
        }
        lemma_fops_wf(fmul(w0, im2), fmul(w1, im2));
        lemma_fops_wf(fmul(w0, im1), fmul(w1, im1));
        lemma_fadd_cong(
            fadd(fmul(w0, im2), fmul(w1, im2)),
            fmul(ww, im2),
            fadd(fmul(w0, im1), fmul(w1, im1)),
            fmul(ww, im1),
        );
        lemma_fops_wf(fadd(fmul(w0, im2), fmul(w1, im2)), fadd(fmul(w0, im1), fmul(w1, im1)));
        lemma_fops_wf(fmul(ww, im2), fmul(ww, im1));
        lemma_feq_trans(
            jd,
            fadd(fadd(fmul(w0, im2), fmul(w0, im1)), fadd(fmul(w1, im2), fmul(w1, im1))),
            fadd(fadd(fmul(w0, im2), fmul(w1, im2)), fadd(fmul(w0, im1), fmul(w1, im1))),
        );
        lemma_feq_trans(
            jd,
            fadd(fadd(fmul(w0, im2), fmul(w1, im2)), fadd(fmul(w0, im1), fmul(w1, im1))),
            fadd(fmul(ww, im2), fmul(ww, im1)),
        );
    }
    // ww is g times the squared direction length
    assert(feq(ww, fmul(g, dss))) by {
        assert(fmul(fmul(d.0, g), d.0) == fmul(g, fmul(d.0, d.0)) && fmul(fmul(d.1, g), d.1)
            == fmul(g, fmul(d.1, d.1))) by {
            assert(((d.0.0 * g.0) * d.0.0 == g.0 * (d.0.0 * d.0.0)) && ((d.0.1 * g.1) * d.0.1
                == g.1 * (d.0.1 * d.0.1)) && ((d.1.0 * g.0) * d.1.0 == g.0 * (d.1.0 * d.1.0)) && ((
            d.1.1 * g.1) * d.1.1 == g.1 * (d.1.1 * d.1.1))) by (nonlinear_arith);
        }
        lemma_fops_wf(d.0, g);
        lemma_fops_wf(d.1, g);
        lemma_fmul_cong(jv.0, fmul(d.0, g), d.0, d.0);
        lemma_fmul_cong(jv.1, fmul(d.1, g), d.1, d.1);
        lemma_fops_wf(fmul(d.0, g), d.0);
        lemma_fops_wf(fmul(d.1, g), d.1);
        lemma_fops_wf(g, fmul(d.0, d.0));
        lemma_fops_wf(g, fmul(d.1, d.1));
        lemma_fadd_cong(w0, fmul(g, fmul(d.0, d.0)), w1, fmul(g, fmul(d.1, d.1)));
        crate::rational::lemma_fmul_distrib(g, fmul(d.0, d.0), fmul(d.1, d.1));
        lemma_fops_wf(fmul(g, fmul(d.0, d.0)), fmul(g, fmul(d.1, d.1)));
        lemma_fops_wf(g, dss);
        lemma_feq_trans(ww, fadd(fmul(g, fmul(d.0, d.0)), fmul(g, fmul(d.1, d.1))), fmul(g, dss));
    }
    // so the impulse dot product has the value g * den == tn == -((1+e) u)
    assert(feq(jd, fneg(fmul(fadd(one, e), ub)))) by {
        lemma_fadd_assoc(im2, im1, im1);
        assert(fadd(im2, im1) == fadd(im1, im2));
        assert(feq(fadd(fmul(ww, im2), fmul(ww, im1)), fmul(ww, s))) by {
            crate::rational::lemma_fmul_distrib(ww, im2, im1);
            lemma_fops_wf(ww, fadd(im2, im1));
            lemma_fops_wf(fmul(ww, im2), fmul(ww, im1));
            lemma_fmul_cong(ww, ww, fadd(im1, im2), s);
            lemma_fops_wf(ww, s);
            lemma_feq_trans(
                fadd(fmul(ww, im2), fmul(ww, im1)),
                fmul(ww, fadd(im2, im1)),
                fmul(ww, s),
            );
        }
        lemma_fops_wf(fmul(ww, im2), fmul(ww, im1));
        lemma_fops_wf(ww, s);
        lemma_feq_trans(jd, fadd(fmul(ww, im2), fmul(ww, im1)), fmul(ww, s));
        // ww * s == (g * dss) * s == g * (dss * s) == g * den
        lemma_fops_wf(g, dss);
        lemma_fmul_cong(ww, fmul(g, dss), s, s);
        assert(fmul(fmul(g, dss), s) == fmul(g, fmul(dss, s))) by {
            lemma_fmul_assoc(g, dss, s);
        }
        lemma_fops_wf(fmul(g, dss), s);
        lemma_fops_wf(dss, s);
        lemma_fops_wf(g, fmul(dss, s));
        lemma_feq_trans(jd, fmul(ww, s), fmul(g, fmul(dss, s)));
        assert(feq(fmul(dss, s), den)) by {
            lemma_fmul_cong(dss, ds, s, s);
            lemma_fops_wf(ds, s);
            lemma_feq_trans(fmul(dss, s), fmul(ds, s), den);
        }
        lemma_fmul_cong(g, g, fmul(dss, s), den);
        lemma_fops_wf(g, den);
        lemma_feq_trans(jd, fmul(g, fmul(dss, s)), fmul(g, den));
        lemma_feq_trans(jd, fmul(g, den), tn);
        lemma_fops_wf(fadd(one, e), u);
        lemma_fops_wf(fneg(fmul(fadd(one, e), u)), fneg(fmul(fadd(one, e), u)));
        lemma_feq_trans(jd, tn, fneg(fmul(fadd(one, e), u)));
        // and u has the value ub
        lemma_fmul_cong(fadd(one, e), fadd(one, e), u, ub);
        lemma_fneg_cong(fmul(fadd(one, e), u), fmul(fadd(one, e), ub));
        lemma_fops_wf(fadd(one, e), ub);
        lemma_fops_wf(fneg(fmul(fadd(one, e), ub)), fneg(fmul(fadd(one, e), ub)));
        lemma_feq_trans(jd, fneg(fmul(fadd(one, e), u)), fneg(fmul(fadd(one, e), ub)));
    }
    // adding that to ub leaves -(e * ub)
    lemma_fops_wf(fadd(one, e), ub);
    lemma_fops_wf(fneg(fmul(fadd(one, e), ub)), fneg(fmul(fadd(one, e), ub)));
    lemma_fadd_cong(ub, ub, jd, fneg(fmul(fadd(one, e), ub)));
    crate::rational::lemma_restitution_combine(ub, e);
    lemma_fops_wf(fadd(one, e), ub);
    lemma_fops_wf(fneg(fmul(fadd(one, e), ub)), fneg(fmul(fadd(one, e), ub)));
    lemma_fops_wf(ub, fneg(fmul(fadd(one, e), ub)));
    lemma_fops_wf(e, ub);
    lemma_fops_wf(fneg(fmul(e, ub)), fneg(fmul(e, ub)));
    lemma_feq_trans(ua, fadd(ub, jd), fadd(ub, fneg(fmul(fadd(one, e), ub))));
    lemma_feq_trans(ua, fadd(ub, fneg(fmul(fadd(one, e), ub))), fneg(fmul(e, ub)));
}

} // verus!
