//! The simulation driver: a rectangular arena of circles closed off by four
//! walls, advanced frame by frame.

use crate::algebra::{spec_v2_add, spec_v2_div, spec_v2_scale};
use crate::collide_calculation::{
    circle_with_update, collide_circle_and_circle, collide_wall_and_circle, spec_resolve_circles,
    spec_resolve_wall_circle, BodyUpdate,
};
use crate::detection_broad_phase::{
    detect_by_broad_phase, pair_listed, spec_broad_candidate, ShapeIndexPair,
};
use crate::rational::{spec_mul_rat, Rat};
use crate::shapes::{Circle, RigidBody, Wall};
use crate::EngineError;
use vstd::prelude::*;

verus! {

/// One exact kinematic step under constant acceleration:
/// `position + velocity*dt + acceleration*dt^2/2` and
/// `velocity + acceleration*dt`.
pub open spec fn spec_integrate(b: RigidBody, dt: (int, int)) -> Option<BodyUpdate> {
    match spec_v2_scale(b.velocity@, dt) {
        Some(t1) => match spec_mul_rat(dt, dt) {
            Some(dd) => match spec_v2_scale(b.acceleration@, dd) {
                Some(t3) => match spec_v2_div(t3, (2int, 1int)) {
                    Some(t4) => match spec_v2_add(b.position@, t1) {
                        Some(p1) => match spec_v2_add(p1, t4) {
                            Some(pn) => match spec_v2_scale(b.acceleration@, dt) {
                                Some(t5) => match spec_v2_add(b.velocity@, t5) {
                                    Some(vn) => Some(BodyUpdate { position: pn, velocity: vn }),
                                    None => None,
                                },
                                None => None,
                            },
                            None => None,
                        },
                        None => None,
                    },
                    None => None,
                },
                None => None,
            },
            None => None,
        },
        None => None,
    }
}

/// Advance a body by `duration` under its constant acceleration; on an
/// unrepresentable intermediate the body is not touched.
pub fn drive_particle(body: &mut RigidBody, duration: Rat) -> (r: Result<(), EngineError>)
    ensures
        match spec_integrate(*old(body), duration@) {
            Some(u) => {
                &&& r == Ok::<(), EngineError>(())
                &&& final(body).position@ == u.position
                &&& final(body).velocity@ == u.velocity
                &&& final(body).mass == old(body).mass
                &&& final(body).acceleration == old(body).acceleration
            },
            None => r == Err::<(), EngineError>(EngineError::OutOfRange) && *final(body) == *old(
                body,
            ),
        },
{
    let t1 = match body.velocity.checked_scale(&duration) {
        Some(v) => v,
        None => {
            return Err(EngineError::OutOfRange);
        },
    };
    let dd = match duration.checked_mul(&duration) {
        Some(v) => v,
        None => {
            return Err(EngineError::OutOfRange);
        },
    };
    let t3 = match body.acceleration.checked_scale(&dd) {
        Some(v) => v,
        None => {
            return Err(EngineError::OutOfRange);
        },
    };
    let two = Rat::from_int(2);
    let t4 = match t3.checked_div_scalar(&two) {
        Some(v) => v,
        None => {
            return Err(EngineError::OutOfRange);
        },
    };
    let p1 = match body.position.checked_add(&t1) {
        Some(v) => v,
        None => {
            return Err(EngineError::OutOfRange);
        },
    };
    let pn = match p1.checked_add(&t4) {
        Some(v) => v,
        None => {
            return Err(EngineError::OutOfRange);
        },
    };
    let t5 = match body.acceleration.checked_scale(&duration) {
        Some(v) => v,
        None => {
            return Err(EngineError::OutOfRange);
        },
    };
    let vn = match body.velocity.checked_add(&t5) {
        Some(v) => v,
        None => {
            return Err(EngineError::OutOfRange);
        },
    };
    body.position = pn;
    body.velocity = vn;
    Ok(())
}

/// Every body advanced by one exact kinematic step.
pub open spec fn integrated_all(s0: Seq<Circle>, dt: (int, int), s1: Seq<Circle>) -> bool {
    &&& s1.len() == s0.len()
    &&& forall|i: int|
        0 <= i < s0.len() ==> spec_integrate((#[trigger] s0[i]).rigid_body, dt) is Some
    &&& forall|i: int|
        0 <= i < s0.len() ==> circle_with_update(
            s0[i],
            spec_integrate(s0[i].rigid_body, dt)->Some_0,
            #[trigger] s1[i],
        )
}

/// The broad-phase postcondition: `ps` lists exactly the strictly
/// overlapping index pairs of `s`, each once, in `i < j` form.
pub open spec fn broad_phase_listing(s: Seq<Circle>, ps: Seq<ShapeIndexPair>) -> bool {
    &&& forall|i: int, j: int|
        0 <= i < j < s.len() ==> (spec_broad_candidate(s[i], s[j]) <==> pair_listed(ps, i, j))
    &&& forall|k: int| 0 <= k < ps.len() ==> (#[trigger] ps[k]).0 < ps[k].1 < s.len()
    &&& forall|k1: int, k2: int|
        0 <= k1 < k2 < ps.len() ==> !((#[trigger] ps[k1]).0 == (#[trigger] ps[k2]).0 && ps[k1].1
            == ps[k2].1)
}

/// One candidate pair resolved in place: the two participants carry the
/// resolution's updates, everything else is untouched.
pub open spec fn resolve_step(s0: Seq<Circle>, p: ShapeIndexPair, s1: Seq<Circle>) -> bool {
    &&& s1.len() == s0.len()
    &&& p.0 < p.1 < s0.len()
    &&& spec_resolve_circles(s0[p.0 as int], s0[p.1 as int]) is Ok
    &&& circle_with_update(
        s0[p.0 as int],
        spec_resolve_circles(s0[p.0 as int], s0[p.1 as int])->Ok_0.0,
        s1[p.0 as int],
    )
    &&& circle_with_update(
        s0[p.1 as int],
        spec_resolve_circles(s0[p.0 as int], s0[p.1 as int])->Ok_0.1,
        s1[p.1 as int],
    )
    &&& forall|t: int| 0 <= t < s0.len() && t != p.0 && t != p.1 ==> s1[t] == s0[t]
}

/// The candidate pairs resolved one after the other, in list order.
pub open spec fn resolved_chain(s0: Seq<Circle>, ps: Seq<ShapeIndexPair>, s1: Seq<Circle>) -> bool
    decreases ps.len(),
{
    if ps.len() == 0 {
        s1 == s0
    } else {
        exists|mid: Seq<Circle>|
            #[trigger] resolve_step(s0, ps[0], mid) && resolved_chain(mid, ps.drop_first(), s1)
    }
}

/// Appending one resolution step to a chain.
proof fn lemma_chain_snoc(
    s0: Seq<Circle>,
    ps: Seq<ShapeIndexPair>,
    s1: Seq<Circle>,
    p: ShapeIndexPair,
    s2: Seq<Circle>,
)
    requires
        resolved_chain(s0, ps, s1),
        resolve_step(s1, p, s2),
    ensures
        resolved_chain(s0, ps.push(p), s2),
    decreases ps.len(),
{
    if ps.len() == 0 {
        assert(s1 == s0);
        assert(ps.push(p)[0] == p);
        assert(ps.push(p).drop_first() =~= Seq::<ShapeIndexPair>::empty());
        assert(resolve_step(s0, ps.push(p)[0], s2) && resolved_chain(
            s2,
            ps.push(p).drop_first(),
            s2,
        ));
    } else {
        let mid = choose|mid: Seq<Circle>|
            #[trigger] resolve_step(s0, ps[0], mid) && resolved_chain(mid, ps.drop_first(), s1);
        lemma_chain_snoc(mid, ps.drop_first(), s1, p, s2);
        assert(ps.push(p).drop_first() =~= ps.drop_first().push(p));
        assert(ps.push(p)[0] == ps[0]);
        assert(resolve_step(s0, ps.push(p)[0], mid) && resolved_chain(
            mid,
            ps.push(p).drop_first(),
            s2,
        ));
    }
}

/// One wall resolution applied in place.
pub open spec fn wall_step(w: Wall, c0: Circle, c1: Circle) -> bool {
    &&& spec_resolve_wall_circle(w, c0) is Ok
    &&& circle_with_update(c0, spec_resolve_wall_circle(w, c0)->Ok_0, c1)
}

/// A circle resolved against the four walls, in the fixed order left, top,
/// right, bottom.
pub open spec fn wall_chain(wl: Wall, wt: Wall, wr: Wall, wb: Wall, c0: Circle, c4: Circle) -> bool {
    exists|c1: Circle|
        #[trigger] wall_step(wl, c0, c1) && exists|c2: Circle|
            #[trigger] wall_step(wt, c1, c2) && exists|c3: Circle|
                #[trigger] wall_step(wr, c2, c3) && wall_step(wb, c3, c4)
}

/// Every body resolved against the four walls.
pub open spec fn walls_resolved(
    wl: Wall,
    wt: Wall,
    wr: Wall,
    wb: Wall,
    s0: Seq<Circle>,
    s1: Seq<Circle>,
) -> bool {
    &&& s1.len() == s0.len()
    &&& forall|i: int| 0 <= i < s0.len() ==> wall_chain(wl, wt, wr, wb, s0[i], #[trigger] s1[i])
}

/// Integration stopped at index `q`: every body before it carries its
/// kinematic step, the rest are untouched, and the body at `q` has no
/// representable step.
pub open spec fn integration_stopped(
    s0: Seq<Circle>,
    dt: (int, int),
    s1: Seq<Circle>,
    q: int,
) -> bool {
    &&& 0 <= q < s0.len()
    &&& s1.len() == s0.len()
    &&& spec_integrate(s0[q].rigid_body, dt) is None
    &&& forall|t: int| 0 <= t < q ==> spec_integrate((#[trigger] s0[t]).rigid_body, dt) is Some
    &&& forall|t: int|
        0 <= t < q ==> circle_with_update(
            s0[t],
            spec_integrate(s0[t].rigid_body, dt)->Some_0,
            #[trigger] s1[t],
        )
    &&& forall|t: int| q <= t < s0.len() ==> s1[t] == s0[t]
}

/// Resolution stopped at pair `k`: the pairs before it are applied in order
/// and the resolution of pair `k` on the resulting state reports `e`.
pub open spec fn resolution_stopped(
    s0: Seq<Circle>,
    ps: Seq<ShapeIndexPair>,
    s1: Seq<Circle>,
    k: int,
    e: EngineError,
) -> bool {
    &&& 0 <= k < ps.len()
    &&& ps[k].0 < ps[k].1 < s1.len()
    &&& resolved_chain(s0, ps.subrange(0, k), s1)
    &&& spec_resolve_circles(s1[ps[k].0 as int], s1[ps[k].1 as int]) == Err::<
        (BodyUpdate, BodyUpdate),
        EngineError,
    >(e)
}

/// One circle's four-wall pass stopped: some prefix of the fixed left, top,
/// right, bottom order succeeded and the next wall reports `e`.
pub open spec fn wall_pass_stopped(
    wl: Wall,
    wt: Wall,
    wr: Wall,
    wb: Wall,
    c0: Circle,
    e: EngineError,
) -> bool {
    ||| spec_resolve_wall_circle(wl, c0) == Err::<BodyUpdate, EngineError>(e)
    ||| exists|c1: Circle|
        #[trigger] wall_step(wl, c0, c1) && (spec_resolve_wall_circle(wt, c1) == Err::<
            BodyUpdate,
            EngineError,
        >(e) || exists|c2: Circle|
            #[trigger] wall_step(wt, c1, c2) && (spec_resolve_wall_circle(wr, c2) == Err::<
                BodyUpdate,
                EngineError,
            >(e) || exists|c3: Circle|
                #[trigger] wall_step(wr, c2, c3) && spec_resolve_wall_circle(wb, c3) == Err::<
                    BodyUpdate,
                    EngineError,
                >(e)))
}

/// The wall pass stopped at shape `q`: shapes before it are fully resolved,
/// the rest are untouched, and shape `q`'s own pass stopped with `e`.
pub open spec fn walls_stopped(
    wl: Wall,
    wt: Wall,
    wr: Wall,
    wb: Wall,
    s0: Seq<Circle>,
    s1: Seq<Circle>,
    q: int,
    e: EngineError,
) -> bool {
    &&& 0 <= q < s0.len()
    &&& s1.len() == s0.len()
    &&& forall|t: int| 0 <= t < q ==> wall_chain(wl, wt, wr, wb, s0[t], #[trigger] s1[t])
    &&& forall|t: int| q <= t < s0.len() ==> s1[t] == s0[t]
    &&& wall_pass_stopped(wl, wt, wr, wb, s0[q], e)
}

/// Advance every body by one kinematic step; an error names the first body
/// whose step is not representable, with everything before it advanced and
/// the rest untouched.
fn integrate_shapes(shapes: &mut Vec<Circle>, duration: Rat) -> (r: Result<(), EngineError>)
    ensures
        final(shapes)@.len() == old(shapes)@.len(),
        r is Ok ==> integrated_all(old(shapes)@, duration@, final(shapes)@),
        r matches Err(e) ==> e == EngineError::OutOfRange && exists|q: int|
            #[trigger] integration_stopped(old(shapes)@, duration@, final(shapes)@, q),
{
    let ghost s_orig = shapes@;
    let n = shapes.len();
    let mut i: usize = 0;
    while i < n
        invariant
            0 <= i <= n,
            n == s_orig.len(),
            s_orig == old(shapes)@,
            shapes@.len() == n,
            forall|t: int|
                0 <= t < i as int ==> spec_integrate(
                    (#[trigger] s_orig[t]).rigid_body,
                    duration@,
                ) is Some,
            forall|t: int|
                0 <= t < i as int ==> circle_with_update(
                    s_orig[t],
                    spec_integrate(s_orig[t].rigid_body, duration@)->Some_0,
                    #[trigger] shapes@[t],
                ),
            forall|t: int| i as int <= t < n as int ==> shapes@[t] == s_orig[t],
        decreases n - i,
    {
        let ghost pre = shapes@;
        let mut c = shapes[i];
        proof {
            assert(c == s_orig[i as int]);
        }
        match drive_particle(&mut c.rigid_body, duration) {
            Ok(()) => {
                shapes.set(i, c);
            },
            Err(e) => {
                proof {
                    assert(integration_stopped(s_orig, duration@, shapes@, i as int));
                }
                return Err(e);
            },
        }
        proof {
            assert forall|t: int|
                0 <= t < i as int + 1 implies spec_integrate(
                (#[trigger] s_orig[t]).rigid_body,
                duration@,
            ) is Some by {
                if t == i as int {
                    assert(spec_integrate(s_orig[t].rigid_body, duration@) is Some);
                }
            }
            assert forall|t: int|
                0 <= t < i as int + 1 implies circle_with_update(
                s_orig[t],
                spec_integrate(s_orig[t].rigid_body, duration@)->Some_0,
                #[trigger] shapes@[t],
            ) by {
                if t < i as int {
                    assert(shapes@[t] == pre[t]);
                } else {
                    assert(shapes@[t] == c);
                }
            }
        }
        i += 1;
    }
    Ok(())
}

/// Resolve the candidate pairs one after the other; an error names the first
/// failing pair, with the pairs before it applied and nothing else touched.
fn resolve_pairs(shapes: &mut Vec<Circle>, pairs: &Vec<ShapeIndexPair>) -> (r: Result<
    (),
    EngineError,
>)
    requires
        forall|t: int|
            0 <= t < pairs@.len() ==> (#[trigger] pairs@[t]).0 < pairs@[t].1 < old(shapes)@.len(),
    ensures
        final(shapes)@.len() == old(shapes)@.len(),
        r is Ok ==> resolved_chain(old(shapes)@, pairs@, final(shapes)@),
        r matches Err(e) ==> exists|k: int|
            #[trigger] resolution_stopped(old(shapes)@, pairs@, final(shapes)@, k, e),
{
    let ghost s0 = shapes@;
    let ghost ps_seq = pairs@;
    let n = shapes.len();
    let np = pairs.len();
    let mut k: usize = 0;
    while k < np
        invariant
            0 <= k <= np,
            np == ps_seq.len(),
            pairs@ == ps_seq,
            s0 == old(shapes)@,
            n == s0.len(),
            shapes@.len() == n,
            forall|t: int| 0 <= t < np as int ==> (#[trigger] ps_seq[t]).0 < ps_seq[t].1 < n,
            resolved_chain(s0, ps_seq.subrange(0, k as int), shapes@),
        decreases np - k,
    {
        let p = pairs[k];
        let ghost before = shapes@;
        let mut c1 = shapes[p.0];
        let mut c2 = shapes[p.1];
        match collide_circle_and_circle(&mut c1, &mut c2) {
            Ok(()) => {
                shapes.set(p.0, c1);
                shapes.set(p.1, c2);
            },
            Err(e) => {
                proof {
                    assert(spec_resolve_circles(before[p.0 as int], before[p.1 as int]) == Err::<
                        (BodyUpdate, BodyUpdate),
                        EngineError,
                    >(e));
                    assert(resolution_stopped(s0, ps_seq, shapes@, k as int, e));
                }
                return Err(e);
            },
        }
        proof {
            assert(resolve_step(before, p, shapes@));
            lemma_chain_snoc(s0, ps_seq.subrange(0, k as int), before, p, shapes@);
            assert(ps_seq.subrange(0, k as int + 1) =~= ps_seq.subrange(0, k as int).push(p));
        }
        k += 1;
    }
    proof {
        assert(ps_seq.subrange(0, np as int) =~= ps_seq);
    }
    Ok(())
}

/// Resolve every body against the four walls, in the fixed order left, top,
/// right, bottom; an error names the first shape and wall that failed, with
/// the shapes before it fully resolved and the rest untouched.
fn resolve_walls(
    shapes: &mut Vec<Circle>,
    wl: &Wall,
    wt: &Wall,
    wr: &Wall,
    wb: &Wall,
) -> (r: Result<(), EngineError>)
    ensures
        final(shapes)@.len() == old(shapes)@.len(),
        r is Ok ==> walls_resolved(
            *wl,
            *wt,
            *wr,
            *wb,
            old(shapes)@,
            final(shapes)@,
        ),
        r matches Err(e) ==> exists|q: int|
            #[trigger] walls_stopped(*wl, *wt, *wr, *wb, old(shapes)@, final(shapes)@, q, e),
{
    let ghost s0 = shapes@;
    let n = shapes.len();
    let mut q: usize = 0;
    while q < n
        invariant
            0 <= q <= n,
            s0 == old(shapes)@,
            n == s0.len(),
            shapes@.len() == n,
            forall|t: int|
                0 <= t < q as int ==> wall_chain(*wl, *wt, *wr, *wb, s0[t], #[trigger] shapes@[t]),
            forall|t: int| q as int <= t < n as int ==> shapes@[t] == s0[t],
        decreases n - q,
    {
        let mut c = shapes[q];
        let ghost c0 = c;
        proof {
            assert(c0 == s0[q as int]);
        }
        match collide_wall_and_circle(wl, &mut c) {
            Ok(()) => {},
            Err(e) => {
                proof {
                    assert(spec_resolve_wall_circle(*wl, c0) == Err::<BodyUpdate, EngineError>(e));
                    assert(wall_pass_stopped(*wl, *wt, *wr, *wb, c0, e));
                    assert(walls_stopped(*wl, *wt, *wr, *wb, s0, shapes@, q as int, e));
                }
                return Err(e);
            },
        }
        let ghost cs1 = c;
        match collide_wall_and_circle(wt, &mut c) {
            Ok(()) => {},
            Err(e) => {
                proof {
                    assert(wall_step(*wl, c0, cs1));
                    assert(spec_resolve_wall_circle(*wt, cs1) == Err::<BodyUpdate, EngineError>(e));
                    assert(wall_pass_stopped(*wl, *wt, *wr, *wb, c0, e));
                    assert(walls_stopped(*wl, *wt, *wr, *wb, s0, shapes@, q as int, e));
                }
                return Err(e);
            },
        }
        let ghost cs2 = c;
        match collide_wall_and_circle(wr, &mut c) {
            Ok(()) => {},
            Err(e) => {
                proof {
                    assert(wall_step(*wl, c0, cs1));
                    assert(wall_step(*wt, cs1, cs2));
                    assert(spec_resolve_wall_circle(*wr, cs2) == Err::<BodyUpdate, EngineError>(e));
                    assert(exists|c2x: Circle|
                        #[trigger] wall_step(*wt, cs1, c2x) && (spec_resolve_wall_circle(*wr, c2x)
                            == Err::<BodyUpdate, EngineError>(e) || exists|c3x: Circle|
                            #[trigger] wall_step(*wr, c2x, c3x) && spec_resolve_wall_circle(
                                *wb,
                                c3x,
                            ) == Err::<BodyUpdate, EngineError>(e)));
                    assert(wall_pass_stopped(*wl, *wt, *wr, *wb, c0, e));
                    assert(walls_stopped(*wl, *wt, *wr, *wb, s0, shapes@, q as int, e));
                }
                return Err(e);
            },
        }
        let ghost cs3 = c;
        match collide_wall_and_circle(wb, &mut c) {
            Ok(()) => {},
            Err(e) => {
                proof {
                    assert(wall_step(*wl, c0, cs1));
                    assert(wall_step(*wt, cs1, cs2));
                    assert(wall_step(*wr, cs2, cs3));
                    assert(spec_resolve_wall_circle(*wb, cs3) == Err::<BodyUpdate, EngineError>(e));
                    assert(exists|c3x: Circle|
                        #[trigger] wall_step(*wr, cs2, c3x) && spec_resolve_wall_circle(*wb, c3x)
                            == Err::<BodyUpdate, EngineError>(e));
                    assert(exists|c2x: Circle|
                        #[trigger] wall_step(*wt, cs1, c2x) && (spec_resolve_wall_circle(*wr, c2x)
                            == Err::<BodyUpdate, EngineError>(e) || exists|c3x: Circle|
                            #[trigger] wall_step(*wr, c2x, c3x) && spec_resolve_wall_circle(
                                *wb,
                                c3x,
                            ) == Err::<BodyUpdate, EngineError>(e)));
                    assert(wall_pass_stopped(*wl, *wt, *wr, *wb, c0, e));
                    assert(walls_stopped(*wl, *wt, *wr, *wb, s0, shapes@, q as int, e));
                }
                return Err(e);
            },
        }
        shapes.set(q, c);
        proof {
            assert(wall_step(*wl, c0, cs1));
            assert(wall_step(*wt, cs1, cs2));
            assert(wall_step(*wr, cs2, cs3));
            assert(wall_step(*wb, cs3, c));
            assert(wall_chain(*wl, *wt, *wr, *wb, c0, c));
        }
        q += 1;
    }
    Ok(())
}

/// How a frame can stop early: the first kinematic step that is not
/// representable, a bounding extent that is not representable after full
/// integration, a failing pair resolution after some pairs were applied, or
/// a failing wall pass after all pairs were applied.  Each case pins exactly
/// how far the frame got and what state it left.
pub open spec fn frame_stopped(
    s0: Seq<Circle>,
    dt: (int, int),
    wl: Wall,
    wt: Wall,
    wr: Wall,
    wb: Wall,
    s1: Seq<Circle>,
    e: EngineError,
) -> bool {
    ||| (e == EngineError::OutOfRange && exists|q: int|
        #[trigger] integration_stopped(s0, dt, s1, q))
    ||| (e == EngineError::OutOfRange && integrated_all(s0, dt, s1) && exists|i: int|
        0 <= i < s1.len() && !crate::detection_broad_phase::spec_bounds_ok(#[trigger] s1[i]))
    ||| exists|s_int: Seq<Circle>|
        #[trigger] integrated_all(s0, dt, s_int) && exists|ps: Seq<ShapeIndexPair>|
            #[trigger] broad_phase_listing(s_int, ps) && exists|k: int|
                #[trigger] resolution_stopped(s_int, ps, s1, k, e)
    ||| exists|s_int: Seq<Circle>|
        #[trigger] integrated_all(s0, dt, s_int) && exists|ps: Seq<ShapeIndexPair>|
            #[trigger] broad_phase_listing(s_int, ps) && exists|s_res: Seq<Circle>|
                #[trigger] resolved_chain(s_int, ps, s_res) && exists|q: int|
                    #[trigger] walls_stopped(wl, wt, wr, wb, s_res, s1, q, e)
}

/// A stopped integration is a stopped frame.
proof fn lemma_frame_stopped_integration(
    s0: Seq<Circle>,
    dt: (int, int),
    wl: Wall,
    wt: Wall,
    wr: Wall,
    wb: Wall,
    s1: Seq<Circle>,
    e: EngineError,
)
    requires
        e == EngineError::OutOfRange,
        exists|q: int| #[trigger] integration_stopped(s0, dt, s1, q),
    ensures
        frame_stopped(s0, dt, wl, wt, wr, wb, s1, e),
{
}

/// An unrepresentable bounding extent after integration is a stopped frame.
proof fn lemma_frame_stopped_bounds(
    s0: Seq<Circle>,
    dt: (int, int),
    wl: Wall,
    wt: Wall,
    wr: Wall,
    wb: Wall,
    s1: Seq<Circle>,
    e: EngineError,
)
    requires
        e == EngineError::OutOfRange,
        integrated_all(s0, dt, s1),
        exists|i: int|
            0 <= i < s1.len() && !crate::detection_broad_phase::spec_bounds_ok(#[trigger] s1[i]),
    ensures
        frame_stopped(s0, dt, wl, wt, wr, wb, s1, e),
{
}

/// A stopped pair resolution is a stopped frame.
proof fn lemma_frame_stopped_pairs(
    s0: Seq<Circle>,
    dt: (int, int),
    wl: Wall,
    wt: Wall,
    wr: Wall,
    wb: Wall,
    s_int: Seq<Circle>,
    ps: Seq<ShapeIndexPair>,
    s1: Seq<Circle>,
    e: EngineError,
)
    requires
        integrated_all(s0, dt, s_int),
        broad_phase_listing(s_int, ps),
        exists|k: int| #[trigger] resolution_stopped(s_int, ps, s1, k, e),
    ensures
        frame_stopped(s0, dt, wl, wt, wr, wb, s1, e),
{
    assert(exists|ps2: Seq<ShapeIndexPair>|
        #[trigger] broad_phase_listing(s_int, ps2) && exists|k: int|
            #[trigger] resolution_stopped(s_int, ps2, s1, k, e));
    assert(exists|s_int2: Seq<Circle>|
        #[trigger] integrated_all(s0, dt, s_int2) && exists|ps2: Seq<ShapeIndexPair>|
            #[trigger] broad_phase_listing(s_int2, ps2) && exists|k: int|
                #[trigger] resolution_stopped(s_int2, ps2, s1, k, e));
}

/// A stopped wall pass is a stopped frame.
proof fn lemma_frame_stopped_walls(
    s0: Seq<Circle>,
    dt: (int, int),
    wl: Wall,
    wt: Wall,
    wr: Wall,
    wb: Wall,
    s_int: Seq<Circle>,
    ps: Seq<ShapeIndexPair>,
    s_res: Seq<Circle>,
    s1: Seq<Circle>,
    e: EngineError,
)
    requires
        integrated_all(s0, dt, s_int),
        broad_phase_listing(s_int, ps),
        resolved_chain(s_int, ps, s_res),
        exists|q: int| #[trigger] walls_stopped(wl, wt, wr, wb, s_res, s1, q, e),
    ensures
        frame_stopped(s0, dt, wl, wt, wr, wb, s1, e),
{
    assert(exists|s_res2: Seq<Circle>|
        #[trigger] resolved_chain(s_int, ps, s_res2) && exists|q: int|
            #[trigger] walls_stopped(wl, wt, wr, wb, s_res2, s1, q, e));
    assert(exists|ps2: Seq<ShapeIndexPair>|
        #[trigger] broad_phase_listing(s_int, ps2) && exists|s_res2: Seq<Circle>|
            #[trigger] resolved_chain(s_int, ps2, s_res2) && exists|q: int|
                #[trigger] walls_stopped(wl, wt, wr, wb, s_res2, s1, q, e));
    assert(exists|s_int2: Seq<Circle>|
        #[trigger] integrated_all(s0, dt, s_int2) && exists|ps2: Seq<ShapeIndexPair>|
            #[trigger] broad_phase_listing(s_int2, ps2) && exists|s_res2: Seq<Circle>|
                #[trigger] resolved_chain(s_int2, ps2, s_res2) && exists|q: int|
                    #[trigger] walls_stopped(wl, wt, wr, wb, s_res2, s1, q, e));
}

/// A rectangular arena: four boundary walls and the dynamic circles inside.
pub struct Arena {
    pub wall_left: Wall,
    pub wall_top: Wall,
    pub wall_right: Wall,
    pub wall_bottom: Wall,
    pub shapes: Vec<Circle>,
}

impl Arena {
    /// An arena from its walls and shapes.
    pub fn new(wall_left: Wall, wall_top: Wall, wall_right: Wall, wall_bottom: Wall, shapes: Vec<
        Circle,
    >) -> (r: Arena)
        ensures
            r.wall_left == wall_left,
            r.wall_top == wall_top,
            r.wall_right == wall_right,
            r.wall_bottom == wall_bottom,
            r.shapes@ == shapes@,
    {
        Arena { wall_left, wall_top, wall_right, wall_bottom, shapes }
    }

    /// Advance the simulation by one frame: integrate every body, resolve
    /// every broad-phase candidate pair (narrow phase included), then resolve
    /// every body against the four walls in a fixed order.
    ///
    /// An error can only be what the error clause's four cases name — an
    /// unrepresentable kinematic step, an unrepresentable bounding extent, or
    /// a failing pair or wall resolution — each pinning exactly how far the
    /// frame got and what state it left.  A frame none of whose steps can
    /// fail is therefore owed `Ok`.
    #[verifier::rlimit(80)]
    pub fn next_frame(&mut self, duration: Rat) -> (r: Result<(), EngineError>)
        ensures
            final(self).wall_left == old(self).wall_left,
            final(self).wall_top == old(self).wall_top,
            final(self).wall_right == old(self).wall_right,
            final(self).wall_bottom == old(self).wall_bottom,
            final(self).shapes@.len() == old(self).shapes@.len(),
            r is Ok ==> exists|s_int: Seq<Circle>|
                #[trigger] integrated_all(old(self).shapes@, duration@, s_int) && exists|
                    ps: Seq<ShapeIndexPair>,
                |
                    #[trigger] broad_phase_listing(s_int, ps) && exists|s_res: Seq<Circle>|
                        #[trigger] resolved_chain(s_int, ps, s_res) && walls_resolved(
                            old(self).wall_left,
                            old(self).wall_top,
                            old(self).wall_right,
                            old(self).wall_bottom,
                            s_res,
                            final(self).shapes@,
                        ),
            r matches Err(e) ==> frame_stopped(
                old(self).shapes@,
                duration@,
                old(self).wall_left,
                old(self).wall_top,
                old(self).wall_right,
                old(self).wall_bottom,
                final(self).shapes@,
                e,
            ),
    {
        let ghost s_start = self.shapes@;
        let r_int = integrate_shapes(&mut self.shapes, duration);
        match r_int {
            Ok(()) => {},
            Err(e) => {
                proof {
                    lemma_frame_stopped_integration(
                        s_start,
                        duration@,
                        self.wall_left,
                        self.wall_top,
                        self.wall_right,
                        self.wall_bottom,
                        self.shapes@,
                        e,
                    );
                }
                return Err(e);
            },
        }
        let ghost s_int = self.shapes@;
        proof {
            assert(s_start == old(self).shapes@);
            assert(integrated_all(s_start, duration@, s_int));
        }
        let pairs = match detect_by_broad_phase(&self.shapes) {
            Ok(ps) => ps,
            Err(e) => {
                proof {
                    lemma_frame_stopped_bounds(
                        s_start,
                        duration@,
                        self.wall_left,
                        self.wall_top,
                        self.wall_right,
                        self.wall_bottom,
                        self.shapes@,
                        e,
                    );
                }
                return Err(e);
            },
        };
        let ghost ps_seq = pairs@;
        proof {
            assert(broad_phase_listing(s_int, ps_seq));
        }
        let r_pairs = resolve_pairs(&mut self.shapes, &pairs);
        match r_pairs {
            Ok(()) => {},
            Err(e) => {
                proof {
                    lemma_frame_stopped_pairs(
                        s_start,
                        duration@,
                        self.wall_left,
                        self.wall_top,
                        self.wall_right,
                        self.wall_bottom,
                        s_int,
                        ps_seq,
                        self.shapes@,
                        e,
                    );
                }
                return Err(e);
            },
        }
        let ghost s_res = self.shapes@;
        proof {
            assert(resolved_chain(s_int, ps_seq, s_res));
        }
        let r_walls = resolve_walls(
            &mut self.shapes,
            &self.wall_left,
            &self.wall_top,
            &self.wall_right,
            &self.wall_bottom,
        );
        match r_walls {
            Ok(()) => {},
            Err(e) => {
                proof {
                    lemma_frame_stopped_walls(
                        s_start,
                        duration@,
                        self.wall_left,
                        self.wall_top,
                        self.wall_right,
                        self.wall_bottom,
                        s_int,
                        ps_seq,
                        s_res,
                        self.shapes@,
                        e,
                    );
                }
                return Err(e);
            },
        }
        proof {
            let w_l = old(self).wall_left;
            let w_t = old(self).wall_top;
            let w_r = old(self).wall_right;
            let w_b = old(self).wall_bottom;
            assert(walls_resolved(w_l, w_t, w_r, w_b, s_res, self.shapes@));
            assert(exists|s_res2: Seq<Circle>|
                #[trigger] resolved_chain(s_int, ps_seq, s_res2) && walls_resolved(
                    w_l,
                    w_t,
                    w_r,
                    w_b,
                    s_res2,
                    self.shapes@,
                ));
            assert(exists|ps: Seq<ShapeIndexPair>|
                #[trigger] broad_phase_listing(s_int, ps) && exists|s_res2: Seq<Circle>|
                    #[trigger] resolved_chain(s_int, ps, s_res2) && walls_resolved(
                        w_l,
                        w_t,
                        w_r,
                        w_b,
                        s_res2,
                        self.shapes@,
                    ));
        }
        Ok(())
    }
}

} // verus!
