//! Broad phase: cull to the index pairs whose axis-aligned bounding extents
//! overlap on both axes.
//!
//! Overlap is strict on each axis: circles whose extents merely touch are not
//! candidates (tangency is not a collision).

use crate::rational::{flt, Rat};
use crate::shapes::{
    spec_bound_bottom, spec_bound_left, spec_bound_right, spec_bound_top, Circle,
};
use crate::EngineError;
use vstd::prelude::*;

verus! {

/// An unordered pair of indices into the active-shape collection.
#[derive(Clone, Copy, Debug)]
pub struct ShapeIndexPair(pub usize, pub usize);

impl PartialEq for ShapeIndexPair {
    /// Symmetric equality: `(a, b) == (b, a)`.
    fn eq(&self, rhs: &ShapeIndexPair) -> (r: bool) {
        self.0 == rhs.0 && self.1 == rhs.1 || self.0 == rhs.1 && self.1 == rhs.0
    }
}

impl vstd::std_specs::cmp::PartialEqSpecImpl for ShapeIndexPair {
    open spec fn obeys_eq_spec() -> bool {
        true
    }

    open spec fn eq_spec(&self, rhs: &ShapeIndexPair) -> bool {
        self.0 == rhs.0 && self.1 == rhs.1 || self.0 == rhs.1 && self.1 == rhs.0
    }
}

/// The fraction inside, or a placeholder for `None`.
pub open spec fn frac_or_zero(o: Option<(int, int)>) -> (int, int) {
    match o {
        Some(v) => v,
        None => (0int, 1int),
    }
}

/// All four bounding extents of the circle are representable.
pub open spec fn spec_bounds_ok(c: Circle) -> bool {
    spec_bound_left(c) is Some && spec_bound_right(c) is Some && spec_bound_bottom(c) is Some
        && spec_bound_top(c) is Some
}

/// The two circles' extents strictly overlap on the x axis.
pub open spec fn spec_overlap_x(a: Circle, b: Circle) -> bool {
    flt(frac_or_zero(spec_bound_left(a)), frac_or_zero(spec_bound_right(b))) && flt(
        frac_or_zero(spec_bound_left(b)),
        frac_or_zero(spec_bound_right(a)),
    )
}

/// The two circles' extents strictly overlap on the y axis.
pub open spec fn spec_overlap_y(a: Circle, b: Circle) -> bool {
    flt(frac_or_zero(spec_bound_bottom(a)), frac_or_zero(spec_bound_top(b))) && flt(
        frac_or_zero(spec_bound_bottom(b)),
        frac_or_zero(spec_bound_top(a)),
    )
}

/// A broad-phase candidate: extents overlap on both axes.
pub open spec fn spec_broad_candidate(a: Circle, b: Circle) -> bool {
    spec_overlap_x(a, b) && spec_overlap_y(a, b)
}

/// The pair `(i, j)` occurs in the result.
pub open spec fn pair_listed(ps: Seq<ShapeIndexPair>, i: int, j: int) -> bool {
    exists|k: int| 0 <= k < ps.len() && ps[k].0 == i && ps[k].1 == j
}

/// The candidate pairs among the shapes: exactly the index pairs `(i, j)`,
/// `i < j`, whose bounding extents strictly overlap on both axes, each listed
/// once; an error when some extent is not representable.
pub fn detect_by_broad_phase(shapes: &Vec<Circle>) -> (r: Result<Vec<ShapeIndexPair>, EngineError>)
    ensures
        match r {
            Ok(pairs) => {
                &&& forall|i: int, j: int|
                    0 <= i < j < shapes@.len() ==> (spec_broad_candidate(shapes@[i], shapes@[j])
                        <==> pair_listed(pairs@, i, j))
                &&& forall|k: int|
                    0 <= k < pairs@.len() ==> (#[trigger] pairs@[k]).0 < pairs@[k].1
                        < shapes@.len()
                &&& forall|k1: int, k2: int|
                    0 <= k1 < k2 < pairs@.len() ==> !((#[trigger] pairs@[k1]).0 == (
                    #[trigger] pairs@[k2]).0 && pairs@[k1].1 == pairs@[k2].1)
                &&& forall|i: int| 0 <= i < shapes@.len() ==> spec_bounds_ok(#[trigger] shapes@[i])
            },
            Err(e) => {
                &&& e == EngineError::OutOfRange
                &&& exists|i: int|
                    0 <= i < shapes@.len() && !spec_bounds_ok(#[trigger] shapes@[i])
            },
        },
{
    let n = shapes.len();
    let mut bounds: Vec<(Rat, Rat, Rat, Rat)> = Vec::new();
    let mut i: usize = 0;
    while i < n
        invariant
            n == shapes@.len(),
            0 <= i <= n,
            bounds@.len() == i,
            forall|t: int|
                0 <= t < i as int ==> spec_bounds_ok(#[trigger] shapes@[t]),
            forall|t: int|
                0 <= t < i as int ==> (#[trigger] bounds@[t]).0@ == frac_or_zero(
                    spec_bound_left(shapes@[t]),
                ) && bounds@[t].1@ == frac_or_zero(spec_bound_right(shapes@[t])) && bounds@[t].2@
                    == frac_or_zero(spec_bound_bottom(shapes@[t])) && bounds@[t].3@ == frac_or_zero(
                    spec_bound_top(shapes@[t]),
                ),
        decreases n - i,
    {
        let c = &shapes[i];
        let l = match c.bound_left() {
            Some(v) => v,
            None => {
                return Err(EngineError::OutOfRange);
            },
        };
        let rr = match c.bound_right() {
            Some(v) => v,
            None => {
                return Err(EngineError::OutOfRange);
            },
        };
        let b = match c.bound_bottom() {
            Some(v) => v,
            None => {
                return Err(EngineError::OutOfRange);
            },
        };
        let t = match c.bound_top() {
            Some(v) => v,
            None => {
                return Err(EngineError::OutOfRange);
            },
        };
        bounds.push((l, rr, b, t));
        i += 1;
    }
    let mut pairs: Vec<ShapeIndexPair> = Vec::new();
    let mut a: usize = 0;
    while a < n
        invariant
            n == shapes@.len(),
            bounds@.len() == n,
            0 <= a <= n,
            forall|t: int|
                0 <= t < n as int ==> spec_bounds_ok(#[trigger] shapes@[t]),
            forall|t: int|
                0 <= t < n as int ==> (#[trigger] bounds@[t]).0@ == frac_or_zero(
                    spec_bound_left(shapes@[t]),
                ) && bounds@[t].1@ == frac_or_zero(spec_bound_right(shapes@[t])) && bounds@[t].2@
                    == frac_or_zero(spec_bound_bottom(shapes@[t])) && bounds@[t].3@ == frac_or_zero(
                    spec_bound_top(shapes@[t]),
                ),
            forall|i2: int, j2: int|
                0 <= i2 < j2 < n as int && i2 < a as int ==> (spec_broad_candidate(
                    shapes@[i2],
                    shapes@[j2],
                ) <==> pair_listed(pairs@, i2, j2)),
            forall|k: int|
                0 <= k < pairs@.len() ==> (#[trigger] pairs@[k]).0 < pairs@[k].1 < n
                    && pairs@[k].0 < a,
            forall|k1: int, k2: int|
                0 <= k1 < k2 < pairs@.len() ==> ((#[trigger] pairs@[k1]).0 < (
                #[trigger] pairs@[k2]).0 || (pairs@[k1].0 == pairs@[k2].0 && pairs@[k1].1
                    < pairs@[k2].1)),
        decreases n - a,
    {
        let mut b: usize = a + 1;
        while b < n
            invariant
                n == shapes@.len(),
                bounds@.len() == n,
                0 <= a < n,
                a < b <= n,
                forall|t: int|
                    0 <= t < n as int ==> spec_bounds_ok(#[trigger] shapes@[t]),
                forall|t: int|
                    0 <= t < n as int ==> (#[trigger] bounds@[t]).0@ == frac_or_zero(
                        spec_bound_left(shapes@[t]),
                    ) && bounds@[t].1@ == frac_or_zero(spec_bound_right(shapes@[t]))
                        && bounds@[t].2@ == frac_or_zero(spec_bound_bottom(shapes@[t]))
                        && bounds@[t].3@ == frac_or_zero(spec_bound_top(shapes@[t])),
                forall|i2: int, j2: int|
                    0 <= i2 < j2 < n as int && (i2 < a as int || (i2 == a as int && j2
                        < b as int)) ==> (spec_broad_candidate(shapes@[i2], shapes@[j2])
                        <==> pair_listed(pairs@, i2, j2)),
                forall|k: int|
                    0 <= k < pairs@.len() ==> (#[trigger] pairs@[k]).0 < pairs@[k].1 < n && (
                    pairs@[k].0 < a || (pairs@[k].0 == a && pairs@[k].1 < b)),
                forall|k1: int, k2: int|
                    0 <= k1 < k2 < pairs@.len() ==> ((#[trigger] pairs@[k1]).0 < (
                    #[trigger] pairs@[k2]).0 || (pairs@[k1].0 == pairs@[k2].0 && pairs@[k1].1
                        < pairs@[k2].1)),
            decreases n - b,
        {
            let (la, ra, ba, ta) = (&bounds[a].0, &bounds[a].1, &bounds[a].2, &bounds[a].3);
            let (lb, rb, bb, tb) = (&bounds[b].0, &bounds[b].1, &bounds[b].2, &bounds[b].3);
            let ghost old_ps = pairs@;
            if la.lt(rb) && lb.lt(ra) && ba.lt(tb) && bb.lt(ta) {
                proof {
                    assert(spec_broad_candidate(shapes@[a as int], shapes@[b as int]));
                }
                pairs.push(ShapeIndexPair(a, b));
                proof {
                    assert(pairs@[pairs@.len() - 1].0 == a && pairs@[pairs@.len() - 1].1 == b);
                    assert(pair_listed(pairs@, a as int, b as int));
                    assert forall|i2: int, j2: int|
                        0 <= i2 < j2 < n as int && (i2 < a as int || (i2 == a as int && j2
                            < b as int)) implies (spec_broad_candidate(shapes@[i2], shapes@[j2])
                        <==> pair_listed(pairs@, i2, j2)) by {
                        if pair_listed(pairs@, i2, j2) {
                            let k = choose|k: int|
                                0 <= k < pairs@.len() && pairs@[k].0 == i2 && pairs@[k].1 == j2;
                            if k < old_ps.len() {
                                assert(pair_listed(old_ps, i2, j2));
                            }
                        }
                        if pair_listed(old_ps, i2, j2) {
                            let k = choose|k: int|
                                0 <= k < old_ps.len() && old_ps[k].0 == i2 && old_ps[k].1 == j2;
                            assert(pairs@[k].0 == i2 && pairs@[k].1 == j2);
                        }
                    }
                }
            } else {
                proof {
                    assert(!spec_broad_candidate(shapes@[a as int], shapes@[b as int]));
                    assert(!pair_listed(pairs@, a as int, b as int)) by {
                        if pair_listed(pairs@, a as int, b as int) {
                            let k = choose|k: int|
                                0 <= k < pairs@.len() && pairs@[k].0 == a as int && pairs@[k].1
                                    == b as int;
                            assert(pairs@[k].0 < a || (pairs@[k].0 == a && pairs@[k].1 < b));
                        }
                    }
                }
            }
            b += 1;
        }
        a += 1;
    }
    Ok(pairs)
}

} // verus!
