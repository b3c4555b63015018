//! Exact rational arithmetic on `i64` numerator / denominator pairs.
//!
//! A value is `n / d` with `d >= 1`.  Arithmetic is performed exactly in
//! `i128`, divided by the gcd of the result, and handed back only when the
//! reduced pair fits `i64` again; otherwise the operation reports `None`.
//! Specifications speak about mathematical fractions `(int, int)`.

use vstd::arithmetic::div_mod::{
    lemma_add_mod_noop, lemma_fundamental_div_mod, lemma_fundamental_div_mod_converse,
    lemma_mod_self_0, lemma_mul_mod_noop_left, lemma_small_mod,
};
use vstd::prelude::*;

verus! {

// ---------------------------------------------------------------------------
// Mathematical fractions: pairs (numerator, denominator) with denominator > 0
// ---------------------------------------------------------------------------

/// Well-formed fraction: positive denominator.
pub open spec fn fwf(f: (int, int)) -> bool {
    f.1 > 0
}

/// The two fractions denote the same rational value.
pub open spec fn feq(a: (int, int), b: (int, int)) -> bool {
    a.0 * b.1 == b.0 * a.1
}

/// `a <= b` as rational values (for well-formed fractions).
pub open spec fn fle(a: (int, int), b: (int, int)) -> bool {
    a.0 * b.1 <= b.0 * a.1
}

/// `a < b` as rational values (for well-formed fractions).
pub open spec fn flt(a: (int, int), b: (int, int)) -> bool {
    a.0 * b.1 < b.0 * a.1
}

/// Exact sum of two fractions.
pub open spec fn fadd(a: (int, int), b: (int, int)) -> (int, int) {
    (a.0 * b.1 + b.0 * a.1, a.1 * b.1)
}

/// Exact difference of two fractions.
pub open spec fn fsub(a: (int, int), b: (int, int)) -> (int, int) {
    (a.0 * b.1 - b.0 * a.1, a.1 * b.1)
}

/// Exact product of two fractions.
pub open spec fn fmul(a: (int, int), b: (int, int)) -> (int, int) {
    (a.0 * b.0, a.1 * b.1)
}

/// Exact negation of a fraction.
pub open spec fn fneg(a: (int, int)) -> (int, int) {
    (-a.0, a.1)
}

/// Exact quotient of two fractions (sign moved into the numerator so the
/// denominator stays positive); meaningful only for `b.0 != 0`.
pub open spec fn fdiv(a: (int, int), b: (int, int)) -> (int, int) {
    if b.0 >= 0 {
        (a.0 * b.1, a.1 * b.0)
    } else {
        (-(a.0 * b.1), -(a.1 * b.0))
    }
}

/// Absolute value on `int`.
pub open spec fn iabs(x: int) -> int {
    if x >= 0 {
        x
    } else {
        -x
    }
}

// ---------------------------------------------------------------------------
// Greatest common divisor and reduction
// ---------------------------------------------------------------------------

/// Euclid's greatest common divisor.
pub open spec fn gcd(a: nat, b: nat) -> nat
    decreases b,
{
    if b == 0 {
        a
    } else {
        gcd(b, a % b)
    }
}

/// The gcd is positive as soon as one argument is, and divides both arguments.
pub proof fn lemma_gcd_divides(a: nat, b: nat)
    ensures
        a > 0 || b > 0 ==> gcd(a, b) > 0,
        gcd(a, b) > 0 ==> (a as int) % (gcd(a, b) as int) == 0 && (b as int) % (gcd(a, b) as int)
            == 0,
    decreases b,
{
    if b == 0 {
        if a > 0 {
            lemma_mod_self_0(a as int);
            lemma_small_mod(0, a);
        }
    } else {
        lemma_gcd_divides(b, a % b);
        let g = gcd(b, a % b) as int;
        assert(g > 0);
        assert((b as int) % g == 0);
        assert(((a % b) as int) % g == 0);
        lemma_fundamental_div_mod(a as int, b as int);
        let q = a as int / b as int;
        lemma_mul_mod_noop_left(b as int, q, g);
        assert((((b as int) % g) * q) % g == ((b as int) * q) % g);
        lemma_small_mod(0, g as nat);
        assert((0int * q) % g == 0int % g);
        assert(((b as int) * q) % g == 0);
        lemma_add_mod_noop((b as int) * q, (a % b) as int, g);
        assert((a as int) % g == 0);
    }
}

/// A fraction divided by the gcd of its parts.
pub open spec fn freduce(f: (int, int)) -> (int, int) {
    let g = gcd(iabs(f.0) as nat, f.1 as nat) as int;
    (f.0 / g, f.1 / g)
}

/// Exact division of an exact negative multiple.
proof fn lemma_neg_div_exact(m: int, g: int)
    requires
        m >= 0,
        g > 0,
        m % g == 0,
    ensures
        (-m) / g == -(m / g),
        (-m) % g == 0,
{
    lemma_fundamental_div_mod(m, g);
    assert(m == g * (m / g));
    assert(g * (-(m / g)) == -(g * (m / g))) by (nonlinear_arith);
    lemma_fundamental_div_mod_converse(-m, g, -(m / g), 0);
}

/// Reduction keeps the value, keeps the denominator positive, and never grows
/// either part.  Also exposes that the reduction is an exact division by the
/// (positive) gcd.
pub proof fn lemma_freduce(f: (int, int))
    requires
        fwf(f),
    ensures
        fwf(freduce(f)),
        feq(freduce(f), f),
        iabs(freduce(f).0) <= iabs(f.0),
        freduce(f).1 <= f.1,
        freduce(f).0 * (gcd(iabs(f.0) as nat, f.1 as nat) as int) == f.0,
        freduce(f).1 * (gcd(iabs(f.0) as nat, f.1 as nat) as int) == f.1,
{
    let m = iabs(f.0);
    let g = gcd(m as nat, f.1 as nat) as int;
    lemma_gcd_divides(m as nat, f.1 as nat);
    assert(g > 0);
    assert(m % g == 0);
    assert(f.1 % g == 0);
    lemma_fundamental_div_mod(m, g);
    assert(m == g * (m / g));
    lemma_fundamental_div_mod(f.1, g);
    assert(f.1 == g * (f.1 / g));
    let q1 = f.1 / g;
    assert(q1 >= 0 && q1 <= f.1) by (nonlinear_arith)
        requires
            f.1 == g * q1,
            g > 0,
            f.1 > 0,
    ;
    assert(q1 > 0) by (nonlinear_arith)
        requires
            f.1 == g * q1,
            f.1 > 0,
            q1 >= 0,
    ;
    let q0 = m / g;
    assert(q0 >= 0 && q0 <= m) by (nonlinear_arith)
        requires
            m == g * q0,
            g > 0,
            m >= 0,
    ;
    if f.0 >= 0 {
        assert(freduce(f) == (q0, q1));
        assert(q0 * f.1 == f.0 * q1) by (nonlinear_arith)
            requires
                f.0 == g * q0,
                f.1 == g * q1,
        ;
        assert(q0 * g == f.0) by (nonlinear_arith)
            requires
                f.0 == g * q0,
        ;
        assert(q1 * g == f.1) by (nonlinear_arith)
            requires
                f.1 == g * q1,
        ;
    } else {
        lemma_neg_div_exact(m, g);
        assert(f.0 / g == -q0);
        assert(freduce(f) == (-q0, q1));
        assert((-q0) * f.1 == f.0 * q1) by (nonlinear_arith)
            requires
                m == g * q0,
                f.1 == g * q1,
                f.0 == -m,
        ;
        assert((-q0) * g == f.0) by (nonlinear_arith)
            requires
                m == g * q0,
                f.0 == -m,
        ;
        assert(q1 * g == f.1) by (nonlinear_arith)
            requires
                f.1 == g * q1,
        ;
    }
}

// ---------------------------------------------------------------------------
// Fitting reduced fractions back into i64
// ---------------------------------------------------------------------------

/// The fraction is representable with an `i64` numerator and denominator.
pub open spec fn fits_i64_frac(f: (int, int)) -> bool {
    -0x8000_0000_0000_0000 <= f.0 <= 0x7fff_ffff_ffff_ffff && 1 <= f.1 <= 0x7fff_ffff_ffff_ffff
}

/// Reduce a fraction and keep it only when it still fits `i64`.
pub open spec fn norm(f: (int, int)) -> Option<(int, int)> {
    let r = freduce(f);
    if fits_i64_frac(r) {
        Some(r)
    } else {
        None
    }
}

/// What each checked operation on `Rat` returns, at the fraction level.
pub open spec fn spec_add_rat(a: (int, int), b: (int, int)) -> Option<(int, int)> {
    norm(fadd(a, b))
}

pub open spec fn spec_sub_rat(a: (int, int), b: (int, int)) -> Option<(int, int)> {
    norm(fsub(a, b))
}

pub open spec fn spec_mul_rat(a: (int, int), b: (int, int)) -> Option<(int, int)> {
    norm(fmul(a, b))
}

pub open spec fn spec_neg_rat(a: (int, int)) -> Option<(int, int)> {
    norm(fneg(a))
}

pub open spec fn spec_div_rat(a: (int, int), b: (int, int)) -> Option<(int, int)> {
    if b.0 == 0 {
        None
    } else {
        norm(fdiv(a, b))
    }
}

// ---------------------------------------------------------------------------
// The executable type
// ---------------------------------------------------------------------------

/// An exact rational number: `n / d` with `d >= 1`.
#[derive(Clone, Copy, Debug)]
pub struct Rat {
    n: i64,
    d: i64,
}

impl View for Rat {
    type V = (int, int);

    closed spec fn view(&self) -> (int, int) {
        (self.n as int, if self.d >= 1 { self.d as int } else { 1 })
    }
}

/// Every `Rat` views as a well-formed fraction.
pub proof fn lemma_rat_wf(r: Rat)
    ensures
        fwf(r@),
{
}

/// The fraction a checked operation hands back, if any.
pub open spec fn opt_rat_view(r: Option<Rat>) -> Option<(int, int)> {
    match r {
        Some(v) => Some(v@),
        None => None,
    }
}

impl Rat {
    #[verifier::type_invariant]
    spec fn type_inv(self) -> bool {
        self.d >= 1
    }

    /// The whole number `i`.
    pub fn from_int(i: i64) -> (r: Rat)
        ensures
            r@ == (i as int, 1int),
    {
        Rat { n: i, d: 1 }
    }

    /// Direct construction from an already positive denominator; the pair is
    /// taken as given, without reduction.
    pub(crate) fn from_parts(n: i64, d: i64) -> (r: Rat)
        requires
            d >= 1,
        ensures
            r@ == (n as int, d as int),
    {
        Rat { n, d }
    }

    /// `n / d`, reduced; `None` when `d == 0` or the reduced value does not
    /// fit.
    pub fn new(n: i64, d: i64) -> (r: Option<Rat>)
        ensures
            opt_rat_view(r) == spec_new_rat(n as int, d as int),
    {
        if d == 0 {
            None
        } else if d > 0 {
            normalize128(n as i128, d as i128)
        } else {
            normalize128(-(n as i128), -(d as i128))
        }
    }

    /// Exact sum; `None` when the reduced result does not fit `i64`.
    pub fn checked_add(&self, rhs: &Rat) -> (r: Option<Rat>)
        ensures
            opt_rat_view(r) == spec_add_rat(self@, rhs@),
    {
        proof {
            use_type_invariant(self);
            use_type_invariant(rhs);
        }
        let p1 = wide_mul(self.n, rhs.d);
        let p2 = wide_mul(rhs.n, self.d);
        proof {
            lemma_wide_products_bounded(p1, p2);
        }
        let n = p1 + p2;
        let d = wide_den_mul(self.d, rhs.d);
        normalize128(n, d)
    }

    /// Exact difference; `None` when the reduced result does not fit `i64`.
    pub fn checked_sub(&self, rhs: &Rat) -> (r: Option<Rat>)
        ensures
            opt_rat_view(r) == spec_sub_rat(self@, rhs@),
    {
        proof {
            use_type_invariant(self);
            use_type_invariant(rhs);
        }
        let p1 = wide_mul(self.n, rhs.d);
        let p2 = wide_mul(rhs.n, self.d);
        proof {
            lemma_wide_products_bounded(p1, p2);
        }
        let n = p1 - p2;
        let d = wide_den_mul(self.d, rhs.d);
        normalize128(n, d)
    }

    /// Exact product; `None` when the reduced result does not fit `i64`.
    pub fn checked_mul(&self, rhs: &Rat) -> (r: Option<Rat>)
        ensures
            opt_rat_view(r) == spec_mul_rat(self@, rhs@),
    {
        proof {
            use_type_invariant(self);
            use_type_invariant(rhs);
        }
        let n = wide_mul(self.n, rhs.n);
        let d = wide_den_mul(self.d, rhs.d);
        proof {
            lemma_wide_product_not_min(n);
        }
        normalize128(n, d)
    }

    /// Exact quotient; `None` when dividing by zero or when the reduced
    /// result does not fit `i64`.
    pub fn checked_div(&self, rhs: &Rat) -> (r: Option<Rat>)
        ensures
            opt_rat_view(r) == spec_div_rat(self@, rhs@),
    {
        proof {
            use_type_invariant(self);
            use_type_invariant(rhs);
        }
        if rhs.n == 0 {
            None
        } else {
            let n = wide_mul(self.n, rhs.d);
            let d = wide_mul(self.d, rhs.n);
            proof {
                lemma_wide_product_not_min(n);
                lemma_wide_product_not_min(d);
            }
            if rhs.n > 0 {
                proof {
                    assert(d >= 1) by (nonlinear_arith)
                        requires
                            d == (self.d as int) * (rhs.n as int),
                            self.d >= 1,
                            rhs.n >= 1,
                    ;
                }
                normalize128(n, d)
            } else {
                proof {
                    assert(-d >= 1) by (nonlinear_arith)
                        requires
                            d == (self.d as int) * (rhs.n as int),
                            self.d >= 1,
                            rhs.n <= -1,
                    ;
                }
                normalize128(-n, -d)
            }
        }
    }

    /// Exact negation; `None` when the reduced result does not fit `i64`.
    pub fn checked_neg(&self) -> (r: Option<Rat>)
        ensures
            opt_rat_view(r) == spec_neg_rat(self@),
    {
        proof {
            use_type_invariant(self);
        }
        normalize128(-(self.n as i128), self.d as i128)
    }

    /// Reciprocal of a strictly positive value; `None` otherwise.  The pair
    /// is swapped exactly, without reduction.
    pub fn recip_positive(&self) -> (r: Option<Rat>)
        ensures
            opt_rat_view(r) == spec_recip_positive(self@),
    {
        proof {
            use_type_invariant(self);
        }
        if self.n >= 1 {
            Some(Rat { n: self.d, d: self.n })
        } else {
            None
        }
    }

    /// Exact comparison: `self < rhs` as rational values.
    pub fn lt(&self, rhs: &Rat) -> (r: bool)
        ensures
            r == flt(self@, rhs@),
    {
        proof {
            use_type_invariant(self);
            use_type_invariant(rhs);
        }
        wide_mul(self.n, rhs.d) < wide_mul(rhs.n, self.d)
    }

    /// Exact comparison: `self <= rhs` as rational values.
    pub fn le(&self, rhs: &Rat) -> (r: bool)
        ensures
            r == fle(self@, rhs@),
    {
        proof {
            use_type_invariant(self);
            use_type_invariant(rhs);
        }
        wide_mul(self.n, rhs.d) <= wide_mul(rhs.n, self.d)
    }

    /// The value is exactly zero.
    pub fn is_zero(&self) -> (r: bool)
        ensures
            r == feq(self@, (0int, 1int)),
    {
        proof {
            use_type_invariant(self);
        }
        self.n == 0
    }

    /// The value is strictly positive.
    pub fn is_positive(&self) -> (r: bool)
        ensures
            r == flt((0int, 1int), self@),
    {
        proof {
            use_type_invariant(self);
        }
        self.n > 0
    }

    /// The value is strictly negative.
    pub fn is_negative(&self) -> (r: bool)
        ensures
            r == flt(self@, (0int, 1int)),
    {
        proof {
            use_type_invariant(self);
        }
        self.n < 0
    }
}

impl PartialEq for Rat {
    /// Exact value equality (`1/2 == 2/4`).
    fn eq(&self, other: &Rat) -> (r: bool) {
        proof {
            use_type_invariant(self);
            use_type_invariant(other);
        }
        wide_mul(self.n, other.d) == wide_mul(other.n, self.d)
    }
}

impl vstd::std_specs::cmp::PartialEqSpecImpl for Rat {
    open spec fn obeys_eq_spec() -> bool {
        true
    }

    open spec fn eq_spec(&self, other: &Rat) -> bool {
        feq(self@, other@)
    }
}

/// The swapped pair `(d, n)` for positive `n / d`, else `None`.
pub open spec fn spec_recip_positive(a: (int, int)) -> Option<(int, int)> {
    if a.0 >= 1 {
        Some((a.1, a.0))
    } else {
        None
    }
}

/// `n / d`, sign-normalized and reduced, at the fraction level.
pub open spec fn spec_new_rat(n: int, d: int) -> Option<(int, int)> {
    if d == 0 {
        None
    } else if d > 0 {
        norm((n, d))
    } else {
        norm((-n, -d))
    }
}

// ---------------------------------------------------------------------------
// Executable helpers
// ---------------------------------------------------------------------------

/// Exact product of two `i64` values, in `i128`.
fn wide_mul(a: i64, b: i64) -> (r: i128)
    ensures
        r == (a as int) * (b as int),
{
    proof {
        assert((a as int) * (b as int) <= 0x4000_0000_0000_0000_0000_0000_0000_0000 && (a as int)
            * (b as int) >= -0x4000_0000_0000_0000_0000_0000_0000_0000) by (nonlinear_arith)
            requires
                -0x8000_0000_0000_0000 <= a as int <= 0x7fff_ffff_ffff_ffff,
                -0x8000_0000_0000_0000 <= b as int <= 0x7fff_ffff_ffff_ffff,
        ;
    }
    (a as i128) * (b as i128)
}

/// Exact product of two positive `i64` denominators, in `i128`.
fn wide_den_mul(a: i64, b: i64) -> (r: i128)
    requires
        a >= 1,
        b >= 1,
    ensures
        r == (a as int) * (b as int),
        r >= 1,
{
    proof {
        assert((a as int) * (b as int) <= 0x4000_0000_0000_0000_0000_0000_0000_0000 && (a as int)
            * (b as int) >= 1) by (nonlinear_arith)
            requires
                1 <= a as int <= 0x7fff_ffff_ffff_ffff,
                1 <= b as int <= 0x7fff_ffff_ffff_ffff,
        ;
    }
    (a as i128) * (b as i128)
}

/// A product of two `i64` values stays clear of `i128::MIN`.
proof fn lemma_wide_product_not_min(p: i128)
    requires
        exists|a: int, b: int|
            -0x8000_0000_0000_0000 <= a <= 0x7fff_ffff_ffff_ffff && -0x8000_0000_0000_0000 <= b
                <= 0x7fff_ffff_ffff_ffff && p == #[trigger] (a * b),
    ensures
        p > i128::MIN,
{
    let (a, b) = choose|a: int, b: int|
        -0x8000_0000_0000_0000 <= a <= 0x7fff_ffff_ffff_ffff && -0x8000_0000_0000_0000 <= b
            <= 0x7fff_ffff_ffff_ffff && p == #[trigger] (a * b);
    assert(a * b >= -0x4000_0000_0000_0000_0000_0000_0000_0000) by (nonlinear_arith)
        requires
            -0x8000_0000_0000_0000 <= a <= 0x7fff_ffff_ffff_ffff,
            -0x8000_0000_0000_0000 <= b <= 0x7fff_ffff_ffff_ffff,
    ;
}

/// Two products of `i64` values can be added or subtracted in `i128`.
proof fn lemma_wide_products_bounded(p1: i128, p2: i128)
    requires
        exists|a: int, b: int|
            -0x8000_0000_0000_0000 <= a <= 0x7fff_ffff_ffff_ffff && 1 <= b
                <= 0x7fff_ffff_ffff_ffff && p1 == #[trigger] (a * b),
        exists|a: int, b: int|
            -0x8000_0000_0000_0000 <= a <= 0x7fff_ffff_ffff_ffff && 1 <= b
                <= 0x7fff_ffff_ffff_ffff && p2 == #[trigger] (a * b),
    ensures
        -0x3fff_ffff_ffff_ffff_8000_0000_0000_0000 <= p1
            <= 0x3fff_ffff_ffff_ffff_0000_0000_0000_0001,
        -0x3fff_ffff_ffff_ffff_8000_0000_0000_0000 <= p2
            <= 0x3fff_ffff_ffff_ffff_0000_0000_0000_0001,
        p1 + p2 > i128::MIN,
        p1 - p2 > i128::MIN,
        p1 + p2 <= i128::MAX,
        p1 - p2 <= i128::MAX,
{
    let (a1, b1) = choose|a: int, b: int|
        -0x8000_0000_0000_0000 <= a <= 0x7fff_ffff_ffff_ffff && 1 <= b <= 0x7fff_ffff_ffff_ffff
            && p1 == #[trigger] (a * b);
    let (a2, b2) = choose|a: int, b: int|
        -0x8000_0000_0000_0000 <= a <= 0x7fff_ffff_ffff_ffff && 1 <= b <= 0x7fff_ffff_ffff_ffff
            && p2 == #[trigger] (a * b);
    assert(a1 * b1 <= 0x3fff_ffff_ffff_ffff_0000_0000_0000_0001 && a1 * b1
        >= -0x3fff_ffff_ffff_ffff_8000_0000_0000_0000) by (nonlinear_arith)
        requires
            -0x8000_0000_0000_0000 <= a1 <= 0x7fff_ffff_ffff_ffff,
            1 <= b1 <= 0x7fff_ffff_ffff_ffff,
    ;
    assert(a2 * b2 <= 0x3fff_ffff_ffff_ffff_0000_0000_0000_0001 && a2 * b2
        >= -0x3fff_ffff_ffff_ffff_8000_0000_0000_0000) by (nonlinear_arith)
        requires
            -0x8000_0000_0000_0000 <= a2 <= 0x7fff_ffff_ffff_ffff,
            1 <= b2 <= 0x7fff_ffff_ffff_ffff,
    ;
}

/// Euclid's algorithm on `u128`.
fn gcd_u128(a0: u128, b0: u128) -> (g: u128)
    ensures
        g as nat == gcd(a0 as nat, b0 as nat),
{
    let mut a = a0;
    let mut b = b0;
    while b != 0
        invariant
            gcd(a as nat, b as nat) == gcd(a0 as nat, b0 as nat),
        decreases b,
    {
        let t = a % b;
        proof {
            assert(gcd(a as nat, b as nat) == gcd(b as nat, t as nat));
        }
        a = b;
        b = t;
    }
    a
}

/// Reduce `n / d` (with `d >= 1`) by the gcd and fit it back into `i64`.
fn normalize128(n: i128, d: i128) -> (r: Option<Rat>)
    requires
        d >= 1,
        n > i128::MIN,
    ensures
        opt_rat_view(r) == norm((n as int, d as int)),
{
    let a: u128 = if n >= 0 {
        n as u128
    } else {
        (-n) as u128
    };
    proof {
        assert(a as int == iabs(n as int));
    }
    let g: u128 = gcd_u128(a, d as u128);
    proof {
        lemma_gcd_divides(a as nat, (d as u128) as nat);
    }
    let rn: u128 = a / g;
    let rd: u128 = (d as u128) / g;
    proof {
        let gi = g as int;
        let f = (n as int, d as int);
        lemma_freduce(f);
        assert(freduce(f).1 == (d as int) / gi);
        assert(rd as int == (d as int) / gi);
        if n >= 0 {
            assert(freduce(f).0 == (n as int) / gi);
            assert(rn as int == (n as int) / gi);
        } else {
            lemma_neg_div_exact(a as int, gi);
            assert((n as int) / gi == -(rn as int));
            assert(freduce(f).0 == -(rn as int));
        }
        assert(rd >= 1);
    }
    if rd <= 0x7fff_ffff_ffff_ffffu128 {
        if n >= 0 {
            if rn <= 0x7fff_ffff_ffff_ffffu128 {
                Some(Rat { n: rn as i64, d: rd as i64 })
            } else {
                None
            }
        } else {
            if rn <= 0x8000_0000_0000_0000u128 {
                let nn: i128 = -(rn as i128);
                Some(Rat { n: nn as i64, d: rd as i64 })
            } else {
                None
            }
        }
    } else {
        None
    }
}


// ---------------------------------------------------------------------------
// Integer square root
// ---------------------------------------------------------------------------

/// `r` is the floor of the square root of `x`.
pub open spec fn is_isqrt(x: int, r: int) -> bool {
    0 <= r && r * r <= x && x < (r + 1) * (r + 1)
}

/// The floor of the square root of `x`.
pub open spec fn isqrt_spec(x: int) -> int {
    choose|r: int| is_isqrt(x, r)
}

/// Square-root floors are unique.
pub proof fn lemma_isqrt_unique(x: int, r1: int, r2: int)
    requires
        is_isqrt(x, r1),
        is_isqrt(x, r2),
    ensures
        r1 == r2,
{
    assert(!(r1 < r2) && !(r2 < r1)) by (nonlinear_arith)
        requires
            0 <= r1 && r1 * r1 <= x && x < (r1 + 1) * (r1 + 1),
            0 <= r2 && r2 * r2 <= x && x < (r2 + 1) * (r2 + 1),
    ;
}

/// Every non-negative integer has a square-root floor.
pub proof fn lemma_isqrt_exists(x: int)
    requires
        x >= 0,
    ensures
        is_isqrt(x, isqrt_spec(x)),
    decreases x,
{
    if x == 0 {
        assert(is_isqrt(0, 0));
    } else {
        lemma_isqrt_exists(x - 1);
        let r = isqrt_spec(x - 1);
        assert(is_isqrt(x - 1, r));
        if x < (r + 1) * (r + 1) {
            assert(is_isqrt(x, r));
        } else {
            assert(x == (r + 1) * (r + 1));
            assert((r + 1) * (r + 1) < (r + 2) * (r + 2)) by (nonlinear_arith)
                requires
                    r >= 0,
            ;
            assert(is_isqrt(x, r + 1));
        }
    }
}

/// Binary-search integer square root on `u128`.
fn isqrt_u128(x: u128) -> (r: u128)
    ensures
        r as int == isqrt_spec(x as int),
        is_isqrt(x as int, r as int),
{
    let mut lo: u128 = 0;
    let mut hi: u128 = 18446744073709551616u128;
    proof {
        assert((x as int) < 18446744073709551616 * 18446744073709551616);
    }
    while hi - lo > 1
        invariant
            0 <= lo < hi <= 18446744073709551616,
            (lo as int) * (lo as int) <= x as int,
            (x as int) < (hi as int) * (hi as int),
        decreases hi - lo,
    {
        let mid = lo + (hi - lo) / 2;
        proof {
            assert((mid as int) * (mid as int)
                <= 0xffff_ffff_ffff_fffe_0000_0000_0000_0001) by (nonlinear_arith)
                requires
                    0 <= mid as int <= 0xffff_ffff_ffff_ffff,
            ;
        }
        if mid * mid <= x {
            lo = mid;
        } else {
            hi = mid;
        }
    }
    proof {
        assert(is_isqrt(x as int, lo as int));
        lemma_isqrt_exists(x as int);
        lemma_isqrt_unique(x as int, lo as int, isqrt_spec(x as int));
    }
    lo
}

/// The factor that refines a denominator to the engine's square-root
/// granularity: the result of `sqrt_floor` on `n / d` is kept at denominator
/// `d * sqrt_scale(d) >= 1000000`, so the floor sits within one millionth of
/// the true root.
pub open spec fn sqrt_scale(d: int) -> int {
    if d >= 1000000 {
        1
    } else {
        (1000000 + d - 1) / d
    }
}

/// The scale is positive and brings the denominator into
/// `[1000000, 1000000 + d)`.
pub proof fn lemma_sqrt_scale(d: int)
    requires
        d >= 1,
    ensures
        sqrt_scale(d) >= 1,
        d >= 1000000 ==> d * sqrt_scale(d) == d,
        d < 1000000 ==> 1000000 <= d * sqrt_scale(d) < 1000000 + d,
{
    if d >= 1000000 {
        assert(d * 1 == d) by (nonlinear_arith);
    } else {
        let q = (1000000 + d - 1) / d;
        lemma_fundamental_div_mod(1000000 + d - 1, d);
        let rm = (1000000 + d - 1) % d;
        assert(1000000 + d - 1 == d * q + rm);
        assert(0 <= rm < d);
        assert(1000000 <= d * q < 1000000 + d);
        assert(q >= 1) by (nonlinear_arith)
            requires
                d * q >= 1000000,
                1 <= d < 1000000,
        ;
    }
}

/// The square-root floor of a fraction at the engine's granularity, as a
/// fraction: the radicand is scaled so the result's denominator is at least
/// one million.
pub open spec fn spec_sqrt_floor(a: (int, int)) -> (int, int) {
    let s = sqrt_scale(a.1);
    (isqrt_spec(a.0 * a.1 * s * s), a.1 * s)
}

impl Rat {
    /// Largest rational at the refined denominator `d * sqrt_scale(d)` whose
    /// square is at most `self`: the floor of the square root, within one
    /// millionth of the true root.
    pub fn sqrt_floor(&self) -> (r: Rat)
        requires
            self@.0 >= 0,
        ensures
            r@ == spec_sqrt_floor(self@),
            r@.1 >= 1000000,
            is_isqrt(self@.0 * self@.1 * sqrt_scale(self@.1) * sqrt_scale(self@.1), r@.0),
    {
        proof {
            use_type_invariant(self);
            lemma_sqrt_scale(self.d as int);
        }
        let scale: i64 = if self.d >= 1_000_000 {
            1
        } else {
            (1_000_000 + self.d - 1) / self.d
        };
        proof {
            assert(scale as int == sqrt_scale(self@.1));
            if self.d >= 1_000_000 {
                assert(scale == 1);
            } else {
                assert(scale as int <= 1000000) by (nonlinear_arith)
                    requires
                        (self.d as int) * (scale as int) < 1000000 + self.d as int,
                        1 <= self.d as int,
                        1 <= scale as int,
                ;
            }
        }
        let dd: i64 = self.d * scale;
        proof {
            assert(dd as int == self@.1 * sqrt_scale(self@.1));
            // the refined denominator times the scale stays within i64
            assert((dd as int) * (scale as int) <= 0x7fff_ffff_ffff_ffff) by (nonlinear_arith)
                requires
                    (scale as int == 1 && dd as int <= 0x7fff_ffff_ffff_ffff) || (1 <= dd as int
                        && (dd as int) < 2000000 && 1 <= scale as int && (scale as int)
                        <= 1000000),
            ;
        }
        let a: u128 = self.n as u128;
        proof {
            assert((a as int) * ((dd as int) * (scale as int))
                <= 0x3fff_ffff_ffff_ffff_0000_0000_0000_0001 && (a as int) * (dd as int) >= 0
                && (a as int) * (dd as int) <= 0x3fff_ffff_ffff_ffff_0000_0000_0000_0001)
                by (nonlinear_arith)
                requires
                    0 <= a as int <= 0x7fff_ffff_ffff_ffff,
                    1 <= dd as int,
                    1 <= scale as int,
                    (dd as int) * (scale as int) <= 0x7fff_ffff_ffff_ffff,
                    dd as int <= 0x7fff_ffff_ffff_ffff,
            ;
            vstd::arithmetic::mul::lemma_mul_is_associative(a as int, dd as int, scale as int);
        }
        let p: u128 = (a * (dd as u128)) * (scale as u128);
        proof {
            assert(p as int == (self@.0 * self@.1 * sqrt_scale(self@.1)) * sqrt_scale(self@.1))
                by {
                vstd::arithmetic::mul::lemma_mul_is_associative(
                    self@.0,
                    self@.1,
                    sqrt_scale(self@.1),
                );
            }
            lemma_isqrt_exists(p as int);
        }
        let s = isqrt_u128(p);
        proof {
            assert(s as int <= 0x7fff_ffff_ffff_ffff) by (nonlinear_arith)
                requires
                    (s as int) * (s as int) <= 0x3fff_ffff_ffff_ffff_0000_0000_0000_0001,
                    s as int >= 0,
            ;
        }
        Rat { n: s as i64, d: dd }
    }
}

// ---------------------------------------------------------------------------
// Value-level algebra of fractions
// ---------------------------------------------------------------------------

/// A successful `norm` preserves the value.
pub proof fn lemma_norm_value(f: (int, int))
    requires
        fwf(f),
    ensures
        norm(f) matches Some(v) ==> fwf(v) && feq(v, f) && feq(f, v) && fits_i64_frac(v),
{
    lemma_freduce(f);
}

/// The exact operations keep denominators positive.
pub proof fn lemma_fops_wf(a: (int, int), b: (int, int))
    requires
        fwf(a),
        fwf(b),
    ensures
        fwf(fadd(a, b)),
        fwf(fsub(a, b)),
        fwf(fmul(a, b)),
        fwf(fneg(a)),
        b.0 != 0 ==> fwf(fdiv(a, b)),
{
    assert(a.1 * b.1 > 0) by (nonlinear_arith)
        requires
            a.1 > 0,
            b.1 > 0,
    ;
    if b.0 > 0 {
        assert(a.1 * b.0 > 0) by (nonlinear_arith)
            requires
                a.1 > 0,
                b.0 > 0,
        ;
    }
    if b.0 < 0 {
        assert(-(a.1 * b.0) > 0) by (nonlinear_arith)
            requires
                a.1 > 0,
                b.0 < 0,
        ;
    }
}

/// Value equality is transitive (over well-formed fractions).
pub proof fn lemma_feq_trans(a: (int, int), b: (int, int), c: (int, int))
    requires
        fwf(a),
        fwf(b),
        fwf(c),
        feq(a, b),
        feq(b, c),
    ensures
        feq(a, c),
{
    assert(a.0 * c.1 == c.0 * a.1) by (nonlinear_arith)
        requires
            a.0 * b.1 == b.0 * a.1,
            b.0 * c.1 == c.0 * b.1,
            b.1 > 0,
    ;
}

/// The four reorderings of a product of two products.
pub proof fn lemma_mul_swap(p: int, q: int, r: int, s: int)
    ensures
        (p * q) * (r * s) == (p * r) * (q * s),
        (p * q) * (r * s) == (p * s) * (q * r),
        (p * q) * (r * s) == (p * r) * (s * q),
        (p * q) * (r * s) == (p * s) * (r * q),
{
    assert((p * q) * (r * s) == (p * r) * (q * s) && (p * q) * (r * s) == (p * s) * (q * r) && (p
        * q) * (r * s) == (p * r) * (s * q) && (p * q) * (r * s) == (p * s) * (r
        * q)) by (nonlinear_arith);
}

/// Sums of equal values are equal.
pub proof fn lemma_fadd_cong(a: (int, int), a2: (int, int), b: (int, int), b2: (int, int))
    requires
        fwf(a),
        fwf(a2),
        fwf(b),
        fwf(b2),
        feq(a, a2),
        feq(b, b2),
    ensures
        feq(fadd(a, b), fadd(a2, b2)),
        feq(fsub(a, b), fsub(a2, b2)),
{
    let x0 = a.0;
    let x1 = a.1;
    let y0 = b.0;
    let y1 = b.1;
    let z0 = a2.0;
    let z1 = a2.1;
    let w0 = b2.0;
    let w1 = b2.1;
    vstd::arithmetic::mul::lemma_mul_is_distributive_add_other_way(z1 * w1, x0 * y1, y0 * x1);
    vstd::arithmetic::mul::lemma_mul_is_distributive_sub_other_way(z1 * w1, x0 * y1, y0 * x1);
    vstd::arithmetic::mul::lemma_mul_is_distributive_add_other_way(x1 * y1, z0 * w1, w0 * z1);
    vstd::arithmetic::mul::lemma_mul_is_distributive_sub_other_way(x1 * y1, z0 * w1, w0 * z1);
    lemma_mul_swap(x0, y1, z1, w1);
    lemma_mul_swap(y0, x1, z1, w1);
    lemma_mul_swap(z0, w1, x1, y1);
    lemma_mul_swap(w0, z1, x1, y1);
    assert((x0 * y1) * (z1 * w1) == (z0 * x1) * (y1 * w1));
    assert((y0 * x1) * (z1 * w1) == (w0 * y1) * (x1 * z1));
    assert((z0 * w1) * (x1 * y1) == (z0 * x1) * (y1 * w1));
    assert((w0 * z1) * (x1 * y1) == (w0 * y1) * (x1 * z1));
}

/// Products of equal values are equal.
pub proof fn lemma_fmul_cong(a: (int, int), a2: (int, int), b: (int, int), b2: (int, int))
    requires
        fwf(a),
        fwf(a2),
        fwf(b),
        fwf(b2),
        feq(a, a2),
        feq(b, b2),
    ensures
        feq(fmul(a, b), fmul(a2, b2)),
{
    assert((a.0 * b.0) * (a2.1 * b2.1) == (a2.0 * b2.0) * (a.1 * b.1)) by (nonlinear_arith)
        requires
            a.0 * a2.1 == a2.0 * a.1,
            b.0 * b2.1 == b2.0 * b.1,
    ;
}

/// Negations of equal values are equal.
pub proof fn lemma_fneg_cong(a: (int, int), a2: (int, int))
    requires
        feq(a, a2),
    ensures
        feq(fneg(a), fneg(a2)),
{
    assert((-a.0) * a2.1 == (-a2.0) * a.1) by (nonlinear_arith)
        requires
            a.0 * a2.1 == a2.0 * a.1,
    ;
}

/// Comparisons agree on equal values.
pub proof fn lemma_flt_cong(a: (int, int), a2: (int, int), b: (int, int), b2: (int, int))
    requires
        fwf(a),
        fwf(a2),
        fwf(b),
        fwf(b2),
        feq(a, a2),
        feq(b, b2),
    ensures
        flt(a, b) <==> flt(a2, b2),
        fle(a, b) <==> fle(a2, b2),
        feq(a, b) <==> feq(a2, b2),
{
    assert((a.0 * b.1 < b.0 * a.1 <==> a2.0 * b2.1 < b2.0 * a2.1) && (a.0 * b.1 <= b.0 * a.1
        <==> a2.0 * b2.1 <= b2.0 * a2.1) && (a.0 * b.1 == b.0 * a.1 <==> a2.0 * b2.1 == b2.0
        * a2.1)) by (nonlinear_arith)
        requires
            a.0 * a2.1 == a2.0 * a.1,
            b.0 * b2.1 == b2.0 * b.1,
            a.1 > 0,
            a2.1 > 0,
            b.1 > 0,
            b2.1 > 0,
    ;
}

/// Multiplying a quotient by its divisor gives back the dividend.
pub proof fn lemma_fdiv_mul(a: (int, int), b: (int, int))
    requires
        fwf(a),
        fwf(b),
        b.0 != 0,
    ensures
        feq(fmul(fdiv(a, b), b), a),
{
    if b.0 >= 0 {
        assert((a.0 * b.1 * b.0) * a.1 == a.0 * (a.1 * b.0 * b.1)) by (nonlinear_arith);
    } else {
        assert((-(a.0 * b.1) * b.0) * a.1 == a.0 * (-(a.1 * b.0) * b.1)) by (nonlinear_arith);
    }
}

/// Products of fractions are associative and commutative as pairs.
pub proof fn lemma_fmul_assoc(a: (int, int), b: (int, int), c: (int, int))
    ensures
        fmul(fmul(a, b), c) == fmul(a, fmul(b, c)),
        fmul(a, b) == fmul(b, a),
{
    vstd::arithmetic::mul::lemma_mul_is_associative(a.0, b.0, c.0);
    vstd::arithmetic::mul::lemma_mul_is_associative(a.1, b.1, c.1);
    vstd::arithmetic::mul::lemma_mul_is_commutative(a.0, b.0);
    vstd::arithmetic::mul::lemma_mul_is_commutative(a.1, b.1);
}

/// Sums of fractions are commutative as pairs and associative as values.
pub proof fn lemma_fadd_assoc(a: (int, int), b: (int, int), c: (int, int))
    ensures
        fadd(a, b) == fadd(b, a),
        fadd(fadd(a, b), c) == fadd(a, fadd(b, c)),
{
    vstd::arithmetic::mul::lemma_mul_is_commutative(a.1, b.1);
    vstd::arithmetic::mul::lemma_mul_is_commutative(a.0, b.1);
    vstd::arithmetic::mul::lemma_mul_is_commutative(b.0, a.1);
    // numerators of the two associations, expanded
    vstd::arithmetic::mul::lemma_mul_is_distributive_add_other_way(c.1, a.0 * b.1, b.0 * a.1);
    vstd::arithmetic::mul::lemma_mul_is_distributive_add_other_way(a.1, b.0 * c.1, c.0 * b.1);
    assert((a.0 * b.1) * c.1 == a.0 * (b.1 * c.1)) by {
        vstd::arithmetic::mul::lemma_mul_is_associative(a.0, b.1, c.1);
    }
    assert((b.0 * a.1) * c.1 == (b.0 * c.1) * a.1) by {
        vstd::arithmetic::mul::lemma_mul_is_associative(b.0, a.1, c.1);
        vstd::arithmetic::mul::lemma_mul_is_commutative(a.1, c.1);
        vstd::arithmetic::mul::lemma_mul_is_associative(b.0, c.1, a.1);
    }
    assert(c.0 * (a.1 * b.1) == (c.0 * b.1) * a.1) by {
        vstd::arithmetic::mul::lemma_mul_is_commutative(a.1, b.1);
        vstd::arithmetic::mul::lemma_mul_is_associative(c.0, b.1, a.1);
    }
    assert((a.1 * b.1) * c.1 == a.1 * (b.1 * c.1)) by {
        vstd::arithmetic::mul::lemma_mul_is_associative(a.1, b.1, c.1);
    }
}

/// Multiplication distributes over addition and subtraction, as values.
pub proof fn lemma_fmul_distrib(x: (int, int), a: (int, int), b: (int, int))
    requires
        fwf(x),
        fwf(a),
        fwf(b),
    ensures
        feq(fmul(x, fadd(a, b)), fadd(fmul(x, a), fmul(x, b))),
        feq(fmul(x, fsub(a, b)), fsub(fmul(x, a), fmul(x, b))),
{
    let l0a = x.0 * (a.0 * b.1 + b.0 * a.1);
    let l0s = x.0 * (a.0 * b.1 - b.0 * a.1);
    let l1 = x.1 * (a.1 * b.1);
    let r0a = (x.0 * a.0) * (x.1 * b.1) + (x.0 * b.0) * (x.1 * a.1);
    let r0s = (x.0 * a.0) * (x.1 * b.1) - (x.0 * b.0) * (x.1 * a.1);
    let r1 = (x.1 * a.1) * (x.1 * b.1);
    assert(r0a == x.1 * l0a && r0s == x.1 * l0s) by {
        vstd::arithmetic::mul::lemma_mul_is_distributive_add(x.0, a.0 * b.1, b.0 * a.1);
        vstd::arithmetic::mul::lemma_mul_is_distributive_sub(x.0, a.0 * b.1, b.0 * a.1);
        vstd::arithmetic::mul::lemma_mul_is_distributive_add(x.1, x.0 * (a.0 * b.1), x.0 * (b.0 * a.1));
        vstd::arithmetic::mul::lemma_mul_is_distributive_sub(x.1, x.0 * (a.0 * b.1), x.0 * (b.0 * a.1));
        lemma_mul_swap(x.0, a.0, x.1, b.1);
        assert((x.0 * x.1) * (a.0 * b.1) == x.1 * (x.0 * (a.0 * b.1))) by {
            vstd::arithmetic::mul::lemma_mul_is_commutative(x.0, x.1);
            vstd::arithmetic::mul::lemma_mul_is_associative(x.1, x.0, a.0 * b.1);
        }
        lemma_mul_swap(x.0, b.0, x.1, a.1);
        assert((x.0 * x.1) * (b.0 * a.1) == x.1 * (x.0 * (b.0 * a.1))) by {
            vstd::arithmetic::mul::lemma_mul_is_commutative(x.0, x.1);
            vstd::arithmetic::mul::lemma_mul_is_associative(x.1, x.0, b.0 * a.1);
        }
    }
    assert(r1 == x.1 * l1) by {
        lemma_mul_swap(x.1, a.1, x.1, b.1);
        assert((x.1 * x.1) * (a.1 * b.1) == x.1 * (x.1 * (a.1 * b.1))) by {
            vstd::arithmetic::mul::lemma_mul_is_associative(x.1, x.1, a.1 * b.1);
        }
    }
    assert(l0a * r1 == r0a * l1) by {
        assert(l0a * (x.1 * l1) == (x.1 * l0a) * l1) by {
            vstd::arithmetic::mul::lemma_mul_is_associative(l0a, x.1, l1);
            vstd::arithmetic::mul::lemma_mul_is_commutative(l0a, x.1);
            vstd::arithmetic::mul::lemma_mul_is_associative(x.1, l0a, l1);
        }
    }
    assert(l0s * r1 == r0s * l1) by {
        assert(l0s * (x.1 * l1) == (x.1 * l0s) * l1) by {
            vstd::arithmetic::mul::lemma_mul_is_associative(l0s, x.1, l1);
            vstd::arithmetic::mul::lemma_mul_is_commutative(l0s, x.1);
            vstd::arithmetic::mul::lemma_mul_is_associative(x.1, l0s, l1);
        }
    }
}

/// Adding back what was subtracted gives the original value.
pub proof fn lemma_fadd_sub_inverse(a: (int, int), b: (int, int))
    requires
        fwf(a),
        fwf(b),
    ensures
        feq(fadd(fsub(a, b), b), a),
{
    let n = (a.0 * b.1 - b.0 * a.1) * b.1 + b.0 * (a.1 * b.1);
    assert(n == (a.0 * b.1) * b.1) by {
        vstd::arithmetic::mul::lemma_mul_is_distributive_sub_other_way(b.1, a.0 * b.1, b.0 * a.1);
        assert((b.0 * a.1) * b.1 == b.0 * (a.1 * b.1)) by {
            vstd::arithmetic::mul::lemma_mul_is_associative(b.0, a.1, b.1);
        }
    }
    assert(n * a.1 == a.0 * ((a.1 * b.1) * b.1)) by {
        vstd::arithmetic::mul::lemma_mul_is_associative(a.0 * b.1, b.1, a.1);
        assert((a.0 * b.1) * (b.1 * a.1) == n * a.1);
        assert((a.0 * b.1) * (b.1 * a.1) == (a.0 * b.1) * (a.1 * b.1)) by {
            vstd::arithmetic::mul::lemma_mul_is_commutative(b.1, a.1);
        }
        assert((a.0 * b.1) * (a.1 * b.1) == a.0 * (b.1 * (a.1 * b.1))) by {
            vstd::arithmetic::mul::lemma_mul_is_associative(a.0, b.1, a.1 * b.1);
        }
        assert(b.1 * (a.1 * b.1) == (a.1 * b.1) * b.1) by {
            vstd::arithmetic::mul::lemma_mul_is_commutative(b.1, a.1 * b.1);
        }
    }
}

/// Adding or subtracting a zero-valued fraction does not change the value.
pub proof fn lemma_fadd_zero(a: (int, int), z: (int, int))
    requires
        fwf(a),
        fwf(z),
        feq(z, (0int, 1int)),
    ensures
        feq(fadd(a, z), a),
        feq(fsub(a, z), a),
{
    assert(z.0 == 0);
    assert((a.0 * z.1) * a.1 == a.0 * (a.1 * z.1)) by (nonlinear_arith);
}

/// A common non-zero factor cancels from a value equality.
pub proof fn lemma_fmul_cancel(x: (int, int), y: (int, int), k: (int, int))
    requires
        fwf(x),
        fwf(y),
        fwf(k),
        !feq(k, (0int, 1int)),
        feq(fmul(x, k), fmul(y, k)),
    ensures
        feq(x, y),
{
    assert(x.0 * y.1 == y.0 * x.1) by (nonlinear_arith)
        requires
            (x.0 * k.0) * (y.1 * k.1) == (y.0 * k.0) * (x.1 * k.1),
            k.0 != 0,
            k.1 > 0,
            x.1 > 0,
            y.1 > 0,
    ;
}

/// Multiplying by a value equal to one does not change the value.
pub proof fn lemma_fmul_one(a: (int, int), o: (int, int))
    requires
        fwf(a),
        fwf(o),
        feq(o, (1int, 1int)),
    ensures
        feq(fmul(a, o), a),
{
    assert((a.0 * o.0) * a.1 == a.0 * (a.1 * o.1)) by (nonlinear_arith)
        requires
            o.0 == o.1,
    ;
}

/// Subtracting back what was added gives the original value.
pub proof fn lemma_fsub_add_inverse(a: (int, int), b: (int, int))
    requires
        fwf(a),
        fwf(b),
    ensures
        feq(fsub(fadd(a, b), b), a),
{
    let n = (a.0 * b.1 + b.0 * a.1) * b.1 - b.0 * (a.1 * b.1);
    assert(n == (a.0 * b.1) * b.1) by {
        vstd::arithmetic::mul::lemma_mul_is_distributive_add_other_way(b.1, a.0 * b.1, b.0 * a.1);
        assert((b.0 * a.1) * b.1 == b.0 * (a.1 * b.1)) by {
            vstd::arithmetic::mul::lemma_mul_is_associative(b.0, a.1, b.1);
        }
    }
    assert(n * a.1 == a.0 * ((a.1 * b.1) * b.1)) by {
        vstd::arithmetic::mul::lemma_mul_is_associative(a.0 * b.1, b.1, a.1);
        assert((a.0 * b.1) * (b.1 * a.1) == n * a.1);
        assert((a.0 * b.1) * (b.1 * a.1) == (a.0 * b.1) * (a.1 * b.1)) by {
            vstd::arithmetic::mul::lemma_mul_is_commutative(b.1, a.1);
        }
        assert((a.0 * b.1) * (a.1 * b.1) == a.0 * (b.1 * (a.1 * b.1))) by {
            vstd::arithmetic::mul::lemma_mul_is_associative(a.0, b.1, a.1 * b.1);
        }
        assert(b.1 * (a.1 * b.1) == (a.1 * b.1) * b.1) by {
            vstd::arithmetic::mul::lemma_mul_is_commutative(b.1, a.1 * b.1);
        }
    }
}

/// The sum of two positive values is positive.
pub proof fn lemma_fadd_pos(a: (int, int), b: (int, int))
    requires
        fwf(a),
        fwf(b),
        flt((0int, 1int), a),
        flt((0int, 1int), b),
    ensures
        flt((0int, 1int), fadd(a, b)),
        fwf(fadd(a, b)),
{
    assert(a.1 * b.1 > 0 && 0 < a.0 * b.1 + b.0 * a.1) by (nonlinear_arith)
        requires
            a.0 > 0,
            b.0 > 0,
            a.1 > 0,
            b.1 > 0,
    ;
}

/// Subtracting a difference from its minuend gives back the subtrahend.
pub proof fn lemma_fsub_fsub(a: (int, int), b: (int, int))
    requires
        fwf(a),
        fwf(b),
    ensures
        feq(fsub(a, fsub(a, b)), b),
{
    let c = fsub(a, b);
    let n = a.0 * (a.1 * b.1) - (a.0 * b.1 - b.0 * a.1) * a.1;
    assert(fsub(a, c).0 == n && fsub(a, c).1 == a.1 * (a.1 * b.1));
    assert(n == b.0 * (a.1 * a.1)) by {
        vstd::arithmetic::mul::lemma_mul_is_distributive_sub_other_way(a.1, a.0 * b.1, b.0 * a.1);
        assert((a.0 * b.1) * a.1 == a.0 * (a.1 * b.1)) by {
            vstd::arithmetic::mul::lemma_mul_is_associative(a.0, b.1, a.1);
            vstd::arithmetic::mul::lemma_mul_is_commutative(b.1, a.1);
            vstd::arithmetic::mul::lemma_mul_is_associative(a.0, a.1, b.1);
        }
        assert((b.0 * a.1) * a.1 == b.0 * (a.1 * a.1)) by {
            vstd::arithmetic::mul::lemma_mul_is_associative(b.0, a.1, a.1);
        }
    }
    assert((b.0 * (a.1 * a.1)) * b.1 == b.0 * (a.1 * (a.1 * b.1))) by {
        lemma_mul_swap(b.0, a.1 * a.1, b.1, 1int);
        assert((a.1 * a.1) * b.1 == a.1 * (a.1 * b.1)) by {
            vstd::arithmetic::mul::lemma_mul_is_associative(a.1, a.1, b.1);
        }
        vstd::arithmetic::mul::lemma_mul_is_associative(b.0, a.1 * a.1, b.1);
    }
}

/// Swapping the operands of a difference negates its value.
pub proof fn lemma_fsub_antisym(a: (int, int), b: (int, int))
    requires
        fwf(a),
        fwf(b),
    ensures
        feq(fsub(a, b), fneg(fsub(b, a))),
{
    assert((a.0 * b.1 - b.0 * a.1) * (b.1 * a.1) == (-(b.0 * a.1 - a.0 * b.1)) * (a.1
        * b.1)) by (nonlinear_arith);
}

/// Adding a value to itself doubles it.
pub proof fn lemma_fadd_self(a: (int, int))
    requires
        fwf(a),
    ensures
        feq(fadd(a, a), fmul((2int, 1int), a)),
{
    assert((a.0 * a.1 + a.0 * a.1) * (1 * a.1) == (2 * a.0) * (a.1 * a.1)) by (nonlinear_arith);
}

/// A negated factor negates the product, exactly as pairs.
pub proof fn lemma_fmul_neg(a: (int, int), b: (int, int))
    ensures
        fmul(a, fneg(b)) == fneg(fmul(a, b)),
        fmul(fneg(a), b) == fneg(fmul(a, b)),
{
    assert(a.0 * (-b.0) == -(a.0 * b.0) && (-a.0) * b.0 == -(a.0 * b.0)) by (nonlinear_arith);
}

/// Adding `-2a` to `a` gives `-a`.
pub proof fn lemma_fadd_double_neg(a: (int, int), b: (int, int))
    requires
        fwf(a),
        fwf(b),
        feq(b, fmul((-2int, 1int), a)),
    ensures
        feq(fadd(a, b), fneg(a)),
{
    let two_neg_a = fmul((-2int, 1int), a);
    lemma_fops_wf(a, a);
    assert(fwf(two_neg_a));
    lemma_fadd_cong(a, a, b, two_neg_a);
    assert(feq(fadd(a, two_neg_a), fneg(a))) by {
        assert((a.0 * a.1 + (-2 * a.0) * a.1) * a.1 == (-a.0) * (a.1 * a.1)) by (nonlinear_arith);
    }
    lemma_fops_wf(a, b);
    lemma_fops_wf(a, two_neg_a);
    lemma_feq_trans(fadd(a, b), fadd(a, two_neg_a), fneg(a));
}

/// Expanding a squared difference: `(a-b)^2 == a^2 - 2ab + b^2` as values.
pub proof fn lemma_fsq_sub(a: (int, int), b: (int, int))
    requires
        fwf(a),
        fwf(b),
    ensures
        feq(
            fmul(fsub(a, b), fsub(a, b)),
            fadd(fsub(fmul(a, a), fmul((2int, 1int), fmul(a, b))), fmul(b, b)),
        ),
{
    let l = fmul(fsub(a, b), fsub(a, b));
    let r = fadd(fsub(fmul(a, a), fmul((2int, 1int), fmul(a, b))), fmul(b, b));
    let a0 = a.0;
    let a1 = a.1;
    let b0 = b.0;
    let b1 = b.1;
    assert(l.0 == (a0 * b1 - b0 * a1) * (a0 * b1 - b0 * a1) && l.1 == (a1 * b1) * (a1 * b1));
    assert(r.0 == ((a0 * a0) * (1 * (a1 * b1)) - (2 * (a0 * b0)) * (a1 * a1)) * (b1 * b1) + (b0
        * b0) * ((a1 * a1) * (1 * (a1 * b1))));
    assert(r.1 == ((a1 * a1) * (1 * (a1 * b1))) * (b1 * b1));
    let xx = a0 * b1;
    let yy = b0 * a1;
    let p = a1 * b1;
    let q = a0 * a0;
    let r2 = b1 * b1;
    let w = b0 * b0;
    let aa = a1 * a1;
    let e = a0 * b0;
    assert(l.0 == xx * xx - 2 * (xx * yy) + yy * yy) by (nonlinear_arith)
        requires
            l.0 == (xx - yy) * (xx - yy),
    ;
    assert(xx * xx == q * r2) by {
        lemma_mul_swap(a0, b1, a0, b1);
    }
    assert(xx * yy == e * p) by {
        lemma_mul_swap(a0, b1, b0, a1);
    }
    assert(yy * yy == w * aa) by {
        lemma_mul_swap(b0, a1, b0, a1);
    }
    assert(r.0 == (q * (1 * p)) * r2 - ((2 * e) * aa) * r2 + w * (aa * (1 * p))) by {
        vstd::arithmetic::mul::lemma_mul_is_distributive_sub_other_way(r2, q * (1 * p), (2 * e) * aa);
    }
    assert((q * (1 * p)) * r2 == p * (xx * xx)) by (nonlinear_arith)
        requires
            xx * xx == q * r2,
    ;
    assert(((2 * e) * aa) * r2 == p * (2 * (xx * yy))) by (nonlinear_arith)
        requires
            xx * yy == e * p,
            p == a1 * b1,
            aa == a1 * a1,
            r2 == b1 * b1,
    ;
    assert(w * (aa * (1 * p)) == p * (yy * yy)) by (nonlinear_arith)
        requires
            yy * yy == w * aa,
    ;
    assert(r.0 == (a1 * b1) * l.0) by (nonlinear_arith)
        requires
            r.0 == p * (xx * xx) - p * (2 * (xx * yy)) + p * (yy * yy),
            l.0 == xx * xx - 2 * (xx * yy) + yy * yy,
            p == a1 * b1,
    ;
    assert(r.1 == (a1 * b1) * l.1) by (nonlinear_arith)
        requires
            r.1 == ((a1 * a1) * (1 * (a1 * b1))) * (b1 * b1),
            l.1 == (a1 * b1) * (a1 * b1),
    ;
    assert(l.0 * r.1 == r.0 * l.1) by (nonlinear_arith)
        requires
            r.0 == (a1 * b1) * l.0,
            r.1 == (a1 * b1) * l.1,
    ;
}

/// A difference is a sum with a negated second operand, exactly as pairs.
pub proof fn lemma_fsub_is_fadd_neg(a: (int, int), b: (int, int))
    ensures
        fsub(a, b) == fadd(a, fneg(b)),
{
    assert(a.0 * b.1 - b.0 * a.1 == a.0 * b.1 + (-b.0) * a.1) by (nonlinear_arith);
}

/// Negation distributes over a sum, exactly as pairs.
pub proof fn lemma_fneg_fadd(a: (int, int), b: (int, int))
    ensures
        fneg(fadd(a, b)) == fadd(fneg(a), fneg(b)),
{
    assert(-(a.0 * b.1 + b.0 * a.1) == (-a.0) * b.1 + (-b.0) * a.1) by (nonlinear_arith);
}

/// Two two-term sums of differences regroup into a difference of sums,
/// exactly as pairs.
pub proof fn lemma_fadd_regroup4(a: (int, int), b: (int, int), c: (int, int), d: (int, int))
    ensures
        fadd(fsub(a, b), fsub(c, d)) == fsub(fadd(a, c), fadd(b, d)),
{
    let nb = fneg(b);
    let nd = fneg(d);
    lemma_fsub_is_fadd_neg(a, b);
    lemma_fsub_is_fadd_neg(c, d);
    lemma_fsub_is_fadd_neg(fadd(a, c), fadd(b, d));
    lemma_fneg_fadd(b, d);
    // fadd(fadd(a, nb), fadd(c, nd)) == fadd(fadd(a, c), fadd(nb, nd))
    lemma_fadd_assoc(fadd(a, nb), c, nd);
    lemma_fadd_assoc(a, nb, c);
    lemma_fadd_assoc(nb, c, c);
    lemma_fadd_assoc(c, nb, nb);
    lemma_fadd_assoc(a, c, nb);
    lemma_fadd_assoc(fadd(a, c), nb, nd);
    assert(fadd(fadd(a, nb), fadd(c, nd)) == fadd(fadd(fadd(a, nb), c), nd));
    assert(fadd(fadd(a, nb), c) == fadd(a, fadd(nb, c)));
    assert(fadd(nb, c) == fadd(c, nb));
    assert(fadd(a, fadd(c, nb)) == fadd(fadd(a, c), nb));
    assert(fadd(fadd(fadd(a, c), nb), nd) == fadd(fadd(a, c), fadd(nb, nd)));
}

/// Six summands regroup from per-axis form into per-kind form, exactly as
/// pairs.
pub proof fn lemma_fadd_regroup6(
    ax: (int, int),
    px: (int, int),
    qx: (int, int),
    ay: (int, int),
    py: (int, int),
    qy: (int, int),
)
    ensures
        fadd(fadd(fsub(ax, px), qx), fadd(fsub(ay, py), qy)) == fadd(
            fsub(fadd(ax, ay), fadd(px, py)),
            fadd(qx, qy),
        ),
{
    let s1 = fsub(ax, px);
    let s2 = fsub(ay, py);
    // left side flattened to (s1 + s2) + (qx + qy)
    lemma_fadd_assoc(fadd(s1, qx), s2, qy);
    lemma_fadd_assoc(s1, qx, s2);
    lemma_fadd_assoc(qx, s2, s2);
    lemma_fadd_assoc(s2, qx, qx);
    lemma_fadd_assoc(s1, s2, qx);
    lemma_fadd_assoc(fadd(s1, s2), qx, qy);
    assert(fadd(fadd(s1, qx), fadd(s2, qy)) == fadd(fadd(fadd(s1, qx), s2), qy));
    assert(fadd(fadd(s1, qx), s2) == fadd(s1, fadd(qx, s2)));
    assert(fadd(qx, s2) == fadd(s2, qx));
    assert(fadd(s1, fadd(s2, qx)) == fadd(fadd(s1, s2), qx));
    assert(fadd(fadd(fadd(s1, s2), qx), qy) == fadd(fadd(s1, s2), fadd(qx, qy)));
    // and s1 + s2 regroups into (ax + ay) - (px + py)
    lemma_fadd_regroup4(ax, px, ay, py);
}

/// Shifting by the start point isolates the step: `(a - j) - a == -j` and
/// `(a + j) - a == j`, as values.
pub proof fn lemma_fsub_shift(a: (int, int), j: (int, int))
    requires
        fwf(a),
        fwf(j),
    ensures
        feq(fsub(fsub(a, j), a), fneg(j)),
        feq(fsub(fadd(a, j), a), j),
{
    let nsub = (a.0 * j.1 - j.0 * a.1) * a.1 - a.0 * (a.1 * j.1);
    let nadd = (a.0 * j.1 + j.0 * a.1) * a.1 - a.0 * (a.1 * j.1);
    assert(nsub == -(j.0 * (a.1 * a.1)) && nadd == j.0 * (a.1 * a.1)) by {
        vstd::arithmetic::mul::lemma_mul_is_distributive_sub_other_way(a.1, a.0 * j.1, j.0 * a.1);
        vstd::arithmetic::mul::lemma_mul_is_distributive_add_other_way(a.1, a.0 * j.1, j.0 * a.1);
        assert((a.0 * j.1) * a.1 == a.0 * (a.1 * j.1)) by {
            vstd::arithmetic::mul::lemma_mul_is_associative(a.0, j.1, a.1);
            vstd::arithmetic::mul::lemma_mul_is_commutative(j.1, a.1);
            vstd::arithmetic::mul::lemma_mul_is_associative(a.0, a.1, j.1);
        }
        assert((j.0 * a.1) * a.1 == j.0 * (a.1 * a.1)) by {
            vstd::arithmetic::mul::lemma_mul_is_associative(j.0, a.1, a.1);
        }
    }
    assert(nsub * j.1 == (-j.0) * ((a.1 * j.1) * a.1) && nadd * j.1 == j.0 * ((a.1 * j.1)
        * a.1)) by (nonlinear_arith)
        requires
            nsub == -(j.0 * (a.1 * a.1)),
            nadd == j.0 * (a.1 * a.1),
    ;
}

/// The middle summands of two two-term sums swap, exactly as pairs.
pub proof fn lemma_fadd_swap_mid(p: (int, int), q: (int, int), r: (int, int), s: (int, int))
    ensures
        fadd(fadd(p, q), fadd(r, s)) == fadd(fadd(p, r), fadd(q, s)),
{
    lemma_fadd_assoc(fadd(p, q), r, s);
    lemma_fadd_assoc(p, q, r);
    lemma_fadd_assoc(q, r, r);
    lemma_fadd_assoc(r, q, q);
    lemma_fadd_assoc(p, r, q);
    lemma_fadd_assoc(fadd(p, r), q, s);
    assert(fadd(fadd(p, q), fadd(r, s)) == fadd(fadd(fadd(p, q), r), s));
    assert(fadd(fadd(p, q), r) == fadd(p, fadd(q, r)));
    assert(fadd(q, r) == fadd(r, q));
    assert(fadd(p, fadd(r, q)) == fadd(fadd(p, r), q));
    assert(fadd(fadd(fadd(p, r), q), s) == fadd(fadd(p, r), fadd(q, s)));
}

/// Combining the impulse with the approach speed: `u - (1 + e)*u == -(e*u)`
/// as values.
pub proof fn lemma_restitution_combine(u: (int, int), e: (int, int))
    requires
        fwf(u),
        fwf(e),
    ensures
        feq(fadd(u, fneg(fmul(fadd((1int, 1int), e), u))), fneg(fmul(e, u))),
{
    let t = fmul(fadd((1int, 1int), e), u);
    assert(t.0 == (e.1 + e.0) * u.0 && t.1 == e.1 * u.1);
    let lhs = fadd(u, fneg(t));
    assert(lhs.0 == u.0 * (e.1 * u.1) + (-((e.1 + e.0) * u.0)) * u.1);
    assert(lhs.1 == u.1 * (e.1 * u.1));
    assert(lhs.0 == -((e.0 * u.0) * u.1)) by (nonlinear_arith)
        requires
            lhs.0 == u.0 * (e.1 * u.1) + (-((e.1 + e.0) * u.0)) * u.1,
    ;
    assert(lhs.0 * (e.1 * u.1) == (-(e.0 * u.0)) * (u.1 * (e.1 * u.1))) by (nonlinear_arith)
        requires
            lhs.0 == -((e.0 * u.0) * u.1),
    ;
}

/// `(a + x) - (b - y) == (a - b) + (x + y)`, exactly as pairs.
pub proof fn lemma_sub_of_mixed(a: (int, int), x: (int, int), b: (int, int), y: (int, int))
    ensures
        fsub(fadd(a, x), fsub(b, y)) == fadd(fsub(a, b), fadd(x, y)),
{
    lemma_fsub_is_fadd_neg(fadd(a, x), fsub(b, y));
    lemma_fsub_is_fadd_neg(b, y);
    lemma_fneg_fadd(b, fneg(y));
    assert(fneg(fneg(y)) == y);
    lemma_fadd_swap_mid(a, x, fneg(b), y);
    lemma_fsub_is_fadd_neg(a, b);
}

} // verus!
