//! Time representation for frame-accurate editing.
//!
//! A `RationalTime` is a number of seconds held as a fraction in lowest terms,
//! so that frame arithmetic never accumulates rounding error.

use vstd::prelude::*;
use crate::foundation::rational::{
    abs_int, gcd, is_reduced, same_value, lemma_integer_reduced, lemma_reduce_by_gcd,
    lemma_reduced_den_le, lemma_reduced_unique,
};
use num_rational::Rational64;
use core::ops::{Add, Div, Mul, Neg, Sub};
use vstd::std_specs::ops::{AddSpecImpl, DivSpecImpl, MulSpecImpl, NegSpecImpl, SubSpecImpl};

verus! {

/// Division of integers rounding toward zero, as Rust's `/` does.
pub open spec fn trunc_div(n: int, d: int) -> int {
    if n >= 0 {
        n / d
    } else {
        -((-n) / d)
    }
}

/// `numer / denom` reduces to lowest terms with a positive denominator and a
/// numerator other than `i64::MIN`, without negating `i64::MIN` on the way:
/// the denominator is nonzero, and `i64::MIN` stands on either side only where
/// the numerator is zero, both sides are equal, or the other side is even (so
/// the common factor removes it).
pub open spec fn reduces_in_range(numer: i64, denom: i64) -> bool {
    &&& denom != 0
    &&& (numer == 0 || numer == denom || (numer != i64::MIN && denom != i64::MIN) || (numer
        == i64::MIN && denom % 2 == 0) || (denom == i64::MIN && numer % 2 == 0))
}

/// `Ratio::<i64>::new`: builds the fraction `numer / denom` and puts it into
/// lowest terms with a positive denominator (a zero numerator gives `0/1`,
/// equal parts give `1/1`, otherwise both are divided by their gcd and negated
/// when the denominator is negative). Claimed: the result has the same value,
/// is reduced, its numerator is not `i64::MIN` and is no larger in magnitude
/// than `numer`. The call panics on a zero denominator; where reducing would
/// negate `i64::MIN` or leave it as the numerator, `requires` leaves the input
/// out.
#[verifier::external_body]
fn ratio_new(numer: i64, denom: i64) -> (r: (i64, i64))
    requires
        reduces_in_range(numer, denom),
    ensures
        r.0 != i64::MIN,
        is_reduced(r.0 as int, r.1 as int),
        same_value(r.0 as int, r.1 as int, numer as int, denom as int),
        abs_int(r.0 as int) <= abs_int(numer as int),
        r.1 <= abs_int(denom as int),
{
    let r = Rational64::new(numer, denom);
    (*r.numer(), *r.denom())
}

/// `Add` for `Ratio<i64>` on two fractions with positive denominators.
/// Claimed: the result is reduced and equals `an/ad + bn/bd`. The bounds in
/// `requires` keep every intermediate product of the crate's common-multiple
/// method inside `i64`.
#[verifier::external_body]
fn ratio_add(an: i64, ad: i64, bn: i64, bd: i64) -> (r: (i64, i64))
    requires
        ad > 0,
        bd > 0,
        ad * bd <= i64::MAX,
        abs_int(an * bd) + abs_int(bn * ad) <= i64::MAX,
    ensures
        is_reduced(r.0 as int, r.1 as int),
        same_value(r.0 as int, r.1 as int, an * bd + bn * ad, ad * bd),
        abs_int(r.0 as int) <= abs_int(an * bd + bn * ad),
{
    let r = Rational64::new_raw(an, ad) + Rational64::new_raw(bn, bd);
    (*r.numer(), *r.denom())
}

/// `Sub` for `Ratio<i64>` on two fractions with positive denominators.
/// Claimed: the result is reduced and equals `an/ad - bn/bd`, under the same
/// bounds as addition.
#[verifier::external_body]
fn ratio_sub(an: i64, ad: i64, bn: i64, bd: i64) -> (r: (i64, i64))
    requires
        ad > 0,
        bd > 0,
        ad * bd <= i64::MAX,
        abs_int(an * bd) + abs_int(bn * ad) <= i64::MAX,
    ensures
        is_reduced(r.0 as int, r.1 as int),
        same_value(r.0 as int, r.1 as int, an * bd - bn * ad, ad * bd),
        abs_int(r.0 as int) <= abs_int(an * bd - bn * ad),
{
    let r = Rational64::new_raw(an, ad) - Rational64::new_raw(bn, bd);
    (*r.numer(), *r.denom())
}

/// `Mul<Ratio<i64>>` for `Ratio<i64>`. Claimed: the result is reduced and
/// equals `(an * bn) / (ad * bd)`; the bounds keep the cross-cancelled
/// products inside `i64`.
#[verifier::external_body]
fn ratio_mul(an: i64, ad: i64, bn: i64, bd: i64) -> (r: (i64, i64))
    requires
        ad > 0,
        bd > 0,
        ad * bd <= i64::MAX,
        abs_int(an * bn) <= i64::MAX,
    ensures
        is_reduced(r.0 as int, r.1 as int),
        same_value(r.0 as int, r.1 as int, an * bn, ad * bd),
        abs_int(r.0 as int) <= abs_int(an * bn),
{
    let r = Rational64::new_raw(an, ad) * Rational64::new_raw(bn, bd);
    (*r.numer(), *r.denom())
}

/// `Mul<i64>` for `Ratio<i64>`. Claimed: the result is reduced and equals
/// `(n * k) / d`.
#[verifier::external_body]
fn ratio_mul_int(n: i64, d: i64, k: i64) -> (r: (i64, i64))
    requires
        d > 0,
        k != i64::MIN,
        abs_int(n * k) <= i64::MAX,
    ensures
        is_reduced(r.0 as int, r.1 as int),
        same_value(r.0 as int, r.1 as int, n * k, d as int),
        abs_int(r.0 as int) <= abs_int(n * k),
{
    let r = Rational64::new_raw(n, d) * k;
    (*r.numer(), *r.denom())
}

/// `Div<i64>` for `Ratio<i64>`. Claimed: the result is reduced and equals
/// `n / (d * k)`. The call panics when `k` is zero.
#[verifier::external_body]
fn ratio_div_int(n: i64, d: i64, k: i64) -> (r: (i64, i64))
    requires
        d > 0,
        k != 0,
        k != i64::MIN,
        n != i64::MIN,
        abs_int(d * k) <= i64::MAX,
    ensures
        is_reduced(r.0 as int, r.1 as int),
        same_value(r.0 as int, r.1 as int, n as int, d * k),
        abs_int(r.0 as int) <= abs_int(n as int),
{
    let r = Rational64::new_raw(n, d) / k;
    (*r.numer(), *r.denom())
}

/// The exact product of two 64-bit integers.
fn wide_mul(a: i64, b: i64) -> (r: i128)
    ensures
        r == a * b,
{
    proof {
        assert(-0x8000_0000_0000_0000 * 0x8000_0000_0000_0000 <= (a as int) * (b as int)
            <= 0x8000_0000_0000_0000 * 0x8000_0000_0000_0000) by (nonlinear_arith)
            requires -0x8000_0000_0000_0000 <= a <= 0x7fff_ffff_ffff_ffff,
                -0x8000_0000_0000_0000 <= b <= 0x7fff_ffff_ffff_ffff;
    }
    (a as i128) * (b as i128)
}

/// A point in time, in seconds, held as a fraction in lowest terms.
#[derive(Debug, Clone, Copy, PartialEq, Eq, Structural, Hash)]
pub struct RationalTime {
    pub(crate) numer: i64,
    pub(crate) denom: i64,
}

/// The time, among the well-formed ones, that denotes `n / d` seconds.
pub open spec fn canonical(n: int, d: int) -> RationalTime {
    choose|t: RationalTime| t.wf() && t.denotes(n, d)
}

proof fn lemma_same_value_trans(n1: int, d1: int, n2: int, d2: int, n3: int, d3: int)
    by (nonlinear_arith)
    requires
        d2 != 0,
        n1 * d2 == n2 * d1,
        n2 * d3 == n3 * d2,
    ensures
        n1 * d3 == n3 * d1,
{
}

/// A well-formed time that denotes `n / d` is the canonical one.
pub proof fn lemma_canonical(t: RationalTime, n: int, d: int)
    requires
        t.wf(),
        d != 0,
        t.denotes(n, d),
    ensures
        t == canonical(n, d),
{
    let c = canonical(n, d);
    assert(c.wf() && c.denotes(n, d));
    lemma_same_value_trans(t.num(), t.den(), n, d, c.num(), c.den());
    lemma_reduced_unique(t.num(), t.den(), c.num(), c.den());
}

proof fn lemma_sign_cases(n: int, d: int, g: int, ka: int, kb: int, num: int)
    by (nonlinear_arith)
    requires
        d != 0,
        abs_int(n) == g * ka,
        abs_int(d) == g * kb,
        num == (if (n >= 0) == (d > 0) { ka } else { -ka }),
    ensures
        num * d == n * kb,
{
}

/// Every fraction with a nonzero denominator and numerator and denominator
/// inside `i64` has a well-formed time that denotes it.
pub proof fn lemma_canonical_exists(n: int, d: int)
    requires
        d != 0,
        abs_int(n) <= i64::MAX,
        abs_int(d) <= i64::MAX,
    ensures
        canonical(n, d).wf(),
        canonical(n, d).denotes(n, d),
{
    let a = abs_int(n) as nat;
    let b = abs_int(d) as nat;
    let (ka, kb) = lemma_reduce_by_gcd(a, b);
    let g = gcd(a, b) as int;
    let num: int = if (n >= 0) == (d > 0) { ka } else { -ka };
    lemma_sign_cases(n, d, g, ka, kb, num);
    let t = RationalTime { numer: num as i64, denom: kb as i64 };
    assert(t.num() == num);
    assert(t.den() == kb);
    assert(abs_int(num) == ka);
    assert(t.wf());
    assert(t.denotes(n, d));
}


/// Two well-formed times that denote the same number of seconds are equal.
pub proof fn lemma_same_time_equal(a: RationalTime, b: RationalTime)
    requires
        a.wf(),
        b.wf(),
        a.same_time(b),
    ensures
        a == b,
{
    lemma_reduced_unique(a.num(), a.den(), b.num(), b.den());
}

impl RationalTime {
    /// Numerator of the time in lowest terms.
    pub closed spec fn num(self) -> int {
        self.numer as int
    }

    /// Denominator of the time in lowest terms.
    pub closed spec fn den(self) -> int {
        self.denom as int
    }

    /// The fraction is in lowest terms, with a positive denominator and a
    /// numerator that can be negated.
    pub open spec fn wf(self) -> bool {
        &&& is_reduced(self.num(), self.den())
        &&& self.num() > i64::MIN
        &&& self.num() <= i64::MAX
        &&& self.den() <= i64::MAX
    }

    /// This time and `other` denote the same number of seconds.
    pub open spec fn same_time(self, other: Self) -> bool {
        same_value(self.num(), self.den(), other.num(), other.den())
    }

    /// This time is `n / d` seconds.
    pub open spec fn denotes(self, n: int, d: int) -> bool {
        same_value(self.num(), self.den(), n, d)
    }

    /// This time is strictly before `other`.
    pub open spec fn before(self, other: Self) -> bool {
        self.num() * other.den() < other.num() * self.den()
    }

    /// This time is before or at `other`.
    pub open spec fn at_or_before(self, other: Self) -> bool {
        self.num() * other.den() <= other.num() * self.den()
    }

    /// Adding `other` stays inside the bounds of the fraction arithmetic.
    pub open spec fn add_fits(self, other: Self) -> bool {
        &&& self.den() * other.den() <= i64::MAX
        &&& abs_int(self.num() * other.den()) + abs_int(other.num() * self.den()) <= i64::MAX
    }

    /// The sum of two times.
    pub open spec fn sum(self, other: Self) -> Self {
        canonical(self.num() * other.den() + other.num() * self.den(), self.den() * other.den())
    }

    /// The difference of two times.
    pub open spec fn difference(self, other: Self) -> Self {
        canonical(self.num() * other.den() - other.num() * self.den(), self.den() * other.den())
    }

    /// The negation of a time.
    pub open spec fn negation(self) -> Self {
        canonical(-self.num(), self.den())
    }

    /// Build the time from a reduced pair.
    fn from_reduced(r: (i64, i64), n: Ghost<int>, d: Ghost<int>) -> (t: Self)
        requires
            is_reduced(r.0 as int, r.1 as int),
            r.0 != i64::MIN,
            d@ != 0,
            same_value(r.0 as int, r.1 as int, n@, d@),
        ensures
            t.wf(),
            t.num() == r.0,
            t.den() == r.1,
            t == canonical(n@, d@),
    {
        let t = RationalTime { numer: r.0, denom: r.1 };
        proof { lemma_canonical(t, n@, d@); }
        t
    }

    /// Create `numerator / denominator` seconds, in lowest terms; the
    /// denominator is nonzero.
    pub fn new(numerator: i64, denominator: i64) -> (t: Self)
        requires
            reduces_in_range(numerator, denominator),
        ensures
            t.wf(),
            t.denotes(numerator as int, denominator as int),
            t == canonical(numerator as int, denominator as int),
            abs_int(t.num()) <= abs_int(numerator as int),
            t.den() <= abs_int(denominator as int),
    {
        let r = ratio_new(numerator, denominator);
        Self::from_reduced(r, Ghost(numerator as int), Ghost(denominator as int))
    }

    /// Zero seconds.
    pub fn zero() -> (t: Self)
        ensures
            t.wf(),
            t.num() == 0,
            t.den() == 1,
            t == canonical(0, 1),
    {
        proof { lemma_integer_reduced(0); }
        let t = RationalTime { numer: 0, denom: 1 };
        proof { lemma_canonical(t, 0, 1); }
        t
    }

    /// Whether this time is zero.
    pub fn is_zero(self) -> (b: bool)
        ensures
            b == (self.num() == 0),
    {
        self.numer == 0
    }

    /// Numerator of the internal fraction.
    pub fn numer(self) -> (n: i64)
        ensures
            n == self.num(),
    {
        self.numer
    }

    /// Denominator of the internal fraction.
    pub fn denom(self) -> (d: i64)
        ensures
            d == self.den(),
    {
        self.denom
    }

    /// The negated time.
    pub(crate) fn negated(self) -> (t: Self)
        requires
            self.wf(),
        ensures
            t.wf(),
            t.num() == -self.num(),
            t.den() == self.den(),
            t == self.negation(),
    {
        proof {
            assert(abs_int(-self.num()) == abs_int(self.num()));
        }
        let t = RationalTime { numer: -self.numer, denom: self.denom };
        proof { lemma_canonical(t, -self.num(), self.den()); }
        t
    }

    /// The absolute value of this time.
    pub fn abs(self) -> (t: Self)
        requires
            self.wf(),
        ensures
            t.wf(),
            t.num() == abs_int(self.num()),
            t.num() >= 0,
            t.den() == self.den(),
    {
        if self.numer < 0 {
            self.negated()
        } else {
            self
        }
    }

    /// The sum of two times.
    pub(crate) fn plus(self, other: Self) -> (t: Self)
        requires
            self.wf(),
            other.wf(),
            self.add_fits(other),
        ensures
            t.wf(),
            t == self.sum(other),
            t.denotes(self.num() * other.den() + other.num() * self.den(), self.den() * other.den()),
    {
        proof { assert(self.den() * other.den() > 0) by (nonlinear_arith)
            requires self.den() > 0, other.den() > 0; }
        let r = ratio_add(self.numer, self.denom, other.numer, other.denom);
        Self::from_reduced(r,
            Ghost(self.num() * other.den() + other.num() * self.den()),
            Ghost(self.den() * other.den()))
    }

    /// The difference of two times.
    pub(crate) fn minus(self, other: Self) -> (t: Self)
        requires
            self.wf(),
            other.wf(),
            self.add_fits(other),
        ensures
            t.wf(),
            t == self.difference(other),
            t.denotes(self.num() * other.den() - other.num() * self.den(), self.den() * other.den()),
    {
        proof { assert(self.den() * other.den() > 0) by (nonlinear_arith)
            requires self.den() > 0, other.den() > 0; }
        let r = ratio_sub(self.numer, self.denom, other.numer, other.denom);
        Self::from_reduced(r,
            Ghost(self.num() * other.den() - other.num() * self.den()),
            Ghost(self.den() * other.den()))
    }
}

/// Frame rate as a fraction of frames per second (24000/1001 for 23.976 fps).
#[derive(Debug, Clone, Copy, PartialEq, Eq, Structural, Hash)]
pub struct FrameRate {
    /// Numerator (e.g. 24000).
    pub numerator: u32,
    /// Denominator (e.g. 1001).
    pub denominator: u32,
}

/// Ceiling of `n / d`.
pub open spec fn ceil_div(n: int, d: int) -> int {
    (n + d - 1) / d
}

impl FrameRate {
    /// 23.976 fps.
    pub fn fps_23_976() -> (r: FrameRate)
        ensures
            r.numerator == 24000,
            r.denominator == 1001,
    {
        FrameRate { numerator: 24000, denominator: 1001 }
    }
    /// 24 fps.
    pub fn fps_24() -> (r: FrameRate)
        ensures
            r.numerator == 24,
            r.denominator == 1,
    {
        FrameRate { numerator: 24, denominator: 1 }
    }
    /// 25 fps.
    pub fn fps_25() -> (r: FrameRate)
        ensures
            r.numerator == 25,
            r.denominator == 1,
    {
        FrameRate { numerator: 25, denominator: 1 }
    }
    /// 29.97 fps.
    pub fn fps_29_97() -> (r: FrameRate)
        ensures
            r.numerator == 30000,
            r.denominator == 1001,
    {
        FrameRate { numerator: 30000, denominator: 1001 }
    }
    /// 30 fps.
    pub fn fps_30() -> (r: FrameRate)
        ensures
            r.numerator == 30,
            r.denominator == 1,
    {
        FrameRate { numerator: 30, denominator: 1 }
    }
    /// 50 fps.
    pub fn fps_50() -> (r: FrameRate)
        ensures
            r.numerator == 50,
            r.denominator == 1,
    {
        FrameRate { numerator: 50, denominator: 1 }
    }
    /// 59.94 fps.
    pub fn fps_59_94() -> (r: FrameRate)
        ensures
            r.numerator == 60000,
            r.denominator == 1001,
    {
        FrameRate { numerator: 60000, denominator: 1001 }
    }
    /// 60 fps.
    pub fn fps_60() -> (r: FrameRate)
        ensures
            r.numerator == 60,
            r.denominator == 1,
    {
        FrameRate { numerator: 60, denominator: 1 }
    }

    /// Create a frame rate.
    pub fn new(numerator: u32, denominator: u32) -> (r: Self)
        ensures
            r.numerator == numerator,
            r.denominator == denominator,
    {
        FrameRate { numerator, denominator }
    }

    /// Integer frames per second, rounded up: 23.976 gives 24, 29.97 gives 30.
    pub fn nominal_fps(self) -> (fps: u32)
        requires
            self.denominator != 0,
        ensures
            fps == ceil_div(self.numerator as int, self.denominator as int),
    {
        let q = self.numerator / self.denominator;
        let r = self.numerator % self.denominator;
        proof {
            let n = self.numerator as int;
            let d = self.denominator as int;
            vstd::arithmetic::div_mod::lemma_fundamental_div_mod(n, d);
            if r == 0 {
                assert(n + d - 1 == (q as int) * d + (d - 1)) by (nonlinear_arith)
                    requires n == d * (q as int) + 0;
                vstd::arithmetic::div_mod::lemma_fundamental_div_mod_converse_div(n + d - 1, d, q as int, d - 1);
            } else {
                assert(n + d - 1 == (q as int + 1) * d + (r as int - 1)) by (nonlinear_arith)
                    requires n == d * (q as int) + (r as int);
                vstd::arithmetic::div_mod::lemma_fundamental_div_mod_converse_div(n + d - 1, d, q as int + 1, r as int - 1);
                assert(q as int + 1 <= u32::MAX) by (nonlinear_arith)
                    requires n == d * (q as int) + (r as int), 0 < r < d, n <= u32::MAX, q >= 0;
            }
        }
        if r != 0 { q + 1 } else { q }
    }

    /// Whether this rate uses drop-frame timecode.
    pub fn is_drop_frame(self) -> (b: bool)
        ensures
            b == (self.denominator == 1001 && (self.numerator == 30000 || self.numerator == 60000
                || self.numerator == 24000)),
    {
        self.denominator == 1001 && (self.numerator == 30000 || self.numerator == 60000
            || self.numerator == 24000)
    }

    /// Duration of a single frame of a rate with a nonzero numerator.
    pub fn frame_duration(self) -> (t: RationalTime)
        requires
            self.numerator != 0,
        ensures
            t.wf(),
            t == canonical(self.denominator as int, self.numerator as int),
    {
        RationalTime::new(self.denominator as i64, self.numerator as i64)
    }
}

proof fn lemma_floor_div_same(n1: int, d1: int, n2: int, d2: int)
    requires
        d1 > 0,
        d2 > 0,
        n1 * d2 == n2 * d1,
    ensures
        n1 / d1 == n2 / d2,
{
    let q = n1 / d1;
    vstd::arithmetic::div_mod::lemma_fundamental_div_mod(n1, d1);
    assert(q * d2 <= n2 < q * d2 + d2) by (nonlinear_arith)
        requires
            d1 > 0,
            d2 > 0,
            n1 * d2 == n2 * d1,
            n1 == d1 * q + n1 % d1,
            0 <= n1 % d1 < d1;
    vstd::arithmetic::div_mod::lemma_fundamental_div_mod_converse_div(n2, d2, q, n2 - q * d2);
}

/// Rounding toward zero gives the same result on fractions of equal value.
pub proof fn lemma_trunc_div_same(n1: int, d1: int, n2: int, d2: int)
    requires
        d1 > 0,
        d2 > 0,
        n1 * d2 == n2 * d1,
    ensures
        trunc_div(n1, d1) == trunc_div(n2, d2),
{
    assert(n1 >= 0 <==> n2 >= 0) by (nonlinear_arith)
        requires d1 > 0, d2 > 0, n1 * d2 == n2 * d1;
    if n1 >= 0 {
        lemma_floor_div_same(n1, d1, n2, d2);
    } else {
        assert((-n1) * d2 == (-n2) * d1) by (nonlinear_arith)
            requires n1 * d2 == n2 * d1;
        lemma_floor_div_same(-n1, d1, -n2, d2);
    }
}

impl RationalTime {
    /// The time of frame number `frames` at `rate`, whose numerator is nonzero.
    pub fn from_frames(frames: i64, rate: FrameRate) -> (t: Self)
        requires
            rate.numerator != 0,
            abs_int(frames * rate.denominator) <= i64::MAX,
        ensures
            t.wf(),
            t == canonical(frames * rate.denominator, rate.numerator as int),
            abs_int(t.num()) <= abs_int(frames * rate.denominator),
            t.den() <= rate.numerator,
    {
        proof {
            assert(frames * rate.denominator <= i64::MAX);
            assert(frames * rate.denominator >= -i64::MAX);
        }
        Self::new(frames * rate.denominator as i64, rate.numerator as i64)
    }

    /// The frame number this time falls in at `rate`, rounding toward zero.
    pub fn to_frames(self, rate: FrameRate) -> (f: i64)
        requires
            self.wf(),
            rate.denominator != 0,
            abs_int(self.num() * rate.numerator) <= i64::MAX,
            self.den() * rate.denominator <= i64::MAX,
        ensures
            f == trunc_div(self.num() * rate.numerator, self.den() * rate.denominator),
    {
        let r = ratio_new(rate.numerator as i64, rate.denominator as i64);
        proof {
            let rn = rate.numerator as int;
            let rd = rate.denominator as int;
            assert(abs_int(self.num() * r.0) <= abs_int(self.num() * rn)) by (nonlinear_arith)
                requires abs_int(r.0 as int) <= abs_int(rn), rn >= 0;
            assert(self.den() * r.1 <= self.den() * rd) by (nonlinear_arith)
                requires r.1 <= rd, self.den() > 0;
        }
        let m = ratio_mul(self.numer, self.denom, r.0, r.1);
        proof {
            let rn = rate.numerator as int;
            let rd = rate.denominator as int;
            assert(self.den() * rd > 0) by (nonlinear_arith) requires self.den() > 0, rd > 0;
            assert((m.0 as int) * (self.den() * rd) == (self.num() * rn) * (m.1 as int)) by (nonlinear_arith)
                requires
                    (m.0 as int) * (self.den() * r.1) == (self.num() * r.0) * (m.1 as int),
                    (r.0 as int) * rd == rn * (r.1 as int),
                    r.1 > 0;
            lemma_trunc_div_same(m.0 as int, m.1 as int, self.num() * rn, self.den() * rd);
        }
        if m.0 >= 0 {
            m.0 / m.1
        } else {
            -((-m.0) / m.1)
        }
    }
}

impl RationalTime {
    /// Multiplying by `k` stays inside the bounds of the fraction arithmetic.
    pub open spec fn mul_fits(self, k: i64) -> bool {
        k != i64::MIN && abs_int(self.num() * k) <= i64::MAX
    }

    /// Dividing by `k` stays inside the bounds of the fraction arithmetic.
    pub open spec fn div_fits(self, k: i64) -> bool {
        k != 0 && k != i64::MIN && abs_int(self.den() * k) <= i64::MAX
    }

    /// The time scaled by `k`.
    pub open spec fn scaled(self, k: int) -> Self {
        canonical(self.num() * k, self.den())
    }

    /// The time divided by `k`.
    pub open spec fn divided(self, k: int) -> Self {
        canonical(self.num(), self.den() * k)
    }

    /// The time multiplied by an integer.
    pub(crate) fn times(self, k: i64) -> (t: Self)
        requires
            self.wf(),
            self.mul_fits(k),
        ensures
            t.wf(),
            t == self.scaled(k as int),
    {
        let r = ratio_mul_int(self.numer, self.denom, k);
        Self::from_reduced(r, Ghost(self.num() * k), Ghost(self.den()))
    }

    /// The time divided by an integer.
    pub(crate) fn over(self, k: i64) -> (t: Self)
        requires
            self.wf(),
            self.div_fits(k),
        ensures
            t.wf(),
            t == self.divided(k as int),
    {
        proof {
            assert(self.den() * k != 0) by (nonlinear_arith) requires self.den() > 0, k != 0;
        }
        let r = ratio_div_int(self.numer, self.denom, k);
        Self::from_reduced(r, Ghost(self.num()), Ghost(self.den() * k))
    }

    /// Compare by value: whether `self` is before or at `other`.
    pub(crate) fn le_value(self, other: Self) -> (b: bool)
        ensures
            b == self.at_or_before(other),
    {
        wide_mul(self.numer, other.denom) <= wide_mul(other.numer, self.denom)
    }

    /// Compare by value: whether `self` is strictly before `other`.
    pub(crate) fn lt_value(self, other: Self) -> (b: bool)
        ensures
            b == self.before(other),
    {
        wide_mul(self.numer, other.denom) < wide_mul(other.numer, self.denom)
    }

    /// The earlier of two times (`self` when they are equal).
    pub fn min(self, other: Self) -> (t: Self)
        requires
            self.wf(),
            other.wf(),
        ensures
            t == (if self.at_or_before(other) { self } else { other }),
    {
        if self.le_value(other) { self } else { other }
    }

    /// The later of two times (`self` when they are equal).
    pub fn max(self, other: Self) -> (t: Self)
        requires
            self.wf(),
            other.wf(),
        ensures
            t == (if other.at_or_before(self) { self } else { other }),
    {
        if other.le_value(self) { self } else { other }
    }
}

impl Default for RationalTime {
    fn default() -> (t: Self)
        ensures
            t.wf(),
            t.num() == 0,
            t.den() == 1,
    {
        RationalTime::zero()
    }
}

impl Add for RationalTime {
    type Output = RationalTime;

    fn add(self, rhs: RationalTime) -> (t: RationalTime)
        ensures
            t.wf(),
    {
        self.plus(rhs)
    }
}

impl AddSpecImpl for RationalTime {
    open spec fn obeys_add_spec() -> bool {
        true
    }

    open spec fn add_req(self, rhs: RationalTime) -> bool {
        self.wf() && rhs.wf() && self.add_fits(rhs)
    }

    open spec fn add_spec(self, rhs: RationalTime) -> RationalTime {
        self.sum(rhs)
    }
}

impl Sub for RationalTime {
    type Output = RationalTime;

    fn sub(self, rhs: RationalTime) -> (t: RationalTime)
        ensures
            t.wf(),
    {
        self.minus(rhs)
    }
}

impl SubSpecImpl for RationalTime {
    open spec fn obeys_sub_spec() -> bool {
        true
    }

    open spec fn sub_req(self, rhs: RationalTime) -> bool {
        self.wf() && rhs.wf() && self.add_fits(rhs)
    }

    open spec fn sub_spec(self, rhs: RationalTime) -> RationalTime {
        self.difference(rhs)
    }
}

impl Mul<i64> for RationalTime {
    type Output = RationalTime;

    fn mul(self, rhs: i64) -> (t: RationalTime)
        ensures
            t.wf(),
    {
        self.times(rhs)
    }
}

impl MulSpecImpl<i64> for RationalTime {
    open spec fn obeys_mul_spec() -> bool {
        true
    }

    open spec fn mul_req(self, rhs: i64) -> bool {
        self.wf() && self.mul_fits(rhs)
    }

    open spec fn mul_spec(self, rhs: i64) -> RationalTime {
        self.scaled(rhs as int)
    }
}

impl Div<i64> for RationalTime {
    type Output = RationalTime;

    fn div(self, rhs: i64) -> (t: RationalTime)
        ensures
            t.wf(),
    {
        self.over(rhs)
    }
}

impl DivSpecImpl<i64> for RationalTime {
    open spec fn obeys_div_spec() -> bool {
        true
    }

    open spec fn div_req(self, rhs: i64) -> bool {
        self.wf() && self.div_fits(rhs)
    }

    open spec fn div_spec(self, rhs: i64) -> RationalTime {
        self.divided(rhs as int)
    }
}

impl Neg for RationalTime {
    type Output = RationalTime;

    fn neg(self) -> (t: RationalTime)
        ensures
            t.wf(),
    {
        self.negated()
    }
}

impl NegSpecImpl for RationalTime {
    open spec fn obeys_neg_spec() -> bool {
        true
    }

    open spec fn neg_req(self) -> bool {
        self.wf()
    }

    open spec fn neg_spec(self) -> RationalTime {
        self.negation()
    }
}

/// A time range: inclusive start and a duration; the end is exclusive.
#[derive(Debug, Clone, Copy, PartialEq, Eq, Structural, Hash)]
pub struct TimeRange {
    /// Start time (inclusive).
    pub start: RationalTime,
    /// Duration of the range.
    pub duration: RationalTime,
}

/// The earlier of two times by value (the first when equal).
pub open spec fn earlier(a: RationalTime, b: RationalTime) -> RationalTime {
    if a.at_or_before(b) { a } else { b }
}

/// The later of two times by value (the first when equal).
pub open spec fn later(a: RationalTime, b: RationalTime) -> RationalTime {
    if b.at_or_before(a) { a } else { b }
}

impl TimeRange {
    /// Start and duration are well formed and their sum can be computed.
    pub open spec fn wf(self) -> bool {
        self.start.wf() && self.duration.wf() && self.start.add_fits(self.duration)
    }

    /// The exclusive end of the range.
    pub open spec fn end_time(self) -> RationalTime {
        self.start.sum(self.duration)
    }

    /// `t` lies inside the range.
    pub open spec fn holds(self, t: RationalTime) -> bool {
        self.start.at_or_before(t) && t.before(self.end_time())
    }

    /// The two ranges share some time.
    pub open spec fn meets(self, other: Self) -> bool {
        self.start.before(other.end_time()) && other.start.before(self.end_time())
    }

    /// Start of the intersection of two ranges.
    pub open spec fn common_start(self, other: Self) -> RationalTime {
        if other.start.before(self.start) { self.start } else { other.start }
    }

    /// End of the intersection of two ranges.
    pub open spec fn common_end(self, other: Self) -> RationalTime {
        if self.end_time().before(other.end_time()) { self.end_time() } else { other.end_time() }
    }

    /// The intersection can be built: both ends are well formed and their
    /// difference can be computed.
    pub open spec fn intersection_fits(self, other: Self) -> bool {
        self.common_end(other).add_fits(self.common_start(other))
    }

    /// The bounding range can be built.
    pub open spec fn union_fits(self, other: Self) -> bool {
        later(self.end_time(), other.end_time()).add_fits(earlier(self.start, other.start))
    }

    /// Create a range from start and duration.
    pub fn new(start: RationalTime, duration: RationalTime) -> (r: Self)
        ensures
            r.start == start,
            r.duration == duration,
    {
        TimeRange { start, duration }
    }

    /// Create a range from its start and its exclusive end.
    pub fn from_start_end(start: RationalTime, end: RationalTime) -> (r: Self)
        requires
            start.wf(),
            end.wf(),
            end.add_fits(start),
        ensures
            r.start == start,
            r.duration == end.difference(start),
            r.duration.wf(),
    {
        TimeRange { start, duration: end.minus(start) }
    }

    /// The exclusive end.
    pub fn end(self) -> (t: RationalTime)
        requires
            self.wf(),
        ensures
            t == self.end_time(),
            t.wf(),
    {
        self.start.plus(self.duration)
    }

    /// Whether `time` lies inside the range.
    pub fn contains(self, time: RationalTime) -> (b: bool)
        requires
            self.wf(),
        ensures
            b == self.holds(time),
    {
        self.start.le_value(time) && time.lt_value(self.end())
    }

    /// Whether the two ranges overlap.
    pub fn overlaps(self, other: Self) -> (b: bool)
        requires
            self.wf(),
            other.wf(),
        ensures
            b == self.meets(other),
    {
        self.start.lt_value(other.end()) && other.start.lt_value(self.end())
    }

    /// The intersection of two ranges, when they overlap.
    pub fn intersection(self, other: Self) -> (r: Option<Self>)
        requires
            self.wf(),
            other.wf(),
            self.meets(other) ==> self.intersection_fits(other),
        ensures
            r is None <==> !self.meets(other),
            r matches Some(i) ==> i.start == self.common_start(other)
                && i.duration == self.common_end(other).difference(self.common_start(other)),
    {
        if !self.overlaps(other) {
            return None;
        }
        let start = if other.start.lt_value(self.start) { self.start } else { other.start };
        let self_end = self.end();
        let other_end = other.end();
        let end = if self_end.lt_value(other_end) { self_end } else { other_end };
        Some(Self::from_start_end(start, end))
    }

    /// The bounding range of two ranges.
    pub fn union(self, other: Self) -> (r: Self)
        requires
            self.wf(),
            other.wf(),
            self.union_fits(other),
        ensures
            r.start == earlier(self.start, other.start),
            r.duration == later(self.end_time(), other.end_time()).difference(
                earlier(self.start, other.start),
            ),
    {
        let start = self.start.min(other.start);
        let end = self.end().max(other.end());
        Self::from_start_end(start, end)
    }

    /// Whether the range has zero duration.
    pub fn is_empty(self) -> (b: bool)
        ensures
            b == (self.duration.num() == 0),
    {
        self.duration.is_zero()
    }

    /// The range moved by `delta`.
    pub fn offset(self, delta: RationalTime) -> (r: Self)
        requires
            self.start.wf(),
            delta.wf(),
            self.start.add_fits(delta),
        ensures
            r.start == self.start.sum(delta),
            r.duration == self.duration,
    {
        TimeRange { start: self.start.plus(delta), duration: self.duration }
    }

    /// The empty range starting at zero.
    pub fn empty() -> (r: Self)
        ensures
            r.start.num() == 0 && r.start.den() == 1,
            r.duration.num() == 0 && r.duration.den() == 1,
            r.wf(),
    {
        TimeRange { start: RationalTime::zero(), duration: RationalTime::zero() }
    }
}

impl Default for TimeRange {
    fn default() -> (r: Self)
        ensures
            r.start.num() == 0 && r.start.den() == 1,
            r.duration.num() == 0 && r.duration.den() == 1,
    {
        TimeRange::empty()
    }
}

impl Default for FrameRate {
    fn default() -> (r: Self)
        ensures
            r.numerator == 24,
            r.denominator == 1,
    {
        FrameRate::fps_24()
    }
}

} // verus!
