//! Laws of rational time and time ranges.

use vstd::prelude::*;
use crate::foundation::rational::abs_int;
use crate::foundation::time::{
    canonical, lemma_canonical, lemma_canonical_exists, lemma_trunc_div_same, trunc_div,
    FrameRate, RationalTime, TimeRange,
};

verus! {

proof fn lemma_trunc_div_exact(f: int, x: int)
    requires
        x > 0,
    ensures
        trunc_div(f * x, x) == f,
{
    assert((f * x) * 1 == f * x) by (nonlinear_arith);
    lemma_trunc_div_same(f * x, x, f, 1);
    assert(f / 1 == f);
    assert((-f) / 1 == -f);
}

/// Converting frame number `frames` to a time at `rate` and back gives
/// `frames` again.
pub proof fn lemma_frame_roundtrip(frames: int, rate: FrameRate)
    requires
        rate.numerator > 0,
        rate.denominator > 0,
        abs_int(frames * rate.denominator) <= i64::MAX,
    ensures
        ({
            let t = canonical(frames * rate.denominator, rate.numerator as int);
            trunc_div(t.num() * rate.numerator, t.den() * rate.denominator) == frames
        }),
{
    let rn = rate.numerator as int;
    let rd = rate.denominator as int;
    lemma_canonical_exists(frames * rd, rn);
    let t = canonical(frames * rd, rn);
    assert(t.num() * rn == frames * (rd * t.den())) by (nonlinear_arith)
        requires t.num() * rn == (frames * rd) * t.den();
    assert(rd * t.den() > 0) by (nonlinear_arith) requires rd > 0, t.den() > 0;
    assert(t.den() * rd == rd * t.den()) by (nonlinear_arith);
    lemma_trunc_div_exact(frames, rd * t.den());
}

proof fn lemma_sub_after_add(an: int, ad: int, bn: int, bd: int, sn: int, sd: int)
    requires
        sn * (ad * bd) == (an * bd + bn * ad) * sd,
    ensures
        an * (sd * bd) == (sn * bd - bn * sd) * ad,
{
    assert((sn * bd - bn * sd) * ad == sn * bd * ad - bn * sd * ad) by (nonlinear_arith);
    assert(sn * bd * ad == sn * (ad * bd)) by (nonlinear_arith);
    assert((an * bd + bn * ad) * sd == an * bd * sd + bn * ad * sd) by (nonlinear_arith);
    assert(bn * sd * ad == bn * ad * sd) by (nonlinear_arith);
    assert(an * (sd * bd) == an * bd * sd) by (nonlinear_arith);
}

proof fn lemma_sum_after_start(sn: int, sd: int, un: int, ud: int, en: int, ed: int)
    requires
        en * (sd * ud) == (sn * ud + un * sd) * ed,
        un > 0,
        sd > 0,
        ud > 0,
        ed > 0,
    ensures
        sn * ed < en * sd,
{
    assert(en * (sd * ud) == (en * sd) * ud) by (nonlinear_arith);
    assert((sn * ud + un * sd) * ed == (sn * ed) * ud + un * sd * ed) by (nonlinear_arith);
    assert(un * sd * ed > 0) by (nonlinear_arith) requires un > 0, sd > 0, ed > 0;
    assert((sn * ed) * ud < (en * sd) * ud);
    assert(sn * ed < en * sd) by (nonlinear_arith)
        requires (sn * ed) * ud < (en * sd) * ud, ud > 0;
}

proof fn lemma_end_minus_start(sn: int, sd: int, un: int, ud: int, en: int, ed: int)
    requires
        en * (sd * ud) == (sn * ud + un * sd) * ed,
    ensures
        un * (ed * sd) == (en * sd - sn * ed) * ud,
{
    assert((en * sd - sn * ed) * ud == en * (sd * ud) - sn * ed * ud) by (nonlinear_arith);
    assert((sn * ud + un * sd) * ed == sn * ed * ud + un * sd * ed) by (nonlinear_arith);
    assert(un * (ed * sd) == un * sd * ed) by (nonlinear_arith);
}

proof fn lemma_product_positive(a: int, b: int)
    requires
        a > 0,
        b > 0,
    ensures
        a * b > 0,
{
    assert(a * b > 0) by (nonlinear_arith) requires a > 0, b > 0;
}

/// Addition of times is commutative.
pub proof fn lemma_add_commutative(a: RationalTime, b: RationalTime)
    ensures
        a.sum(b) == b.sum(a),
{
    assert(a.num() * b.den() + b.num() * a.den() == b.num() * a.den() + a.num() * b.den());
    assert(a.den() * b.den() == b.den() * a.den()) by (nonlinear_arith);
}

/// Adding `b` and then subtracting `b` gives back the time one started with.
pub proof fn lemma_add_sub_inverse(a: RationalTime, b: RationalTime)
    requires
        a.wf(),
        b.wf(),
        a.add_fits(b),
    ensures
        a.sum(b).difference(b) == a,
{
    let n = a.num() * b.den() + b.num() * a.den();
    let d = a.den() * b.den();
    lemma_product_positive(a.den(), b.den());
    lemma_canonical_exists(n, d);
    let s = a.sum(b);
    let dn = s.num() * b.den() - b.num() * s.den();
    let dd = s.den() * b.den();
    lemma_product_positive(s.den(), b.den());
    lemma_sub_after_add(a.num(), a.den(), b.num(), b.den(), s.num(), s.den());
    lemma_canonical(a, dn, dd);
}

proof fn lemma_end_after_start(r: TimeRange)
    requires
        r.wf(),
        r.duration.num() > 0,
    ensures
        r.end_time().wf(),
        r.end_time().denotes(
            r.start.num() * r.duration.den() + r.duration.num() * r.start.den(),
            r.start.den() * r.duration.den(),
        ),
        r.start.before(r.end_time()),
{
    let s = r.start;
    let u = r.duration;
    let n = s.num() * u.den() + u.num() * s.den();
    let d = s.den() * u.den();
    lemma_product_positive(s.den(), u.den());
    lemma_canonical_exists(n, d);
    let e = r.end_time();
    lemma_sum_after_start(s.num(), s.den(), u.num(), u.den(), e.num(), e.den());
}

/// A range with positive duration contains its start but not its end.
pub proof fn lemma_range_boundaries(r: TimeRange)
    requires
        r.wf(),
        r.duration.num() > 0,
    ensures
        r.holds(r.start),
        !r.holds(r.end_time()),
{
    lemma_end_after_start(r);
}

/// A range with positive duration overlaps itself.
pub proof fn lemma_self_overlap(r: TimeRange)
    requires
        r.wf(),
        r.duration.num() > 0,
    ensures
        r.meets(r),
{
    lemma_end_after_start(r);
}

/// The intersection of a range with positive duration with itself is the
/// range itself.
pub proof fn lemma_self_intersection(r: TimeRange)
    requires
        r.wf(),
        r.duration.num() > 0,
        r.intersection_fits(r),
    ensures
        r.common_start(r) == r.start,
        r.common_end(r).difference(r.common_start(r)) == r.duration,
{
    lemma_end_after_start(r);
    let s = r.start;
    let u = r.duration;
    let e = r.end_time();
    let dn = e.num() * s.den() - s.num() * e.den();
    let dd = e.den() * s.den();
    lemma_product_positive(e.den(), s.den());
    lemma_end_minus_start(s.num(), s.den(), u.num(), u.den(), e.num(), e.den());
    lemma_canonical(u, dn, dd);
}

} // verus!
