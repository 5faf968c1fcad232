//! Number theory behind reduced fractions: the greatest common divisor,
//! Bezout coefficients, and the uniqueness of a fraction in lowest terms.

use vstd::prelude::*;

verus! {

/// Absolute value of an integer.
pub open spec fn abs_int(x: int) -> int {
    if x < 0 { -x } else { x }
}

/// Greatest common divisor by Euclid's algorithm.
pub open spec fn gcd(a: nat, b: nat) -> nat
    decreases b,
{
    if b == 0 {
        a
    } else {
        gcd(b, a % b)
    }
}

/// Bezout coefficients `(x, y)` with `x * a + y * b == gcd(a, b)`.
pub open spec fn bezout(a: nat, b: nat) -> (int, int)
    decreases b,
{
    if b == 0 {
        (1, 0)
    } else {
        let (x, y) = bezout(b, a % b);
        (y, x - (a / b) as int * y)
    }
}

/// A fraction `n / d` is in lowest terms with a positive denominator.
pub open spec fn is_reduced(n: int, d: int) -> bool {
    d > 0 && gcd(abs_int(n) as nat, d as nat) == 1
}

/// Two fractions denote the same rational number.
pub open spec fn same_value(n1: int, d1: int, n2: int, d2: int) -> bool {
    n1 * d2 == n2 * d1
}

proof fn lemma_bezout_step(a: int, b: int, q: int, r: int, x: int, y: int, g: int)
    by (nonlinear_arith)
    requires
        a == b * q + r,
        x * b + y * r == g,
    ensures
        y * a + (x - q * y) * b == g,
{
}

/// Bezout's identity for the coefficients computed by `bezout`.
pub proof fn lemma_bezout(a: nat, b: nat)
    ensures
        bezout(a, b).0 * a + bezout(a, b).1 * b == gcd(a, b),
    decreases b,
{
    if b != 0 {
        lemma_bezout(b, a % b);
        let (x, y) = bezout(b, a % b);
        vstd::arithmetic::div_mod::lemma_fundamental_div_mod(a as int, b as int);
        lemma_bezout_step(a as int, b as int, (a / b) as int, (a % b) as int, x, y, gcd(b, a % b) as int);
    }
}

proof fn lemma_multiple_bound(d1: int, d2: int, q: int)
    by (nonlinear_arith)
    requires
        d1 > 0,
        d2 > 0,
        d2 == d1 * q,
    ensures
        d1 <= d2,
{
}

proof fn lemma_divides_step(an1: int, an2: int, d1: int, d2: int, x: int, y: int)
    by (nonlinear_arith)
    requires
        x * an1 + y * d1 == 1,
        an1 * d2 == an2 * d1,
    ensures
        d2 == d1 * (x * an2 + y * d2),
{
}

proof fn lemma_abs_mul(a: int, b: int)
    by (nonlinear_arith)
    requires
        b > 0,
    ensures
        abs_int(a) * b == abs_int(a * b),
{
}

/// If `n1 / d1 == n2 / d2` and `n1 / d1` is in lowest terms, then `d1` divides
/// `d2`, so `d1 <= d2`.
pub proof fn lemma_reduced_den_le(n1: int, d1: int, n2: int, d2: int)
    requires
        is_reduced(n1, d1),
        d2 > 0,
        same_value(n1, d1, n2, d2),
    ensures
        d1 <= d2,
{
    let a = abs_int(n1) as nat;
    lemma_bezout(a, d1 as nat);
    let (x, y) = bezout(a, d1 as nat);
    lemma_abs_mul(n1, d2);
    lemma_abs_mul(n2, d1);
    assert(abs_int(n1) * d2 == abs_int(n2) * d1);
    lemma_divides_step(abs_int(n1), abs_int(n2), d1, d2, x, y);
    lemma_multiple_bound(d1, d2, x * abs_int(n2) + y * d2);
}

proof fn lemma_cancel(n1: int, n2: int, d: int)
    by (nonlinear_arith)
    requires
        d > 0,
        n1 * d == n2 * d,
    ensures
        n1 == n2,
{
}

/// A rational number has exactly one representation in lowest terms with a
/// positive denominator.
pub proof fn lemma_reduced_unique(n1: int, d1: int, n2: int, d2: int)
    requires
        is_reduced(n1, d1),
        is_reduced(n2, d2),
        same_value(n1, d1, n2, d2),
    ensures
        n1 == n2,
        d1 == d2,
{
    lemma_reduced_den_le(n1, d1, n2, d2);
    lemma_reduced_den_le(n2, d2, n1, d1);
    assert(d1 == d2);
    lemma_cancel(n1, n2, d1);
}

/// Every integer `n` over one is in lowest terms.
pub proof fn lemma_integer_reduced(n: int)
    ensures
        is_reduced(n, 1),
{
    assert(gcd(abs_int(n) as nat, 1) == gcd(1, (abs_int(n) as nat) % 1));
    assert(gcd(1, 0) == 1);
}

proof fn lemma_divides_combination(g: int, b: int, q: int, r: int, u: int, v: int)
    by (nonlinear_arith)
    requires
        b == g * u,
        r == g * v,
    ensures
        b * q + r == g * (u * q + v),
{
}

/// The greatest common divisor divides both arguments; the returned pair holds
/// the two quotients.
pub proof fn lemma_gcd_divides(a: nat, b: nat) -> (k: (int, int))
    ensures
        a == gcd(a, b) * k.0,
        b == gcd(a, b) * k.1,
    decreases b,
{
    if b == 0 {
        assert(a == a * 1) by (nonlinear_arith);
        assert(0 == a * 0) by (nonlinear_arith);
        (1, 0)
    } else {
        let (u, v) = lemma_gcd_divides(b, a % b);
        let g = gcd(b, a % b) as int;
        vstd::arithmetic::div_mod::lemma_fundamental_div_mod(a as int, b as int);
        lemma_divides_combination(g, b as int, (a / b) as int, (a % b) as int, u, v);
        (u * (a / b) as int + v, u)
    }
}

proof fn lemma_unit_product(g: int, k: int)
    by (nonlinear_arith)
    requires
        g >= 0,
        g * k == 1,
    ensures
        g == 1,
{
}

proof fn lemma_bezout_quotients(g: int, ka: int, kb: int, x: int, y: int)
    by (nonlinear_arith)
    requires
        g > 0,
        x * (g * ka) + y * (g * kb) == g,
    ensures
        x * ka + y * kb == 1,
{
}

proof fn lemma_bezout_common(g2: int, u: int, v: int, x: int, y: int)
    by (nonlinear_arith)
    requires
        x * (g2 * u) + y * (g2 * v) == 1,
    ensures
        g2 * (x * u + y * v) == 1,
{
}

proof fn lemma_positive_factor(g: int, k: int, b: int)
    by (nonlinear_arith)
    requires
        b > 0,
        g >= 0,
        b == g * k,
    ensures
        g > 0,
        k > 0,
        k <= b,
{
}

proof fn lemma_nonneg_factor(g: int, k: int, a: int)
    by (nonlinear_arith)
    requires
        a >= 0,
        g > 0,
        a == g * k,
    ensures
        0 <= k <= a,
{
}

/// Dividing `a` and a positive `b` by their greatest common divisor leaves two
/// coprime quotients, the second positive and neither larger than before.
pub proof fn lemma_reduce_by_gcd(a: nat, b: nat) -> (k: (int, int))
    requires
        b > 0,
    ensures
        a == gcd(a, b) * k.0,
        b == gcd(a, b) * k.1,
        gcd(a, b) > 0,
        0 <= k.0 <= a,
        0 < k.1 <= b,
        gcd(k.0 as nat, k.1 as nat) == 1,
{
    let (ka, kb) = lemma_gcd_divides(a, b);
    let g = gcd(a, b) as int;
    lemma_positive_factor(g, kb, b as int);
    lemma_nonneg_factor(g, ka, a as int);
    lemma_bezout(a, b);
    let (x, y) = bezout(a, b);
    lemma_bezout_quotients(g, ka, kb, x, y);
    let (u, v) = lemma_gcd_divides(ka as nat, kb as nat);
    let g2 = gcd(ka as nat, kb as nat) as int;
    lemma_bezout_common(g2, u, v, x, y);
    lemma_unit_product(g2, x * u + y * v);
    (ka, kb)
}

} // verus!
