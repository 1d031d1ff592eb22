//! Greatest common divisors of natural numbers, and the facts about them that
//! make lowest terms a canonical form for fractions.

use vstd::prelude::*;
use vstd::arithmetic::div_mod::lemma_fundamental_div_mod;
use vstd::arithmetic::div_mod::lemma_fundamental_div_mod_converse;

verus! {

/// The greatest common divisor of `a` and `b`, by Euclid's rule.
/// `gcd(0, 0)` is `0`.
pub open spec fn gcd(a: nat, b: nat) -> nat
    decreases b,
{
    if b == 0 {
        a
    } else {
        gcd(b, a % b)
    }
}

/// The gcd is positive unless both arguments are zero.
pub proof fn lemma_gcd_positive(a: nat, b: nat)
    requires
        a > 0 || b > 0,
    ensures
        gcd(a, b) > 0,
    decreases b,
{
    if b != 0 {
        lemma_gcd_positive(b, a % b);
    }
}

/// The gcd divides both arguments: the cofactors are returned.
pub proof fn lemma_gcd_cofactors(a: nat, b: nat) -> (pq: (nat, nat))
    ensures
        a == pq.0 * gcd(a, b),
        b == pq.1 * gcd(a, b),
    decreases b,
{
    if b == 0 {
        (1, 0)
    } else {
        let (p_rest, q_rest) = lemma_gcd_cofactors(b, a % b);
        let g = gcd(a, b);
        let k = a / b;
        let r = a % b;
        lemma_fundamental_div_mod(a as int, b as int);
        assert(a == (p_rest * k + q_rest) * g) by (nonlinear_arith)
            requires
                a == b * k + r,
                b == p_rest * g,
                r == q_rest * g,
        ;
        (p_rest * k + q_rest, p_rest)
    }
}

/// Bezout's identity: the gcd is an integer combination of the arguments.
pub proof fn lemma_bezout(a: nat, b: nat) -> (xy: (int, int))
    ensures
        a * xy.0 + b * xy.1 == gcd(a, b),
    decreases b,
{
    if b == 0 {
        (1, 0)
    } else {
        let (x1, y1) = lemma_bezout(b, a % b);
        let g = gcd(a, b);
        let k = (a / b) as int;
        let r = (a % b) as int;
        lemma_fundamental_div_mod(a as int, b as int);
        assert(a * y1 + b * (x1 - k * y1) == g) by (nonlinear_arith)
            requires
                a == b * k + r,
                b * x1 + r * y1 == g,
        ;
        (y1, x1 - k * y1)
    }
}

/// The gcd is the greatest of the common divisors: every number that
/// divides both arguments divides the gcd, with the quotient returned.
pub proof fn lemma_gcd_greatest(a: nat, b: nat, c: nat, p: nat, q: nat) -> (k: int)
    requires
        a == p * c,
        b == q * c,
    ensures
        gcd(a, b) == k * c,
{
    let (x, y) = lemma_bezout(a, b);
    let g = gcd(a, b);
    assert(g == (p * x + q * y) * c) by (nonlinear_arith)
        requires
            a * x + b * y == g,
            a == p * c,
            b == q * c,
    ;
    p * x + q * y
}

/// Euclid's lemma in explicit form: if `a` and `b` are coprime, witnessed by
/// `a * x + b * y == 1`, and `a` divides `b * c` with quotient `m`, then `a`
/// divides `c`, with the quotient stated.
pub proof fn lemma_coprime_divides(a: int, b: int, c: int, m: int, x: int, y: int)
    by (nonlinear_arith)
    requires
        a * x + b * y == 1,
        b * c == m * a,
    ensures
        c == (c * x + m * y) * a,
{
    assert(c == c * (a * x + b * y));
    assert(c * (a * x + b * y) == (c * x) * a + (b * c) * y);
    assert((b * c) * y == (m * y) * a);
}

/// A fraction whose numerator and denominator are coprime has the least
/// numerator and denominator among all fractions of the same value.
pub proof fn lemma_lowest_terms(n: nat, d: nat, n2: nat, d2: nat)
    requires
        gcd(n, d) == 1,
        d > 0,
        d2 > 0,
        n * d2 == n2 * d,
    ensures
        d <= d2,
        n <= n2,
{
    let (x, y) = lemma_bezout(n, d);
    lemma_coprime_divides(d as int, n as int, d2 as int, n2 as int, y, x);
    let k = d2 * y + n2 * x;
    assert(d <= d2 && n <= n2) by (nonlinear_arith)
        requires
            d2 == k * d,
            d > 0,
            d2 > 0,
            n * d2 == n2 * d,
    ;
}

/// Dividing both arguments by their gcd leaves coprime numbers.
pub proof fn lemma_reduced_coprime(a: nat, b: nat)
    requires
        b > 0,
    ensures
        gcd(a, b) > 0,
        a == (a / gcd(a, b)) * gcd(a, b),
        b == (b / gcd(a, b)) * gcd(a, b),
        b / gcd(a, b) > 0,
        gcd(a / gcd(a, b), b / gcd(a, b)) == 1,
{
    let g = gcd(a, b);
    lemma_gcd_positive(a, b);
    let (p, q) = lemma_gcd_cofactors(a, b);
    lemma_fundamental_div_mod_converse(a as int, g as int, p as int, 0);
    lemma_fundamental_div_mod_converse(b as int, g as int, q as int, 0);
    assert(q > 0) by (nonlinear_arith)
        requires
            b == q * g,
            b > 0,
            g > 0,
    ;
    let (x, y) = lemma_bezout(a, b);
    assert(p * x + q * y == 1) by (nonlinear_arith)
        requires
            a * x + b * y == g,
            a == p * g,
            b == q * g,
            g > 0,
    ;
    let h = gcd(p, q);
    let (p_low, q_low) = lemma_gcd_cofactors(p, q);
    let z = p_low * x + q_low * y;
    assert(h * z == 1) by (nonlinear_arith)
        requires
            p * x + q * y == 1,
            p == p_low * h,
            q == q_low * h,
            z == p_low * x + q_low * y,
    ;
    assert(h == 1) by (nonlinear_arith)
        requires
            h * z == 1,
            h >= 0,
    ;
}

/// The squares of coprime numbers are coprime.
pub proof fn lemma_coprime_squares(a: nat, b: nat)
    requires
        gcd(a, b) == 1,
    ensures
        gcd(a * a, b * b) == 1,
{
    let (x, y) = lemma_bezout(a, b);
    let u = a * x * x * x + 3 * x * x * b * y;
    let v = 3 * a * x * y * y + b * y * y * y;
    assert((a * a) * u + (b * b) * v == 1) by (nonlinear_arith)
        requires
            a * x + b * y == 1,
            u == a * x * x * x + 3 * x * x * b * y,
            v == 3 * a * x * y * y + b * y * y * y,
    {
        let s = a * x + b * y;
        assert(s * s * s == 1);
        assert(s * s * s == (a * a) * u + (b * b) * v);
    }
    let h = gcd(a * a, b * b);
    let (p, q) = lemma_gcd_cofactors(a * a, b * b);
    let z = p * u + q * v;
    assert(h * z == 1) by (nonlinear_arith)
        requires
            (a * a) * u + (b * b) * v == 1,
            a * a == p * h,
            b * b == q * h,
            z == p * u + q * v,
    ;
    assert(h == 1) by (nonlinear_arith)
        requires
            h * z == 1,
            h >= 0,
    ;
}

/// Two coprime pairs that name the same fraction are the same pair.
pub proof fn lemma_lowest_terms_unique(n: nat, d: nat, n2: nat, d2: nat)
    requires
        gcd(n, d) == 1,
        gcd(n2, d2) == 1,
        d > 0,
        d2 > 0,
        n * d2 == n2 * d,
    ensures
        n == n2,
        d == d2,
{
    lemma_lowest_terms(n, d, n2, d2);
    lemma_lowest_terms(n2, d2, n, d);
}

/// Computes the greatest common divisor by repeated remainders.
pub fn gcd_u128(a: u128, b: u128) -> (g: u128)
    ensures
        g == gcd(a as nat, b as nat),
{
    let mut x: u128 = a;
    let mut y: u128 = b;
    while y != 0
        invariant
            gcd(x as nat, y as nat) == gcd(a as nat, b as nat),
        decreases y,
    {
        let r: u128 = x % y;
        x = y;
        y = r;
    }
    x
}

} // verus!
