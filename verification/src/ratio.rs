//! Exact rational numbers, kept in lowest terms over 64-bit integers.
//!
//! A `Ratio` stands for one real number, its view. Every operation computes
//! the exact result; the only demand on a caller is that the result can be
//! written with a 64-bit numerator and denominator at all.

use vstd::prelude::*;
use vstd::math::abs;
use vstd::arithmetic::div_mod::lemma_fundamental_div_mod;
use vstd::arithmetic::div_mod::lemma_fundamental_div_mod_converse;
use crate::gcd::gcd;
use crate::gcd::gcd_u128;
use crate::gcd::lemma_coprime_squares;
use crate::gcd::lemma_lowest_terms;
use crate::gcd::lemma_lowest_terms_unique;
use crate::gcd::lemma_reduced_coprime;

verus! {

/// The real number `n / d`.
pub open spec fn fraction(n: int, d: int) -> real {
    n as real / d as real
}

/// Whether `q` is a fraction of two 64-bit integers.
pub open spec fn representable(q: real) -> bool {
    exists|n: int, d: int|
        i64::MIN <= n <= i64::MAX && 0 < d <= i64::MAX && #[trigger] fraction(n, d) == q
}

/// The product of two integers, taken as a real, is the product of the reals.
pub proof fn lemma_real_product(a: int, b: int)
    by (nonlinear_arith)
    ensures
        (a * b) as real == (a as real) * (b as real),
{
}

/// Two fractions are equal exactly when their cross products are.
pub proof fn lemma_fraction_equal(a: int, b: int, c: int, d: int)
    requires
        b > 0,
        d > 0,
    ensures
        (fraction(a, b) == fraction(c, d)) <==> a * d == c * b,
{
    lemma_real_product(a, d);
    lemma_real_product(c, b);
    let ar = a as real;
    let br = b as real;
    let cr = c as real;
    let dr = d as real;
    assert((ar / br == cr / dr) <==> ar * dr == cr * br) by (nonlinear_arith)
        requires
            br > 0real,
            dr > 0real,
    ;
}

/// Two fractions compare as their cross products do.
pub proof fn lemma_fraction_less(a: int, b: int, c: int, d: int)
    requires
        b > 0,
        d > 0,
    ensures
        (fraction(a, b) < fraction(c, d)) <==> a * d < c * b,
{
    lemma_real_product(a, d);
    lemma_real_product(c, b);
    let ar = a as real;
    let br = b as real;
    let cr = c as real;
    let dr = d as real;
    assert((ar / br < cr / dr) <==> ar * dr < cr * br) by (nonlinear_arith)
        requires
            br > 0real,
            dr > 0real,
    ;
}

/// The sum of two fractions over the product of their denominators.
pub proof fn lemma_fraction_sum(a: int, b: int, c: int, d: int)
    requires
        b > 0,
        d > 0,
    ensures
        fraction(a * d + c * b, b * d) == fraction(a, b) + fraction(c, d),
        b * d > 0,
{
    lemma_real_product(a, d);
    lemma_real_product(c, b);
    lemma_real_product(b, d);
    let ar = a as real;
    let br = b as real;
    let cr = c as real;
    let dr = d as real;
    assert((ar * dr + cr * br) / (br * dr) == ar / br + cr / dr) by (nonlinear_arith)
        requires
            br > 0real,
            dr > 0real,
    ;
    assert(b * d > 0) by (nonlinear_arith)
        requires
            b > 0,
            d > 0,
    ;
}

/// The difference of two fractions over the product of their denominators.
pub proof fn lemma_fraction_difference(a: int, b: int, c: int, d: int)
    requires
        b > 0,
        d > 0,
    ensures
        fraction(a * d - c * b, b * d) == fraction(a, b) - fraction(c, d),
        b * d > 0,
{
    lemma_real_product(a, d);
    lemma_real_product(c, b);
    lemma_real_product(b, d);
    let ar = a as real;
    let br = b as real;
    let cr = c as real;
    let dr = d as real;
    assert((ar * dr - cr * br) / (br * dr) == ar / br - cr / dr) by (nonlinear_arith)
        requires
            br > 0real,
            dr > 0real,
    ;
    assert(b * d > 0) by (nonlinear_arith)
        requires
            b > 0,
            d > 0,
    ;
}

/// The product of two fractions, numerator by numerator.
pub proof fn lemma_fraction_product(a: int, b: int, c: int, d: int)
    requires
        b > 0,
        d > 0,
    ensures
        fraction(a * c, b * d) == fraction(a, b) * fraction(c, d),
        b * d > 0,
{
    lemma_real_product(a, c);
    lemma_real_product(b, d);
    let ar = a as real;
    let br = b as real;
    let cr = c as real;
    let dr = d as real;
    assert((ar * cr) / (br * dr) == (ar / br) * (cr / dr)) by (nonlinear_arith)
        requires
            br > 0real,
            dr > 0real,
    ;
    assert(b * d > 0) by (nonlinear_arith)
        requires
            b > 0,
            d > 0,
    ;
}

/// The quotient of two fractions, for a positive divisor.
pub proof fn lemma_fraction_quotient(a: int, b: int, c: int, d: int)
    requires
        b > 0,
        c > 0,
        d > 0,
    ensures
        fraction(a * d, b * c) == fraction(a, b) / fraction(c, d),
        b * c > 0,
{
    lemma_real_product(a, d);
    lemma_real_product(b, c);
    let ar = a as real;
    let br = b as real;
    let cr = c as real;
    let dr = d as real;
    assert((ar * dr) / (br * cr) == (ar / br) / (cr / dr)) by (nonlinear_arith)
        requires
            br > 0real,
            cr > 0real,
            dr > 0real,
    ;
    assert(b * c > 0) by (nonlinear_arith)
        requires
            b > 0,
            c > 0,
    ;
}

/// A fraction with denominator one is its numerator.
pub proof fn lemma_fraction_whole(a: int)
    ensures
        fraction(a, 1) == a as real,
{
    let ar = a as real;
    assert(ar / 1real == ar) by (nonlinear_arith);
}

/// The product of a 64-bit integer and a positive 64-bit integer stays well
/// inside 128 bits.
proof fn lemma_wide_product(a: int, d: int)
    by (nonlinear_arith)
    requires
        i64::MIN <= a <= i64::MAX,
        0 < d <= i64::MAX,
    ensures
        -0x4000_0000_0000_0000_0000_0000_0000_0000 < a * d < 0x4000_0000_0000_0000_0000_0000_0000_0000,
{
}

/// The product of two 64-bit integers stays inside 128 bits.
proof fn lemma_wide_square(a: int, c: int)
    by (nonlinear_arith)
    requires
        i64::MIN <= a <= i64::MAX,
        i64::MIN <= c <= i64::MAX,
    ensures
        -0x4000_0000_0000_0000_0000_0000_0000_0000 < a * c <= 0x4000_0000_0000_0000_0000_0000_0000_0000,
{
}

/// A minus sign may stand before the fraction or before its numerator.
pub proof fn lemma_fraction_minus_sign(a: int, b: int)
    requires
        b != 0,
    ensures
        fraction(-a, b) == -fraction(a, b),
{
    let ar = a as real;
    let br = b as real;
    assert((-ar) / br == -(ar / br)) by (nonlinear_arith)
        requires
            br != 0real,
    ;
}

/// A number that is representable together with its square has a
/// representable negative.
pub proof fn lemma_negative_representable(x: real)
    requires
        representable(x),
        representable(x * x),
    ensures
        representable(-x),
{
    let (n, d) = choose|n: int, d: int|
        i64::MIN <= n <= i64::MAX && 0 < d <= i64::MAX && #[trigger] fraction(n, d) == x;
    let (m, e) = choose|m: int, e: int|
        i64::MIN <= m <= i64::MAX && 0 < e <= i64::MAX && #[trigger] fraction(m, e) == x * x;
    let mag = abs(n);
    let g = gcd(mag, d as nat);
    lemma_reduced_coprime(mag, d as nat);
    let p = mag / g;
    let q = (d as nat) / g;
    let low: int = if n < 0 {
        -(p as int)
    } else {
        p as int
    };
    assert(n * q == low * d) by (nonlinear_arith)
        requires
            mag == p * g,
            d == q * g,
            mag == (if n < 0 { -n } else { n }),
            low == (if n < 0 { -(p as int) } else { p as int }),
    ;
    lemma_fraction_equal(n, d, low, q as int);
    lemma_fraction_product(low, q as int, low, q as int);
    assert(low * low == p * p) by (nonlinear_arith)
        requires
            low == p || low == -p,
    ;
    lemma_fraction_equal(m, e, (p * p) as int, (q * q) as int);
    lemma_coprime_squares(p, q);
    assert(m >= 0) by (nonlinear_arith)
        requires
            m * (q * q) == (p * p) * e,
            q > 0,
            e > 0,
            p >= 0,
    ;
    lemma_lowest_terms(p * p, q * q, m as nat, e as nat);
    assert(p <= p * p && q <= d) by (nonlinear_arith)
        requires
            p >= 0,
            q > 0,
            g > 0,
            d == q * g,
    ;
    lemma_fraction_minus_sign(low, q as int);
    assert(fraction(-low, q as int) == -x);
}

/// An exact rational number.
#[derive(Clone, Copy, Debug, PartialEq, Eq, Structural)]
pub struct Ratio {
    num: i64,
    den: i64,
}

impl View for Ratio {
    type V = real;

    /// The real number that the ratio stands for.
    closed spec fn view(&self) -> real {
        fraction(self.num as int, self.den as int)
    }
}

impl Ratio {
    /// The denominator is positive and shares no factor with the numerator.
    #[verifier::type_invariant]
    pub closed spec fn wf(self) -> bool {
        self.den > 0 && gcd(abs(self.num as int), self.den as nat) == 1
    }

    /// The numerator in lowest terms.
    pub closed spec fn numerator(self) -> int {
        self.num as int
    }

    /// The denominator in lowest terms.
    pub closed spec fn denominator(self) -> int {
        self.den as int
    }

    /// A well-formed ratio is its numerator over its denominator, and that
    /// fraction cannot be shortened.
    pub proof fn lemma_lowest_form(self)
        requires
            self.wf(),
        ensures
            self@ == fraction(self.numerator(), self.denominator()),
            i64::MIN <= self.numerator() <= i64::MAX,
            0 < self.denominator() <= i64::MAX,
            gcd(abs(self.numerator()), self.denominator() as nat) == 1,
            representable(self@),
    {
    }

    /// The reciprocal of a positive ratio is representable.
    pub proof fn lemma_reciprocal_representable(self)
        requires
            self.wf(),
            self@ > 0real,
        ensures
            representable(1real / self@),
    {
        let n = self.num as int;
        let d = self.den as int;
        lemma_fraction_whole(0);
        lemma_fraction_whole(1);
        lemma_fraction_less(0, 1, n, d);
        lemma_fraction_quotient(1, 1, n, d);
        assert(fraction(d, n) == 1real / self@);
    }

    /// Well-formed ratios with the same value are the same ratio.
    pub proof fn lemma_equal_values(self, other: Ratio)
        requires
            self.wf(),
            other.wf(),
        ensures
            (self@ == other@) <==> self == other,
    {
        let a = self.num as int;
        let b = self.den as int;
        let c = other.num as int;
        let d = other.den as int;
        lemma_fraction_equal(a, b, c, d);
        if a * d == c * b {
            assert(abs(a) * d == abs(c) * b && (a < 0 <==> c < 0)) by (nonlinear_arith)
                requires
                    a * d == c * b,
                    b > 0,
                    d > 0,
            ;
            lemma_lowest_terms_unique(abs(a), b as nat, abs(c), d as nat);
        }
    }

    /// Brings `n / d` to lowest terms.
    fn reduce(n: i128, d: i128) -> (r: Ratio)
        requires
            d > 0,
            n > i128::MIN,
            representable(fraction(n as int, d as int)),
        ensures
            r@ == fraction(n as int, d as int),
    {
        let mag: u128 = if n < 0 {
            (-n) as u128
        } else {
            n as u128
        };
        let g: u128 = gcd_u128(mag, d as u128);
        proof {
            lemma_reduced_coprime(mag as nat, d as nat);
        }
        let p: u128 = mag / g;
        let q: u128 = d as u128 / g;
        proof {
            let (n2, d2) = choose|n2: int, d2: int|
                i64::MIN <= n2 <= i64::MAX && 0 < d2 <= i64::MAX && #[trigger] fraction(n2, d2)
                    == fraction(n as int, d as int);
            lemma_fraction_equal(n2, d2, n as int, d as int);
            let m2 = abs(n2);
            assert(mag * d2 == m2 * d && (n < 0 <==> n2 < 0)) by (nonlinear_arith)
                requires
                    n2 * d == n * d2,
                    d > 0,
                    d2 > 0,
                    mag == (if n < 0 { -n } else { n as int }),
                    m2 == (if n2 < 0 { -n2 } else { n2 }),
            ;
            assert(p * d2 == m2 * q) by (nonlinear_arith)
                requires
                    mag == p * g,
                    d == q * g,
                    g > 0,
                    mag * d2 == m2 * d,
            ;
            lemma_lowest_terms(p as nat, q as nat, m2, d2 as nat);
        }
        let num: i64 = if n < 0 {
            (-(p as i128)) as i64
        } else {
            p as i64
        };
        let den: i64 = q as i64;
        proof {
            assert(abs(num as int) == p);
            assert(num * d == n * q) by (nonlinear_arith)
                requires
                    mag == p * g,
                    d == q * g,
                    mag == (if n < 0 { -n } else { n as int }),
                    num == (if n < 0 { -p } else { p as int }),
            ;
            lemma_fraction_equal(num as int, den as int, n as int, d as int);
        }
        Ratio { num, den }
    }

    /// The ratio `num / den`.
    pub fn new(num: i64, den: i64) -> (r: Ratio)
        requires
            den > 0,
        ensures
            r@ == fraction(num as int, den as int),
    {
        Ratio::reduce(num as i128, den as i128)
    }

    /// The whole number `n`.
    pub fn from_int(n: i64) -> (r: Ratio)
        ensures
            r@ == n as real,
    {
        proof {
            lemma_fraction_whole(n as int);
        }
        Ratio::reduce(n as i128, 1)
    }

    /// The numerator of the ratio in lowest terms.
    pub fn numer(&self) -> (n: i64)
        ensures
            n == self.numerator(),
    {
        self.num
    }

    /// The denominator of the ratio in lowest terms.
    pub fn denom(&self) -> (d: i64)
        ensures
            d == self.denominator(),
    {
        self.den
    }

    /// The exact sum.
    pub fn plus(self, other: Ratio) -> (r: Ratio)
        requires
            representable(self@ + other@),
        ensures
            r@ == self@ + other@,
    {
        proof {
            use_type_invariant(&self);
            use_type_invariant(&other);
            lemma_wide_product(self.num as int, other.den as int);
            lemma_wide_product(other.num as int, self.den as int);
            lemma_wide_product(self.den as int, other.den as int);
            lemma_fraction_sum(self.num as int, self.den as int, other.num as int, other.den as int);
        }
        let n: i128 = (self.num as i128) * (other.den as i128) + (other.num as i128) * (
        self.den as i128);
        let d: i128 = (self.den as i128) * (other.den as i128);
        Ratio::reduce(n, d)
    }

    /// The exact difference.
    pub fn minus(self, other: Ratio) -> (r: Ratio)
        requires
            representable(self@ - other@),
        ensures
            r@ == self@ - other@,
    {
        proof {
            use_type_invariant(&self);
            use_type_invariant(&other);
            lemma_wide_product(self.num as int, other.den as int);
            lemma_wide_product(other.num as int, self.den as int);
            lemma_wide_product(self.den as int, other.den as int);
            lemma_fraction_difference(
                self.num as int,
                self.den as int,
                other.num as int,
                other.den as int,
            );
        }
        let n: i128 = (self.num as i128) * (other.den as i128) - (other.num as i128) * (
        self.den as i128);
        let d: i128 = (self.den as i128) * (other.den as i128);
        Ratio::reduce(n, d)
    }

    /// The exact product.
    pub fn times(self, other: Ratio) -> (r: Ratio)
        requires
            representable(self@ * other@),
        ensures
            r@ == self@ * other@,
    {
        proof {
            use_type_invariant(&self);
            use_type_invariant(&other);
            lemma_wide_product(self.den as int, other.den as int);
            lemma_wide_square(self.num as int, other.num as int);
            lemma_fraction_product(
                self.num as int,
                self.den as int,
                other.num as int,
                other.den as int,
            );
        }
        let n: i128 = (self.num as i128) * (other.num as i128);
        let d: i128 = (self.den as i128) * (other.den as i128);
        Ratio::reduce(n, d)
    }

    /// The exact quotient by a ratio other than zero.
    pub fn divided_by(self, other: Ratio) -> (r: Ratio)
        requires
            other@ != 0real,
            representable(self@ / other@),
        ensures
            r@ == self@ / other@,
    {
        proof {
            use_type_invariant(&self);
            use_type_invariant(&other);
            lemma_fraction_equal(other.num as int, other.den as int, 0, 1);
            lemma_fraction_whole(0);
            lemma_wide_product(self.num as int, other.den as int);
            lemma_wide_square(self.den as int, other.num as int);
        }
        let up: i128 = (self.num as i128) * (other.den as i128);
        let down: i128 = (self.den as i128) * (other.num as i128);
        if down > 0 {
            proof {
                assert(other.num > 0) by (nonlinear_arith)
                    requires
                        self.den * other.num > 0,
                        self.den > 0,
                ;
                lemma_fraction_quotient(
                    self.num as int,
                    self.den as int,
                    other.num as int,
                    other.den as int,
                );
            }
            Ratio::reduce(up, down)
        } else {
            proof {
                assert(other.num < 0 && down < 0) by (nonlinear_arith)
                    requires
                        down == self.den * other.num,
                        down <= 0,
                        other.num != 0,
                        self.den > 0,
                ;
                // Divide by the positive `-other`, then move the sign.
                lemma_fraction_quotient(
                    self.num as int,
                    self.den as int,
                    -(other.num as int),
                    other.den as int,
                );
                assert(self.den * (-(other.num as int)) == -(down as int)) by (nonlinear_arith)
                    requires
                        down == self.den * other.num,
                ;
                lemma_fraction_minus_sign(-(other.num as int), other.den as int);
                lemma_fraction_minus_sign(up as int, -(down as int));
                let x = self@;
                let y = fraction(-(other.num as int), other.den as int);
                assert(x / (-y) == -(x / y)) by (nonlinear_arith)
                    requires
                        y != 0real,
                ;
            }
            Ratio::reduce(-up, -down)
        }
    }

    /// Whether this ratio is less than the other.
    pub fn lt(self, other: Ratio) -> (b: bool)
        ensures
            b == (self@ < other@),
    {
        proof {
            use_type_invariant(&self);
            use_type_invariant(&other);
            lemma_wide_product(self.num as int, other.den as int);
            lemma_wide_product(other.num as int, self.den as int);
            lemma_fraction_less(self.num as int, self.den as int, other.num as int, other.den as int);
        }
        (self.num as i128) * (other.den as i128) < (other.num as i128) * (self.den as i128)
    }

    /// Whether the two ratios stand for the same number.
    pub fn equals(self, other: Ratio) -> (b: bool)
        ensures
            b == (self@ == other@),
    {
        proof {
            use_type_invariant(&self);
            use_type_invariant(&other);
            self.lemma_equal_values(other);
        }
        self.num == other.num && self.den == other.den
    }

    /// The integer `k` with `self == k / scale`, where a 64-bit one exists.
    pub fn units(self, scale: i64) -> (r: Option<i64>)
        requires
            scale > 0,
        ensures
            match r {
                Some(k) => self@ == fraction(k as int, scale as int),
                None => forall|k: int|
                    i64::MIN <= k <= i64::MAX ==> self@ != #[trigger] fraction(k, scale as int),
            },
    {
        proof {
            use_type_invariant(&self);
            lemma_wide_product(self.num as int, scale as int);
        }
        let wide: i128 = (self.num as i128) * (scale as i128);
        let mag: u128 = if wide < 0 {
            (-wide) as u128
        } else {
            wide as u128
        };
        let den: u128 = self.den as u128;
        let rem: u128 = mag % den;
        let quot: u128 = mag / den;
        proof {
            lemma_fundamental_div_mod(mag as int, den as int);
            assert forall|k: int|
                self@ == #[trigger] fraction(k, scale as int) implies rem == 0 && abs(k) == quot
                && (k < 0 ==> wide < 0) by {
                lemma_fraction_equal(self.num as int, self.den as int, k, scale as int);
                assert(mag == abs(k) * den && (k < 0 ==> wide < 0)) by (nonlinear_arith)
                    requires
                        wide == k * den,
                        den > 0,
                        mag == (if wide < 0 { -wide } else { wide as int }),
                ;
                lemma_fundamental_div_mod_converse(mag as int, den as int, abs(k) as int, 0);
            }
        }
        if rem != 0 {
            return None;
        }
        if wide < 0 {
            if quot > 0x8000_0000_0000_0000u128 {
                return None;
            }
            let k: i64 = (-(quot as i128)) as i64;
            proof {
                assert(k * den == wide) by (nonlinear_arith)
                    requires
                        mag == den * quot,
                        mag == -wide,
                        k == -quot,
                ;
                lemma_fraction_equal(self.num as int, self.den as int, k as int, scale as int);
            }
            Some(k)
        } else {
            if quot > 0x7fff_ffff_ffff_ffffu128 {
                return None;
            }
            let k: i64 = quot as i64;
            proof {
                assert(k * den == wide) by (nonlinear_arith)
                    requires
                        mag == den * quot,
                        mag == wide,
                        k == quot,
                ;
                lemma_fraction_equal(self.num as int, self.den as int, k as int, scale as int);
            }
            Some(k)
        }
    }
}

} // verus!
