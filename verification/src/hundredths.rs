//! Solvents whose parameters are whole hundredths. Blends of up to a
//! thousand parts of them stay representable: every value that blending
//! computes on the way, and every value that the distance computes after it,
//! is a fraction of two 64-bit integers.

use vstd::prelude::*;
use crate::ratio::fraction;
use crate::ratio::representable;
use crate::ratio::lemma_fraction_equal;
use crate::ratio::lemma_fraction_product;
use crate::ratio::lemma_fraction_whole;
use crate::ratio::lemma_real_product;
use crate::solvent::HansenPoint;
use crate::solvent::blend;
use crate::solvent::blend_fits;
use crate::solvent::lemma_sums_of_one;
use crate::solvent::lemma_sums_of_three;
use crate::solvent::lemma_sums_of_two;
use crate::solvent::total_weight;
use crate::solvent::weighted_sum;

verus! {

/// A point given in whole hundredths.
pub(crate) struct Units {
    pub(crate) d: int,
    pub(crate) p: int,
    pub(crate) h: int,
}

impl Units {
    /// The point that the hundredths stand for.
    pub(crate) open spec fn point(self) -> HansenPoint {
        HansenPoint { d: fraction(self.d, 100), p: fraction(self.p, 100), h: fraction(self.h, 100) }
    }

    /// Whether every parameter lies between -1000 and 1000.
    pub(crate) open spec fn bounded(self) -> bool {
        &&& -100_000 <= self.d <= 100_000
        &&& -100_000 <= self.p <= 100_000
        &&& -100_000 <= self.h <= 100_000
    }
}

/// In hundredths times the number of parts: how far one parameter of the
/// blend of `aa` parts of `a`, `dp` parts of `b` and `na` parts of `c` lies
/// from `t`.
pub(crate) open spec fn offset(aa: int, dp: int, na: int, a: int, b: int, c: int, t: int) -> int {
    aa * a + dp * b + na * c - (aa + dp + na) * t
}

/// A fraction of two integers within the 64-bit limits is representable.
proof fn lemma_representable(n: int, d: int)
    requires
        i64::MIN <= n <= i64::MAX,
        0 < d <= i64::MAX,
    ensures
        representable(fraction(n, d)),
{
}

/// A value in hundredths, taken a whole number of times.
proof fn lemma_hundredths_times(a: int, w: int)
    ensures
        fraction(a, 100) * (w as real) == fraction(a * w, 100),
{
    lemma_real_product(a, w);
    let ar = a as real;
    let wr = w as real;
    assert((ar / 100real) * wr == (ar * wr) / 100real) by (nonlinear_arith);
}

/// A sum in hundredths, divided by the number of parts.
proof fn lemma_hundredths_mean(n: int, total: int)
    requires
        total > 0,
    ensures
        fraction(n, 100) * (1real / (total as real)) == fraction(n, 100 * total),
{
    lemma_real_product(100, total);
    let nr = n as real;
    let s = total as real;
    assert((nr / 100real) * (1real / s) == nr / (100real * s)) by (nonlinear_arith)
        requires
            s > 0real,
    ;
}

/// A mean over the parts, less a value in hundredths.
proof fn lemma_mean_less_target(n: int, total: int, t: int)
    requires
        total > 0,
    ensures
        fraction(n, 100 * total) - fraction(t, 100) == fraction(n - total * t, 100 * total),
{
    lemma_real_product(100, total);
    lemma_real_product(total, t);
    let nr = n as real;
    let s = total as real;
    let tr = t as real;
    assert(nr / (100real * s) - tr / 100real == (nr - s * tr) / (100real * s)) by (nonlinear_arith)
        requires
            s > 0real,
    ;
}

/// Fractions over one denominator add by their numerators.
proof fn lemma_same_denominator_plus(m: int, n: int, d: int)
    requires
        d > 0,
    ensures
        fraction(m, d) + fraction(n, d) == fraction(m + n, d),
{
    let mr = m as real;
    let nr = n as real;
    let dr = d as real;
    assert(mr / dr + nr / dr == (mr + nr) / dr) by (nonlinear_arith)
        requires
            dr > 0real,
    ;
}

/// Some of the parts of a bounded value stay within the bound times the parts.
proof fn lemma_part_bound(w: int, v: int, total: int)
    by (nonlinear_arith)
    requires
        0 <= w <= total,
        -100_000 <= v <= 100_000,
    ensures
        -100_000 * total <= v * w <= 100_000 * total,
        -100_000 * w <= v * w <= 100_000 * w,
{
}

/// The square of a hundred times the parts, for at most a thousand parts.
proof fn lemma_side_bound(total: int)
    by (nonlinear_arith)
    requires
        0 < total <= 1000,
    ensures
        0 < (100 * total) * (100 * total) <= 10_000_000_000,
{
}

/// The square of an offset stays far inside 64 bits.
proof fn lemma_offset_square_bound(x: int)
    by (nonlinear_arith)
    requires
        -200_000_000 <= x <= 200_000_000,
    ensures
        0 <= x * x <= 40_000_000_000_000_000,
{
}

/// What blending and measuring compute in one parameter, for solvents in
/// whole hundredths. `va`, `vb`, `vc` and `vt` are the parameter of the
/// three solvents and of the target, `x`, `y` and `z` the weights.
pub(crate) open spec fn dimension_fits(
    va: real,
    vb: real,
    vc: real,
    vt: real,
    x: real,
    y: real,
    z: real,
    gap: int,
    total: int,
) -> bool {
    let mean = (va * x + vb * y + vc * z) * (1real / (x + y + z));
    &&& representable(va * x)
    &&& representable(vb * y)
    &&& representable(vc * z)
    &&& representable(va * x + vb * y)
    &&& representable(va * x + vb * y + vc * z)
    &&& representable(mean)
    &&& representable(mean - vt)
    &&& representable((mean - vt) * (mean - vt))
    &&& mean - vt == fraction(gap, 100 * total)
    &&& (mean - vt) * (mean - vt) == fraction(gap * gap, (100 * total) * (100 * total))
    &&& -200_000_000 <= gap <= 200_000_000
}

/// One parameter of a blend of tabulated solvents: every value on the way
/// is representable, and the distance to the target is the offset over a
/// hundred times the parts.
pub(crate) proof fn lemma_dimension_fits(
    aa: int,
    dp: int,
    na: int,
    a: int,
    b: int,
    c: int,
    t: int,
)
    requires
        0 <= aa,
        0 <= dp,
        0 <= na,
        0 < aa + dp + na <= 1000,
        -100_000 <= a <= 100_000,
        -100_000 <= b <= 100_000,
        -100_000 <= c <= 100_000,
        -100_000 <= t <= 100_000,
    ensures
        dimension_fits(
            fraction(a, 100),
            fraction(b, 100),
            fraction(c, 100),
            fraction(t, 100),
            aa as real,
            dp as real,
            na as real,
            offset(aa, dp, na, a, b, c, t),
            aa + dp + na,
        ),
{
    let total = aa + dp + na;
    let va = fraction(a, 100);
    let vb = fraction(b, 100);
    let vc = fraction(c, 100);
    let vt = fraction(t, 100);
    let x = aa as real;
    let y = dp as real;
    let z = na as real;
    lemma_part_bound(aa, a, total);
    lemma_part_bound(dp, b, total);
    lemma_part_bound(na, c, total);
    lemma_part_bound(total, t, total);
    lemma_hundredths_times(a, aa);
    lemma_hundredths_times(b, dp);
    lemma_hundredths_times(c, na);
    lemma_representable(a * aa, 100);
    lemma_representable(b * dp, 100);
    lemma_representable(c * na, 100);
    lemma_same_denominator_plus(a * aa, b * dp, 100);
    lemma_representable(a * aa + b * dp, 100);
    lemma_same_denominator_plus(a * aa + b * dp, c * na, 100);
    let n = a * aa + b * dp + c * na;
    lemma_representable(n, 100);
    assert(va * x + vb * y + vc * z == fraction(n, 100));
    assert(x + y + z == total as real);
    lemma_hundredths_mean(n, total);
    lemma_representable(n, 100 * total);
    let mean = (va * x + vb * y + vc * z) * (1real / (x + y + z));
    assert(mean == fraction(n, 100 * total));
    lemma_mean_less_target(n, total, t);
    let gap = offset(aa, dp, na, a, b, c, t);
    assert(gap == n - total * t) by (nonlinear_arith)
        requires
            gap == aa * a + dp * b + na * c - (aa + dp + na) * t,
            n == a * aa + b * dp + c * na,
            total == aa + dp + na,
    ;
    lemma_representable(gap, 100 * total);
    assert(mean - vt == fraction(gap, 100 * total));
    lemma_fraction_product(gap, 100 * total, gap, 100 * total);
    lemma_offset_square_bound(gap);
    lemma_side_bound(total);
    lemma_representable(gap * gap, (100 * total) * (100 * total));
}

/// The running sums of three squared distances over one denominator are
/// representable.
pub(crate) proof fn lemma_squares_fit(gx: int, gy: int, gz: int, total: int)
    requires
        0 < total <= 1000,
        -200_000_000 <= gx <= 200_000_000,
        -200_000_000 <= gy <= 200_000_000,
        -200_000_000 <= gz <= 200_000_000,
    ensures
        ({
            let side = (100 * total) * (100 * total);
            &&& representable(fraction(gx * gx, side) + fraction(gy * gy, side))
            &&& representable(
                fraction(gx * gx, side) + fraction(gy * gy, side) + fraction(gz * gz, side),
            )
        }),
{
    let side = (100 * total) * (100 * total);
    lemma_side_bound(total);
    lemma_offset_square_bound(gx);
    lemma_offset_square_bound(gy);
    lemma_offset_square_bound(gz);
    lemma_same_denominator_plus(gx * gx, gy * gy, side);
    lemma_same_denominator_plus(gx * gx + gy * gy, gz * gz, side);
    lemma_representable(gx * gx + gy * gy, side);
    lemma_representable(gx * gx + gy * gy + gz * gz, side);
}

/// The running totals of three whole weights, and the reciprocal of their
/// sum, are representable.
pub(crate) proof fn lemma_weights_fit(aa: int, dp: int, na: int)
    requires
        0 <= aa,
        0 <= dp,
        0 <= na,
        0 < aa + dp + na <= 1000,
    ensures
        representable(0real),
        representable(aa as real),
        representable((aa as real) + (dp as real)),
        representable((aa as real) + (dp as real) + (na as real)),
        representable(1real / ((aa as real) + (dp as real) + (na as real))),
        (aa as real) + (dp as real) + (na as real) != 0real,
{
    lemma_fraction_whole(0);
    lemma_fraction_whole(aa);
    lemma_fraction_whole(aa + dp);
    lemma_fraction_whole(aa + dp + na);
    lemma_representable(0, 1);
    lemma_representable(aa, 1);
    lemma_representable(aa + dp, 1);
    lemma_representable(aa + dp + na, 1);
    lemma_representable(1, aa + dp + na);
    assert(fraction(1, aa + dp + na) == 1real / ((aa as real) + (dp as real) + (na as real)));
}

/// The blend of up to a thousand whole parts of three solvents in bounded
/// hundredths, measured against a fourth: every value that `combine` and
/// `r_value` compute on the way is representable.
pub(crate) proof fn lemma_units_fit(aa: int, dp: int, na: int, a: Units, b: Units, c: Units, t: Units)
    requires
        0 <= aa,
        0 <= dp,
        0 <= na,
        0 < aa + dp + na <= 1000,
        a.bounded(),
        b.bounded(),
        c.bounded(),
        t.bounded(),
    ensures
        ({
            let cs = seq![
                (a.point(), aa as real),
                (b.point(), dp as real),
                (c.point(), na as real),
            ];
            &&& total_weight(cs) != 0real
            &&& blend_fits(cs)
            &&& blend(cs).r_value_fits(t.point())
        }),
{
    let c0 = (a.point(), aa as real);
    let c1 = (b.point(), dp as real);
    let c2 = (c.point(), na as real);
    let cs = seq![c0, c1, c2];
    let total = aa + dp + na;
    lemma_dimension_fits(aa, dp, na, a.d, b.d, c.d, t.d);
    lemma_dimension_fits(aa, dp, na, a.p, b.p, c.p, t.p);
    lemma_dimension_fits(aa, dp, na, a.h, b.h, c.h, t.h);
    lemma_squares_fit(
        offset(aa, dp, na, a.d, b.d, c.d, t.d),
        offset(aa, dp, na, a.p, b.p, c.p, t.p),
        offset(aa, dp, na, a.h, b.h, c.h, t.h),
        total,
    );
    lemma_weights_fit(aa, dp, na);
    lemma_sums_of_one(c0);
    lemma_sums_of_two(c0, c1);
    lemma_sums_of_three(c0, c1, c2);
    assert(cs.take(0) =~= Seq::empty());
    assert(cs.take(1) =~= seq![c0]);
    assert(cs.take(2) =~= seq![c0, c1]);
    assert(cs.take(3) =~= cs);
    assert(total_weight(Seq::<(HansenPoint, real)>::empty()) == 0real);
    assert(weighted_sum(Seq::<(HansenPoint, real)>::empty()) == HansenPoint::origin());
    assert forall|k: int| 0 <= k <= cs.len() implies representable(
        #[trigger] total_weight(cs.take(k)),
    ) by {
        assert(k == 0 || k == 1 || k == 2 || k == 3);
    }
    assert forall|k: int| 0 <= k <= cs.len() implies (#[trigger] weighted_sum(
        cs.take(k),
    )).representable() by {
        assert(k == 0 || k == 1 || k == 2 || k == 3);
    }
    assert forall|i: int| 0 <= i < cs.len() implies (#[trigger] cs[i]).0.scale(
        cs[i].1,
    ).representable() by {
        assert(i == 0 || i == 1 || i == 2);
    }
}

/// A value in tenths is the same value in hundredths.
pub(crate) proof fn lemma_tenths(k: int)
    ensures
        fraction(k, 10) == fraction(10 * k, 100),
{
    lemma_fraction_equal(k, 10, 10 * k, 100);
}

/// A share of a total, in percent, as a single fraction.
pub(crate) proof fn lemma_percentage(part: int, total: int)
    requires
        total > 0,
    ensures
        fraction(100 * part, total) == (part as real / total as real) * 100real,
{
    lemma_real_product(100, part);
    let x = part as real;
    let s = total as real;
    assert((100real * x) / s == (x / s) * 100real) by (nonlinear_arith)
        requires
            s > 0real,
    ;
}

/// A blend in which one solvent has the only part is that solvent.
pub(crate) proof fn lemma_pure_blend(a: HansenPoint, b: HansenPoint, c: HansenPoint)
    ensures
        a.scale(1real).add(b.scale(0real)).add(c.scale(0real)).scale(
            1real / (1real + 0real + 0real),
        ) == a,
        a.scale(0real).add(b.scale(1real)).add(c.scale(0real)).scale(
            1real / (0real + 1real + 0real),
        ) == b,
        a.scale(0real).add(b.scale(0real)).add(c.scale(1real)).scale(
            1real / (0real + 0real + 1real),
        ) == c,
{
    lemma_only_part(a.d, b.d, c.d);
    lemma_only_part(a.p, b.p, c.p);
    lemma_only_part(a.h, b.h, c.h);
}

/// The weighted mean of three numbers where one has the only part.
proof fn lemma_only_part(x: real, y: real, z: real)
    by (nonlinear_arith)
    ensures
        (x * 1real + y * 0real + z * 0real) * (1real / (1real + 0real + 0real)) == x,
        (x * 0real + y * 1real + z * 0real) * (1real / (0real + 1real + 0real)) == y,
        (x * 0real + y * 0real + z * 1real) * (1real / (0real + 0real + 1real)) == z,
{
}

} // verus!
