//! The grid search: among all ways to split a whole number of parts between
//! three solvents, the blend that lies closest to a target solvent.

use vstd::prelude::*;
use crate::hundredths::Units;
use crate::hundredths::lemma_percentage;
use crate::hundredths::lemma_pure_blend;
use crate::hundredths::lemma_tenths;
use crate::hundredths::lemma_units_fit;
use crate::ratio::Ratio;
use crate::ratio::fraction;
use crate::ratio::lemma_fraction_equal;
use crate::solvent::HansenPoint;
use crate::solvent::Solvent;
use crate::solvent::blend;
use crate::solvent::blend_fits;
use crate::solvent::lemma_sums_of_three;
use crate::solvent::total_weight;
use crate::solvent::weighted;

verus! {

/// The finest grid, in parts, on which every tabulated catalog can be
/// searched.
pub const MAX_PRECISION: u32 = 1000;

/// Whether `x` is a whole number of hundredths between -1000 and 1000: a
/// value as solubility tables give it.
pub open spec fn tabulated(x: real) -> bool {
    exists|k: int| -100_000 <= k <= 100_000 && x == #[trigger] fraction(k, 100)
}

/// Whether the three parameters of `v` are tabulated values.
pub open spec fn point_tabulated(v: HansenPoint) -> bool {
    tabulated(v.d) && tabulated(v.p) && tabulated(v.h)
}

/// A mixing ratio: whole parts of acetic acid, dioctyl phthalate and
/// nitroamine.
#[derive(Clone, Copy, Debug, PartialEq, Eq, Structural)]
pub struct Proportion {
    /// Parts of acetic acid.
    pub aa: u32,
    /// Parts of dioctyl phthalate.
    pub dp: u32,
    /// Parts of nitroamine.
    pub na: u32,
}

impl Proportion {
    /// The number of parts in all.
    pub open spec fn total(self) -> int {
        self.aa + self.dp + self.na
    }

    /// Whether the search visits this ratio before `other`: ratios are
    /// visited by rising parts of acetic acid and, among those with the same,
    /// by rising parts of dioctyl phthalate.
    pub open spec fn precedes(self, other: Proportion) -> bool {
        self.aa < other.aa || (self.aa == other.aa && self.dp < other.dp)
    }

    /// The share of each solvent in percent: its parts over the parts in
    /// all, times a hundred.
    pub fn percentages(&self) -> (r: (Ratio, Ratio, Ratio))
        requires
            self.total() > 0,
        ensures
            r.0@ == (self.aa as real / self.total() as real) * 100real,
            r.1@ == (self.dp as real / self.total() as real) * 100real,
            r.2@ == (self.na as real / self.total() as real) * 100real,
    {
        let sum: i64 = self.aa as i64 + self.dp as i64 + self.na as i64;
        proof {
            lemma_percentage(self.aa as int, sum as int);
            lemma_percentage(self.dp as int, sum as int);
            lemma_percentage(self.na as int, sum as int);
        }
        (
            Ratio::new(100 * (self.aa as i64), sum),
            Ratio::new(100 * (self.dp as i64), sum),
            Ratio::new(100 * (self.na as i64), sum),
        )
    }
}

/// The three solvents that are blended and the solvent to be matched.
#[derive(Clone, Copy, Debug, PartialEq, Eq, Structural)]
pub struct Catalog {
    /// The first solvent of a blend.
    pub acetic_acid: Solvent,
    /// The second solvent of a blend.
    pub dioctyl_phtalate: Solvent,
    /// The third solvent of a blend.
    pub nitroamine: Solvent,
    /// The target.
    pub mep: Solvent,
}

/// The outcome of a search: the winning mixing ratio and its R-value.
#[derive(Clone, Copy, Debug, PartialEq, Eq, Structural)]
pub struct BestMatch {
    /// The mixing ratio of the closest blend.
    pub proportion: Proportion,
    /// The R-value of that blend against the target.
    pub r_value: Ratio,
}

/// Whether `x` is a tabulated value.
fn is_tabulated_value(x: Ratio) -> (b: bool)
    ensures
        b == tabulated(x@),
{
    match x.units(100) {
        Some(k) => {
            proof {
                assert forall|k0: int| x@ == #[trigger] fraction(k0, 100) implies k0 == k by {
                    lemma_fraction_equal(k as int, 100, k0, 100);
                }
            }
            -100_000 <= k && k <= 100_000
        },
        None => false,
    }
}

impl Solvent {
    /// Whether the three parameters are tabulated values.
    pub fn is_tabulated(&self) -> (b: bool)
        ensures
            b == point_tabulated(self@),
    {
        is_tabulated_value(self.d_param) && is_tabulated_value(self.p_param) && is_tabulated_value(
            self.h_param,
        )
    }
}

/// A value in whole tenths between -1000 and 1000 is tabulated.
proof fn lemma_tenths_tabulated(k: int)
    requires
        -10_000 <= k <= 10_000,
    ensures
        tabulated(fraction(k, 10)),
{
    lemma_tenths(k);
    assert(fraction(k, 10) == fraction(10 * k, 100));
}

/// The hundredths of a tabulated point.
proof fn lemma_units_of(v: HansenPoint) -> (u: Units)
    requires
        point_tabulated(v),
    ensures
        u.point() == v,
        u.bounded(),
{
    let d = choose|k: int| -100_000 <= k <= 100_000 && v.d == #[trigger] fraction(k, 100);
    let p = choose|k: int| -100_000 <= k <= 100_000 && v.p == #[trigger] fraction(k, 100);
    let h = choose|k: int| -100_000 <= k <= 100_000 && v.h == #[trigger] fraction(k, 100);
    Units { d, p, h }
}

/// Whether the search, standing at `aa` parts of acetic acid and `dp` parts
/// of dioctyl phthalate, has already visited `q`.
spec fn seen(q: Proportion, precision: int, aa: int, dp: int) -> bool {
    q.total() == precision && (q.aa < aa || (q.aa == aa && q.dp < dp))
}

impl Catalog {
    /// The catalog of this library: acetic acid, dioctyl phthalate and
    /// nitroamine, to be blended towards MEP.
    pub fn standard() -> (c: Catalog)
        ensures
            c.acetic_acid@ == HansenPoint::acetic_acid(),
            c.dioctyl_phtalate@ == HansenPoint::dioctyl_phtalate(),
            c.nitroamine@ == HansenPoint::nitroamine(),
            c.mep@ == HansenPoint::mep(),
            c.tabulated(),
    {
        proof {
            lemma_tenths_tabulated(68);
            lemma_tenths_tabulated(60);
            lemma_tenths_tabulated(92);
            lemma_tenths_tabulated(81);
            lemma_tenths_tabulated(34);
            lemma_tenths_tabulated(15);
            lemma_tenths_tabulated(86);
            lemma_tenths_tabulated(0);
            lemma_tenths_tabulated(78);
            lemma_tenths_tabulated(44);
            lemma_tenths_tabulated(25);
        }
        Catalog {
            acetic_acid: Solvent::acetic_acid(),
            dioctyl_phtalate: Solvent::dioctyl_phtalate(),
            nitroamine: Solvent::nitroamine(),
            mep: Solvent::mep(),
        }
    }

    /// The three solvents with their parts in the ratio `q` as weights.
    pub open spec fn components(self, q: Proportion) -> Seq<(HansenPoint, real)> {
        seq![
            (self.acetic_acid@, q.aa as real),
            (self.dioctyl_phtalate@, q.dp as real),
            (self.nitroamine@, q.na as real),
        ]
    }

    /// The blend of the three solvents in the ratio `q`.
    pub open spec fn blend(self, q: Proportion) -> HansenPoint {
        blend(self.components(q))
    }

    /// The R-value of that blend against the target.
    pub open spec fn r_value(self, q: Proportion) -> real {
        self.blend(q).r_value(self.mep@)
    }

    /// Whether the ratio `q` has a part at all, and every value that
    /// blending in that ratio computes is a fraction of two 64-bit integers.
    pub open spec fn blend_fits(self, q: Proportion) -> bool {
        total_weight(self.components(q)) != 0real && blend_fits(self.components(q))
    }

    /// Whether the blend in the ratio `q` and its R-value against the target
    /// can be computed in fractions of two 64-bit integers.
    pub open spec fn fits(self, q: Proportion) -> bool {
        self.blend_fits(q) && self.blend(q).r_value_fits(self.mep@)
    }

    /// Whether that holds of every ratio of `precision` parts.
    pub open spec fn search_fits(self, precision: int) -> bool {
        forall|q: Proportion| q.total() == precision ==> #[trigger] self.fits(q)
    }

    /// Whether every parameter of the four solvents is a tabulated value.
    pub open spec fn tabulated(self) -> bool {
        &&& point_tabulated(self.acetic_acid@)
        &&& point_tabulated(self.dioctyl_phtalate@)
        &&& point_tabulated(self.nitroamine@)
        &&& point_tabulated(self.mep@)
    }

    /// Whether `m` is what a search over the ratios of `precision` parts
    /// must return: a ratio of that many parts with its R-value, which no
    /// other such ratio undercuts, and which comes first among those that
    /// reach it.
    pub open spec fn is_best_match(self, precision: int, m: BestMatch) -> bool {
        &&& m.proportion.total() == precision
        &&& m.r_value@ == self.r_value(m.proportion)
        &&& forall|q: Proportion|
            q.total() == precision ==> m.r_value@ <= #[trigger] self.r_value(q) && (self.r_value(q)
                == m.r_value@ ==> !q.precedes(m.proportion))
    }

    /// What the search holds when it stands at `aa` and `dp`: nothing before
    /// the first ratio, afterwards the first of the visited ratios with the
    /// least R-value.
    spec fn incumbent(self, best: Option<BestMatch>, precision: int, aa: int, dp: int) -> bool {
        &&& forall|q: Proportion| #[trigger]
            seen(q, precision, aa, dp) ==> best.is_some() && best.unwrap().r_value@ <= self.r_value(
                q,
            ) && (self.r_value(q) == best.unwrap().r_value@ ==> !q.precedes(
                best.unwrap().proportion,
            ))
        &&& best.is_some() ==> seen(best.unwrap().proportion, precision, aa, dp)
            && best.unwrap().r_value@ == self.r_value(best.unwrap().proportion)
    }

    /// Whether every parameter of the four solvents is a tabulated value.
    pub fn is_tabulated(&self) -> (b: bool)
        ensures
            b == self.tabulated(),
    {
        self.acetic_acid.is_tabulated() && self.dioctyl_phtalate.is_tabulated()
            && self.nitroamine.is_tabulated() && self.mep.is_tabulated()
    }

    /// The blend of the three solvents in the ratio `q`.
    pub fn blend_of(&self, q: Proportion) -> (r: Solvent)
        requires
            self.blend_fits(q),
        ensures
            r@ == self.blend(q),
    {
        let parts = [
            (self.acetic_acid, Ratio::from_int(q.aa as i64)),
            (self.dioctyl_phtalate, Ratio::from_int(q.dp as i64)),
            (self.nitroamine, Ratio::from_int(q.na as i64)),
        ];
        assert(weighted(parts@) =~= self.components(q));
        Solvent::combine(&parts)
    }

    /// The R-value, against the target, of the blend in the ratio `q`.
    pub fn blend_r_value(&self, q: Proportion) -> (r: Ratio)
        requires
            self.fits(q),
        ensures
            r@ == self.r_value(q),
    {
        self.blend_of(q).r_value(self.mep)
    }

    /// Searches the ratios of `precision` parts for the blend closest to the
    /// target. Ratios are tried by rising parts of acetic acid and, within
    /// those, by rising parts of dioctyl phthalate; a later ratio replaces
    /// the one held only where its R-value is strictly less.
    pub fn best_match(&self, precision: u32) -> (m: BestMatch)
        requires
            0 < precision,
            self.search_fits(precision as int),
        ensures
            self.is_best_match(precision as int, m),
    {
        let limit: u64 = precision as u64;
        let mut best: Option<BestMatch> = None;
        let mut aa: u64 = 0;
        while aa <= limit
            invariant
                limit == precision,
                aa <= limit + 1,
                self.search_fits(precision as int),
                self.incumbent(best, precision as int, aa as int, 0),
            decreases limit + 1 - aa,
        {
            let mut dp: u64 = 0;
            while dp <= limit
                invariant
                    limit == precision,
                    aa <= limit,
                    dp <= limit + 1,
                    self.search_fits(precision as int),
                    self.incumbent(best, precision as int, aa as int, dp as int),
                decreases limit + 1 - dp,
            {
                let ghost held = best;
                if aa + dp <= limit {
                    let q = Proportion {
                        aa: aa as u32,
                        dp: dp as u32,
                        na: (limit - aa - dp) as u32,
                    };
                    assert(q.total() == precision && self.fits(q));
                    let current = self.blend_r_value(q);
                    let better = match best {
                        Some(m) => current.lt(m.r_value),
                        None => true,
                    };
                    if better {
                        best = Some(BestMatch { proportion: q, r_value: current });
                    }
                }
                proof {
                    assert forall|q: Proportion| #[trigger]
                        seen(q, precision as int, aa as int, dp + 1) implies best.is_some()
                        && best.unwrap().r_value@ <= self.r_value(q) && (self.r_value(q)
                        == best.unwrap().r_value@ ==> !q.precedes(best.unwrap().proportion)) by {
                        if seen(q, precision as int, aa as int, dp as int) {
                        } else {
                            assert(q == Proportion {
                                aa: aa as u32,
                                dp: dp as u32,
                                na: (limit - aa - dp) as u32,
                            });
                        }
                    }
                }
                dp += 1;
            }
            proof {
                assert forall|q: Proportion| #[trigger]
                    seen(q, precision as int, aa + 1, 0) implies best.is_some()
                    && best.unwrap().r_value@ <= self.r_value(q) && (self.r_value(q)
                    == best.unwrap().r_value@ ==> !q.precedes(best.unwrap().proportion)) by {
                    assert(seen(q, precision as int, aa as int, dp as int));
                }
            }
            aa += 1;
        }
        proof {
            let first = Proportion { aa: 0, dp: 0, na: precision };
            assert(seen(first, precision as int, aa as int, 0));
            assert forall|q: Proportion| q.total() == precision implies best.unwrap().r_value@
                <= #[trigger] self.r_value(q) && (self.r_value(q) == best.unwrap().r_value@
                ==> !q.precedes(best.unwrap().proportion)) by {
                assert(seen(q, precision as int, aa as int, 0));
            }
        }
        best.unwrap()
    }
}

/// For a tabulated catalog, the blend in any ratio of at most a thousand
/// parts, and its R-value, can be computed.
pub proof fn lemma_tabulated_fits(c: Catalog, q: Proportion)
    requires
        c.tabulated(),
        0 < q.total() <= MAX_PRECISION,
    ensures
        c.fits(q),
{
    let a = lemma_units_of(c.acetic_acid@);
    let b = lemma_units_of(c.dioctyl_phtalate@);
    let n = lemma_units_of(c.nitroamine@);
    let t = lemma_units_of(c.mep@);
    lemma_units_fit(q.aa as int, q.dp as int, q.na as int, a, b, n, t);
}

/// A tabulated catalog can be searched on every grid of at most a thousand
/// parts.
pub proof fn lemma_tabulated_search_fits(c: Catalog, precision: int)
    requires
        c.tabulated(),
        0 < precision <= MAX_PRECISION,
    ensures
        c.search_fits(precision),
{
    assert forall|q: Proportion| q.total() == precision implies #[trigger] c.fits(q) by {
        lemma_tabulated_fits(c, q);
    }
}

/// The ratios of one part are the three pure solvents, and the blend of
/// each is that solvent.
pub proof fn lemma_single_part(c: Catalog, q: Proportion)
    ensures
        q.total() == 1 <==> (q == (Proportion { aa: 1, dp: 0, na: 0 }) || q == (Proportion {
            aa: 0,
            dp: 1,
            na: 0,
        }) || q == (Proportion { aa: 0, dp: 0, na: 1 })),
        c.blend(Proportion { aa: 1, dp: 0, na: 0 }) == c.acetic_acid@,
        c.blend(Proportion { aa: 0, dp: 1, na: 0 }) == c.dioctyl_phtalate@,
        c.blend(Proportion { aa: 0, dp: 0, na: 1 }) == c.nitroamine@,
{
    lemma_sums_of_three(
        (c.acetic_acid@, 1u32 as real),
        (c.dioctyl_phtalate@, 0u32 as real),
        (c.nitroamine@, 0u32 as real),
    );
    lemma_sums_of_three(
        (c.acetic_acid@, 0u32 as real),
        (c.dioctyl_phtalate@, 1u32 as real),
        (c.nitroamine@, 0u32 as real),
    );
    lemma_sums_of_three(
        (c.acetic_acid@, 0u32 as real),
        (c.dioctyl_phtalate@, 0u32 as real),
        (c.nitroamine@, 1u32 as real),
    );
    lemma_pure_blend(c.acetic_acid@, c.dioctyl_phtalate@, c.nitroamine@);
}

/// A search over the ratios of one part returns the pure solvent closest to
/// the target: its R-value is that of one of the three solvents and exceeds
/// that of none; on a tie nitroamine comes before dioctyl phthalate, and
/// dioctyl phthalate before acetic acid.
pub proof fn lemma_best_match_single_part(c: Catalog, m: BestMatch)
    requires
        c.is_best_match(1, m),
    ensures
        m.r_value@ <= c.acetic_acid@.r_value(c.mep@),
        m.r_value@ <= c.dioctyl_phtalate@.r_value(c.mep@),
        m.r_value@ <= c.nitroamine@.r_value(c.mep@),
        m.r_value@ == c.acetic_acid@.r_value(c.mep@) || m.r_value@ == c.dioctyl_phtalate@.r_value(
            c.mep@,
        ) || m.r_value@ == c.nitroamine@.r_value(c.mep@),
        m.proportion == (Proportion { aa: 0, dp: 0, na: 1 }) <==> m.r_value@
            == c.nitroamine@.r_value(c.mep@),
        m.proportion == (Proportion { aa: 0, dp: 1, na: 0 }) <==> m.r_value@
            != c.nitroamine@.r_value(c.mep@) && m.r_value@ == c.dioctyl_phtalate@.r_value(c.mep@),
        m.proportion == (Proportion { aa: 1, dp: 0, na: 0 }) <==> m.r_value@
            != c.nitroamine@.r_value(c.mep@) && m.r_value@ != c.dioctyl_phtalate@.r_value(c.mep@),
{
    let first = Proportion { aa: 1, dp: 0, na: 0 };
    let second = Proportion { aa: 0, dp: 1, na: 0 };
    let third = Proportion { aa: 0, dp: 0, na: 1 };
    lemma_single_part(c, m.proportion);
    assert(first.total() == 1 && second.total() == 1 && third.total() == 1);
    assert(c.r_value(first) == c.acetic_acid@.r_value(c.mep@));
    assert(c.r_value(second) == c.dioctyl_phtalate@.r_value(c.mep@));
    assert(c.r_value(third) == c.nitroamine@.r_value(c.mep@));
    assert(third.precedes(second) && second.precedes(first) && third.precedes(first));
}

/// The outcome of a search is determined by the catalog and the precision:
/// two outcomes that both meet the search's contract are the same.
pub proof fn lemma_best_match_unique(c: Catalog, precision: int, m1: BestMatch, m2: BestMatch)
    requires
        c.is_best_match(precision, m1),
        c.is_best_match(precision, m2),
        m1.r_value.wf(),
        m2.r_value.wf(),
    ensures
        m1 == m2,
{
    assert(m1.r_value@ <= c.r_value(m2.proportion));
    assert(m2.r_value@ <= c.r_value(m1.proportion));
    m1.r_value.lemma_equal_values(m2.r_value);
}

/// Where two ratios tie for the least R-value, the search returns the one
/// it visits first: never the later of the two.
pub proof fn lemma_tie_goes_to_earlier(
    c: Catalog,
    precision: int,
    m: BestMatch,
    q1: Proportion,
    q2: Proportion,
)
    requires
        c.is_best_match(precision, m),
        q1.total() == precision,
        q2.total() == precision,
        c.r_value(q1) == m.r_value@,
        c.r_value(q2) == m.r_value@,
        q1.precedes(q2),
    ensures
        m.proportion != q2,
        m.proportion == q1 || m.proportion.precedes(q1),
{
    assert(!q1.precedes(m.proportion));
}

} // verus!
