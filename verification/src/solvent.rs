//! Solvents as points in Hansen parameter space: scaling, addition, weighted
//! blending and the squared distance between two solvents.

use vstd::prelude::*;
use crate::ratio::Ratio;
use crate::ratio::fraction;
use crate::ratio::representable;
use crate::ratio::lemma_fraction_whole;
use crate::ratio::lemma_negative_representable;

verus! {

/// A point in Hansen parameter space, over the real numbers.
pub struct HansenPoint {
    /// Dispersion.
    pub d: real,
    /// Polarity.
    pub p: real,
    /// Hydrogen bonding.
    pub h: real,
}

impl HansenPoint {
    /// The point with all three parameters zero.
    pub open spec fn origin() -> HansenPoint {
        HansenPoint { d: 0real, p: 0real, h: 0real }
    }

    /// Acetic acid: 6.8, 6.0, 9.2.
    pub open spec fn acetic_acid() -> HansenPoint {
        HansenPoint { d: fraction(68, 10), p: fraction(60, 10), h: fraction(92, 10) }
    }

    /// Dioctyl phthalate: 8.1, 3.4, 1.5.
    pub open spec fn dioctyl_phtalate() -> HansenPoint {
        HansenPoint { d: fraction(81, 10), p: fraction(34, 10), h: fraction(15, 10) }
    }

    /// Nitroamine: 8.6, 6.8, 0.0.
    pub open spec fn nitroamine() -> HansenPoint {
        HansenPoint { d: fraction(86, 10), p: fraction(68, 10), h: fraction(0, 10) }
    }

    /// The solvent to be matched, MEP: 7.8, 4.4, 2.5.
    pub open spec fn mep() -> HansenPoint {
        HansenPoint { d: fraction(78, 10), p: fraction(44, 10), h: fraction(25, 10) }
    }

    /// Every parameter multiplied by `factor`.
    pub open spec fn scale(self, factor: real) -> HansenPoint {
        HansenPoint { d: self.d * factor, p: self.p * factor, h: self.h * factor }
    }

    /// The parameter-wise sum.
    pub open spec fn add(self, other: HansenPoint) -> HansenPoint {
        HansenPoint { d: self.d + other.d, p: self.p + other.p, h: self.h + other.h }
    }

    /// The squared Euclidean distance to `other`.
    pub open spec fn r_value(self, other: HansenPoint) -> real {
        (self.d - other.d) * (self.d - other.d) + (self.p - other.p) * (self.p - other.p) + (self.h
            - other.h) * (self.h - other.h)
    }

    /// Whether each parameter is a fraction of two 64-bit integers.
    pub open spec fn representable(self) -> bool {
        representable(self.d) && representable(self.p) && representable(self.h)
    }

    /// Whether every intermediate value of the distance to `other` (the
    /// three differences, their squares and the running sums) is a fraction
    /// of two 64-bit integers.
    pub open spec fn r_value_fits(self, other: HansenPoint) -> bool {
        let dd = self.d - other.d;
        let dp = self.p - other.p;
        let dh = self.h - other.h;
        &&& representable(dd)
        &&& representable(dp)
        &&& representable(dh)
        &&& representable(dd * dd)
        &&& representable(dp * dp)
        &&& representable(dh * dh)
        &&& representable(dd * dd + dp * dp)
        &&& representable(dd * dd + dp * dp + dh * dh)
    }
}

/// The sum of the weights of `cs`.
pub open spec fn total_weight(cs: Seq<(HansenPoint, real)>) -> real
    decreases cs.len(),
{
    if cs.len() == 0 {
        0real
    } else {
        total_weight(cs.drop_last()) + cs.last().1
    }
}

/// The sum of the points of `cs`, each scaled by its weight.
pub open spec fn weighted_sum(cs: Seq<(HansenPoint, real)>) -> HansenPoint
    decreases cs.len(),
{
    if cs.len() == 0 {
        HansenPoint::origin()
    } else {
        weighted_sum(cs.drop_last()).add(cs.last().0.scale(cs.last().1))
    }
}

/// The weighted average of the points of `cs`: the weighted sum divided by
/// the total weight. It means nothing where the total weight is zero.
pub open spec fn blend(cs: Seq<(HansenPoint, real)>) -> HansenPoint {
    weighted_sum(cs).scale(1real / total_weight(cs))
}

/// Whether every intermediate value of the blend of `cs` is a fraction of two
/// 64-bit integers: each running total of the weights, each scaled point,
/// each running sum of them, the reciprocal of the total weight and the
/// blend itself.
pub open spec fn blend_fits(cs: Seq<(HansenPoint, real)>) -> bool {
    &&& forall|k: int|
        0 <= k <= cs.len() ==> representable(#[trigger] total_weight(cs.take(k)))
    &&& forall|k: int| 0 <= k <= cs.len() ==> (#[trigger] weighted_sum(cs.take(k))).representable()
    &&& forall|i: int| 0 <= i < cs.len() ==> (#[trigger] cs[i]).0.scale(cs[i].1).representable()
    &&& representable(1real / total_weight(cs))
    &&& blend(cs).representable()
}

/// A solvent with the three Hansen parameters.
#[derive(Clone, Copy, Debug, PartialEq, Eq, Structural)]
pub struct Solvent {
    /// Dispersion.
    pub d_param: Ratio,
    /// Polarity.
    pub p_param: Ratio,
    /// Hydrogen bonding.
    pub h_param: Ratio,
}

impl View for Solvent {
    type V = HansenPoint;

    open spec fn view(&self) -> HansenPoint {
        HansenPoint { d: self.d_param@, p: self.p_param@, h: self.h_param@ }
    }
}

/// The points and weights that a list of weighted solvents stands for.
pub open spec fn weighted(components: Seq<(Solvent, Ratio)>) -> Seq<(HansenPoint, real)> {
    Seq::new(components.len(), |i: int| (components[i].0@, components[i].1@))
}

impl Solvent {
    /// The solvent with every parameter multiplied by `factor`.
    pub fn scale(&self, factor: Ratio) -> (r: Solvent)
        requires
            self@.scale(factor@).representable(),
        ensures
            r@ == self@.scale(factor@),
    {
        Solvent {
            d_param: self.d_param.times(factor),
            p_param: self.p_param.times(factor),
            h_param: self.h_param.times(factor),
        }
    }

    /// The parameter-wise sum of two solvents.
    pub fn add(&self, other: Solvent) -> (r: Solvent)
        requires
            self@.add(other@).representable(),
        ensures
            r@ == self@.add(other@),
    {
        Solvent {
            d_param: self.d_param.plus(other.d_param),
            p_param: self.p_param.plus(other.p_param),
            h_param: self.h_param.plus(other.h_param),
        }
    }

    /// The R-value of two solvents: the sum of the squared differences of
    /// their parameters.
    pub fn r_value(&self, other: Solvent) -> (r: Ratio)
        requires
            self@.r_value_fits(other@),
        ensures
            r@ == self@.r_value(other@),
    {
        let dd = self.d_param.minus(other.d_param);
        let dp = self.p_param.minus(other.p_param);
        let dh = self.h_param.minus(other.h_param);
        dd.times(dd).plus(dp.times(dp)).plus(dh.times(dh))
    }

    /// The weighted average of the solvents: each scaled by its proportion,
    /// summed, and divided by the sum of the proportions.
    pub fn combine(proportionated: &[(Solvent, Ratio)]) -> (r: Solvent)
        requires
            total_weight(weighted(proportionated@)) != 0real,
            blend_fits(weighted(proportionated@)),
        ensures
            r@ == blend(weighted(proportionated@)),
    {
        let ghost cs = weighted(proportionated@);
        let mut sum_proportion = Ratio::from_int(0);
        let mut sum = Solvent::null_solvent();
        let mut i: usize = 0;
        assert(cs.take(0) =~= Seq::empty());
        while i < proportionated.len()
            invariant
                i <= proportionated.len(),
                cs == weighted(proportionated@),
                blend_fits(cs),
                sum_proportion@ == total_weight(cs.take(i as int)),
                sum@ == weighted_sum(cs.take(i as int)),
            decreases proportionated.len() - i,
        {
            let (s, p) = proportionated[i];
            proof {
                let next = cs.take(i + 1);
                assert(next.drop_last() =~= cs.take(i as int));
                assert(next.last() == cs[i as int]);
                assert(cs[i as int] == (s@, p@));
                assert(representable(total_weight(next)));
                assert(weighted_sum(next).representable());
                assert(cs[i as int].0.scale(cs[i as int].1).representable());
            }
            sum_proportion = sum_proportion.plus(p);
            sum = sum.add(s.scale(p));
            i += 1;
        }
        assert(cs.take(cs.len() as int) =~= cs);
        proof {
            lemma_fraction_whole(1);
        }
        sum.scale(Ratio::from_int(1).divided_by(sum_proportion))
    }

    /// The solvent with all three parameters zero: the identity of `add`.
    pub fn null_solvent() -> (r: Solvent)
        ensures
            r@ == HansenPoint::origin(),
    {
        Solvent {
            d_param: Ratio::from_int(0),
            p_param: Ratio::from_int(0),
            h_param: Ratio::from_int(0),
        }
    }

    /// Acetic acid: 6.8, 6.0, 9.2.
    pub fn acetic_acid() -> (r: Solvent)
        ensures
            r@ == HansenPoint::acetic_acid(),
    {
        Solvent {
            d_param: Ratio::new(68, 10),
            p_param: Ratio::new(60, 10),
            h_param: Ratio::new(92, 10),
        }
    }

    /// Dioctyl phthalate: 8.1, 3.4, 1.5.
    pub fn dioctyl_phtalate() -> (r: Solvent)
        ensures
            r@ == HansenPoint::dioctyl_phtalate(),
    {
        Solvent {
            d_param: Ratio::new(81, 10),
            p_param: Ratio::new(34, 10),
            h_param: Ratio::new(15, 10),
        }
    }

    /// Nitroamine: 8.6, 6.8, 0.0.
    pub fn nitroamine() -> (r: Solvent)
        ensures
            r@ == HansenPoint::nitroamine(),
    {
        Solvent {
            d_param: Ratio::new(86, 10),
            p_param: Ratio::new(68, 10),
            h_param: Ratio::new(0, 10),
        }
    }

    /// The solvent to be matched, MEP: 7.8, 4.4, 2.5.
    pub fn mep() -> (r: Solvent)
        ensures
            r@ == HansenPoint::mep(),
    {
        Solvent {
            d_param: Ratio::new(78, 10),
            p_param: Ratio::new(44, 10),
            h_param: Ratio::new(25, 10),
        }
    }
}

impl Solvent {
    /// Whether the three parameters are well-formed ratios. It holds of every
    /// solvent that a program holds.
    pub open spec fn wf(self) -> bool {
        self.d_param.wf() && self.p_param.wf() && self.h_param.wf()
    }

    /// Well-formed solvents at the same point are the same solvent.
    pub proof fn lemma_equal_points(self, other: Solvent)
        requires
            self.wf(),
            other.wf(),
        ensures
            (self@ == other@) <==> self == other,
    {
        self.d_param.lemma_equal_values(other.d_param);
        self.p_param.lemma_equal_values(other.p_param);
        self.h_param.lemma_equal_values(other.h_param);
    }
}

/// The total weight and the weighted sum of a single component.
pub proof fn lemma_sums_of_one(x: (HansenPoint, real))
    ensures
        total_weight(seq![x]) == x.1,
        weighted_sum(seq![x]) == x.0.scale(x.1),
{
    let one = seq![x];
    assert(one.drop_last() =~= Seq::empty());
    assert(one.last() == x);
    reveal_with_fuel(total_weight, 2);
    reveal_with_fuel(weighted_sum, 2);
}

/// The total weight and the weighted sum of two components.
pub proof fn lemma_sums_of_two(x: (HansenPoint, real), y: (HansenPoint, real))
    ensures
        total_weight(seq![x, y]) == x.1 + y.1,
        weighted_sum(seq![x, y]) == x.0.scale(x.1).add(y.0.scale(y.1)),
{
    let two = seq![x, y];
    assert(two.drop_last() =~= seq![x]);
    assert(two.last() == y);
    lemma_sums_of_one(x);
}

/// The total weight and the weighted sum of three components.
pub proof fn lemma_sums_of_three(
    x: (HansenPoint, real),
    y: (HansenPoint, real),
    z: (HansenPoint, real),
)
    ensures
        total_weight(seq![x, y, z]) == x.1 + y.1 + z.1,
        weighted_sum(seq![x, y, z]) == x.0.scale(x.1).add(y.0.scale(y.1)).add(z.0.scale(z.1)),
{
    let three = seq![x, y, z];
    assert(three.drop_last() =~= seq![x, y]);
    assert(three.last() == z);
    lemma_sums_of_two(x, y);
}

/// The R-value of a solvent against itself is zero, and `r_value` accepts
/// the pair.
pub proof fn lemma_r_value_self(v: Solvent)
    ensures
        v@.r_value(v@) == 0real,
        v@.r_value_fits(v@),
{
    let x = v@.d - v@.d;
    let y = v@.p - v@.p;
    let z = v@.h - v@.h;
    assert(x * x == 0real && y * y == 0real && z * z == 0real) by (nonlinear_arith)
        requires
            x == 0real,
            y == 0real,
            z == 0real,
    ;
    lemma_fraction_whole(0);
    assert(representable(fraction(0, 1)));
}

/// The R-value does not depend on the order of the two solvents, and where
/// `r_value` accepts them in one order it accepts them in the other.
pub proof fn lemma_r_value_symmetric(a: Solvent, b: Solvent)
    ensures
        a@.r_value(b@) == b@.r_value(a@),
        a@.r_value_fits(b@) <==> b@.r_value_fits(a@),
{
    lemma_square_of_difference(a@.d, b@.d);
    lemma_square_of_difference(a@.p, b@.p);
    lemma_square_of_difference(a@.h, b@.h);
    if a@.r_value_fits(b@) {
        lemma_negative_representable(a@.d - b@.d);
        lemma_negative_representable(a@.p - b@.p);
        lemma_negative_representable(a@.h - b@.h);
    }
    if b@.r_value_fits(a@) {
        lemma_negative_representable(b@.d - a@.d);
        lemma_negative_representable(b@.p - a@.p);
        lemma_negative_representable(b@.h - a@.h);
    }
}

/// The R-value is never negative, and it is zero exactly between solvents
/// at the same point.
pub proof fn lemma_r_value_zero(a: Solvent, b: Solvent)
    ensures
        a@.r_value(b@) >= 0real,
        a@.r_value(b@) == 0real <==> a@ == b@,
{
    let x = a@.d - b@.d;
    let y = a@.p - b@.p;
    let z = a@.h - b@.h;
    assert(x * x >= 0real && (x * x == 0real <==> x == 0real)) by (nonlinear_arith);
    assert(y * y >= 0real && (y * y == 0real <==> y == 0real)) by (nonlinear_arith);
    assert(z * z >= 0real && (z * z == 0real <==> z == 0real)) by (nonlinear_arith);
}

/// Adding the null solvent changes nothing: `add` accepts the pair, and the
/// solvent it returns is `v` itself.
pub proof fn lemma_add_null(v: Solvent)
    requires
        v.wf(),
    ensures
        v@.add(HansenPoint::origin()) == v@,
        v@.add(HansenPoint::origin()).representable(),
        forall|r: Solvent| #[trigger] r.wf() && r@ == v@.add(HansenPoint::origin()) ==> r == v,
{
    v.d_param.lemma_lowest_form();
    v.p_param.lemma_lowest_form();
    v.h_param.lemma_lowest_form();
    assert forall|r: Solvent| #[trigger] r.wf() && r@ == v@.add(HansenPoint::origin()) implies r
        == v by {
        r.lemma_equal_points(v);
    }
}

/// Addition does not depend on the order of the two solvents.
pub proof fn lemma_add_commutative(a: Solvent, b: Solvent)
    ensures
        a@.add(b@) == b@.add(a@),
{
}

/// Scaling by one changes nothing: `scale` accepts the pair, and the solvent
/// it returns is `v` itself.
pub proof fn lemma_scale_one(v: Solvent)
    requires
        v.wf(),
    ensures
        v@.scale(1real) == v@,
        v@.scale(1real).representable(),
        forall|r: Solvent| #[trigger] r.wf() && r@ == v@.scale(1real) ==> r == v,
{
    v.d_param.lemma_lowest_form();
    v.p_param.lemma_lowest_form();
    v.h_param.lemma_lowest_form();
    lemma_times_one(v@.d);
    lemma_times_one(v@.p);
    lemma_times_one(v@.h);
    assert forall|r: Solvent| #[trigger] r.wf() && r@ == v@.scale(1real) implies r == v by {
        r.lemma_equal_points(v);
    }
}

/// The blend of a single solvent is that solvent, whatever its positive
/// weight: `combine` accepts the pair wherever `scale` does, and the solvent
/// it returns is `v` itself.
pub proof fn lemma_blend_single(v: Solvent, w: Ratio)
    requires
        v.wf(),
        w.wf(),
        w@ > 0real,
    ensures
        blend(weighted(seq![(v, w)])) == v@,
        total_weight(weighted(seq![(v, w)])) != 0real,
        v@.scale(w@).representable() ==> blend_fits(weighted(seq![(v, w)])),
        forall|r: Solvent| #[trigger] r.wf() && r@ == blend(weighted(seq![(v, w)])) ==> r == v,
{
    let cs = weighted(seq![(v, w)]);
    assert(cs =~= seq![(v@, w@)]);
    lemma_sums_of_one((v@, w@));
    lemma_scaled_back(v@.d, w@);
    lemma_scaled_back(v@.p, w@);
    lemma_scaled_back(v@.h, w@);
    assert forall|r: Solvent| #[trigger] r.wf() && r@ == blend(cs) implies r == v by {
        r.lemma_equal_points(v);
    }
    if v@.scale(w@).representable() {
        v.d_param.lemma_lowest_form();
        v.p_param.lemma_lowest_form();
        v.h_param.lemma_lowest_form();
        w.lemma_lowest_form();
        w.lemma_reciprocal_representable();
        lemma_fraction_whole(0);
        assert(representable(fraction(0, 1)));
        assert(cs.take(0) =~= Seq::empty());
        assert(cs.take(1) =~= cs);
        assert(total_weight(Seq::<(HansenPoint, real)>::empty()) == 0real);
        assert(weighted_sum(Seq::<(HansenPoint, real)>::empty()) == HansenPoint::origin());
        assert forall|k: int| 0 <= k <= cs.len() implies representable(
            #[trigger] total_weight(cs.take(k)),
        ) by {
            assert(k == 0 || k == 1);
        }
        assert forall|k: int| 0 <= k <= cs.len() implies (#[trigger] weighted_sum(
            cs.take(k),
        )).representable() by {
            assert(k == 0 || k == 1);
        }
    }
}

/// The blend of two solvents with the same positive weight is the sum of
/// their halves.
pub proof fn lemma_blend_equal_weights(a: Solvent, b: Solvent, w: Ratio)
    requires
        w@ > 0real,
    ensures
        blend(weighted(seq![(a, w), (b, w)])) == a@.scale(1real / 2real).add(
            b@.scale(1real / 2real),
        ),
{
    assert(weighted(seq![(a, w), (b, w)]) =~= seq![(a@, w@), (b@, w@)]);
    lemma_sums_of_two((a@, w@), (b@, w@));
    lemma_halves(a@.d, b@.d, w@);
    lemma_halves(a@.p, b@.p, w@);
    lemma_halves(a@.h, b@.h, w@);
}

proof fn lemma_square_of_difference(x: real, y: real)
    by (nonlinear_arith)
    ensures
        (x - y) * (x - y) == (y - x) * (y - x),
{
}

proof fn lemma_times_one(x: real)
    by (nonlinear_arith)
    ensures
        x * 1real == x,
{
}

proof fn lemma_scaled_back(x: real, w: real)
    by (nonlinear_arith)
    requires
        w != 0real,
    ensures
        (0real + x * w) * (1real / w) == x,
{
}

proof fn lemma_halves(x: real, y: real, w: real)
    by (nonlinear_arith)
    requires
        w > 0real,
    ensures
        (x * w + y * w) * (1real / (w + w)) == x * (1real / 2real) + y * (1real / 2real),
{
}

} // verus!
