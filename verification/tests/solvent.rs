use hansen::ratio::Ratio;
use hansen::solvent::Solvent;

fn tenths(d: i64, p: i64, h: i64) -> Solvent {
    Solvent { d_param: Ratio::new(d, 10), p_param: Ratio::new(p, 10), h_param: Ratio::new(h, 10) }
}

fn as_float(r: Ratio) -> f64 {
    r.numer() as f64 / r.denom() as f64
}

#[test]
fn catalog_holds_the_published_parameters() {
    assert_eq!(Solvent::acetic_acid(), tenths(68, 60, 92));
    assert_eq!(Solvent::dioctyl_phtalate(), tenths(81, 34, 15));
    assert_eq!(Solvent::nitroamine(), tenths(86, 68, 0));
    assert_eq!(Solvent::mep(), tenths(78, 44, 25));
    assert_eq!(Solvent::null_solvent(), tenths(0, 0, 0));
}

#[test]
fn scale_multiplies_each_parameter() {
    let v = Solvent::acetic_acid().scale(Ratio::new(5, 2));
    assert_eq!(v, tenths(170, 150, 230));
    let w = Solvent::acetic_acid().scale(Ratio::from_int(-1));
    assert_eq!(w, tenths(-68, -60, -92));
    let z = Solvent::acetic_acid().scale(Ratio::from_int(0));
    assert_eq!(z, Solvent::null_solvent());
}

#[test]
fn scale_by_one_is_the_identity() {
    for v in [Solvent::acetic_acid(), Solvent::nitroamine(), Solvent::null_solvent()] {
        assert_eq!(v.scale(Ratio::from_int(1)), v);
    }
}

#[test]
fn add_sums_each_parameter() {
    let v = Solvent::acetic_acid().add(Solvent::dioctyl_phtalate());
    assert_eq!(v, tenths(149, 94, 107));
}

#[test]
fn add_null_is_the_identity() {
    for v in [Solvent::acetic_acid(), Solvent::mep(), Solvent::null_solvent()] {
        assert_eq!(v.add(Solvent::null_solvent()), v);
        assert_eq!(Solvent::null_solvent().add(v), v);
    }
}

#[test]
fn add_commutes() {
    let a = Solvent::acetic_acid();
    let b = Solvent::nitroamine();
    assert_eq!(a.add(b), b.add(a));
}

#[test]
fn r_value_is_the_sum_of_squared_differences() {
    let r = Solvent::acetic_acid().r_value(Solvent::mep());
    assert_eq!(r, Ratio::new(4845, 100));
    let s = Solvent::dioctyl_phtalate().r_value(Solvent::mep());
    assert_eq!(s, Ratio::new(209, 100));
    let t = Solvent::nitroamine().r_value(Solvent::mep());
    assert_eq!(t, Ratio::new(1265, 100));
}

#[test]
fn r_value_of_a_solvent_against_itself_is_zero() {
    for v in [Solvent::acetic_acid(), Solvent::mep(), Solvent::null_solvent()] {
        assert_eq!(v.r_value(v), Ratio::from_int(0));
    }
}

#[test]
fn r_value_is_symmetric() {
    let a = Solvent::acetic_acid();
    let b = Solvent::dioctyl_phtalate();
    assert_eq!(a.r_value(b), b.r_value(a));
    assert_ne!(a.r_value(b), Ratio::from_int(0));
}

#[test]
fn combine_of_one_solvent_is_that_solvent() {
    let v = Solvent::dioctyl_phtalate();
    for w in [Ratio::from_int(1), Ratio::new(1, 7), Ratio::from_int(250)] {
        assert_eq!(Solvent::combine(&[(v, w)]), v);
    }
}

#[test]
fn combine_with_equal_weights_is_the_sum_of_halves() {
    let a = Solvent::acetic_acid();
    let b = Solvent::nitroamine();
    let half = Ratio::new(1, 2);
    for w in [Ratio::from_int(1), Ratio::from_int(3), Ratio::new(2, 5)] {
        assert_eq!(Solvent::combine(&[(a, w), (b, w)]), a.scale(half).add(b.scale(half)));
    }
    assert_eq!(Solvent::combine(&[(a, half), (b, half)]), tenths(77, 64, 46));
}

#[test]
fn combine_ignores_the_order_of_its_components() {
    let a = (Solvent::acetic_acid(), Ratio::from_int(2));
    let b = (Solvent::dioctyl_phtalate(), Ratio::from_int(5));
    let c = (Solvent::nitroamine(), Ratio::from_int(3));
    assert_eq!(Solvent::combine(&[a, b, c]), Solvent::combine(&[c, a, b]));
}

#[test]
fn combine_skips_a_zero_weight() {
    let a = (Solvent::acetic_acid(), Ratio::from_int(0));
    let b = (Solvent::dioctyl_phtalate(), Ratio::from_int(4));
    assert_eq!(Solvent::combine(&[a, b]), Solvent::dioctyl_phtalate());
}

#[test]
fn combine_divides_the_weighted_sum_by_the_total_weight() {
    let blend = Solvent::combine(
        &[
            (Solvent::acetic_acid(), Ratio::from_int(2)),
            (Solvent::dioctyl_phtalate(), Ratio::from_int(5)),
            (Solvent::nitroamine(), Ratio::from_int(3)),
        ],
    );
    assert_eq!(blend.d_param, Ratio::new(799, 100));
    assert_eq!(blend.p_param, Ratio::new(494, 100));
    assert_eq!(blend.h_param, Ratio::new(259, 100));
}

#[test]
fn illustrative_blend_matches_the_closed_form() {
    let parts: [i64; 3] = [2, 5, 3];
    let blend = Solvent::combine(
        &[
            (Solvent::acetic_acid(), Ratio::from_int(parts[0])),
            (Solvent::dioctyl_phtalate(), Ratio::from_int(parts[1])),
            (Solvent::nitroamine(), Ratio::from_int(parts[2])),
        ],
    );
    let found = blend.r_value(Solvent::mep());

    // The same formula in whole tenths: each difference over ten times the parts.
    let table: [[i64; 3]; 3] = [[68, 60, 92], [81, 34, 15], [86, 68, 0]];
    let target: [i64; 3] = [78, 44, 25];
    let total: i64 = parts.iter().sum();
    let mut numerator: i64 = 0;
    for i in 0..3 {
        let mut sum: i64 = 0;
        for j in 0..3 {
            sum += parts[j] * table[j][i];
        }
        let diff = sum - total * target[i];
        numerator += diff * diff;
    }
    let expected = Ratio::new(numerator, (10 * total) * (10 * total));
    assert_eq!(found, expected);
    assert_eq!(found, Ratio::new(3358, 10000));

    // And in floating point.
    let floats: [[f64; 3]; 3] = [[6.8, 6.0, 9.2], [8.1, 3.4, 1.5], [8.6, 6.8, 0.0]];
    let goal: [f64; 3] = [7.8, 4.4, 2.5];
    let weights: [f64; 3] = [2.0, 5.0, 3.0];
    let weight: f64 = weights.iter().sum();
    let mut reference: f64 = 0.0;
    for i in 0..3 {
        let mut sum: f64 = 0.0;
        for j in 0..3 {
            sum += floats[j][i] * weights[j];
        }
        let diff = sum / weight - goal[i];
        reference += diff * diff;
    }
    assert!((as_float(found) - reference).abs() < 1e-12);
}

#[test]
fn tabulated_solvents_are_recognised() {
    assert!(Solvent::acetic_acid().is_tabulated());
    assert!(Solvent::null_solvent().is_tabulated());
    assert!(tenths(10000, -10000, 5).is_tabulated());
    let fine = Solvent {
        d_param: Ratio::new(1, 100),
        p_param: Ratio::new(-99_999, 100),
        h_param: Ratio::new(3, 4),
    };
    assert!(fine.is_tabulated());
}

#[test]
fn other_solvents_are_not_tabulated() {
    let third = Solvent {
        d_param: Ratio::new(1, 3),
        p_param: Ratio::from_int(1),
        h_param: Ratio::from_int(1),
    };
    assert!(!third.is_tabulated());
    let thousandth = Solvent {
        d_param: Ratio::from_int(1),
        p_param: Ratio::new(1, 1000),
        h_param: Ratio::from_int(1),
    };
    assert!(!thousandth.is_tabulated());
    let large = Solvent {
        d_param: Ratio::from_int(1),
        p_param: Ratio::from_int(1),
        h_param: Ratio::new(100_001, 100),
    };
    assert!(!large.is_tabulated());
    let low = Solvent {
        d_param: Ratio::new(-100_001, 100),
        p_param: Ratio::from_int(1),
        h_param: Ratio::from_int(1),
    };
    assert!(!low.is_tabulated());
}
