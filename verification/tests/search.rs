use hansen::ratio::Ratio;
use hansen::search::BestMatch;
use hansen::search::Catalog;
use hansen::search::Proportion;
use hansen::search::MAX_PRECISION;
use hansen::solvent::Solvent;

fn ratio(aa: u32, dp: u32, na: u32) -> Proportion {
    Proportion { aa, dp, na }
}

fn catalog_of(first: Solvent, second: Solvent, third: Solvent, target: Solvent) -> Catalog {
    Catalog { acetic_acid: first, dioctyl_phtalate: second, nitroamine: third, mep: target }
}

/// The search as a plain scan in exact arithmetic, through `combine` and `r_value`.
fn scan(c: &Catalog, precision: u32) -> BestMatch {
    let mut best: Option<BestMatch> = None;
    for aa in 0..=precision {
        for dp in 0..=precision {
            if aa + dp <= precision {
                let na = precision - aa - dp;
                let blend = Solvent::combine(
                    &[
                        (c.acetic_acid, Ratio::from_int(aa as i64)),
                        (c.dioctyl_phtalate, Ratio::from_int(dp as i64)),
                        (c.nitroamine, Ratio::from_int(na as i64)),
                    ],
                );
                let current = blend.r_value(c.mep);
                let better = match best {
                    Some(held) => current.lt(held.r_value),
                    None => true,
                };
                if better {
                    best = Some(BestMatch { proportion: ratio(aa, dp, na), r_value: current });
                }
            }
        }
    }
    best.unwrap()
}

#[test]
fn standard_catalog_holds_the_four_solvents() {
    let c = Catalog::standard();
    assert_eq!(c.acetic_acid, Solvent::acetic_acid());
    assert_eq!(c.dioctyl_phtalate, Solvent::dioctyl_phtalate());
    assert_eq!(c.nitroamine, Solvent::nitroamine());
    assert_eq!(c.mep, Solvent::mep());
    assert!(c.is_tabulated());
}

#[test]
fn catalog_with_a_fine_parameter_is_not_tabulated() {
    let mut c = Catalog::standard();
    c.mep.h_param = Ratio::new(1, 3);
    assert!(!c.is_tabulated());
}

#[test]
fn precision_one_picks_the_closest_pure_solvent() {
    let c = Catalog::standard();
    let m = c.best_match(1);
    assert_eq!(m.proportion, ratio(0, 1, 0));
    assert_eq!(m.r_value, Ratio::new(209, 100));
    assert_eq!(m.r_value, Solvent::dioctyl_phtalate().r_value(Solvent::mep()));
    assert!(m.r_value.lt(Solvent::acetic_acid().r_value(Solvent::mep())));
    assert!(m.r_value.lt(Solvent::nitroamine().r_value(Solvent::mep())));
}

#[test]
fn precision_one_picks_each_solvent_when_it_is_the_target() {
    let a = Solvent::acetic_acid();
    let d = Solvent::dioctyl_phtalate();
    let n = Solvent::nitroamine();
    let zero = Ratio::from_int(0);
    assert_eq!(
        catalog_of(a, d, n, a).best_match(1),
        BestMatch { proportion: ratio(1, 0, 0), r_value: zero }
    );
    assert_eq!(
        catalog_of(a, d, n, d).best_match(1),
        BestMatch { proportion: ratio(0, 1, 0), r_value: zero }
    );
    assert_eq!(
        catalog_of(a, d, n, n).best_match(1),
        BestMatch { proportion: ratio(0, 0, 1), r_value: zero }
    );
}

#[test]
fn precision_ten_finds_the_best_tenths() {
    let m = Catalog::standard().best_match(10);
    assert_eq!(m.proportion, ratio(2, 6, 2));
    assert_eq!(m.r_value, Ratio::new(293, 2500));
}

#[test]
fn precision_hundred_finds_the_best_percentages() {
    let m = Catalog::standard().best_match(100);
    assert_eq!(m.proportion, ratio(17, 66, 17));
    assert_eq!(m.r_value, Ratio::new(7553, 250000));
}

#[test]
fn search_agrees_with_a_scan_through_combine() {
    let c = Catalog::standard();
    for precision in [1, 2, 3, 7, 10, 24] {
        assert_eq!(c.best_match(precision), scan(&c, precision));
    }
}

#[test]
fn search_is_repeatable() {
    let c = Catalog::standard();
    assert_eq!(c.best_match(100), c.best_match(100));
    assert_eq!(c.best_match(37), Catalog::standard().best_match(37));
}

#[test]
fn result_has_as_many_parts_as_the_precision() {
    let c = Catalog::standard();
    for precision in [1, 5, 64, 100] {
        let m = c.best_match(precision);
        assert_eq!(m.proportion.aa + m.proportion.dp + m.proportion.na, precision);
        assert_eq!(m.r_value, c.blend_r_value(m.proportion));
    }
}

#[test]
fn no_ratio_beats_the_result() {
    let c = Catalog::standard();
    let precision = 12;
    let m = c.best_match(precision);
    for aa in 0..=precision {
        for dp in 0..=(precision - aa) {
            let q = ratio(aa, dp, precision - aa - dp);
            assert!(!c.blend_r_value(q).lt(m.r_value));
        }
    }
}

#[test]
fn ties_go_to_the_ratio_visited_first() {
    let a = Solvent::acetic_acid();
    let d = Solvent::dioctyl_phtalate();
    let t = Solvent::mep();

    // Three equal solvents: every ratio ties, and the first visited has no
    // acetic acid and no dioctyl phthalate.
    let m = catalog_of(a, a, a, t).best_match(5);
    assert_eq!(m.proportion, ratio(0, 0, 5));
    assert_eq!(m.r_value, Ratio::new(969, 20));

    // The first two equal: (0, 1, 3) and (1, 0, 3) tie.
    let c = catalog_of(a, a, d, t);
    assert_eq!(c.blend_r_value(ratio(0, 1, 3)), c.blend_r_value(ratio(1, 0, 3)));
    let m = c.best_match(4);
    assert_eq!(m.proportion, ratio(0, 1, 3));
    assert_eq!(m.r_value, Ratio::new(783, 800));

    // The first and the third equal: (0, 1, 3), (1, 1, 2), (2, 1, 1) and (3, 1, 0) tie.
    let c = catalog_of(d, a, d, t);
    assert_eq!(c.blend_r_value(ratio(0, 1, 3)), c.blend_r_value(ratio(3, 1, 0)));
    let m = c.best_match(4);
    assert_eq!(m.proportion, ratio(0, 1, 3));
    assert_eq!(m.r_value, Ratio::new(783, 800));
}

#[test]
fn blend_r_value_of_the_illustrative_blend() {
    let c = Catalog::standard();
    let r = c.blend_r_value(ratio(2, 5, 3));
    assert_eq!(r, Ratio::new(3358, 10000));
    assert_eq!(r, c.blend_r_value(ratio(20, 50, 30)));
    let blend = Solvent::combine(
        &[
            (c.acetic_acid, Ratio::from_int(20)),
            (c.dioctyl_phtalate, Ratio::from_int(50)),
            (c.nitroamine, Ratio::from_int(30)),
        ],
    );
    assert_eq!(r, blend.r_value(c.mep));
}

#[test]
fn blend_r_value_of_a_pure_solvent() {
    let c = Catalog::standard();
    assert_eq!(c.blend_r_value(ratio(3, 0, 0)), Ratio::new(4845, 100));
    assert_eq!(c.blend_r_value(ratio(0, 1000, 0)), Ratio::new(209, 100));
    assert_eq!(c.blend_r_value(ratio(0, 0, 1)), Ratio::new(1265, 100));
}

#[test]
fn search_takes_parameters_at_the_limits() {
    let high = Solvent {
        d_param: Ratio::from_int(1000),
        p_param: Ratio::from_int(1000),
        h_param: Ratio::from_int(1000),
    };
    let low = Solvent {
        d_param: Ratio::from_int(-1000),
        p_param: Ratio::from_int(-1000),
        h_param: Ratio::from_int(-1000),
    };
    let c = catalog_of(high, high, high, low);
    assert!(c.is_tabulated());
    let m = c.best_match(30);
    assert_eq!(m.proportion, ratio(0, 0, 30));
    assert_eq!(m.r_value, Ratio::from_int(12_000_000));
    assert_eq!(c.blend_r_value(ratio(0, 0, MAX_PRECISION)), Ratio::from_int(12_000_000));
    let edge = Solvent {
        d_param: Ratio::new(99_999, 100),
        p_param: Ratio::new(-99_999, 100),
        h_param: Ratio::new(1, 100),
    };
    let c = catalog_of(edge, high, low, low);
    assert!(c.is_tabulated());
    assert_eq!(
        c.blend_r_value(ratio(999, 0, 1)),
        Ratio::new(49_899_850_402_794_003, 10_000_000_000)
    );
}

#[test]
fn search_takes_parameters_off_the_table() {
    let third = Ratio::new(1, 3);
    let a = Solvent { d_param: third, p_param: Ratio::from_int(0), h_param: Ratio::from_int(0) };
    let b = Solvent { d_param: Ratio::from_int(0), p_param: third, h_param: Ratio::from_int(0) };
    let n = Solvent { d_param: Ratio::from_int(0), p_param: Ratio::from_int(0), h_param: third };
    let t = Solvent { d_param: Ratio::new(1, 9), p_param: Ratio::new(1, 9), h_param: Ratio::new(1, 9) };
    let c = catalog_of(a, b, n, t);
    assert!(!c.is_tabulated());
    let m = c.best_match(3);
    assert_eq!(m.proportion, ratio(1, 1, 1));
    assert_eq!(m.r_value, Ratio::from_int(0));
    let m = c.best_match(2);
    assert_eq!(m.proportion, ratio(0, 1, 1));
    assert_eq!(m.r_value, Ratio::new(1, 54));
}

#[test]
fn percentages_of_the_best_match() {
    let m = Catalog::standard().best_match(100);
    let (aa, dp, na) = m.proportion.percentages();
    assert_eq!(aa, Ratio::from_int(17));
    assert_eq!(dp, Ratio::from_int(66));
    assert_eq!(na, Ratio::from_int(17));
}

#[test]
fn percentages_are_parts_over_total_times_hundred() {
    let (aa, dp, na) = ratio(1, 2, 4).percentages();
    assert_eq!(aa, Ratio::new(100, 7));
    assert_eq!(dp, Ratio::new(200, 7));
    assert_eq!(na, Ratio::new(400, 7));
    let (aa, dp, na) = ratio(0, 0, 3).percentages();
    assert_eq!(aa, Ratio::from_int(0));
    assert_eq!(dp, Ratio::from_int(0));
    assert_eq!(na, Ratio::from_int(100));
    let (aa, _, _) = ratio(u32::MAX, u32::MAX, u32::MAX).percentages();
    assert_eq!(aa, Ratio::new(100, 3));
}
