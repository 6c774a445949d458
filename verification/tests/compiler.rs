//! The compiler: plans of reference contracts.

use kontract::ast::{and, anytime, at, konst, one, scale, spot, until, Contract};
use kontract::compiler::{compile, condition_is_price_dependent, merge_plans};
use kontract::KontractError;

fn b(x: f64) -> u64 {
    x.to_bits()
}

/// European call `max(S - K, 0)` paid in USD at `T`.
fn european_call(asset: &str, k: f64, t: f64) -> Contract {
    kontract::ast::when(
        at(b(t)),
        scale((spot(asset) - konst(b(k))).max(konst(b(0.0))), one("USD")),
    )
}

#[test]
fn ref1_zero_coupon_bond() {
    let plan = compile(&kontract::ast::when(at(b(1.0)), one("USD"))).unwrap();
    assert!(plan.assets.is_empty());
    assert_eq!(plan.fixed_dates, vec![b(1.0)]);
    assert_eq!(plan.horizon, b(1.0));
    assert!(!plan.needs_fine_grid);
}

#[test]
fn ref2_european_call() {
    let plan = compile(&european_call("AAPL", 150.0, 1.0)).unwrap();
    assert_eq!(plan.assets, vec!["AAPL".to_string()]);
    assert_eq!(plan.fixed_dates, vec![b(1.0)]);
    assert_eq!(plan.horizon, b(1.0));
    assert!(!plan.needs_fine_grid);
}

#[test]
fn ref3_knock_out_call_needs_fine_grid() {
    let ko = until(
        spot("AAPL").ge(konst(b(200.0))),
        european_call("AAPL", 150.0, 1.0),
    );
    let plan = compile(&ko).unwrap();
    assert_eq!(plan.assets, vec!["AAPL".to_string()]);
    assert_eq!(plan.fixed_dates, vec![b(1.0)]);
    assert_eq!(plan.horizon, b(1.0));
    assert!(plan.needs_fine_grid);
}

#[test]
fn ref4_basket_two_assets_sorted() {
    let basket = kontract::ast::when(at(b(1.0)), scale(spot("MSFT") + spot("AAPL"), one("USD")));
    let plan = compile(&basket).unwrap();
    assert_eq!(plan.assets, vec!["AAPL".to_string(), "MSFT".to_string()]);
    assert!(!plan.needs_fine_grid);
}

#[test]
fn ref5_composite_multiple_dates_with_barrier() {
    let coupon = kontract::ast::when(at(b(0.5)), one("USD"));
    let ko = until(
        spot("AAPL").ge(konst(b(150.0))),
        european_call("AAPL", 120.0, 1.0),
    );
    let plan = compile(&and(coupon, ko)).unwrap();
    assert_eq!(plan.assets, vec!["AAPL".to_string()]);
    assert_eq!(plan.fixed_dates, vec![b(0.5), b(1.0)]);
    assert_eq!(plan.horizon, b(1.0));
    assert!(plan.needs_fine_grid);
}

#[test]
fn zero_has_empty_plan() {
    let plan = compile(&Contract::Zero).unwrap();
    assert!(plan.assets.is_empty());
    assert!(plan.fixed_dates.is_empty());
    assert_eq!(plan.horizon, b(0.0));
    assert!(!plan.needs_fine_grid);
}

#[test]
fn anytime_with_price_condition_is_a_barrier() {
    let amer = anytime(
        spot("AAPL").le(konst(b(80.0))),
        kontract::ast::when(at(b(2.0)), one("USD")),
    );
    let plan = compile(&amer).unwrap();
    assert!(plan.needs_fine_grid);
    assert_eq!(plan.horizon, b(2.0));
}

#[test]
fn negative_date_is_malformed() {
    let bad = kontract::ast::when(at(b(-1.0)), one("USD"));
    assert!(matches!(
        compile(&bad),
        Err(KontractError::MalformedContract(_))
    ));
}

#[test]
fn duplicate_dates_are_merged() {
    let c = and(
        kontract::ast::when(at(b(1.0)), one("USD")),
        kontract::ast::when(at(b(1.0)), one("EUR")),
    );
    let plan = compile(&c).unwrap();
    assert_eq!(plan.fixed_dates, vec![b(1.0)]);
}

#[test]
fn non_finite_dates_are_malformed() {
    for t in [f64::NAN, f64::INFINITY, f64::NEG_INFINITY, -1e-300] {
        let bad = kontract::ast::when(at(b(t)), one("USD"));
        assert!(matches!(compile(&bad), Err(KontractError::MalformedContract(_))));
    }
}

#[test]
fn negative_zero_date_keeps_its_sign() {
    let c = kontract::ast::when(at(b(-0.0)), one("USD"));
    let plan = compile(&c).unwrap();
    assert_eq!(plan.fixed_dates, vec![b(-0.0)]);
    assert_eq!(plan.horizon, b(0.0));

    // Of two zeros, the one written first is kept.
    let zero = |t: f64| kontract::ast::when(at(b(t)), one("USD"));
    let plan = compile(&and(zero(-0.0), zero(0.0))).unwrap();
    assert_eq!(plan.fixed_dates, vec![b(-0.0)]);
    let plan = compile(&and(zero(0.0), zero(-0.0))).unwrap();
    assert_eq!(plan.fixed_dates, vec![b(0.0)]);
    let plan = compile(&and(and(zero(1.0), zero(-0.0)), zero(1e-13))).unwrap();
    assert_eq!(plan.fixed_dates, vec![b(-0.0), b(1.0)]);
    assert_eq!(plan.horizon, b(1.0));
}

#[test]
fn dates_are_sorted_numerically_and_horizon_is_latest() {
    let c = and(
        and(
            kontract::ast::when(at(b(2.0)), one("USD")),
            kontract::ast::when(at(b(0.25)), one("USD")),
        ),
        kontract::ast::when(at(b(1.0)), one("USD")),
    );
    let plan = compile(&c).unwrap();
    assert_eq!(plan.fixed_dates, vec![b(0.25), b(1.0), b(2.0)]);
    assert_eq!(plan.horizon, b(2.0));
}

#[test]
fn invalid_date_deep_inside_is_found() {
    let c = and(
        one("USD"),
        until(
            spot("X").ge(konst(b(1.0))),
            kontract::ast::when(at(b(1.0)).and(at(b(f64::NAN))), one("USD")),
        ),
    );
    assert!(matches!(compile(&c), Err(KontractError::MalformedContract(_))));
}

#[test]
fn conjunction_plan_ignores_leg_order() {
    let a = until(spot("MSFT").ge(konst(b(10.0))), european_call("AAPL", 1.0, 2.0));
    let c = kontract::ast::when(at(b(0.5)), scale(spot("IBM"), one("EUR")));
    let p1 = compile(&and(a.clone(), c.clone())).unwrap();
    let p2 = compile(&and(c, a)).unwrap();
    assert_eq!(p1, p2);
    assert_eq!(p1.assets, vec!["AAPL".to_string(), "IBM".to_string(), "MSFT".to_string()]);
    assert_eq!(p1.fixed_dates, vec![b(0.5), b(2.0)]);
}

#[test]
fn names_sort_by_bytes() {
    let c = scale(spot("b") + spot("B") + spot("a") + spot("ab") + spot("é"), one("USD"));
    let plan = compile(&c).unwrap();
    assert_eq!(
        plan.assets,
        vec!["B".to_string(), "a".to_string(), "ab".to_string(), "b".to_string(), "é".to_string()]
    );
}

#[test]
fn merge_plans_unions_dates_and_flags() {
    let p1 = compile(&european_call("A", 1.0, 1.0)).unwrap();
    let p2 = compile(&until(spot("A").le(konst(b(0.5))), european_call("A", 1.0, 3.0))).unwrap();
    let p3 = compile(&kontract::ast::when(at(b(1.0)), one("USD"))).unwrap();
    let m = merge_plans(&vec![p1, p2, p3]);
    assert!(m.assets.is_empty());
    assert_eq!(m.fixed_dates, vec![b(1.0), b(3.0), b(1.0)]);
    assert_eq!(m.horizon, b(3.0));
    assert!(m.needs_fine_grid);
    let empty = merge_plans(&vec![]);
    assert!(empty.fixed_dates.is_empty());
    assert_eq!(empty.horizon, 0);
    assert!(!empty.needs_fine_grid);
}

#[test]
fn condition_price_dependence() {
    assert!(!condition_is_price_dependent(&at(b(1.0))));
    assert!(!condition_is_price_dependent(&!at(b(1.0)).or(kontract::Condition::Bool(true))));
    assert!(condition_is_price_dependent(&at(b(1.0)).and(spot("X").lt(konst(b(3.0))))));
    assert!(condition_is_price_dependent(&!spot("X").gt(konst(b(3.0)))));
}

fn zcb(t: f64) -> Contract {
    kontract::ast::when(at(b(t)), one("USD"))
}

#[test]
fn dates_closer_than_a_picosecond_year_are_merged() {
    let next = f64::from_bits(b(0.5) + 1);
    let c = and(and(zcb(0.5), zcb(next)), zcb(1.0));
    let plan = compile(&c).unwrap();
    assert_eq!(plan.fixed_dates, vec![b(0.5), b(1.0)]);
    assert_eq!(plan.horizon, b(1.0));

    // The last date may be dropped from the list; the horizon is still the latest.
    let late = f64::from_bits(b(1.0) + 3);
    let plan = compile(&and(zcb(1.0), zcb(late))).unwrap();
    assert_eq!(plan.fixed_dates, vec![b(1.0)]);
    assert_eq!(plan.horizon, b(late));

    // Each date is compared with the last date kept, not with its neighbour.
    let plan = compile(&and(and(zcb(1.0), zcb(1.0 + 0.6e-12)), zcb(1.0 + 1.2e-12))).unwrap();
    assert_eq!(plan.fixed_dates, vec![b(1.0), b(1.0 + 1.2e-12)]);

    // Dates 1e-12 or more apart are kept.
    let plan = compile(&and(zcb(0.0), zcb(1e-12))).unwrap();
    assert_eq!(plan.fixed_dates, vec![b(0.0), b(1e-12)]);
    let plan = compile(&and(zcb(0.0), zcb(0.9e-12))).unwrap();
    assert_eq!(plan.fixed_dates, vec![b(0.0)]);
    assert_eq!(plan.horizon, b(0.9e-12));
}

#[test]
fn merge_agrees_with_binary64_subtraction() {
    let dates = [
        0.0, 1e-300, 5e-324, 0.9e-12, 1e-12, 1.1e-12, 3e-12, 0.25, 0.5, 1.0, 2.0, 1e10, 1e300,
    ];
    let mut all = Vec::new();
    for d in dates {
        for k in 0..3u64 {
            all.push(f64::from_bits(b(d) + k));
            all.push(d + 0.999e-12);
            all.push(d + 1.001e-12);
        }
    }
    for &x in &all {
        for &y in &all {
            let (lo, hi) = if x <= y { (x, y) } else { (y, x) };
            let plan = compile(&and(zcb(lo), zcb(hi))).unwrap();
            let expected = if b(lo) == b(hi) || (hi - lo).abs() < 1e-12 { 1 } else { 2 };
            assert_eq!(plan.fixed_dates.len(), expected, "{lo:e} {hi:e}");
        }
    }
}
