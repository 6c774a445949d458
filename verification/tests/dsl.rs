//! The fluent construction of contracts.

use kontract::ast::{
    and, at, average, average_over, konst, one, running_max, running_min, s, scale, spot, Contract,
    Observable, EUR, USD,
};
use kontract::compiler::compile;

fn b(x: f64) -> u64 {
    x.to_bits()
}

#[test]
fn fluent_european_call_equals_verbose() {
    let fluent = ((s("AAPL") - konst(b(150.0))).clip(b(0.0)) * one(USD)).when(at(b(1.0)));
    let verbose = kontract::ast::when(
        at(b(1.0)),
        scale((spot("AAPL") - konst(b(150.0))).max(konst(b(0.0))), one("USD")),
    );
    assert_eq!(fluent, verbose);
}

#[test]
fn fluent_knock_out_call() {
    let call = ((s("AAPL") - konst(b(100.0))).clip(b(0.0)) * one(USD)).when(at(b(1.0)));
    let ko = call.clone().until(s("AAPL").ge(konst(b(200.0))));
    let plan = compile(&ko).unwrap();
    assert!(plan.needs_fine_grid);
    assert_eq!(plan.assets, vec!["AAPL".to_string()]);
    assert_eq!(call, ((s("AAPL") - konst(b(100.0))).clip(b(0.0)) * one(USD)).when(at(b(1.0))));
}

#[test]
fn scalar_arithmetic_both_directions() {
    let put_payoff = (konst(b(100.0)) - s("AAPL")).clip(b(0.0));
    let expected = (konst(b(100.0)) - spot("AAPL")).max(konst(b(0.0)));
    assert_eq!(put_payoff, expected);

    let scaled = konst(b(2.0)) * one(USD);
    assert_eq!(scaled, scale(konst(b(2.0)), one("USD")));
}

#[test]
fn currency_constants_work() {
    assert_eq!(one(USD), one("USD"));
    assert_eq!(one(EUR), one("EUR"));
    assert_eq!(kontract::ast::GBP, "GBP");
    assert_eq!(kontract::ast::JPY, "JPY");
    assert_eq!(kontract::Currency::new("CHF").0, "CHF".to_string());
}

#[test]
fn trader_builds_ten_contracts_fluently() {
    let k100 = konst(b(100.0));
    let contracts: Vec<Contract> = vec![
        one(USD),
        konst(b(2.0)) * one(USD),
        one(USD).give(),
        ((s("AAPL") - k100.clone()).clip(b(0.0)) * one(USD)).when(at(b(1.0))),
        ((k100.clone() - s("AAPL")).clip(b(0.0)) * one(USD)).when(at(b(1.0))),
        (s("AAPL") * one(USD)).when(at(b(1.0))),
        ((s("AAPL") - k100.clone()).clip(b(0.0)) * one(USD))
            .when(at(b(1.0)))
            .until(s("AAPL").ge(konst(b(150.0)))),
        ((s("AAPL") - k100.clone()).clip(b(0.0)) * one(USD))
            .when(at(b(1.0)))
            .anytime(s("AAPL").ge(konst(b(120.0)))),
        and(one(USD), one(EUR)),
        ((s("AAPL") + s("MSFT")) / konst(b(2.0)) * one(USD)).when(at(b(1.0))),
    ];
    assert_eq!(contracts.len(), 10);
    for c in &contracts {
        assert!(compile(c).is_ok());
    }
}

#[test]
fn operators_build_the_expected_nodes() {
    let x = spot("X");
    let y = konst(b(2.0));
    assert_eq!(x.clone() + y.clone(), Observable::Add(Box::new(x.clone()), Box::new(y.clone())));
    assert_eq!(x.clone() - y.clone(), Observable::Sub(Box::new(x.clone()), Box::new(y.clone())));
    assert_eq!(x.clone() * y.clone(), Observable::Mul(Box::new(x.clone()), Box::new(y.clone())));
    assert_eq!(x.clone() / y.clone(), Observable::Div(Box::new(x.clone()), Box::new(y.clone())));
    assert_eq!(-x.clone(), Observable::Neg(Box::new(x.clone())));
    assert_eq!(x.clone().min(y.clone()), Observable::Min(Box::new(x.clone()), Box::new(y)));
    let c = x.clone().lt(konst(b(1.0)));
    assert_eq!(!c.clone(), kontract::Condition::Not(Box::new(c)));
    assert_eq!(
        average_over(x.clone(), b(0.5), b(1.0)),
        Observable::Average { obs: Box::new(x.clone()), from_year: Some(b(0.5)), to_year: Some(b(1.0)) }
    );
    assert_eq!(average(x.clone()), Observable::Average { obs: Box::new(x.clone()), from_year: None, to_year: None });
    assert_eq!(running_max(x.clone()), Observable::RunningMax(Box::new(x.clone())));
    assert_eq!(running_min(x.clone()), Observable::RunningMin(Box::new(x)));
    assert_eq!(kontract::ast::zero(), Contract::Zero);
    assert_eq!(kontract::ast::or(one(USD), one(EUR)).give(), kontract::ast::give(one(USD).or(one(EUR))));
}

#[test]
fn test_round_trip_json_and_compiler_flags() {
    let k = konst(b(100.0));
    let asian = scale((average(spot("S")) - k.clone()).clip(b(0.0)), one("USD")).when(at(b(1.0)));
    let lb = scale((running_max(spot("S")) - k.clone()).clip(b(0.0)), one("USD")).when(at(b(1.0)));
    let lb_min = scale((k.clone() - running_min(spot("S"))).clip(b(0.0)), one("USD")).when(at(b(1.0)));
    let vanilla = scale((spot("S") - k).clip(b(0.0)), one("USD")).when(at(b(1.0)));
    assert!(compile(&asian).unwrap().needs_fine_grid, "Asian -> fine grid");
    assert!(compile(&lb).unwrap().needs_fine_grid, "Lookback max -> fine grid");
    assert!(compile(&lb_min).unwrap().needs_fine_grid, "Lookback min -> fine grid");
    assert!(!compile(&vanilla).unwrap().needs_fine_grid, "Vanilla -> no fine grid");
    assert_eq!(compile(&asian).unwrap().assets, vec!["S".to_string()]);
}

#[test]
fn constants_compare_as_binary64_numbers() {
    assert_ne!(konst(b(f64::NAN)), konst(b(f64::NAN)));
    assert_eq!(konst(b(-0.0)), konst(b(0.0)));
    assert_eq!(at(b(-0.0)), at(b(0.0)));
    assert_ne!(at(b(f64::NAN)), at(b(f64::NAN)));
    assert_eq!(
        average_over(s("X"), b(0.0), b(1.0)),
        average_over(s("X"), b(-0.0), b(1.0))
    );
    assert_ne!(average(s("X")), average_over(s("X"), b(0.0), b(1.0)));
    assert_ne!(konst(b(1.0)), konst(b(2.0)));
    assert_ne!(spot("X"), spot("Y"));
    assert_eq!(
        scale(konst(b(-0.0)), one(USD)).when(at(b(1.0))),
        scale(konst(b(0.0)), one(USD)).when(at(b(1.0)))
    );
    assert_ne!(one(USD), one(EUR));
    assert!(kontract::ast::bits_eq(b(f64::INFINITY), b(f64::INFINITY)));
    assert!(!kontract::ast::bits_eq(b(f64::INFINITY), b(f64::NEG_INFINITY)));
}
