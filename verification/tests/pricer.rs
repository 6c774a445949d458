//! The reduction of contracts into cash flows.

use kontract::ast::{and, anytime, at, give, konst, one, or, scale, spot, until, Contract};
use kontract::pricer::{cashflows, condition_nodes, first_activation, scale_nodes, Flow};
use kontract::products::{autocallable, capital_protected_note, reverse_convertible};
use kontract::KontractError;

fn b(x: f64) -> u64 {
    x.to_bits()
}

fn flows(
    c: &Contract,
    n: usize,
    conds: Vec<Vec<Result<bool, KontractError>>>,
    scales: Vec<Vec<Result<u64, KontractError>>>,
) -> Result<Vec<(bool, Vec<u64>, usize)>, KontractError> {
    cashflows(c, 0, n, &conds, &scales)
        .map(|v| v.into_iter().map(|f: Flow| (f.negated, f.factors, f.step)).collect())
}

fn row(v: &[bool]) -> Vec<Result<bool, KontractError>> {
    v.iter().map(|x| Ok(*x)).collect()
}

#[test]
fn zero_has_no_flow() {
    assert_eq!(flows(&Contract::Zero, 3, vec![], vec![]).unwrap(), vec![]);
}

#[test]
fn one_pays_now() {
    assert_eq!(flows(&one("USD"), 3, vec![], vec![]).unwrap(), vec![(false, vec![], 0)]);
}

#[test]
fn give_negates_and_and_concatenates() {
    let c = and(one("USD"), give(one("EUR")));
    assert_eq!(
        flows(&c, 2, vec![], vec![]).unwrap(),
        vec![(false, vec![], 0), (true, vec![], 0)]
    );
    let c = give(give(one("USD")));
    assert_eq!(flows(&c, 2, vec![], vec![]).unwrap(), vec![(false, vec![], 0)]);
}

#[test]
fn when_acquires_at_first_activation() {
    let c = kontract::ast::when(at(b(1.0)), scale(spot("X"), one("USD")));
    assert_eq!(condition_nodes(&c), vec![at(b(1.0))]);
    assert_eq!(scale_nodes(&c), vec![spot("X")]);
    let conds = vec![row(&[false, false, true, true])];
    let scales = vec![vec![Ok(b(10.0)), Ok(b(11.0)), Ok(b(12.0)), Ok(b(13.0))]];
    assert_eq!(flows(&c, 4, conds, scales).unwrap(), vec![(false, vec![b(12.0)], 2)]);
}

#[test]
fn when_never_activated_pays_nothing() {
    let c = anytime(spot("X").ge(konst(b(1.0))), one("USD"));
    let conds = vec![row(&[false, false, false])];
    assert_eq!(flows(&c, 3, conds, vec![]).unwrap(), vec![]);
}

#[test]
fn until_keeps_flows_strictly_before_barrier() {
    // and(pay at 1, pay at 3) knocked out when the barrier holds at step 2.
    let inner = and(
        kontract::ast::when(at(b(0.25)), one("USD")),
        kontract::ast::when(at(b(0.75)), one("USD")),
    );
    let ko = until(spot("X").ge(konst(b(2.0))), inner);
    let nodes = condition_nodes(&ko);
    assert_eq!(nodes.len(), 3);
    let conds = vec![
        row(&[false, false, true, true]),
        row(&[false, true, true, true]),
        row(&[false, false, false, true]),
    ];
    assert_eq!(flows(&ko, 4, conds, vec![]).unwrap(), vec![(false, vec![], 1)]);
}

#[test]
fn until_never_hit_keeps_everything() {
    let ko = until(spot("X").ge(konst(b(2.0))), one("USD"));
    let conds = vec![row(&[false, false])];
    assert_eq!(flows(&ko, 2, conds, vec![]).unwrap(), vec![(false, vec![], 0)]);
}

#[test]
fn nested_scales_multiply_inner_first() {
    let c = scale(konst(b(3.0)), give(scale(spot("X"), one("USD"))));
    let scales = vec![vec![Ok(b(3.0)), Ok(b(3.0))], vec![Ok(b(7.0)), Ok(b(8.0))]];
    assert_eq!(flows(&c, 2, vec![], scales).unwrap(), vec![(true, vec![b(7.0), b(3.0)], 0)]);
}

#[test]
fn or_is_unsupported() {
    let res = flows(&or(one("USD"), one("USD")), 2, vec![], vec![]);
    assert!(matches!(res, Err(KontractError::Unsupported(_))));
}

#[test]
fn first_failure_read_is_reported() {
    // The inner contract is reduced before the knock-out condition is read.
    let c = until(
        spot("X").ge(konst(b(1.0))),
        scale(spot("Y"), one("USD")),
    );
    let conds = vec![vec![Err(KontractError::UnknownAsset("X".to_string())), Ok(false)]];
    let scales = vec![vec![Err(KontractError::UnknownAsset("Y".to_string())), Ok(b(1.0))]];
    let res = flows(&c, 2, conds.clone(), scales);
    assert!(matches!(res, Err(KontractError::UnknownAsset(n)) if n == "Y"));
    let scales = vec![vec![Ok(b(1.0)), Ok(b(1.0))]];
    let res = flows(&c, 2, conds, scales);
    assert!(matches!(res, Err(KontractError::UnknownAsset(n)) if n == "X"));
}

#[test]
fn unread_failures_do_not_matter() {
    let c = kontract::ast::when(at(b(0.0)), one("USD"));
    let conds = vec![vec![Ok(true), Err(KontractError::StepOutOfRange(1))]];
    assert_eq!(flows(&c, 2, conds, vec![]).unwrap(), vec![(false, vec![], 0)]);
}

#[test]
fn first_activation_scans_from_start() {
    let r = row(&[true, false, true]);
    assert_eq!(first_activation(&r, 0).unwrap(), Some(0));
    assert_eq!(first_activation(&r, 1).unwrap(), Some(2));
    assert_eq!(first_activation(&r, 3).unwrap(), None);
    let r = vec![Ok(false), Err(KontractError::StepOutOfRange(1)), Ok(true)];
    assert!(matches!(first_activation(&r, 0), Err(KontractError::StepOutOfRange(1))));
    assert_eq!(first_activation(&r, 2).unwrap(), Some(2));
}

#[test]
fn acquisition_date_is_respected() {
    let c = and(one("USD"), kontract::ast::when(at(b(0.0)), one("USD")));
    let conds = vec![row(&[true, true, true])];
    let v: Vec<usize> = cashflows(&c, 1, 3, &conds, &vec![]).unwrap().iter().map(|f| f.step).collect();
    assert_eq!(v, vec![1, 1]);
}

#[test]
fn and_numbers_the_nodes_of_its_right_side_after_its_left_side() {
    let left = kontract::ast::when(at(b(1.0)), one("USD"));
    let right = kontract::ast::when(at(b(2.0)), scale(spot("X"), one("USD")));
    let c = and(left, right);
    assert_eq!(condition_nodes(&c), vec![at(b(1.0)), at(b(2.0))]);
    let conds = vec![row(&[false, true, true]), row(&[false, false, true])];
    let scales = vec![vec![Ok(b(5.0)), Ok(b(6.0)), Ok(b(7.0))]];
    assert_eq!(
        flows(&c, 3, conds, scales).unwrap(),
        vec![(false, vec![], 1), (false, vec![b(7.0)], 2)]
    );
}

#[test]
fn structured_products_are_built_from_the_combinators() {
    let hit = spot("X").ge(konst(b(120.0)));
    let auto = autocallable("X", b(105.0), b(100.0), b(120.0), b(1.0), "EUR");
    let expected = and(
        anytime(hit.clone(), scale(konst(b(105.0)), one("EUR"))),
        until(hit, kontract::ast::when(at(b(1.0)), scale(konst(b(100.0)), one("EUR")))),
    );
    assert_eq!(auto, expected);

    let rc = reverse_convertible("X", b(108.0), b(90.0), b(100.0 / 90.0), b(1.0), "EUR");
    let put = (konst(b(90.0)) - spot("X")).max(konst(b(0.0))) * konst(b(100.0 / 90.0));
    let expected = and(
        kontract::ast::when(at(b(1.0)), scale(konst(b(108.0)), one("EUR"))),
        give(kontract::ast::when(at(b(1.0)), scale(put, one("EUR")))),
    );
    assert_eq!(rc, expected);

    let cpn = capital_protected_note("X", b(100.0), b(50.0), b(1.6), b(2.0), "EUR");
    let upside = (spot("X") - konst(b(50.0))).max(konst(b(0.0))) * konst(b(1.6));
    let expected = and(
        kontract::ast::when(at(b(2.0)), scale(konst(b(100.0)), one("EUR"))),
        kontract::ast::when(at(b(2.0)), scale(upside, one("EUR"))),
    );
    assert_eq!(cpn, expected);
    // The autocall's coupon is paid at the first date the barrier is hit.
    let conds = vec![
        row(&[false, true, true]),
        row(&[false, true, true]),
        row(&[false, false, true]),
    ];
    let scales = vec![vec![Ok(b(105.0)); 3], vec![Ok(b(100.0)); 3]];
    assert_eq!(
        flows(&auto, 3, conds, scales).unwrap(),
        vec![(false, vec![b(105.0)], 1)]
    );
}
