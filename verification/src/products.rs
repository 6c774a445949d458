//! A catalogue of products written in the contract language. None of them is
//! known to the engine: each is an expression of the primitive combinators.
//! Strikes, barriers, payouts and dates are binary64 bit patterns.
use vstd::prelude::*;

use crate::compiler::{
    contract_assets, contract_dates, contract_dates_valid, contract_needs_fine_grid,
    normalized_date, valid_date,
};
use crate::ast::{
    at, konst, one, scale, spot, Condition, ConditionModel, Contract, ContractModel,
    ObservableModel, contract_model, obs_model, cond_model, exact_value,
};

verus! {

/// Bit pattern of the binary64 zero.
pub const ZERO_BITS: u64 = 0u64;

/// Model of "receive one unit of `ccy` at `t`".
pub open spec fn zero_coupon_bond_model(ccy: Seq<char>, t: u64) -> ContractModel {
    ContractModel::When(ConditionModel::At(t), Box::new(ContractModel::One(ccy)))
}

/// Model of the call payoff `max(S - K, 0)`.
pub open spec fn call_payoff_model(asset: Seq<char>, k: u64) -> ObservableModel {
    ObservableModel::Max(
        Box::new(
            ObservableModel::Sub(
                Box::new(ObservableModel::Spot(asset)),
                Box::new(ObservableModel::Const(k)),
            ),
        ),
        Box::new(ObservableModel::Const(ZERO_BITS)),
    )
}

/// Model of the put payoff `max(K - S, 0)`.
pub open spec fn put_payoff_model(asset: Seq<char>, k: u64) -> ObservableModel {
    ObservableModel::Max(
        Box::new(
            ObservableModel::Sub(
                Box::new(ObservableModel::Const(k)),
                Box::new(ObservableModel::Spot(asset)),
            ),
        ),
        Box::new(ObservableModel::Const(ZERO_BITS)),
    )
}

/// Model of a payoff paid in `ccy` at `t`.
pub open spec fn paid_at_model(payoff: ObservableModel, t: u64, ccy: Seq<char>) -> ContractModel {
    ContractModel::When(
        ConditionModel::At(t),
        Box::new(ContractModel::Scale(payoff, Box::new(ContractModel::One(ccy)))),
    )
}

/// Model of the European call.
pub open spec fn european_call_model(asset: Seq<char>, k: u64, t: u64, ccy: Seq<char>) -> ContractModel {
    paid_at_model(call_payoff_model(asset, k), t, ccy)
}

/// Model of the European put.
pub open spec fn european_put_model(asset: Seq<char>, k: u64, t: u64, ccy: Seq<char>) -> ContractModel {
    paid_at_model(put_payoff_model(asset, k), t, ccy)
}

/// Model of a knock-out of `inner` when `barrier_hit` holds.
pub open spec fn knock_out_model(barrier_hit: ConditionModel, inner: ContractModel) -> ContractModel {
    ContractModel::Until(barrier_hit, Box::new(inner))
}

/// Zero-coupon bond: receive one unit of `ccy` at `t`.
pub fn zero_coupon_bond(ccy: &str, t: u64) -> (c: Contract)
    ensures
        c@ == zero_coupon_bond_model(ccy@, t),
{
    proof {
        reveal_with_fuel(contract_model, 4);
        reveal_with_fuel(obs_model, 3);
        reveal_with_fuel(cond_model, 2);
    }
    crate::ast::when(at(t), one(ccy))
}

/// European call: `max(S - K, 0)` paid in `ccy` at `t`.
pub fn european_call(asset: &str, k: u64, t: u64, ccy: &str) -> (c: Contract)
    ensures
        c@ == european_call_model(asset@, k, t, ccy@),
{
    proof {
        reveal_with_fuel(contract_model, 4);
        reveal_with_fuel(obs_model, 3);
        reveal_with_fuel(cond_model, 2);
    }
    crate::ast::when(at(t), scale((spot(asset) - konst(k)).max(konst(ZERO_BITS)), one(ccy)))
}

/// European put: `max(K - S, 0)` paid in `ccy` at `t`.
pub fn european_put(asset: &str, k: u64, t: u64, ccy: &str) -> (c: Contract)
    ensures
        c@ == european_put_model(asset@, k, t, ccy@),
{
    proof {
        reveal_with_fuel(contract_model, 4);
        reveal_with_fuel(obs_model, 3);
        reveal_with_fuel(cond_model, 2);
    }
    crate::ast::when(at(t), scale((konst(k) - spot(asset)).max(konst(ZERO_BITS)), one(ccy)))
}

/// Forward: receive `S_T - K` at `t` (a flow that may be negative).
pub fn forward(asset: &str, k: u64, t: u64, ccy: &str) -> (c: Contract)
    ensures
        c@ == forward_model(asset@, k, t, ccy@),
{
    proof {
        reveal_with_fuel(contract_model, 4);
        reveal_with_fuel(obs_model, 3);
        reveal_with_fuel(cond_model, 2);
    }
    crate::ast::when(at(t), scale(spot(asset) - konst(k), one(ccy)))
}

/// Straddle: a call and a put with the same strike.
pub fn straddle(asset: &str, k: u64, t: u64, ccy: &str) -> (c: Contract)
    ensures
        c@ == ContractModel::And(
            Box::new(european_call_model(asset@, k, t, ccy@)),
            Box::new(european_put_model(asset@, k, t, ccy@)),
        ),
{
    proof {
        reveal_with_fuel(contract_model, 4);
        reveal_with_fuel(obs_model, 3);
        reveal_with_fuel(cond_model, 2);
    }
    Contract::And(Box::new(european_call(asset, k, t, ccy)), Box::new(european_put(asset, k, t, ccy)))
}

/// Bull call spread: long the call struck at `k_low`, short the one at `k_high`.
pub fn bull_call_spread(asset: &str, k_low: u64, k_high: u64, t: u64, ccy: &str) -> (c: Contract)
    ensures
        c@ == ContractModel::And(
            Box::new(european_call_model(asset@, k_low, t, ccy@)),
            Box::new(ContractModel::Give(Box::new(european_call_model(asset@, k_high, t, ccy@)))),
        ),
{
    proof {
        reveal_with_fuel(contract_model, 4);
        reveal_with_fuel(obs_model, 3);
        reveal_with_fuel(cond_model, 2);
    }
    Contract::And(
        Box::new(european_call(asset, k_low, t, ccy)),
        Box::new(Contract::Give(Box::new(european_call(asset, k_high, t, ccy)))),
    )
}

/// Cash-or-nothing digital call: pays `payout` at `t` if `S_T >= K`.
pub fn cash_or_nothing_call(asset: &str, k: u64, payout: u64, t: u64, ccy: &str) -> (c: Contract)
    ensures
        c@ == ContractModel::When(
            ConditionModel::At(t),
            Box::new(
                ContractModel::When(
                    ConditionModel::Ge(ObservableModel::Spot(asset@), ObservableModel::Const(k)),
                    Box::new(
                        ContractModel::Scale(
                            ObservableModel::Const(payout),
                            Box::new(ContractModel::One(ccy@)),
                        ),
                    ),
                ),
            ),
        ),
{
    proof {
        reveal_with_fuel(contract_model, 4);
        reveal_with_fuel(obs_model, 3);
        reveal_with_fuel(cond_model, 2);
    }
    crate::ast::when(
        at(t),
        crate::ast::when(Condition::Ge(spot(asset), konst(k)), scale(konst(payout), one(ccy))),
    )
}

/// Up-and-out call: the European call, cancelled once `S` reaches `barrier`.
pub fn up_and_out_call(asset: &str, k: u64, barrier: u64, t: u64, ccy: &str) -> (c: Contract)
    ensures
        c@ == knock_out_model(
            ConditionModel::Ge(ObservableModel::Spot(asset@), ObservableModel::Const(barrier)),
            european_call_model(asset@, k, t, ccy@),
        ),
{
    proof {
        reveal_with_fuel(contract_model, 4);
        reveal_with_fuel(obs_model, 3);
        reveal_with_fuel(cond_model, 2);
    }
    Contract::Until(
        Condition::Ge(spot(asset), konst(barrier)),
        Box::new(european_call(asset, k, t, ccy)),
    )
}

/// Down-and-out call: the European call, cancelled once `S` falls to `barrier`.
pub fn down_and_out_call(asset: &str, k: u64, barrier: u64, t: u64, ccy: &str) -> (c: Contract)
    ensures
        c@ == knock_out_model(
            ConditionModel::Le(ObservableModel::Spot(asset@), ObservableModel::Const(barrier)),
            european_call_model(asset@, k, t, ccy@),
        ),
{
    proof {
        reveal_with_fuel(contract_model, 4);
        reveal_with_fuel(obs_model, 3);
        reveal_with_fuel(cond_model, 2);
    }
    Contract::Until(
        Condition::Le(spot(asset), konst(barrier)),
        Box::new(european_call(asset, k, t, ccy)),
    )
}

/// Model of a constant amount of `ccy` paid at `t`.
pub open spec fn amount_at_model(amount: u64, t: u64, ccy: Seq<char>) -> ContractModel {
    paid_at_model(ObservableModel::Const(amount), t, ccy)
}

/// Model of the autocallable: `redemption` as soon as the spot reaches the
/// barrier; otherwise `notional` at maturity, unless the barrier was hit
/// before.
pub open spec fn autocallable_model(
    asset: Seq<char>,
    redemption: u64,
    notional: u64,
    barrier: u64,
    maturity: u64,
    ccy: Seq<char>,
) -> ContractModel {
    let hit = ConditionModel::Ge(ObservableModel::Spot(asset), ObservableModel::Const(barrier));
    ContractModel::And(
        Box::new(
            ContractModel::Anytime(
                hit,
                Box::new(
                    ContractModel::Scale(
                        ObservableModel::Const(redemption),
                        Box::new(ContractModel::One(ccy)),
                    ),
                ),
            ),
        ),
        Box::new(ContractModel::Until(hit, Box::new(amount_at_model(notional, maturity, ccy)))),
    )
}

/// Model of the reverse convertible: `redemption` at maturity, short
/// `ratio` puts struck at `strike`.
pub open spec fn reverse_convertible_model(
    asset: Seq<char>,
    redemption: u64,
    strike: u64,
    ratio: u64,
    maturity: u64,
    ccy: Seq<char>,
) -> ContractModel {
    ContractModel::And(
        Box::new(amount_at_model(redemption, maturity, ccy)),
        Box::new(
            ContractModel::Give(
                Box::new(
                    paid_at_model(
                        ObservableModel::Mul(
                            Box::new(put_payoff_model(asset, strike)),
                            Box::new(ObservableModel::Const(ratio)),
                        ),
                        maturity,
                        ccy,
                    ),
                ),
            ),
        ),
    )
}

/// Model of the capital-protected note: `notional` at maturity, plus `ratio`
/// calls struck at `s0`.
pub open spec fn capital_protected_note_model(
    asset: Seq<char>,
    notional: u64,
    s0: u64,
    ratio: u64,
    maturity: u64,
    ccy: Seq<char>,
) -> ContractModel {
    ContractModel::And(
        Box::new(amount_at_model(notional, maturity, ccy)),
        Box::new(
            paid_at_model(
                ObservableModel::Mul(
                    Box::new(call_payoff_model(asset, s0)),
                    Box::new(ObservableModel::Const(ratio)),
                ),
                maturity,
                ccy,
            ),
        ),
    )
}

/// Autocallable note: pays `redemption` (the notional plus the coupon) as
/// soon as the spot reaches `barrier`; otherwise pays `notional` at
/// `maturity`, a payment cancelled once the barrier is hit.
pub fn autocallable(
    asset: &str,
    redemption: u64,
    notional: u64,
    barrier: u64,
    maturity: u64,
    ccy: &str,
) -> (c: Contract)
    ensures
        c@ == autocallable_model(asset@, redemption, notional, barrier, maturity, ccy@),
{
    proof {
        reveal_with_fuel(contract_model, 5);
        reveal_with_fuel(obs_model, 3);
        reveal_with_fuel(cond_model, 2);
    }
    let hit = Condition::Ge(spot(asset), konst(barrier));
    crate::ast::and(
        crate::ast::anytime(hit.clone(), scale(konst(redemption), one(ccy))),
        crate::ast::until(hit, crate::ast::when(at(maturity), scale(konst(notional), one(ccy)))),
    )
}

/// Reverse convertible: pays `redemption` (the notional plus the coupon) at
/// `maturity` and is short `ratio` (the notional over the strike) puts struck
/// at `strike`.
pub fn reverse_convertible(
    asset: &str,
    redemption: u64,
    strike: u64,
    ratio: u64,
    maturity: u64,
    ccy: &str,
) -> (c: Contract)
    ensures
        c@ == reverse_convertible_model(asset@, redemption, strike, ratio, maturity, ccy@),
{
    proof {
        reveal_with_fuel(contract_model, 5);
        reveal_with_fuel(obs_model, 4);
        reveal_with_fuel(cond_model, 2);
    }
    let put = (konst(strike) - spot(asset)).clip(ZERO_BITS) * konst(ratio);
    crate::ast::and(
        crate::ast::when(at(maturity), scale(konst(redemption), one(ccy))),
        crate::ast::give(crate::ast::when(at(maturity), scale(put, one(ccy)))),
    )
}

/// Capital-protected note: pays `notional` at `maturity`, plus `ratio` (the
/// participation times the notional over `s0`) calls struck at `s0`.
pub fn capital_protected_note(
    asset: &str,
    notional: u64,
    s0: u64,
    ratio: u64,
    maturity: u64,
    ccy: &str,
) -> (c: Contract)
    ensures
        c@ == capital_protected_note_model(asset@, notional, s0, ratio, maturity, ccy@),
{
    proof {
        reveal_with_fuel(contract_model, 5);
        reveal_with_fuel(obs_model, 4);
        reveal_with_fuel(cond_model, 2);
    }
    let upside = (spot(asset) - konst(s0)).clip(ZERO_BITS) * konst(ratio);
    crate::ast::and(
        crate::ast::when(at(maturity), scale(konst(notional), one(ccy))),
        crate::ast::when(at(maturity), scale(upside, one(ccy))),
    )
}

/// The date, payoff and currency of a payoff paid at a date, if the contract
/// is one.
pub open spec fn paid_at_parts(c: ContractModel) -> Option<(u64, ObservableModel, Seq<char>)> {
    match c {
        ContractModel::When(ConditionModel::At(t), inner) => match *inner {
            ContractModel::Scale(p, one) => match *one {
                ContractModel::One(ccy) => Some((t, p, ccy)),
                _ => None,
            },
            _ => None,
        },
        _ => None,
    }
}

/// `max(x, 0)`.
pub open spec fn positive_part(x: int) -> int {
    if x >= 0 {
        x
    } else {
        0
    }
}

/// The contract pays, at `t` and in `ccy`, a payoff whose exact value is
/// `value(konst_value, spot_value)` for every reading of constants (zero read
/// as zero) and spots.
pub open spec fn pays_at(
    c: ContractModel,
    t: u64,
    ccy: Seq<char>,
    value: spec_fn(spec_fn(u64) -> int, spec_fn(Seq<char>) -> int) -> int,
) -> bool {
    &&& paid_at_parts(c) is Some
    &&& paid_at_parts(c)->Some_0.0 == t
    &&& paid_at_parts(c)->Some_0.2 == ccy
    &&& forall|kv: spec_fn(u64) -> int, sv: spec_fn(Seq<char>) -> int|
        kv(ZERO_BITS) == 0 ==> #[trigger] exact_value(paid_at_parts(c)->Some_0.1, kv, sv) == Some(
            value(kv, sv),
        )
}

/// The vanilla payoffs: the call pays `max(S - K, 0)`, the put
/// `max(K - S, 0)`, the forward `S - K`, each at its maturity; so the put
/// and the call differ, and the straddle (a call and a put) pays `|S - K|`.
pub proof fn lemma_vanilla_payoffs(asset: Seq<char>, k: u64, t: u64, ccy: Seq<char>)
    ensures
        pays_at(
            european_call_model(asset, k, t, ccy),
            t,
            ccy,
            |kv: spec_fn(u64) -> int, sv: spec_fn(Seq<char>) -> int| positive_part(sv(asset) - kv(k)),
        ),
        pays_at(
            european_put_model(asset, k, t, ccy),
            t,
            ccy,
            |kv: spec_fn(u64) -> int, sv: spec_fn(Seq<char>) -> int| positive_part(kv(k) - sv(asset)),
        ),
        pays_at(
            forward_model(asset, k, t, ccy),
            t,
            ccy,
            |kv: spec_fn(u64) -> int, sv: spec_fn(Seq<char>) -> int| sv(asset) - kv(k),
        ),
        european_put_model(asset, k, t, ccy) != european_call_model(asset, k, t, ccy),
        forall|kv: spec_fn(u64) -> int, sv: spec_fn(Seq<char>) -> int|
            kv(ZERO_BITS) == 0 ==> #[trigger] exact_value(
                paid_at_parts(european_call_model(asset, k, t, ccy))->Some_0.1,
                kv,
                sv,
            )->Some_0 + exact_value(
                paid_at_parts(european_put_model(asset, k, t, ccy))->Some_0.1,
                kv,
                sv,
            )->Some_0 == if sv(asset) >= kv(k) {
                sv(asset) - kv(k)
            } else {
                kv(k) - sv(asset)
            },
{
    let call = european_call_model(asset, k, t, ccy);
    let put = european_put_model(asset, k, t, ccy);
    let fwd = forward_model(asset, k, t, ccy);
    assert forall|kv: spec_fn(u64) -> int, sv: spec_fn(Seq<char>) -> int|
        kv(ZERO_BITS) == 0 implies #[trigger] exact_value(paid_at_parts(call)->Some_0.1, kv, sv)
        == Some(positive_part(sv(asset) - kv(k))) by {
        reveal_with_fuel(exact_value, 3);
    }
    assert forall|kv: spec_fn(u64) -> int, sv: spec_fn(Seq<char>) -> int|
        kv(ZERO_BITS) == 0 implies #[trigger] exact_value(paid_at_parts(put)->Some_0.1, kv, sv)
        == Some(positive_part(kv(k) - sv(asset))) by {
        reveal_with_fuel(exact_value, 3);
    }
    assert forall|kv: spec_fn(u64) -> int, sv: spec_fn(Seq<char>) -> int|
        kv(ZERO_BITS) == 0 implies #[trigger] exact_value(paid_at_parts(fwd)->Some_0.1, kv, sv)
        == Some(sv(asset) - kv(k)) by {
        reveal_with_fuel(exact_value, 3);
    }
    let kv0 = |x: u64| 0int;
    let sv1 = |n: Seq<char>| 1int;
    assert(kv0(ZERO_BITS) == 0);
    assert(exact_value(paid_at_parts(call)->Some_0.1, kv0, sv1) == Some(1int));
    assert(exact_value(paid_at_parts(put)->Some_0.1, kv0, sv1) == Some(0int));
}

/// Model of the forward.
pub open spec fn forward_model(asset: Seq<char>, k: u64, t: u64, ccy: Seq<char>) -> ContractModel {
    paid_at_model(
        ObservableModel::Sub(Box::new(ObservableModel::Spot(asset)), Box::new(ObservableModel::Const(k))),
        t,
        ccy,
    )
}

/// The combinations of vanilla options: a straddle holds the call and the put
/// of one strike; a bull call spread holds the lower-strike call and sells
/// the higher-strike one; a knock-out call is the call held until the spot
/// reaches (up) or falls to (down) the barrier; a digital call pays the fixed
/// amount at maturity when the spot is then at or above the strike.
pub proof fn lemma_option_combinations(
    asset: Seq<char>,
    k: u64,
    k_high: u64,
    barrier: u64,
    payout: u64,
    t: u64,
    ccy: Seq<char>,
)
    ensures
        knock_out_model(
            ConditionModel::Ge(ObservableModel::Spot(asset), ObservableModel::Const(barrier)),
            european_call_model(asset, k, t, ccy),
        ) matches ContractModel::Until(ConditionModel::Ge(x, y), inner) && x == ObservableModel::Spot(
            asset,
        ) && y == ObservableModel::Const(barrier) && *inner == european_call_model(asset, k, t, ccy),
        knock_out_model(
            ConditionModel::Le(ObservableModel::Spot(asset), ObservableModel::Const(barrier)),
            european_call_model(asset, k, t, ccy),
        ) matches ContractModel::Until(ConditionModel::Le(x, y), inner) && x == ObservableModel::Spot(
            asset,
        ) && y == ObservableModel::Const(barrier) && *inner == european_call_model(asset, k, t, ccy),
        k != k_high ==> european_call_model(asset, k, t, ccy) != european_call_model(
            asset,
            k_high,
            t,
            ccy,
        ),
{
}

/// The structured notes: the reverse convertible pays its redemption at
/// maturity and is short `ratio` puts (`ratio * max(K - S, 0)` then); the
/// capital-protected note pays its notional plus `ratio * max(S - S0, 0)` at
/// maturity; the autocallable pays its redemption when the spot first
/// reaches the barrier, and its notional at maturity only if the barrier was
/// not reached before.
pub proof fn lemma_structured_payoffs(
    asset: Seq<char>,
    redemption: u64,
    notional: u64,
    strike: u64,
    ratio: u64,
    barrier: u64,
    t: u64,
    ccy: Seq<char>,
)
    ensures
        ({
            let rc = reverse_convertible_model(asset, redemption, strike, ratio, t, ccy);
            &&& rc is And
            &&& pays_at(
                *rc->And_0,
                t,
                ccy,
                |kv: spec_fn(u64) -> int, sv: spec_fn(Seq<char>) -> int| kv(redemption),
            )
            &&& *rc->And_1 is Give
            &&& pays_at(
                *(*rc->And_1)->Give_0,
                t,
                ccy,
                |kv: spec_fn(u64) -> int, sv: spec_fn(Seq<char>) -> int|
                    positive_part(kv(strike) - sv(asset)) * kv(ratio),
            )
        }),
        ({
            let cp = capital_protected_note_model(asset, notional, strike, ratio, t, ccy);
            &&& cp is And
            &&& pays_at(
                *cp->And_0,
                t,
                ccy,
                |kv: spec_fn(u64) -> int, sv: spec_fn(Seq<char>) -> int| kv(notional),
            )
            &&& pays_at(
                *cp->And_1,
                t,
                ccy,
                |kv: spec_fn(u64) -> int, sv: spec_fn(Seq<char>) -> int|
                    positive_part(sv(asset) - kv(strike)) * kv(ratio),
            )
        }),
        ({
            let au = autocallable_model(asset, redemption, notional, barrier, t, ccy);
            let hit = ConditionModel::Ge(ObservableModel::Spot(asset), ObservableModel::Const(barrier));
            &&& au is And
            &&& *au->And_0 == ContractModel::Anytime(
                hit,
                Box::new(
                    ContractModel::Scale(
                        ObservableModel::Const(redemption),
                        Box::new(ContractModel::One(ccy)),
                    ),
                ),
            )
            &&& *au->And_1 is Until
            &&& (*au->And_1)->Until_0 == hit
            &&& pays_at(
                *(*au->And_1)->Until_1,
                t,
                ccy,
                |kv: spec_fn(u64) -> int, sv: spec_fn(Seq<char>) -> int| kv(notional),
            )
        }),
{
    let rc = reverse_convertible_model(asset, redemption, strike, ratio, t, ccy);
    let cp = capital_protected_note_model(asset, notional, strike, ratio, t, ccy);
    let au = autocallable_model(asset, redemption, notional, barrier, t, ccy);
    if let ContractModel::And(a, g) = rc {
        assert forall|kv: spec_fn(u64) -> int, sv: spec_fn(Seq<char>) -> int|
            kv(ZERO_BITS) == 0 implies #[trigger] exact_value(paid_at_parts(*a)->Some_0.1, kv, sv)
            == Some(kv(redemption)) by {
        }
        if let ContractModel::Give(p) = *g {
            assert forall|kv: spec_fn(u64) -> int, sv: spec_fn(Seq<char>) -> int|
                kv(ZERO_BITS) == 0 implies #[trigger] exact_value(paid_at_parts(*p)->Some_0.1, kv, sv)
                == Some(positive_part(kv(strike) - sv(asset)) * kv(ratio)) by {
                reveal_with_fuel(exact_value, 4);
            }
        }
    }
    if let ContractModel::And(a, b) = cp {
        assert forall|kv: spec_fn(u64) -> int, sv: spec_fn(Seq<char>) -> int|
            kv(ZERO_BITS) == 0 implies #[trigger] exact_value(paid_at_parts(*a)->Some_0.1, kv, sv)
            == Some(kv(notional)) by {
        }
        assert forall|kv: spec_fn(u64) -> int, sv: spec_fn(Seq<char>) -> int|
            kv(ZERO_BITS) == 0 implies #[trigger] exact_value(paid_at_parts(*b)->Some_0.1, kv, sv)
            == Some(positive_part(sv(asset) - kv(strike)) * kv(ratio)) by {
            reveal_with_fuel(exact_value, 4);
        }
    }
    if let ContractModel::And(x, y) = au {
        if let ContractModel::Until(c, z) = *y {
            assert forall|kv: spec_fn(u64) -> int, sv: spec_fn(Seq<char>) -> int|
                kv(ZERO_BITS) == 0 implies #[trigger] exact_value(paid_at_parts(*z)->Some_0.1, kv, sv)
                == Some(kv(notional)) by {
            }
        }
    }
}

// --- Laws -----------------------------------------------------------------------

/// A European call or put refers to its underlying and its maturity only,
/// is well formed exactly when the maturity is valid, and needs no fine
/// monitoring grid: only the maturity is simulated.
pub proof fn lemma_vanilla_option_plan(asset: Seq<char>, k: u64, t: u64, ccy: Seq<char>)
    ensures
        contract_assets(european_call_model(asset, k, t, ccy)) == set![asset],
        contract_assets(european_put_model(asset, k, t, ccy)) == set![asset],
        contract_dates(european_call_model(asset, k, t, ccy)) == set![normalized_date(t)],
        contract_dates(european_put_model(asset, k, t, ccy)) == set![normalized_date(t)],
        contract_dates_valid(european_call_model(asset, k, t, ccy)) == valid_date(t),
        contract_dates_valid(european_put_model(asset, k, t, ccy)) == valid_date(t),
        !contract_needs_fine_grid(european_call_model(asset, k, t, ccy)),
        !contract_needs_fine_grid(european_put_model(asset, k, t, ccy)),
{
    reveal_with_fuel(crate::compiler::obs_assets, 3);
    reveal_with_fuel(crate::compiler::obs_path_dependent, 3);
    reveal_with_fuel(crate::compiler::contract_assets, 4);
    reveal_with_fuel(crate::compiler::contract_dates, 4);
    reveal_with_fuel(crate::compiler::contract_dates_valid, 4);
    reveal_with_fuel(crate::compiler::contract_needs_fine_grid, 4);
    assert(contract_assets(european_call_model(asset, k, t, ccy)) =~= set![asset]);
    assert(contract_assets(european_put_model(asset, k, t, ccy)) =~= set![asset]);
    assert(contract_dates(european_call_model(asset, k, t, ccy)) =~= set![normalized_date(t)]);
    assert(contract_dates(european_put_model(asset, k, t, ccy)) =~= set![normalized_date(t)]);
}

/// A zero-coupon bond refers to no underlying, only to its date, and needs no
/// fine grid.
pub proof fn lemma_zero_coupon_bond_plan(ccy: Seq<char>, t: u64)
    ensures
        contract_assets(zero_coupon_bond_model(ccy, t)) == Set::<Seq<char>>::empty(),
        contract_dates(zero_coupon_bond_model(ccy, t)) == set![normalized_date(t)],
        contract_dates_valid(zero_coupon_bond_model(ccy, t)) == valid_date(t),
        !contract_needs_fine_grid(zero_coupon_bond_model(ccy, t)),
{
    reveal_with_fuel(crate::compiler::contract_assets, 4);
    reveal_with_fuel(crate::compiler::contract_dates, 4);
    reveal_with_fuel(crate::compiler::contract_dates_valid, 4);
    reveal_with_fuel(crate::compiler::contract_needs_fine_grid, 4);
    assert(contract_assets(zero_coupon_bond_model(ccy, t)) =~= Set::<Seq<char>>::empty());
    assert(contract_dates(zero_coupon_bond_model(ccy, t)) =~= set![normalized_date(t)]);
}

/// A knock-out call (up-and-out or down-and-out) refers to its underlying and
/// its maturity only, and always needs the fine grid on which its barrier is
/// monitored.
pub proof fn lemma_knock_out_call_plan(
    asset: Seq<char>,
    k: u64,
    barrier: u64,
    t: u64,
    ccy: Seq<char>,
)
    ensures
        ({
            let up = knock_out_model(
                ConditionModel::Ge(ObservableModel::Spot(asset), ObservableModel::Const(barrier)),
                european_call_model(asset, k, t, ccy),
            );
            let down = knock_out_model(
                ConditionModel::Le(ObservableModel::Spot(asset), ObservableModel::Const(barrier)),
                european_call_model(asset, k, t, ccy),
            );
            &&& contract_assets(up) == set![asset]
            &&& contract_assets(down) == set![asset]
            &&& contract_dates(up) == set![normalized_date(t)]
            &&& contract_dates(down) == set![normalized_date(t)]
            &&& contract_dates_valid(up) == valid_date(t)
            &&& contract_dates_valid(down) == valid_date(t)
            &&& contract_needs_fine_grid(up)
            &&& contract_needs_fine_grid(down)
        }),
{
    reveal_with_fuel(crate::compiler::obs_assets, 3);
    reveal_with_fuel(crate::compiler::obs_path_dependent, 3);
    reveal_with_fuel(crate::compiler::contract_assets, 4);
    reveal_with_fuel(crate::compiler::contract_dates, 4);
    reveal_with_fuel(crate::compiler::contract_dates_valid, 4);
    reveal_with_fuel(crate::compiler::contract_needs_fine_grid, 4);
    lemma_vanilla_option_plan(asset, k, t, ccy);
    let up = knock_out_model(
        ConditionModel::Ge(ObservableModel::Spot(asset), ObservableModel::Const(barrier)),
        european_call_model(asset, k, t, ccy),
    );
    let down = knock_out_model(
        ConditionModel::Le(ObservableModel::Spot(asset), ObservableModel::Const(barrier)),
        european_call_model(asset, k, t, ccy),
    );
    assert(contract_assets(up) =~= set![asset]);
    assert(contract_assets(down) =~= set![asset]);
    assert(contract_dates(up) =~= set![normalized_date(t)]);
    assert(contract_dates(down) =~= set![normalized_date(t)]);
}

} // verus!
