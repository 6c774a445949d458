//! The compiler: static analysis of a [`Contract`] into a [`Plan`], the little
//! that the simulator and the pricer need to know about it.
//!
//! Three pieces of information are extracted:
//!   - the underlyings that the contract refers to (what to simulate);
//!   - the explicit acquisition dates (`at(t)`), dates closer than `1e-12`
//!     being merged;
//!   - whether a barrier must be monitored on a fine grid: a price-dependent
//!     condition under `when`/`until`/`anytime`, or a path-dependent observable
//!     (`average`, `running_max`, `running_min`).
//!
//! Dates are binary64 bit patterns. A date is valid when it is finite and not
//! negative; for such values the order of the bit patterns is the numeric
//! order, so the compiler sorts them as integers. A negative zero is sorted
//! and merged as zero; the leading zero of a plan keeps the sign of the zero
//! date written first.
use vstd::prelude::*;

use crate::ast::{
    Condition, ConditionModel, Contract, ContractModel, Observable, ObservableModel,
};
use crate::dates::{merge_near, merge_near_dates, near_dates};
use crate::ast::bits_equal;
use crate::error::KontractError;
use crate::observable::series_equal;
use crate::order::{
    date_set, dates_sorted, insert_date, insert_name, lemma_key_injective, lemma_lex_asymmetric,
    lemma_lex_transitive, name_key, name_set, names_sorted,
};

verus! {

/// Bit pattern of the binary64 negative zero.
pub const NEG_ZERO_BITS: u64 = 0x8000_0000_0000_0000u64;

/// Bit pattern of the binary64 positive infinity: every finite, non-negative
/// value lies strictly below it.
pub const POS_INFINITY_BITS: u64 = 0x7FF0_0000_0000_0000u64;

/// The bit pattern is that of a finite, non-negative binary64 number.
pub open spec fn valid_date(bits: u64) -> bool {
    bits < POS_INFINITY_BITS || bits == NEG_ZERO_BITS
}

/// The date as it is sorted and compared: negative zero counts as zero.
pub open spec fn normalized_date(bits: u64) -> u64 {
    if bits == NEG_ZERO_BITS {
        0
    } else {
        bits
    }
}

/// Underlyings referred to by an observable.
pub open spec fn obs_assets(o: ObservableModel) -> Set<Seq<char>>
    decreases o,
{
    match o {
        ObservableModel::Const(_) => Set::empty(),
        ObservableModel::Spot(n) => Set::empty().insert(n),
        ObservableModel::Neg(a) => obs_assets(*a),
        ObservableModel::Add(a, b) => obs_assets(*a).union(obs_assets(*b)),
        ObservableModel::Sub(a, b) => obs_assets(*a).union(obs_assets(*b)),
        ObservableModel::Mul(a, b) => obs_assets(*a).union(obs_assets(*b)),
        ObservableModel::Div(a, b) => obs_assets(*a).union(obs_assets(*b)),
        ObservableModel::Max(a, b) => obs_assets(*a).union(obs_assets(*b)),
        ObservableModel::Min(a, b) => obs_assets(*a).union(obs_assets(*b)),
        ObservableModel::Average { obs, .. } => obs_assets(*obs),
        ObservableModel::RunningMax(a) => obs_assets(*a),
        ObservableModel::RunningMin(a) => obs_assets(*a),
    }
}

/// The observable depends on the path's history (a mean or a running extremum).
pub open spec fn obs_path_dependent(o: ObservableModel) -> bool
    decreases o,
{
    match o {
        ObservableModel::Const(_) => false,
        ObservableModel::Spot(_) => false,
        ObservableModel::Neg(a) => obs_path_dependent(*a),
        ObservableModel::Add(a, b) => obs_path_dependent(*a) || obs_path_dependent(*b),
        ObservableModel::Sub(a, b) => obs_path_dependent(*a) || obs_path_dependent(*b),
        ObservableModel::Mul(a, b) => obs_path_dependent(*a) || obs_path_dependent(*b),
        ObservableModel::Div(a, b) => obs_path_dependent(*a) || obs_path_dependent(*b),
        ObservableModel::Max(a, b) => obs_path_dependent(*a) || obs_path_dependent(*b),
        ObservableModel::Min(a, b) => obs_path_dependent(*a) || obs_path_dependent(*b),
        ObservableModel::Average { .. } => true,
        ObservableModel::RunningMax(_) => true,
        ObservableModel::RunningMin(_) => true,
    }
}

/// Underlyings referred to by a condition.
pub open spec fn cond_assets(c: ConditionModel) -> Set<Seq<char>>
    decreases c,
{
    match c {
        ConditionModel::Bool(_) => Set::empty(),
        ConditionModel::At(_) => Set::empty(),
        ConditionModel::Ge(a, b) => obs_assets(a).union(obs_assets(b)),
        ConditionModel::Gt(a, b) => obs_assets(a).union(obs_assets(b)),
        ConditionModel::Le(a, b) => obs_assets(a).union(obs_assets(b)),
        ConditionModel::Lt(a, b) => obs_assets(a).union(obs_assets(b)),
        ConditionModel::And(a, b) => cond_assets(*a).union(cond_assets(*b)),
        ConditionModel::Or(a, b) => cond_assets(*a).union(cond_assets(*b)),
        ConditionModel::Not(a) => cond_assets(*a),
    }
}

/// Every `at` date of the condition is valid.
pub open spec fn cond_dates_valid(c: ConditionModel) -> bool
    decreases c,
{
    match c {
        ConditionModel::At(t) => valid_date(t),
        ConditionModel::And(a, b) => cond_dates_valid(*a) && cond_dates_valid(*b),
        ConditionModel::Or(a, b) => cond_dates_valid(*a) && cond_dates_valid(*b),
        ConditionModel::Not(a) => cond_dates_valid(*a),
        _ => true,
    }
}

/// The (normalized) `at` dates of the condition.
pub open spec fn cond_dates(c: ConditionModel) -> Set<u64>
    decreases c,
{
    match c {
        ConditionModel::At(t) => Set::empty().insert(normalized_date(t)),
        ConditionModel::And(a, b) => cond_dates(*a).union(cond_dates(*b)),
        ConditionModel::Or(a, b) => cond_dates(*a).union(cond_dates(*b)),
        ConditionModel::Not(a) => cond_dates(*a),
        _ => Set::empty(),
    }
}

/// The condition compares observables (as opposed to a purely temporal
/// condition such as `at`).
pub open spec fn cond_price_dependent(c: ConditionModel) -> bool
    decreases c,
{
    match c {
        ConditionModel::Bool(_) => false,
        ConditionModel::At(_) => false,
        ConditionModel::Ge(..) => true,
        ConditionModel::Gt(..) => true,
        ConditionModel::Le(..) => true,
        ConditionModel::Lt(..) => true,
        ConditionModel::And(a, b) => cond_price_dependent(*a) || cond_price_dependent(*b),
        ConditionModel::Or(a, b) => cond_price_dependent(*a) || cond_price_dependent(*b),
        ConditionModel::Not(a) => cond_price_dependent(*a),
    }
}

/// A path-dependent observable occurs in the condition.
pub open spec fn cond_path_dependent(c: ConditionModel) -> bool
    decreases c,
{
    match c {
        ConditionModel::Bool(_) => false,
        ConditionModel::At(_) => false,
        ConditionModel::Ge(a, b) => obs_path_dependent(a) || obs_path_dependent(b),
        ConditionModel::Gt(a, b) => obs_path_dependent(a) || obs_path_dependent(b),
        ConditionModel::Le(a, b) => obs_path_dependent(a) || obs_path_dependent(b),
        ConditionModel::Lt(a, b) => obs_path_dependent(a) || obs_path_dependent(b),
        ConditionModel::And(a, b) => cond_path_dependent(*a) || cond_path_dependent(*b),
        ConditionModel::Or(a, b) => cond_path_dependent(*a) || cond_path_dependent(*b),
        ConditionModel::Not(a) => cond_path_dependent(*a),
    }
}

/// Underlyings referred to by a contract.
pub open spec fn contract_assets(k: ContractModel) -> Set<Seq<char>>
    decreases k,
{
    match k {
        ContractModel::Zero => Set::empty(),
        ContractModel::One(_) => Set::empty(),
        ContractModel::Give(a) => contract_assets(*a),
        ContractModel::And(a, b) => contract_assets(*a).union(contract_assets(*b)),
        ContractModel::Or(a, b) => contract_assets(*a).union(contract_assets(*b)),
        ContractModel::Scale(o, a) => obs_assets(o).union(contract_assets(*a)),
        ContractModel::When(c, a) => cond_assets(c).union(contract_assets(*a)),
        ContractModel::Anytime(c, a) => cond_assets(c).union(contract_assets(*a)),
        ContractModel::Until(c, a) => cond_assets(c).union(contract_assets(*a)),
    }
}

/// Every acquisition date of the contract is valid.
pub open spec fn contract_dates_valid(k: ContractModel) -> bool
    decreases k,
{
    match k {
        ContractModel::Zero => true,
        ContractModel::One(_) => true,
        ContractModel::Give(a) => contract_dates_valid(*a),
        ContractModel::And(a, b) => contract_dates_valid(*a) && contract_dates_valid(*b),
        ContractModel::Or(a, b) => contract_dates_valid(*a) && contract_dates_valid(*b),
        ContractModel::Scale(_, a) => contract_dates_valid(*a),
        ContractModel::When(c, a) => cond_dates_valid(c) && contract_dates_valid(*a),
        ContractModel::Anytime(c, a) => cond_dates_valid(c) && contract_dates_valid(*a),
        ContractModel::Until(c, a) => cond_dates_valid(c) && contract_dates_valid(*a),
    }
}

/// The (normalized) acquisition dates of the contract.
pub open spec fn contract_dates(k: ContractModel) -> Set<u64>
    decreases k,
{
    match k {
        ContractModel::Zero => Set::empty(),
        ContractModel::One(_) => Set::empty(),
        ContractModel::Give(a) => contract_dates(*a),
        ContractModel::And(a, b) => contract_dates(*a).union(contract_dates(*b)),
        ContractModel::Or(a, b) => contract_dates(*a).union(contract_dates(*b)),
        ContractModel::Scale(_, a) => contract_dates(*a),
        ContractModel::When(c, a) => cond_dates(c).union(contract_dates(*a)),
        ContractModel::Anytime(c, a) => cond_dates(c).union(contract_dates(*a)),
        ContractModel::Until(c, a) => cond_dates(c).union(contract_dates(*a)),
    }
}

/// The first of two optional values that is present.
pub open spec fn or_else(a: Option<u64>, b: Option<u64>) -> Option<u64> {
    if a is Some {
        a
    } else {
        b
    }
}

/// The bit pattern (zero or negative zero) of the first zero `at` date of a
/// condition, in reading order.
pub open spec fn cond_first_zero(c: ConditionModel) -> Option<u64>
    decreases c,
{
    match c {
        ConditionModel::At(t) => if t == 0 || t == NEG_ZERO_BITS {
            Some(t)
        } else {
            None
        },
        ConditionModel::And(a, b) => or_else(cond_first_zero(*a), cond_first_zero(*b)),
        ConditionModel::Or(a, b) => or_else(cond_first_zero(*a), cond_first_zero(*b)),
        ConditionModel::Not(a) => cond_first_zero(*a),
        _ => None,
    }
}

/// The bit pattern (zero or negative zero) of the first zero `at` date of a
/// contract, in reading order.
pub open spec fn contract_first_zero(k: ContractModel) -> Option<u64>
    decreases k,
{
    match k {
        ContractModel::Zero => None,
        ContractModel::One(_) => None,
        ContractModel::Give(a) => contract_first_zero(*a),
        ContractModel::And(a, b) => or_else(contract_first_zero(*a), contract_first_zero(*b)),
        ContractModel::Or(a, b) => or_else(contract_first_zero(*a), contract_first_zero(*b)),
        ContractModel::Scale(_, a) => contract_first_zero(*a),
        ContractModel::When(c, a) => or_else(cond_first_zero(c), contract_first_zero(*a)),
        ContractModel::Anytime(c, a) => or_else(cond_first_zero(c), contract_first_zero(*a)),
        ContractModel::Until(c, a) => or_else(cond_first_zero(c), contract_first_zero(*a)),
    }
}

/// Sorted dates whose leading zero, if any, is written as the zero found
/// first (`0.0` or `-0.0`).
pub open spec fn with_first_zero(s: Seq<u64>, z: Option<u64>) -> Seq<u64> {
    match z {
        Some(b) => if s.len() > 0 && s[0] == 0 {
            s.update(0, b)
        } else {
            s
        },
        None => s,
    }
}

/// The contract must be simulated on a fine grid: a price-dependent condition
/// governs an acquisition or a knock-out, or a path-dependent observable
/// occurs somewhere.
pub open spec fn contract_needs_fine_grid(k: ContractModel) -> bool
    decreases k,
{
    match k {
        ContractModel::Zero => false,
        ContractModel::One(_) => false,
        ContractModel::Give(a) => contract_needs_fine_grid(*a),
        ContractModel::And(a, b) => contract_needs_fine_grid(*a) || contract_needs_fine_grid(*b),
        ContractModel::Or(a, b) => contract_needs_fine_grid(*a) || contract_needs_fine_grid(*b),
        ContractModel::Scale(o, a) => obs_path_dependent(o) || contract_needs_fine_grid(*a),
        ContractModel::When(c, a) => cond_price_dependent(c) || cond_path_dependent(c)
            || contract_needs_fine_grid(*a),
        ContractModel::Anytime(c, a) => cond_price_dependent(c) || cond_path_dependent(c)
            || contract_needs_fine_grid(*a),
        ContractModel::Until(c, a) => cond_price_dependent(c) || cond_path_dependent(c)
            || contract_needs_fine_grid(*a),
    }
}

/// The acquisition dates of `k`, in increasing order and without duplicates.
pub open spec fn dates_in_order(k: ContractModel) -> Seq<u64> {
    choose|s: Seq<u64>| dates_sorted(s) && date_set(s) == contract_dates(k)
}

/// The last of a sorted list of dates, or zero.
pub open spec fn latest_date(s: Seq<u64>) -> u64 {
    if s.len() == 0 {
        0
    } else {
        s.last()
    }
}

/// The plan extracted from a contract.
#[derive(Debug, PartialEq)]
pub struct Plan {
    /// Underlyings referred to, sorted and without duplicates.
    pub assets: Vec<String>,
    /// Explicit acquisition dates (`at(t)`), sorted, each date that lies less
    /// than `1e-12` after the previous date kept being dropped; a leading zero
    /// is written as the zero date met first (`0.0` or `-0.0`).
    pub fixed_dates: Vec<u64>,
    /// Latest acquisition date (dropped or not), or zero.
    pub horizon: u64,
    /// A barrier (or a path-dependent observable) must be monitored.
    pub needs_fine_grid: bool,
}

impl Clone for Plan {
    /// A copy holding the same underlyings, dates, horizon and flag.
    fn clone(&self) -> (r: Plan)
        ensures
            name_views(r.assets@) == name_views(self.assets@),
            r.fixed_dates@ == self.fixed_dates@,
            r.horizon == self.horizon,
            r.needs_fine_grid == self.needs_fine_grid,
    {
        let assets = self.assets.clone();
        assert(name_views(assets@) =~= name_views(self.assets@)) by {
            assert forall|i: int| 0 <= i < assets@.len() implies #[trigger] name_views(assets@)[i]
                == name_views(self.assets@)[i] by {
                assert(cloned::<String>(self.assets[i], assets[i]));
            }
        }
        let fixed_dates = self.fixed_dates.clone();
        assert(fixed_dates@ =~= self.fixed_dates@);
        Plan { assets, fixed_dates, horizon: self.horizon, needs_fine_grid: self.needs_fine_grid }
    }
}

impl Plan {
    /// The plan is the one that `compile` gives for `k`.
    pub open spec fn describes(&self, k: ContractModel) -> bool {
        &&& names_sorted(self.assets@)
        &&& name_set(self.assets@) == contract_assets(k)
        &&& dates_sorted(dates_in_order(k))
        &&& date_set(dates_in_order(k)) == contract_dates(k)
        &&& forall|d: u64| contract_dates(k).contains(d) ==> d < POS_INFINITY_BITS
        &&& self.fixed_dates@ == with_first_zero(
            merge_near(dates_in_order(k)),
            contract_first_zero(k),
        )
        &&& self.horizon == latest_date(dates_in_order(k))
        &&& self.needs_fine_grid == contract_needs_fine_grid(k)
    }
}

/// Mutable state of the traversal.
struct Accumulator {
    assets: Vec<String>,
    dates: Vec<u64>,
    needs_fine_grid: bool,
    /// The first zero date met, as written.
    first_zero: Option<u64>,
}

impl Accumulator {
    spec fn wf(&self) -> bool {
        &&& names_sorted(self.assets@)
        &&& dates_sorted(self.dates@)
        &&& forall|d: u64| date_set(self.dates@).contains(d) ==> d < POS_INFINITY_BITS
    }
}

fn walk_observable(o: &Observable, acc: &mut Accumulator)
    requires
        old(acc).wf(),
    ensures
        final(acc).wf(),
        name_set(final(acc).assets@) == name_set(old(acc).assets@).union(obs_assets(o@)),
        final(acc).dates@ == old(acc).dates@,
        final(acc).needs_fine_grid == (old(acc).needs_fine_grid || obs_path_dependent(o@)),
        final(acc).first_zero == old(acc).first_zero,
    decreases o,
{
    let ghost before = name_set(acc.assets@);
    match o {
        Observable::Const(_) => {
            assert(name_set(acc.assets@) =~= before.union(obs_assets(o@)));
        },
        Observable::Spot(name) => {
            insert_name(&mut acc.assets, name.as_str());
            assert(name_set(acc.assets@) =~= before.union(obs_assets(o@)));
        },
        Observable::Neg(a) => walk_observable(a, acc),
        Observable::Add(a, b) | Observable::Sub(a, b) | Observable::Mul(a, b)
        | Observable::Div(a, b) | Observable::Max(a, b) | Observable::Min(a, b) => {
            walk_observable(a, acc);
            walk_observable(b, acc);
            assert(name_set(acc.assets@) =~= before.union(obs_assets(o@)));
        },
        Observable::Average { obs, .. } => {
            walk_observable(obs, acc);
            acc.needs_fine_grid = true;
        },
        Observable::RunningMax(a) | Observable::RunningMin(a) => {
            walk_observable(a, acc);
            acc.needs_fine_grid = true;
        },
    }
}

fn walk_condition(c: &Condition, acc: &mut Accumulator) -> (r: Result<(), KontractError>)
    requires
        old(acc).wf(),
    ensures
        final(acc).wf(),
        r is Ok <==> cond_dates_valid(c@),
        r matches Err(e) ==> e is MalformedContract,
        r is Ok ==> {
            &&& name_set(final(acc).assets@) == name_set(old(acc).assets@).union(cond_assets(c@))
            &&& date_set(final(acc).dates@) == date_set(old(acc).dates@).union(cond_dates(c@))
            &&& final(acc).needs_fine_grid == (old(acc).needs_fine_grid || cond_path_dependent(c@))
            &&& final(acc).first_zero == or_else(old(acc).first_zero, cond_first_zero(c@))
        },
    decreases c,
{
    let ghost names0 = name_set(acc.assets@);
    let ghost dates0 = date_set(acc.dates@);
    match c {
        Condition::Bool(_) => {
            assert(name_set(acc.assets@) =~= names0.union(cond_assets(c@)));
            assert(date_set(acc.dates@) =~= dates0.union(cond_dates(c@)));
            Ok(())
        },
        Condition::At(t) => {
            let t = *t;
            if !(t < POS_INFINITY_BITS || t == NEG_ZERO_BITS) {
                return Err(KontractError::MalformedContract("date d'acquisition invalide".to_owned()));
            }
            let d = if t == NEG_ZERO_BITS { 0u64 } else { t };
            if d == 0 && acc.first_zero.is_none() {
                acc.first_zero = Some(t);
            }
            insert_date(&mut acc.dates, d);
            assert(name_set(acc.assets@) =~= names0.union(cond_assets(c@)));
            assert(date_set(acc.dates@) =~= dates0.union(cond_dates(c@)));
            Ok(())
        },
        Condition::Ge(a, b) | Condition::Gt(a, b) | Condition::Le(a, b) | Condition::Lt(a, b) => {
            walk_observable(a, acc);
            walk_observable(b, acc);
            assert(name_set(acc.assets@) =~= names0.union(cond_assets(c@)));
            assert(date_set(acc.dates@) =~= dates0.union(cond_dates(c@)));
            Ok(())
        },
        Condition::And(a, b) | Condition::Or(a, b) => {
            walk_condition(a, acc)?;
            walk_condition(b, acc)?;
            assert(name_set(acc.assets@) =~= names0.union(cond_assets(c@)));
            assert(date_set(acc.dates@) =~= dates0.union(cond_dates(c@)));
            Ok(())
        },
        Condition::Not(a) => walk_condition(a, acc),
    }
}

/// Whether a condition compares observables.
pub fn condition_is_price_dependent(cond: &Condition) -> (r: bool)
    ensures
        r == cond_price_dependent(cond@),
    decreases cond,
{
    match cond {
        Condition::Bool(_) | Condition::At(_) => false,
        Condition::Ge(..) | Condition::Gt(..) | Condition::Le(..) | Condition::Lt(..) => true,
        Condition::And(a, b) | Condition::Or(a, b) => {
            condition_is_price_dependent(a) || condition_is_price_dependent(b)
        },
        Condition::Not(a) => condition_is_price_dependent(a),
    }
}

fn walk_contract(k: &Contract, acc: &mut Accumulator) -> (r: Result<(), KontractError>)
    requires
        old(acc).wf(),
    ensures
        final(acc).wf(),
        r is Ok <==> contract_dates_valid(k@),
        r matches Err(e) ==> e is MalformedContract,
        r is Ok ==> {
            &&& name_set(final(acc).assets@) == name_set(old(acc).assets@).union(
                contract_assets(k@),
            )
            &&& date_set(final(acc).dates@) == date_set(old(acc).dates@).union(contract_dates(k@))
            &&& final(acc).needs_fine_grid == (old(acc).needs_fine_grid
                || contract_needs_fine_grid(k@))
            &&& final(acc).first_zero == or_else(old(acc).first_zero, contract_first_zero(k@))
        },
    decreases k,
{
    let ghost names0 = name_set(acc.assets@);
    let ghost dates0 = date_set(acc.dates@);
    match k {
        Contract::Zero | Contract::One(_) => {
            assert(name_set(acc.assets@) =~= names0.union(contract_assets(k@)));
            assert(date_set(acc.dates@) =~= dates0.union(contract_dates(k@)));
            Ok(())
        },
        Contract::Give(inner) => walk_contract(inner, acc),
        Contract::And(a, b) | Contract::Or(a, b) => {
            walk_contract(a, acc)?;
            walk_contract(b, acc)?;
            assert(name_set(acc.assets@) =~= names0.union(contract_assets(k@)));
            assert(date_set(acc.dates@) =~= dates0.union(contract_dates(k@)));
            Ok(())
        },
        Contract::Scale(obs, inner) => {
            walk_observable(obs, acc);
            walk_contract(inner, acc)?;
            assert(name_set(acc.assets@) =~= names0.union(contract_assets(k@)));
            assert(date_set(acc.dates@) =~= dates0.union(contract_dates(k@)));
            Ok(())
        },
        Contract::When(cond, inner) | Contract::Anytime(cond, inner) | Contract::Until(
            cond,
            inner,
        ) => {
            walk_condition(cond, acc)?;
            if condition_is_price_dependent(cond) {
                acc.needs_fine_grid = true;
            }
            walk_contract(inner, acc)?;
            assert(name_set(acc.assets@) =~= names0.union(contract_assets(k@)));
            assert(date_set(acc.dates@) =~= dates0.union(contract_dates(k@)));
            Ok(())
        },
    }
}

/// Compiles a contract into its plan.
///
/// Fails with `MalformedContract` exactly when some `at` date is not a
/// finite, non-negative number. The plan's dates are the contract's dates in
/// increasing order, each date that lies less than `1e-12` after the last
/// date kept being dropped; the horizon is the latest date.
pub fn compile(contract: &Contract) -> (r: Result<Plan, KontractError>)
    ensures
        r is Ok <==> contract_dates_valid(contract@),
        r matches Ok(plan) ==> plan.describes(contract@),
        r matches Err(e) ==> e is MalformedContract,
{
    let mut acc = Accumulator {
        assets: Vec::new(),
        dates: Vec::new(),
        needs_fine_grid: false,
        first_zero: None,
    };
    assert(name_set(acc.assets@) =~= Set::empty());
    assert(date_set(acc.dates@) =~= Set::empty());
    walk_contract(contract, &mut acc)?;
    assert(name_set(acc.assets@) =~= contract_assets(contract@));
    assert(date_set(acc.dates@) =~= contract_dates(contract@));
    proof {
        let s = dates_in_order(contract@);
        assert(dates_sorted(acc.dates@) && date_set(acc.dates@) == contract_dates(contract@));
        lemma_sorted_dates_unique(s, acc.dates@);
        assert forall|i: int| 0 <= i < acc.dates@.len() implies #[trigger] acc.dates@[i]
            < POS_INFINITY_BITS by {
            assert(date_set(acc.dates@).contains(acc.dates@[i]));
        }
    }
    let mut fixed_dates = merge_near_dates(&acc.dates);
    proof {
        crate::dates::lemma_merge_near(acc.dates@);
    }
    match acc.first_zero {
        Some(z) => {
            if fixed_dates.len() > 0 && fixed_dates[0] == 0 {
                fixed_dates.set(0, z);
            }
        },
        None => {},
    }
    let n = acc.dates.len();
    let horizon = if n == 0 { 0u64 } else { acc.dates[n - 1] };
    Ok(Plan { assets: acc.assets, fixed_dates, horizon, needs_fine_grid: acc.needs_fine_grid })
}

/// The dates of a list of plans, one plan after the other.
pub open spec fn all_dates(plans: Seq<Plan>) -> Seq<u64>
    decreases plans.len(),
{
    if plans.len() == 0 {
        seq![]
    } else {
        all_dates(plans.drop_last()) + plans.last().fixed_dates@
    }
}

/// The latest horizon of a list of plans, or zero.
pub open spec fn max_horizon(plans: Seq<Plan>) -> u64
    decreases plans.len(),
{
    if plans.len() == 0 {
        0
    } else {
        let h = max_horizon(plans.drop_last());
        if plans.last().horizon > h {
            plans.last().horizon
        } else {
            h
        }
    }
}

/// Some plan of the list needs the fine grid.
pub open spec fn any_fine(plans: Seq<Plan>) -> bool {
    exists|i: int| 0 <= i < plans.len() && #[trigger] plans[i].needs_fine_grid
}

/// The plan of a portfolio priced on one shared simulation: every date of
/// every plan (in order, duplicates kept), the latest horizon, and a fine
/// grid as soon as one plan needs it. The underlyings are left empty.
pub fn merge_plans(plans: &Vec<Plan>) -> (p: Plan)
    requires
        all_dates(plans@).len() <= usize::MAX,
    ensures
        p.assets@.len() == 0,
        p.fixed_dates@ == all_dates(plans@),
        p.horizon == max_horizon(plans@),
        p.needs_fine_grid == any_fine(plans@),
{
    let mut dates: Vec<u64> = Vec::new();
    let mut horizon: u64 = 0;
    let mut fine = false;
    let mut i: usize = 0;
    while i < plans.len()
        invariant
            i <= plans@.len(),
            all_dates(plans@).len() <= usize::MAX,
            dates@ == all_dates(plans@.take(i as int)),
            horizon == max_horizon(plans@.take(i as int)),
            fine == any_fine(plans@.take(i as int)),
        decreases plans.len() - i,
    {
        assert(plans@.take(i + 1).drop_last() =~= plans@.take(i as int));
        assert(plans@.take(i + 1).last() == plans@[i as int]);
        proof {
            lemma_all_dates_prefix(plans@, i + 1);
        }
        let p = &plans[i];
        let mut k: usize = 0;
        let ghost d0 = dates@;
        while k < p.fixed_dates.len()
            invariant
                k <= p.fixed_dates@.len(),
                dates@ == d0 + p.fixed_dates@.take(k as int),
                d0 + p.fixed_dates@ == all_dates(plans@.take(i + 1)),
                all_dates(plans@.take(i + 1)).len() <= usize::MAX,
            decreases p.fixed_dates.len() - k,
        {
            dates.push(p.fixed_dates[k]);
            assert(p.fixed_dates@.take(k + 1) =~= p.fixed_dates@.take(k as int).push(
                p.fixed_dates@[k as int],
            ));
            k = k + 1;
        }
        assert(p.fixed_dates@.take(k as int) =~= p.fixed_dates@);
        if p.horizon > horizon {
            horizon = p.horizon;
        }
        let ghost before = plans@.take(i as int);
        let ghost after = plans@.take(i + 1);
        assert(any_fine(after) == (any_fine(before) || p.needs_fine_grid)) by {
            if any_fine(before) {
                let j = choose|j: int| 0 <= j < before.len() && #[trigger] before[j].needs_fine_grid;
                assert(after[j] == before[j]);
            }
            if p.needs_fine_grid {
                assert(after[i as int] == *p);
            }
            if any_fine(after) {
                let j = choose|j: int| 0 <= j < after.len() && #[trigger] after[j].needs_fine_grid;
                if j < i {
                    assert(before[j] == after[j]);
                }
            }
        }
        fine = fine || p.needs_fine_grid;
        i = i + 1;
    }
    assert(plans@.take(plans@.len() as int) =~= plans@);
    Plan { assets: Vec::new(), fixed_dates: dates, horizon, needs_fine_grid: fine }
}

/// A prefix of the plans has no more dates than the whole list.
proof fn lemma_all_dates_prefix(plans: Seq<Plan>, i: int)
    requires
        0 <= i <= plans.len(),
    ensures
        all_dates(plans.take(i)).len() <= all_dates(plans).len(),
    decreases plans.len(),
{
    if i < plans.len() {
        assert(plans.drop_last().take(i) =~= plans.take(i));
        lemma_all_dates_prefix(plans.drop_last(), i);
    } else {
        assert(plans.take(i) =~= plans);
    }
}

// --- Laws ---------------------------------------------------------------------

/// Two strictly increasing sequences of dates with the same elements are equal.
pub proof fn lemma_sorted_dates_unique(a: Seq<u64>, b: Seq<u64>)
    requires
        dates_sorted(a),
        dates_sorted(b),
        date_set(a) == date_set(b),
    ensures
        a == b,
    decreases a.len(),
{
    if a.len() == 0 {
        if b.len() > 0 {
            assert(date_set(b).contains(b[0]));
        }
        assert(a =~= b);
    } else {
        assert(date_set(a).contains(a[0]));
        let i = choose|i: int| 0 <= i < b.len() && #[trigger] b[i] == a[0];
        assert(date_set(b).contains(b[0]));
        let j = choose|j: int| 0 <= j < a.len() && #[trigger] a[j] == b[0];
        assert(a[0] == b[0]) by {
            if i > 0 {
                assert(b[0] < b[i]);
            }
            if j > 0 {
                assert(a[0] < a[j]);
            }
        }
        let a1 = a.drop_first();
        let b1 = b.drop_first();
        assert(date_set(a1) =~= date_set(b1)) by {
            assert forall|d: u64| date_set(a1).contains(d) implies date_set(b1).contains(d) by {
                let k = choose|k: int| 0 <= k < a1.len() && #[trigger] a1[k] == d;
                assert(a[k + 1] == d && a[0] < a[k + 1]);
                assert(date_set(b).contains(d));
                let m = choose|m: int| 0 <= m < b.len() && #[trigger] b[m] == d;
                assert(b1[m - 1] == d);
            }
            assert forall|d: u64| date_set(b1).contains(d) implies date_set(a1).contains(d) by {
                let k = choose|k: int| 0 <= k < b1.len() && #[trigger] b1[k] == d;
                assert(b[k + 1] == d && b[0] < b[k + 1]);
                assert(date_set(a).contains(d));
                let m = choose|m: int| 0 <= m < a.len() && #[trigger] a[m] == d;
                assert(a1[m - 1] == d);
            }
        }
        lemma_sorted_dates_unique(a1, b1);
        assert(a =~= seq![a[0]] + a1);
        assert(b =~= seq![b[0]] + b1);
    }
}

/// The names held by a vector, in order.
pub open spec fn name_views(v: Seq<String>) -> Seq<Seq<char>> {
    v.map_values(|s: String| s@)
}

/// Two strictly sorted sequences of names with the same elements hold the
/// same names in the same order.
pub proof fn lemma_sorted_names_unique(a: Seq<String>, b: Seq<String>)
    requires
        names_sorted(a),
        names_sorted(b),
        name_set(a) == name_set(b),
    ensures
        name_views(a) == name_views(b),
    decreases a.len(),
{
    if a.len() == 0 {
        if b.len() > 0 {
            assert(name_set(b).contains(b[0]@));
        }
        assert(name_views(a) =~= name_views(b));
    } else {
        assert(name_set(a).contains(a[0]@));
        let i = choose|i: int| 0 <= i < b.len() && #[trigger] b[i]@ == a[0]@;
        assert(name_set(b).contains(b[0]@));
        let j = choose|j: int| 0 <= j < a.len() && #[trigger] a[j]@ == b[0]@;
        assert(a[0]@ == b[0]@) by {
            if i > 0 && j > 0 {
                assert(lex_lt_names(b[0]@, b[i]@));
                assert(lex_lt_names(a[0]@, a[j]@));
                lemma_lex_asymmetric(name_key(a[0]@), name_key(b[0]@));
            } else if i > 0 {
                assert(lex_lt_names(b[0]@, b[i]@));
                lemma_lex_irreflexive_names(b[0]@);
            } else if j > 0 {
                assert(lex_lt_names(a[0]@, a[j]@));
                lemma_lex_irreflexive_names(a[0]@);
            }
        }
        let a1 = a.drop_first();
        let b1 = b.drop_first();
        assert(name_set(a1) =~= name_set(b1)) by {
            assert forall|d: Seq<char>| name_set(a1).contains(d) implies name_set(b1).contains(d) by {
                let k = choose|k: int| 0 <= k < a1.len() && #[trigger] a1[k]@ == d;
                assert(a[k + 1]@ == d);
                assert(lex_lt_names(a[0]@, a[k + 1]@));
                assert(name_set(b).contains(d));
                let m = choose|m: int| 0 <= m < b.len() && #[trigger] b[m]@ == d;
                if m == 0 {
                    lemma_lex_irreflexive_names(d);
                }
                assert(b1[m - 1]@ == d);
            }
            assert forall|d: Seq<char>| name_set(b1).contains(d) implies name_set(a1).contains(d) by {
                let k = choose|k: int| 0 <= k < b1.len() && #[trigger] b1[k]@ == d;
                assert(b[k + 1]@ == d);
                assert(lex_lt_names(b[0]@, b[k + 1]@));
                assert(name_set(a).contains(d));
                let m = choose|m: int| 0 <= m < a.len() && #[trigger] a[m]@ == d;
                if m == 0 {
                    lemma_lex_irreflexive_names(d);
                }
                assert(a1[m - 1]@ == d);
            }
        }
        assert(names_sorted(a1)) by {
            assert forall|x: int, y: int| 0 <= x < y < a1.len() implies crate::order::lex_lt(
                name_key(#[trigger] a1[x]@),
                name_key(#[trigger] a1[y]@),
            ) by {
                assert(a1[x] == a[x + 1] && a1[y] == a[y + 1]);
            }
        }
        assert(names_sorted(b1)) by {
            assert forall|x: int, y: int| 0 <= x < y < b1.len() implies crate::order::lex_lt(
                name_key(#[trigger] b1[x]@),
                name_key(#[trigger] b1[y]@),
            ) by {
                assert(b1[x] == b[x + 1] && b1[y] == b[y + 1]);
            }
        }
        lemma_sorted_names_unique(a1, b1);
        assert(name_views(a1).len() == a1.len());
        assert(name_views(b1).len() == b1.len());
        assert(a.len() == b.len());
        assert(name_views(a) =~= name_views(b)) by {
            assert forall|k: int| 0 <= k < a.len() implies #[trigger] name_views(a)[k] == name_views(
                b,
            )[k] by {
                assert(name_views(a)[k] == a[k]@);
                assert(name_views(b)[k] == b[k]@);
                if k > 0 {
                    assert(name_views(a1)[k - 1] == a1[k - 1]@);
                    assert(name_views(b1)[k - 1] == b1[k - 1]@);
                }
            }
        }
    }
}

spec fn lex_lt_names(x: Seq<char>, y: Seq<char>) -> bool {
    crate::order::lex_lt(name_key(x), name_key(y))
}

proof fn lemma_lex_irreflexive_names(x: Seq<char>)
    ensures
        !lex_lt_names(x, x),
{
    crate::order::lemma_lex_irreflexive(name_key(x));
}

/// The horizon is the latest acquisition date: every date is at most the
/// horizon, and the horizon is one of the dates unless there is none (then it
/// is zero, and no date is kept).
pub proof fn lemma_horizon_is_latest_date(p: Plan, k: ContractModel)
    requires
        p.describes(k),
    ensures
        forall|d: u64| contract_dates(k).contains(d) ==> d <= p.horizon,
        contract_dates(k).is_empty() <==> p.fixed_dates@.len() == 0,
        contract_dates(k).is_empty() ==> p.horizon == 0,
        !contract_dates(k).is_empty() ==> contract_dates(k).contains(p.horizon),
{
    let v = dates_in_order(k);
    crate::dates::lemma_merge_near(v);
    assert forall|d: u64| contract_dates(k).contains(d) implies d <= p.horizon by {
        assert(date_set(v).contains(d));
        let i = choose|i: int| 0 <= i < v.len() && #[trigger] v[i] == d;
        if i < v.len() - 1 {
            assert(v[i] < v[v.len() - 1]);
        }
    }
    if v.len() > 0 {
        assert(date_set(v).contains(v[v.len() - 1]));
    } else {
        assert(date_set(v) =~= Set::<u64>::empty());
    }
}

/// The first zero date of a condition is a zero.
proof fn lemma_cond_first_zero(c: ConditionModel)
    ensures
        cond_first_zero(c) matches Some(b) ==> (b == 0 || b == NEG_ZERO_BITS),
    decreases c,
{
    match c {
        ConditionModel::And(a, b) => {
            lemma_cond_first_zero(*a);
            lemma_cond_first_zero(*b);
        },
        ConditionModel::Or(a, b) => {
            lemma_cond_first_zero(*a);
            lemma_cond_first_zero(*b);
        },
        ConditionModel::Not(a) => lemma_cond_first_zero(*a),
        _ => {},
    }
}

/// The first zero date of a contract is a zero.
proof fn lemma_contract_first_zero(k: ContractModel)
    ensures
        contract_first_zero(k) matches Some(b) ==> (b == 0 || b == NEG_ZERO_BITS),
    decreases k,
{
    match k {
        ContractModel::Give(a) => lemma_contract_first_zero(*a),
        ContractModel::And(a, b) => {
            lemma_contract_first_zero(*a);
            lemma_contract_first_zero(*b);
        },
        ContractModel::Or(a, b) => {
            lemma_contract_first_zero(*a);
            lemma_contract_first_zero(*b);
        },
        ContractModel::Scale(_, a) => lemma_contract_first_zero(*a),
        ContractModel::When(c, a) => {
            lemma_cond_first_zero(c);
            lemma_contract_first_zero(*a);
        },
        ContractModel::Anytime(c, a) => {
            lemma_cond_first_zero(c);
            lemma_contract_first_zero(*a);
        },
        ContractModel::Until(c, a) => {
            lemma_cond_first_zero(c);
            lemma_contract_first_zero(*a);
        },
        _ => {},
    }
}

/// Two plans of contracts with the same dates have the same dates, up to the
/// sign of a leading zero: they are equal as binary64 numbers.
proof fn lemma_same_dates_same_numbers(p: Plan, k1: ContractModel, q: Plan, k2: ContractModel)
    requires
        p.describes(k1),
        q.describes(k2),
        contract_dates(k1) == contract_dates(k2),
    ensures
        series_equal(p.fixed_dates@, q.fixed_dates@),
        p.horizon == q.horizon,
{
    lemma_sorted_dates_unique(dates_in_order(k1), dates_in_order(k2));
    let s = dates_in_order(k1);
    let m = merge_near(s);
    crate::dates::lemma_merge_near(s);
    lemma_contract_first_zero(k1);
    lemma_contract_first_zero(k2);
    assert forall|i: int| 0 <= i < p.fixed_dates@.len() implies #[trigger] bits_equal(
        p.fixed_dates@[i],
        q.fixed_dates@[i],
    ) by {
        assert(p.fixed_dates@.len() == m.len());
        assert(date_set(m).contains(m[i]));
        assert(date_set(s).contains(m[i]));
        assert(contract_dates(k1).contains(m[i]));
        assert(m[i] < POS_INFINITY_BITS);
        assert(NEG_ZERO_BITS % 0x8000_0000_0000_0000u64 == 0);
        assert(m[i] % 0x8000_0000_0000_0000u64 == m[i]);
        assert(p.fixed_dates@[i] == m[i] || (i == 0 && m[0] == 0 && (p.fixed_dates@[i] == 0
            || p.fixed_dates@[i] == NEG_ZERO_BITS)));
        assert(q.fixed_dates@[i] == m[i] || (i == 0 && m[0] == 0 && (q.fixed_dates@[i] == 0
            || q.fixed_dates@[i] == NEG_ZERO_BITS)));
    }
}

/// The plan of a contract does not depend on the order in which it was
/// written: plans of `and(a, b)` and `and(b, a)` (likewise `or`) have the same
/// underlyings, the same horizon and flag, and dates equal as binary64
/// numbers (a leading zero keeps the sign it is first written with); and
/// `give(c)` has the plan of `c`.
pub proof fn lemma_plan_ignores_order_and_sign(
    a: ContractModel,
    b: ContractModel,
    p: Plan,
    q: Plan,
)
    requires
        p.describes(ContractModel::And(Box::new(a), Box::new(b))),
        q.describes(ContractModel::And(Box::new(b), Box::new(a)))
            || q.describes(ContractModel::Or(Box::new(b), Box::new(a)))
            || q.describes(ContractModel::Or(Box::new(a), Box::new(b))),
    ensures
        name_views(p.assets@) == name_views(q.assets@),
        series_equal(p.fixed_dates@, q.fixed_dates@),
        p.horizon == q.horizon,
        p.needs_fine_grid == q.needs_fine_grid,
{
    let ab = ContractModel::And(Box::new(a), Box::new(b));
    assert(contract_assets(ab) =~= contract_assets(ContractModel::And(Box::new(b), Box::new(a))));
    assert(contract_dates(ab) =~= contract_dates(ContractModel::And(Box::new(b), Box::new(a))));
    lemma_sorted_names_unique(p.assets@, q.assets@);
    if q.describes(ContractModel::And(Box::new(b), Box::new(a))) {
        lemma_same_dates_same_numbers(p, ab, q, ContractModel::And(Box::new(b), Box::new(a)));
    } else if q.describes(ContractModel::Or(Box::new(b), Box::new(a))) {
        lemma_same_dates_same_numbers(p, ab, q, ContractModel::Or(Box::new(b), Box::new(a)));
    } else {
        lemma_same_dates_same_numbers(p, ab, q, ContractModel::Or(Box::new(a), Box::new(b)));
    }
}

/// Reversing the flows of a contract does not change what must be simulated.
pub proof fn lemma_give_keeps_plan(c: ContractModel, p: Plan, q: Plan)
    requires
        p.describes(c),
        q.describes(ContractModel::Give(Box::new(c))),
    ensures
        name_views(p.assets@) == name_views(q.assets@),
        p.fixed_dates@ == q.fixed_dates@,
        p.horizon == q.horizon,
        p.needs_fine_grid == q.needs_fine_grid,
{
    lemma_sorted_names_unique(p.assets@, q.assets@);
    lemma_sorted_dates_unique(dates_in_order(c), dates_in_order(ContractModel::Give(Box::new(c))));
}

/// A condition that compares prices, governing an acquisition (`when`,
/// `anytime`) or a knock-out (`until`), is a barrier: the plan needs the fine
/// grid, whatever the inner contract.
pub proof fn lemma_price_condition_needs_fine_grid(c: ConditionModel, a: ContractModel, p: Plan)
    requires
        cond_price_dependent(c),
        p.describes(ContractModel::When(c, Box::new(a))) || p.describes(
            ContractModel::Anytime(c, Box::new(a)),
        ) || p.describes(ContractModel::Until(c, Box::new(a))),
    ensures
        p.needs_fine_grid,
{
}

/// Every comparison of observables is price dependent, alone or under `and`,
/// `or` and `not`; dates and constants are not.
pub proof fn lemma_comparisons_are_price_dependent(
    x: ObservableModel,
    y: ObservableModel,
    c: ConditionModel,
    t: u64,
    b: bool,
)
    ensures
        cond_price_dependent(ConditionModel::Ge(x, y)),
        cond_price_dependent(ConditionModel::Gt(x, y)),
        cond_price_dependent(ConditionModel::Le(x, y)),
        cond_price_dependent(ConditionModel::Lt(x, y)),
        cond_price_dependent(c) ==> cond_price_dependent(ConditionModel::Not(Box::new(c))),
        cond_price_dependent(c) ==> cond_price_dependent(
            ConditionModel::And(Box::new(c), Box::new(ConditionModel::At(t))),
        ) && cond_price_dependent(ConditionModel::Or(Box::new(ConditionModel::At(t)), Box::new(c))),
        !cond_price_dependent(ConditionModel::At(t)),
        !cond_price_dependent(ConditionModel::Bool(b)),
{
}

/// The plan of a portfolio `and(a, b)` merges the plans of its legs: the
/// union of the underlyings, the union of the acquisition dates (before
/// near dates are dropped), the later horizon, and a fine grid as soon as one
/// leg needs it.
pub proof fn lemma_conjunction_merges_plans(
    a: ContractModel,
    b: ContractModel,
    pa: Plan,
    pb: Plan,
    p: Plan,
)
    requires
        pa.describes(a),
        pb.describes(b),
        p.describes(ContractModel::And(Box::new(a), Box::new(b))),
    ensures
        name_set(p.assets@) == name_set(pa.assets@).union(name_set(pb.assets@)),
        date_set(dates_in_order(ContractModel::And(Box::new(a), Box::new(b)))) == date_set(
            dates_in_order(a),
        ).union(date_set(dates_in_order(b))),
        p.horizon == if pa.horizon >= pb.horizon {
            pa.horizon
        } else {
            pb.horizon
        },
        p.needs_fine_grid == (pa.needs_fine_grid || pb.needs_fine_grid),
{
    let k = ContractModel::And(Box::new(a), Box::new(b));
    lemma_horizon_is_latest_date(pa, a);
    lemma_horizon_is_latest_date(pb, b);
    lemma_horizon_is_latest_date(p, k);
    if contract_dates(a).is_empty() {
        assert(contract_dates(k) =~= contract_dates(b));
    } else if contract_dates(b).is_empty() {
        assert(contract_dates(k) =~= contract_dates(a));
    } else {
        assert(contract_dates(k).contains(pa.horizon));
        assert(contract_dates(k).contains(pb.horizon));
    }
}

} // verus!
