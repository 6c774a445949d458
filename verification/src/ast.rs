//! The contract algebra: observables, conditions and the primitive contract
//! combinators, in the style of Peyton Jones, Eber and Seward.
//!
//! This module only describes contracts; it never evaluates them. Real-valued
//! constants and dates are carried as the bit pattern of an IEEE-754 binary64
//! number (`f64::to_bits`): the library moves them around, orders dates and
//! checks their validity, but never computes with them.
use core::ops::{Add, Div, Mul, Neg, Not, Sub};
use vstd::prelude::*;
use vstd::std_specs::cmp::PartialEqSpecImpl;
use vstd::std_specs::ops::{
    AddSpecImpl, DivSpecImpl, MulSpecImpl, NegSpecImpl, NotSpecImpl, SubSpecImpl,
};

verus! {

/// Currency of a unit cash flow (e.g. `"USD"`).
#[derive(Debug, PartialEq, Eq, Hash)]
pub struct Currency(pub String);

impl Clone for Currency {
    /// A copy of the code.
    fn clone(&self) -> (r: Currency)
        ensures
            r == *self,
    {
        Currency(self.0.clone())
    }
}

impl Currency {
    /// Builds a currency from its code.
    pub fn new(code: &str) -> (c: Currency)
        ensures
            c.0@ == code@,
    {
        Currency(code.to_owned())
    }
}

/// A real-valued process, described symbolically.
#[derive(Debug)]
pub enum Observable {
    /// Deterministic constant (binary64 bit pattern).
    Const(u64),
    /// Spot price of the named underlying.
    Spot(String),
    /// Arithmetic negation.
    Neg(Box<Observable>),
    /// Sum.
    Add(Box<Observable>, Box<Observable>),
    /// Difference.
    Sub(Box<Observable>, Box<Observable>),
    /// Product.
    Mul(Box<Observable>, Box<Observable>),
    /// Quotient.
    Div(Box<Observable>, Box<Observable>),
    /// Pointwise maximum.
    Max(Box<Observable>, Box<Observable>),
    /// Pointwise minimum.
    Min(Box<Observable>, Box<Observable>),
    /// Arithmetic mean of `obs` over `[from_year, to_year]` (years as bit
    /// patterns); `None` bounds mean "from the start" and "up to now".
    Average { obs: Box<Observable>, from_year: Option<u64>, to_year: Option<u64> },
    /// Running maximum since the start of the grid.
    RunningMax(Box<Observable>),
    /// Running minimum since the start of the grid.
    RunningMin(Box<Observable>),
}

/// A boolean process: a date reached, a barrier, a comparison.
#[derive(Debug)]
pub enum Condition {
    /// Boolean constant.
    Bool(bool),
    /// True from the given time on (years, binary64 bit pattern).
    At(u64),
    /// `lhs >= rhs`.
    Ge(Observable, Observable),
    /// `lhs > rhs`.
    Gt(Observable, Observable),
    /// `lhs <= rhs`.
    Le(Observable, Observable),
    /// `lhs < rhs`.
    Lt(Observable, Observable),
    /// Conjunction.
    And(Box<Condition>, Box<Condition>),
    /// Disjunction.
    Or(Box<Condition>, Box<Condition>),
    /// Negation.
    Not(Box<Condition>),
}

/// The primitive contract combinators. Every named product is an expression
/// built from them.
#[derive(Debug)]
pub enum Contract {
    /// No cash flow at all.
    Zero,
    /// Receive one unit of the currency.
    One(Currency),
    /// Reverse all flows of the inner contract.
    Give(Box<Contract>),
    /// Hold both contracts.
    And(Box<Contract>, Box<Contract>),
    /// Hold one or the other, at the holder's choice.
    Or(Box<Contract>, Box<Contract>),
    /// Scale the inner contract's flows by an observable.
    Scale(Observable, Box<Contract>),
    /// Acquire the inner contract as soon as the condition holds.
    When(Condition, Box<Contract>),
    /// May acquire the inner contract at any time the condition holds.
    Anytime(Condition, Box<Contract>),
    /// Hold the inner contract until the condition holds.
    Until(Condition, Box<Contract>),
}

// --- Mathematical model ---------------------------------------------------------

/// The model of an [`Observable`]: names are character sequences.
pub enum ObservableModel {
    Const(u64),
    Spot(Seq<char>),
    Neg(Box<ObservableModel>),
    Add(Box<ObservableModel>, Box<ObservableModel>),
    Sub(Box<ObservableModel>, Box<ObservableModel>),
    Mul(Box<ObservableModel>, Box<ObservableModel>),
    Div(Box<ObservableModel>, Box<ObservableModel>),
    Max(Box<ObservableModel>, Box<ObservableModel>),
    Min(Box<ObservableModel>, Box<ObservableModel>),
    Average { obs: Box<ObservableModel>, from_year: Option<u64>, to_year: Option<u64> },
    RunningMax(Box<ObservableModel>),
    RunningMin(Box<ObservableModel>),
}

/// The model of a [`Condition`].
pub enum ConditionModel {
    Bool(bool),
    At(u64),
    Ge(ObservableModel, ObservableModel),
    Gt(ObservableModel, ObservableModel),
    Le(ObservableModel, ObservableModel),
    Lt(ObservableModel, ObservableModel),
    And(Box<ConditionModel>, Box<ConditionModel>),
    Or(Box<ConditionModel>, Box<ConditionModel>),
    Not(Box<ConditionModel>),
}

/// The model of a [`Contract`]: a currency is its code.
pub enum ContractModel {
    Zero,
    One(Seq<char>),
    Give(Box<ContractModel>),
    And(Box<ContractModel>, Box<ContractModel>),
    Or(Box<ContractModel>, Box<ContractModel>),
    Scale(ObservableModel, Box<ContractModel>),
    When(ConditionModel, Box<ContractModel>),
    Anytime(ConditionModel, Box<ContractModel>),
    Until(ConditionModel, Box<ContractModel>),
}

/// The model of an observable.
pub open spec fn obs_model(o: Observable) -> ObservableModel
    decreases o,
{
    match o {
        Observable::Const(x) => ObservableModel::Const(x),
        Observable::Spot(n) => ObservableModel::Spot(n@),
        Observable::Neg(a) => ObservableModel::Neg(Box::new(obs_model(*a))),
        Observable::Add(a, b) => ObservableModel::Add(Box::new(obs_model(*a)), Box::new(obs_model(*b))),
        Observable::Sub(a, b) => ObservableModel::Sub(Box::new(obs_model(*a)), Box::new(obs_model(*b))),
        Observable::Mul(a, b) => ObservableModel::Mul(Box::new(obs_model(*a)), Box::new(obs_model(*b))),
        Observable::Div(a, b) => ObservableModel::Div(Box::new(obs_model(*a)), Box::new(obs_model(*b))),
        Observable::Max(a, b) => ObservableModel::Max(Box::new(obs_model(*a)), Box::new(obs_model(*b))),
        Observable::Min(a, b) => ObservableModel::Min(Box::new(obs_model(*a)), Box::new(obs_model(*b))),
        Observable::Average { obs, from_year, to_year } => ObservableModel::Average {
            obs: Box::new(obs_model(*obs)),
            from_year,
            to_year,
        },
        Observable::RunningMax(a) => ObservableModel::RunningMax(Box::new(obs_model(*a))),
        Observable::RunningMin(a) => ObservableModel::RunningMin(Box::new(obs_model(*a))),
    }
}

/// The model of a condition.
pub open spec fn cond_model(c: Condition) -> ConditionModel
    decreases c,
{
    match c {
        Condition::Bool(b) => ConditionModel::Bool(b),
        Condition::At(t) => ConditionModel::At(t),
        Condition::Ge(a, b) => ConditionModel::Ge(obs_model(a), obs_model(b)),
        Condition::Gt(a, b) => ConditionModel::Gt(obs_model(a), obs_model(b)),
        Condition::Le(a, b) => ConditionModel::Le(obs_model(a), obs_model(b)),
        Condition::Lt(a, b) => ConditionModel::Lt(obs_model(a), obs_model(b)),
        Condition::And(a, b) => ConditionModel::And(Box::new(cond_model(*a)), Box::new(cond_model(*b))),
        Condition::Or(a, b) => ConditionModel::Or(Box::new(cond_model(*a)), Box::new(cond_model(*b))),
        Condition::Not(a) => ConditionModel::Not(Box::new(cond_model(*a))),
    }
}

/// The model of a contract.
pub open spec fn contract_model(k: Contract) -> ContractModel
    decreases k,
{
    match k {
        Contract::Zero => ContractModel::Zero,
        Contract::One(c) => ContractModel::One(c.0@),
        Contract::Give(a) => ContractModel::Give(Box::new(contract_model(*a))),
        Contract::And(a, b) => ContractModel::And(Box::new(contract_model(*a)), Box::new(contract_model(*b))),
        Contract::Or(a, b) => ContractModel::Or(Box::new(contract_model(*a)), Box::new(contract_model(*b))),
        Contract::Scale(o, a) => ContractModel::Scale(obs_model(o), Box::new(contract_model(*a))),
        Contract::When(c, a) => ContractModel::When(cond_model(c), Box::new(contract_model(*a))),
        Contract::Anytime(c, a) => ContractModel::Anytime(cond_model(c), Box::new(contract_model(*a))),
        Contract::Until(c, a) => ContractModel::Until(cond_model(c), Box::new(contract_model(*a))),
    }
}

impl View for Observable {
    type V = ObservableModel;

    open spec fn view(&self) -> ObservableModel {
        obs_model(*self)
    }
}

impl View for Condition {
    type V = ConditionModel;

    open spec fn view(&self) -> ConditionModel {
        cond_model(*self)
    }
}

impl View for Contract {
    type V = ContractModel;

    open spec fn view(&self) -> ContractModel {
        contract_model(*self)
    }
}

impl Clone for Observable {
    /// A deep copy.
    fn clone(&self) -> (r: Observable)
        ensures
            r == *self,
        decreases self,
    {
        match self {
            Observable::Const(x) => Observable::Const(*x),
            Observable::Spot(n) => Observable::Spot(n.clone()),
            Observable::Neg(a) => Observable::Neg(Box::new((**a).clone())),
            Observable::Add(a, b) => Observable::Add(Box::new((**a).clone()), Box::new((**b).clone())),
            Observable::Sub(a, b) => Observable::Sub(Box::new((**a).clone()), Box::new((**b).clone())),
            Observable::Mul(a, b) => Observable::Mul(Box::new((**a).clone()), Box::new((**b).clone())),
            Observable::Div(a, b) => Observable::Div(Box::new((**a).clone()), Box::new((**b).clone())),
            Observable::Max(a, b) => Observable::Max(Box::new((**a).clone()), Box::new((**b).clone())),
            Observable::Min(a, b) => Observable::Min(Box::new((**a).clone()), Box::new((**b).clone())),
            Observable::Average { obs, from_year, to_year } => Observable::Average {
                obs: Box::new((**obs).clone()),
                from_year: *from_year,
                to_year: *to_year,
            },
            Observable::RunningMax(a) => Observable::RunningMax(Box::new((**a).clone())),
            Observable::RunningMin(a) => Observable::RunningMin(Box::new((**a).clone())),
        }
    }
}

impl Clone for Condition {
    /// A deep copy.
    fn clone(&self) -> (r: Condition)
        ensures
            r == *self,
        decreases self,
    {
        match self {
            Condition::Bool(b) => Condition::Bool(*b),
            Condition::At(t) => Condition::At(*t),
            Condition::Ge(a, b) => Condition::Ge(a.clone(), b.clone()),
            Condition::Gt(a, b) => Condition::Gt(a.clone(), b.clone()),
            Condition::Le(a, b) => Condition::Le(a.clone(), b.clone()),
            Condition::Lt(a, b) => Condition::Lt(a.clone(), b.clone()),
            Condition::And(a, b) => Condition::And(Box::new((**a).clone()), Box::new((**b).clone())),
            Condition::Or(a, b) => Condition::Or(Box::new((**a).clone()), Box::new((**b).clone())),
            Condition::Not(a) => Condition::Not(Box::new((**a).clone())),
        }
    }
}

impl Clone for Contract {
    /// A deep copy.
    fn clone(&self) -> (r: Contract)
        ensures
            r == *self,
        decreases self,
    {
        match self {
            Contract::Zero => Contract::Zero,
            Contract::One(c) => Contract::One(c.clone()),
            Contract::Give(a) => Contract::Give(Box::new((**a).clone())),
            Contract::And(a, b) => Contract::And(Box::new((**a).clone()), Box::new((**b).clone())),
            Contract::Or(a, b) => Contract::Or(Box::new((**a).clone()), Box::new((**b).clone())),
            Contract::Scale(o, a) => Contract::Scale(o.clone(), Box::new((**a).clone())),
            Contract::When(c, a) => Contract::When(c.clone(), Box::new((**a).clone())),
            Contract::Anytime(c, a) => Contract::Anytime(c.clone(), Box::new((**a).clone())),
            Contract::Until(c, a) => Contract::Until(c.clone(), Box::new((**a).clone())),
        }
    }
}

// --- Exact values ----------------------------------------------------------------

/// The exact value of an observable at one date, its constants read through
/// `konst_value` and its spots through `spot_value`, computed in exact
/// arithmetic. `None` for a quotient and for the path-dependent observables
/// (means, running extrema), which one date does not determine.
pub open spec fn exact_value(
    o: ObservableModel,
    konst_value: spec_fn(u64) -> int,
    spot_value: spec_fn(Seq<char>) -> int,
) -> Option<int>
    decreases o,
{
    match o {
        ObservableModel::Const(x) => Some(konst_value(x)),
        ObservableModel::Spot(n) => Some(spot_value(n)),
        ObservableModel::Neg(a) => match exact_value(*a, konst_value, spot_value) {
            Some(x) => Some(-x),
            None => None,
        },
        ObservableModel::Add(a, b) => match (
            exact_value(*a, konst_value, spot_value),
            exact_value(*b, konst_value, spot_value),
        ) {
            (Some(x), Some(y)) => Some(x + y),
            _ => None,
        },
        ObservableModel::Sub(a, b) => match (
            exact_value(*a, konst_value, spot_value),
            exact_value(*b, konst_value, spot_value),
        ) {
            (Some(x), Some(y)) => Some(x - y),
            _ => None,
        },
        ObservableModel::Mul(a, b) => match (
            exact_value(*a, konst_value, spot_value),
            exact_value(*b, konst_value, spot_value),
        ) {
            (Some(x), Some(y)) => Some(x * y),
            _ => None,
        },
        ObservableModel::Max(a, b) => match (
            exact_value(*a, konst_value, spot_value),
            exact_value(*b, konst_value, spot_value),
        ) {
            (Some(x), Some(y)) => Some(if x >= y { x } else { y }),
            _ => None,
        },
        ObservableModel::Min(a, b) => match (
            exact_value(*a, konst_value, spot_value),
            exact_value(*b, konst_value, spot_value),
        ) {
            (Some(x), Some(y)) => Some(if x <= y { x } else { y }),
            _ => None,
        },
        _ => None,
    }
}

// --- Equality -------------------------------------------------------------------

/// Binary64 equality of two bit patterns: a NaN equals nothing, not even
/// itself, and the two zeros are equal.
pub open spec fn bits_equal(a: u64, b: u64) -> bool {
    let ma = a % 0x8000_0000_0000_0000u64;
    let mb = b % 0x8000_0000_0000_0000u64;
    &&& ma <= 0x7FF0_0000_0000_0000u64
    &&& mb <= 0x7FF0_0000_0000_0000u64
    &&& (a == b || (ma == 0 && mb == 0))
}

/// Binary64 equality of two optional bit patterns.
pub open spec fn opt_bits_equal(a: Option<u64>, b: Option<u64>) -> bool {
    match (a, b) {
        (None, None) => true,
        (Some(x), Some(y)) => bits_equal(x, y),
        _ => false,
    }
}

/// Equality of observables, constants compared as binary64 numbers.
pub open spec fn obs_equal(a: ObservableModel, b: ObservableModel) -> bool
    decreases a,
{
    match a {
        ObservableModel::Const(x) => match b {
            ObservableModel::Const(y) => bits_equal(x, y),
            _ => false,
        },
        ObservableModel::Spot(n) => match b {
            ObservableModel::Spot(m) => n == m,
            _ => false,
        },
        ObservableModel::Neg(x) => match b {
            ObservableModel::Neg(y) => obs_equal(*x, *y),
            _ => false,
        },
        ObservableModel::Add(x1, x2) => match b {
            ObservableModel::Add(y1, y2) => obs_equal(*x1, *y1) && obs_equal(*x2, *y2),
            _ => false,
        },
        ObservableModel::Sub(x1, x2) => match b {
            ObservableModel::Sub(y1, y2) => obs_equal(*x1, *y1) && obs_equal(*x2, *y2),
            _ => false,
        },
        ObservableModel::Mul(x1, x2) => match b {
            ObservableModel::Mul(y1, y2) => obs_equal(*x1, *y1) && obs_equal(*x2, *y2),
            _ => false,
        },
        ObservableModel::Div(x1, x2) => match b {
            ObservableModel::Div(y1, y2) => obs_equal(*x1, *y1) && obs_equal(*x2, *y2),
            _ => false,
        },
        ObservableModel::Max(x1, x2) => match b {
            ObservableModel::Max(y1, y2) => obs_equal(*x1, *y1) && obs_equal(*x2, *y2),
            _ => false,
        },
        ObservableModel::Min(x1, x2) => match b {
            ObservableModel::Min(y1, y2) => obs_equal(*x1, *y1) && obs_equal(*x2, *y2),
            _ => false,
        },
        ObservableModel::Average { obs: x, from_year: f1, to_year: t1 } => match b {
            ObservableModel::Average { obs: y, from_year: f2, to_year: t2 } => obs_equal(*x, *y)
                && opt_bits_equal(f1, f2) && opt_bits_equal(t1, t2),
            _ => false,
        },
        ObservableModel::RunningMax(x) => match b {
            ObservableModel::RunningMax(y) => obs_equal(*x, *y),
            _ => false,
        },
        ObservableModel::RunningMin(x) => match b {
            ObservableModel::RunningMin(y) => obs_equal(*x, *y),
            _ => false,
        },
    }
}

/// Equality of conditions, dates and constants compared as binary64 numbers.
pub open spec fn cond_equal(a: ConditionModel, b: ConditionModel) -> bool
    decreases a,
{
    match a {
        ConditionModel::Bool(p) => match b {
            ConditionModel::Bool(q) => p == q,
            _ => false,
        },
        ConditionModel::At(t) => match b {
            ConditionModel::At(u) => bits_equal(t, u),
            _ => false,
        },
        ConditionModel::Ge(x1, x2) => match b {
            ConditionModel::Ge(y1, y2) => obs_equal(x1, y1) && obs_equal(x2, y2),
            _ => false,
        },
        ConditionModel::Gt(x1, x2) => match b {
            ConditionModel::Gt(y1, y2) => obs_equal(x1, y1) && obs_equal(x2, y2),
            _ => false,
        },
        ConditionModel::Le(x1, x2) => match b {
            ConditionModel::Le(y1, y2) => obs_equal(x1, y1) && obs_equal(x2, y2),
            _ => false,
        },
        ConditionModel::Lt(x1, x2) => match b {
            ConditionModel::Lt(y1, y2) => obs_equal(x1, y1) && obs_equal(x2, y2),
            _ => false,
        },
        ConditionModel::And(x1, x2) => match b {
            ConditionModel::And(y1, y2) => cond_equal(*x1, *y1) && cond_equal(*x2, *y2),
            _ => false,
        },
        ConditionModel::Or(x1, x2) => match b {
            ConditionModel::Or(y1, y2) => cond_equal(*x1, *y1) && cond_equal(*x2, *y2),
            _ => false,
        },
        ConditionModel::Not(x) => match b {
            ConditionModel::Not(y) => cond_equal(*x, *y),
            _ => false,
        },
    }
}

/// Equality of contracts, dates and constants compared as binary64 numbers.
pub open spec fn contract_equal(a: ContractModel, b: ContractModel) -> bool
    decreases a,
{
    match a {
        ContractModel::Zero => b is Zero,
        ContractModel::One(c) => match b {
            ContractModel::One(d) => c == d,
            _ => false,
        },
        ContractModel::Give(x) => match b {
            ContractModel::Give(y) => contract_equal(*x, *y),
            _ => false,
        },
        ContractModel::And(x1, x2) => match b {
            ContractModel::And(y1, y2) => contract_equal(*x1, *y1) && contract_equal(*x2, *y2),
            _ => false,
        },
        ContractModel::Or(x1, x2) => match b {
            ContractModel::Or(y1, y2) => contract_equal(*x1, *y1) && contract_equal(*x2, *y2),
            _ => false,
        },
        ContractModel::Scale(o, x) => match b {
            ContractModel::Scale(p, y) => obs_equal(o, p) && contract_equal(*x, *y),
            _ => false,
        },
        ContractModel::When(c, x) => match b {
            ContractModel::When(d, y) => cond_equal(c, d) && contract_equal(*x, *y),
            _ => false,
        },
        ContractModel::Anytime(c, x) => match b {
            ContractModel::Anytime(d, y) => cond_equal(c, d) && contract_equal(*x, *y),
            _ => false,
        },
        ContractModel::Until(c, x) => match b {
            ContractModel::Until(d, y) => cond_equal(c, d) && contract_equal(*x, *y),
            _ => false,
        },
    }
}

/// A bit pattern whose binary64 equality is identity: not a NaN, and not the
/// negative zero (which equals the zero).
pub open spec fn canonical_bits(x: u64) -> bool {
    x % 0x8000_0000_0000_0000u64 <= 0x7FF0_0000_0000_0000u64 && x != 0x8000_0000_0000_0000u64
}

/// Every constant of the observable is canonical.
pub open spec fn canonical_obs(o: ObservableModel) -> bool
    decreases o,
{
    match o {
        ObservableModel::Const(x) => canonical_bits(x),
        ObservableModel::Spot(_) => true,
        ObservableModel::Neg(a) => canonical_obs(*a),
        ObservableModel::Add(a, b) => canonical_obs(*a) && canonical_obs(*b),
        ObservableModel::Sub(a, b) => canonical_obs(*a) && canonical_obs(*b),
        ObservableModel::Mul(a, b) => canonical_obs(*a) && canonical_obs(*b),
        ObservableModel::Div(a, b) => canonical_obs(*a) && canonical_obs(*b),
        ObservableModel::Max(a, b) => canonical_obs(*a) && canonical_obs(*b),
        ObservableModel::Min(a, b) => canonical_obs(*a) && canonical_obs(*b),
        ObservableModel::Average { obs, from_year, to_year } => canonical_obs(*obs) && (from_year
            matches Some(x) ==> canonical_bits(x)) && (to_year matches Some(x) ==> canonical_bits(x)),
        ObservableModel::RunningMax(a) => canonical_obs(*a),
        ObservableModel::RunningMin(a) => canonical_obs(*a),
    }
}

/// Every constant and date of the condition is canonical.
pub open spec fn canonical_cond(c: ConditionModel) -> bool
    decreases c,
{
    match c {
        ConditionModel::Bool(_) => true,
        ConditionModel::At(t) => canonical_bits(t),
        ConditionModel::Ge(a, b) => canonical_obs(a) && canonical_obs(b),
        ConditionModel::Gt(a, b) => canonical_obs(a) && canonical_obs(b),
        ConditionModel::Le(a, b) => canonical_obs(a) && canonical_obs(b),
        ConditionModel::Lt(a, b) => canonical_obs(a) && canonical_obs(b),
        ConditionModel::And(a, b) => canonical_cond(*a) && canonical_cond(*b),
        ConditionModel::Or(a, b) => canonical_cond(*a) && canonical_cond(*b),
        ConditionModel::Not(a) => canonical_cond(*a),
    }
}

/// Every constant and date of the contract is canonical.
pub open spec fn canonical_contract(k: ContractModel) -> bool
    decreases k,
{
    match k {
        ContractModel::Zero => true,
        ContractModel::One(_) => true,
        ContractModel::Give(a) => canonical_contract(*a),
        ContractModel::And(a, b) => canonical_contract(*a) && canonical_contract(*b),
        ContractModel::Or(a, b) => canonical_contract(*a) && canonical_contract(*b),
        ContractModel::Scale(o, a) => canonical_obs(o) && canonical_contract(*a),
        ContractModel::When(c, a) => canonical_cond(c) && canonical_contract(*a),
        ContractModel::Anytime(c, a) => canonical_cond(c) && canonical_contract(*a),
        ContractModel::Until(c, a) => canonical_cond(c) && canonical_contract(*a),
    }
}

/// On canonical bit patterns, binary64 equality is identity; a NaN equals
/// nothing; the two zeros are equal.
pub proof fn lemma_canonical_bits_equal(x: u64, y: u64)
    ensures
        canonical_bits(x) && canonical_bits(y) ==> (bits_equal(x, y) <==> x == y),
        x % 0x8000_0000_0000_0000u64 > 0x7FF0_0000_0000_0000u64 ==> !bits_equal(x, y) && !bits_equal(y, x),
        bits_equal(0, 0x8000_0000_0000_0000u64),
{
}

/// Equality of observables compares every part: on observables whose
/// constants are canonical (no NaN, no negative zero) it is exactly identity.
pub proof fn lemma_obs_equal_is_identity(a: ObservableModel, b: ObservableModel)
    requires
        canonical_obs(a),
        canonical_obs(b),
    ensures
        obs_equal(a, b) <==> a == b,
    decreases a,
{
    match a {
        ObservableModel::Const(x) => {
            if let ObservableModel::Const(y) = b {
                lemma_canonical_bits_equal(x, y);
            }
        },
        ObservableModel::Neg(x) => {
            if let ObservableModel::Neg(y) = b {
                lemma_obs_equal_is_identity(*x, *y);
            }
        },
        ObservableModel::Add(x1, x2) => {
            if let ObservableModel::Add(y1, y2) = b {
                lemma_obs_equal_is_identity(*x1, *y1);
                lemma_obs_equal_is_identity(*x2, *y2);
            }
        },
        ObservableModel::Sub(x1, x2) => {
            if let ObservableModel::Sub(y1, y2) = b {
                lemma_obs_equal_is_identity(*x1, *y1);
                lemma_obs_equal_is_identity(*x2, *y2);
            }
        },
        ObservableModel::Mul(x1, x2) => {
            if let ObservableModel::Mul(y1, y2) = b {
                lemma_obs_equal_is_identity(*x1, *y1);
                lemma_obs_equal_is_identity(*x2, *y2);
            }
        },
        ObservableModel::Div(x1, x2) => {
            if let ObservableModel::Div(y1, y2) = b {
                lemma_obs_equal_is_identity(*x1, *y1);
                lemma_obs_equal_is_identity(*x2, *y2);
            }
        },
        ObservableModel::Max(x1, x2) => {
            if let ObservableModel::Max(y1, y2) = b {
                lemma_obs_equal_is_identity(*x1, *y1);
                lemma_obs_equal_is_identity(*x2, *y2);
            }
        },
        ObservableModel::Min(x1, x2) => {
            if let ObservableModel::Min(y1, y2) = b {
                lemma_obs_equal_is_identity(*x1, *y1);
                lemma_obs_equal_is_identity(*x2, *y2);
            }
        },
        ObservableModel::Average { obs: x, from_year: f1, to_year: t1 } => {
            if let ObservableModel::Average { obs: y, from_year: f2, to_year: t2 } = b {
                lemma_obs_equal_is_identity(*x, *y);
                if let (Some(p), Some(q)) = (f1, f2) {
                    lemma_canonical_bits_equal(p, q);
                }
                if let (Some(p), Some(q)) = (t1, t2) {
                    lemma_canonical_bits_equal(p, q);
                }
            }
        },
        ObservableModel::RunningMax(x) => {
            if let ObservableModel::RunningMax(y) = b {
                lemma_obs_equal_is_identity(*x, *y);
            }
        },
        ObservableModel::RunningMin(x) => {
            if let ObservableModel::RunningMin(y) = b {
                lemma_obs_equal_is_identity(*x, *y);
            }
        },
        _ => {},
    }
}

/// Equality of conditions compares every part: on canonical conditions it is
/// exactly identity.
pub proof fn lemma_cond_equal_is_identity(a: ConditionModel, b: ConditionModel)
    requires
        canonical_cond(a),
        canonical_cond(b),
    ensures
        cond_equal(a, b) <==> a == b,
    decreases a,
{
    match a {
        ConditionModel::At(t) => {
            if let ConditionModel::At(u) = b {
                lemma_canonical_bits_equal(t, u);
            }
        },
        ConditionModel::Ge(x1, x2) => {
            if let ConditionModel::Ge(y1, y2) = b {
                lemma_obs_equal_is_identity(x1, y1);
                lemma_obs_equal_is_identity(x2, y2);
            }
        },
        ConditionModel::Gt(x1, x2) => {
            if let ConditionModel::Gt(y1, y2) = b {
                lemma_obs_equal_is_identity(x1, y1);
                lemma_obs_equal_is_identity(x2, y2);
            }
        },
        ConditionModel::Le(x1, x2) => {
            if let ConditionModel::Le(y1, y2) = b {
                lemma_obs_equal_is_identity(x1, y1);
                lemma_obs_equal_is_identity(x2, y2);
            }
        },
        ConditionModel::Lt(x1, x2) => {
            if let ConditionModel::Lt(y1, y2) = b {
                lemma_obs_equal_is_identity(x1, y1);
                lemma_obs_equal_is_identity(x2, y2);
            }
        },
        ConditionModel::And(x1, x2) => {
            if let ConditionModel::And(y1, y2) = b {
                lemma_cond_equal_is_identity(*x1, *y1);
                lemma_cond_equal_is_identity(*x2, *y2);
            }
        },
        ConditionModel::Or(x1, x2) => {
            if let ConditionModel::Or(y1, y2) = b {
                lemma_cond_equal_is_identity(*x1, *y1);
                lemma_cond_equal_is_identity(*x2, *y2);
            }
        },
        ConditionModel::Not(x) => {
            if let ConditionModel::Not(y) = b {
                lemma_cond_equal_is_identity(*x, *y);
            }
        },
        _ => {},
    }
}

/// Equality of contracts compares every part, each condition, observable,
/// currency and inner contract included: on canonical contracts it is exactly
/// identity.
pub proof fn lemma_contract_equal_is_identity(a: ContractModel, b: ContractModel)
    requires
        canonical_contract(a),
        canonical_contract(b),
    ensures
        contract_equal(a, b) <==> a == b,
    decreases a,
{
    match a {
        ContractModel::Give(x) => {
            if let ContractModel::Give(y) = b {
                lemma_contract_equal_is_identity(*x, *y);
            }
        },
        ContractModel::And(x1, x2) => {
            if let ContractModel::And(y1, y2) = b {
                lemma_contract_equal_is_identity(*x1, *y1);
                lemma_contract_equal_is_identity(*x2, *y2);
            }
        },
        ContractModel::Or(x1, x2) => {
            if let ContractModel::Or(y1, y2) = b {
                lemma_contract_equal_is_identity(*x1, *y1);
                lemma_contract_equal_is_identity(*x2, *y2);
            }
        },
        ContractModel::Scale(o, x) => {
            if let ContractModel::Scale(p, y) = b {
                lemma_obs_equal_is_identity(o, p);
                lemma_contract_equal_is_identity(*x, *y);
            }
        },
        ContractModel::When(c, x) => {
            if let ContractModel::When(d, y) = b {
                lemma_cond_equal_is_identity(c, d);
                lemma_contract_equal_is_identity(*x, *y);
            }
        },
        ContractModel::Anytime(c, x) => {
            if let ContractModel::Anytime(d, y) = b {
                lemma_cond_equal_is_identity(c, d);
                lemma_contract_equal_is_identity(*x, *y);
            }
        },
        ContractModel::Until(c, x) => {
            if let ContractModel::Until(d, y) = b {
                lemma_cond_equal_is_identity(c, d);
                lemma_contract_equal_is_identity(*x, *y);
            }
        },
        _ => {},
    }
}

/// Binary64 equality of two bit patterns.
pub fn bits_eq(a: u64, b: u64) -> (r: bool)
    ensures
        r == bits_equal(a, b),
{
    let ma = a % 0x8000_0000_0000_0000u64;
    let mb = b % 0x8000_0000_0000_0000u64;
    ma <= 0x7FF0_0000_0000_0000u64 && mb <= 0x7FF0_0000_0000_0000u64 && (a == b || (ma == 0
        && mb == 0))
}

fn opt_bits_eq(a: Option<u64>, b: Option<u64>) -> (r: bool)
    ensures
        r == opt_bits_equal(a, b),
{
    match (a, b) {
        (None, None) => true,
        (Some(x), Some(y)) => bits_eq(x, y),
        _ => false,
    }
}

fn obs_eq(a: &Observable, b: &Observable) -> (r: bool)
    ensures
        r == obs_equal(a@, b@),
    decreases a,
{
    match (a, b) {
        (Observable::Const(x), Observable::Const(y)) => bits_eq(*x, *y),
        (Observable::Spot(n), Observable::Spot(m)) => *n == *m,
        (Observable::Neg(x), Observable::Neg(y)) => obs_eq(x, y),
        (Observable::Add(x1, x2), Observable::Add(y1, y2)) => obs_eq(x1, y1) && obs_eq(x2, y2),
        (Observable::Sub(x1, x2), Observable::Sub(y1, y2)) => obs_eq(x1, y1) && obs_eq(x2, y2),
        (Observable::Mul(x1, x2), Observable::Mul(y1, y2)) => obs_eq(x1, y1) && obs_eq(x2, y2),
        (Observable::Div(x1, x2), Observable::Div(y1, y2)) => obs_eq(x1, y1) && obs_eq(x2, y2),
        (Observable::Max(x1, x2), Observable::Max(y1, y2)) => obs_eq(x1, y1) && obs_eq(x2, y2),
        (Observable::Min(x1, x2), Observable::Min(y1, y2)) => obs_eq(x1, y1) && obs_eq(x2, y2),
        (
            Observable::Average { obs: x, from_year: f1, to_year: t1 },
            Observable::Average { obs: y, from_year: f2, to_year: t2 },
        ) => obs_eq(x, y) && opt_bits_eq(*f1, *f2) && opt_bits_eq(*t1, *t2),
        (Observable::RunningMax(x), Observable::RunningMax(y)) => obs_eq(x, y),
        (Observable::RunningMin(x), Observable::RunningMin(y)) => obs_eq(x, y),
        _ => false,
    }
}

fn cond_eq(a: &Condition, b: &Condition) -> (r: bool)
    ensures
        r == cond_equal(a@, b@),
    decreases a,
{
    match (a, b) {
        (Condition::Bool(p), Condition::Bool(q)) => *p == *q,
        (Condition::At(t), Condition::At(u)) => bits_eq(*t, *u),
        (Condition::Ge(x1, x2), Condition::Ge(y1, y2)) => obs_eq(x1, y1) && obs_eq(x2, y2),
        (Condition::Gt(x1, x2), Condition::Gt(y1, y2)) => obs_eq(x1, y1) && obs_eq(x2, y2),
        (Condition::Le(x1, x2), Condition::Le(y1, y2)) => obs_eq(x1, y1) && obs_eq(x2, y2),
        (Condition::Lt(x1, x2), Condition::Lt(y1, y2)) => obs_eq(x1, y1) && obs_eq(x2, y2),
        (Condition::And(x1, x2), Condition::And(y1, y2)) => cond_eq(x1, y1) && cond_eq(x2, y2),
        (Condition::Or(x1, x2), Condition::Or(y1, y2)) => cond_eq(x1, y1) && cond_eq(x2, y2),
        (Condition::Not(x), Condition::Not(y)) => cond_eq(x, y),
        _ => false,
    }
}

fn contract_eq(a: &Contract, b: &Contract) -> (r: bool)
    ensures
        r == contract_equal(a@, b@),
    decreases a,
{
    match (a, b) {
        (Contract::Zero, Contract::Zero) => true,
        (Contract::One(c), Contract::One(d)) => c.0 == d.0,
        (Contract::Give(x), Contract::Give(y)) => contract_eq(x, y),
        (Contract::And(x1, x2), Contract::And(y1, y2)) => contract_eq(x1, y1) && contract_eq(x2, y2),
        (Contract::Or(x1, x2), Contract::Or(y1, y2)) => contract_eq(x1, y1) && contract_eq(x2, y2),
        (Contract::Scale(o, x), Contract::Scale(p, y)) => obs_eq(o, p) && contract_eq(x, y),
        (Contract::When(c, x), Contract::When(d, y)) => cond_eq(c, d) && contract_eq(x, y),
        (Contract::Anytime(c, x), Contract::Anytime(d, y)) => cond_eq(c, d) && contract_eq(x, y),
        (Contract::Until(c, x), Contract::Until(d, y)) => cond_eq(c, d) && contract_eq(x, y),
        _ => false,
    }
}

impl PartialEq for Observable {
    /// Structural equality, constants compared as binary64 numbers.
    fn eq(&self, other: &Observable) -> (r: bool) {
        obs_eq(self, other)
    }
}

impl PartialEqSpecImpl for Observable {
    open spec fn obeys_eq_spec() -> bool {
        true
    }

    open spec fn eq_spec(&self, other: &Observable) -> bool {
        obs_equal(self@, other@)
    }
}

impl PartialEq for Condition {
    /// Structural equality, dates and constants compared as binary64 numbers.
    fn eq(&self, other: &Condition) -> (r: bool) {
        cond_eq(self, other)
    }
}

impl PartialEqSpecImpl for Condition {
    open spec fn obeys_eq_spec() -> bool {
        true
    }

    open spec fn eq_spec(&self, other: &Condition) -> bool {
        cond_equal(self@, other@)
    }
}

impl PartialEq for Contract {
    /// Structural equality, dates and constants compared as binary64 numbers.
    fn eq(&self, other: &Contract) -> (r: bool) {
        contract_eq(self, other)
    }
}

impl PartialEqSpecImpl for Contract {
    open spec fn obeys_eq_spec() -> bool {
        true
    }

    open spec fn eq_spec(&self, other: &Contract) -> bool {
        contract_equal(self@, other@)
    }
}

// --- Free constructors --------------------------------------------------------

/// Constant observable.
pub fn konst(x: u64) -> (o: Observable)
    ensures
        o == Observable::Const(x),
{
    Observable::Const(x)
}

/// Spot price of an underlying.
pub fn spot(name: &str) -> (o: Observable)
    ensures
        o@ == ObservableModel::Spot(name@),
{
    Observable::Spot(name.to_owned())
}

/// Short alias of [`spot`].
pub fn s(name: &str) -> (o: Observable)
    ensures
        o@ == ObservableModel::Spot(name@),
{
    spot(name)
}

/// The condition "at time `t`".
pub fn at(t: u64) -> (c: Condition)
    ensures
        c == Condition::At(t),
{
    Condition::At(t)
}

/// The empty contract.
pub fn zero() -> (c: Contract)
    ensures
        c == Contract::Zero,
{
    Contract::Zero
}

/// One unit of a currency.
pub fn one(ccy: &str) -> (c: Contract)
    ensures
        c@ == ContractModel::One(ccy@),
{
    Contract::One(Currency::new(ccy))
}

/// Reverse the flows.
pub fn give(c: Contract) -> (r: Contract)
    ensures
        r == Contract::Give(Box::new(c)),
{
    Contract::Give(Box::new(c))
}

/// Hold both contracts.
pub fn and(a: Contract, b: Contract) -> (r: Contract)
    ensures
        r == Contract::And(Box::new(a), Box::new(b)),
{
    Contract::And(Box::new(a), Box::new(b))
}

/// Choice between two contracts.
pub fn or(a: Contract, b: Contract) -> (r: Contract)
    ensures
        r == Contract::Or(Box::new(a), Box::new(b)),
{
    Contract::Or(Box::new(a), Box::new(b))
}

/// Scale a contract by an observable.
pub fn scale(obs: Observable, c: Contract) -> (r: Contract)
    ensures
        r == Contract::Scale(obs, Box::new(c)),
{
    Contract::Scale(obs, Box::new(c))
}

/// Acquire at the first time the condition holds.
pub fn when(cond: Condition, c: Contract) -> (r: Contract)
    ensures
        r == Contract::When(cond, Box::new(c)),
{
    Contract::When(cond, Box::new(c))
}

/// May acquire at any time the condition holds.
pub fn anytime(cond: Condition, c: Contract) -> (r: Contract)
    ensures
        r == Contract::Anytime(cond, Box::new(c)),
{
    Contract::Anytime(cond, Box::new(c))
}

/// Hold until the condition holds.
pub fn until(cond: Condition, c: Contract) -> (r: Contract)
    ensures
        r == Contract::Until(cond, Box::new(c)),
{
    Contract::Until(cond, Box::new(c))
}

/// US dollar.
pub const USD: &'static str = "USD";

/// Euro.
pub const EUR: &'static str = "EUR";

/// Pound sterling.
pub const GBP: &'static str = "GBP";

/// Japanese yen.
pub const JPY: &'static str = "JPY";

/// Arithmetic mean over the whole grid up to the current step.
pub fn average(obs: Observable) -> (o: Observable)
    ensures
        o == (Observable::Average { obs: Box::new(obs), from_year: None, to_year: None }),
{
    Observable::Average { obs: Box::new(obs), from_year: None, to_year: None }
}

/// Arithmetic mean over the window `[from_year, to_year]`.
pub fn average_over(obs: Observable, from_year: u64, to_year: u64) -> (o: Observable)
    ensures
        o == (Observable::Average {
            obs: Box::new(obs),
            from_year: Some(from_year),
            to_year: Some(to_year),
        }),
{
    Observable::Average { obs: Box::new(obs), from_year: Some(from_year), to_year: Some(to_year) }
}

/// Running maximum since the start of the grid.
pub fn running_max(obs: Observable) -> (o: Observable)
    ensures
        o == Observable::RunningMax(Box::new(obs)),
{
    Observable::RunningMax(Box::new(obs))
}

/// Running minimum since the start of the grid.
pub fn running_min(obs: Observable) -> (o: Observable)
    ensures
        o == Observable::RunningMin(Box::new(obs)),
{
    Observable::RunningMin(Box::new(obs))
}

// --- Fluent methods -----------------------------------------------------------

impl Observable {
    /// `max(self, other)`.
    pub fn max(self, other: Observable) -> (o: Observable)
        ensures
            o == Observable::Max(Box::new(self), Box::new(other)),
    {
        Observable::Max(Box::new(self), Box::new(other))
    }

    /// `min(self, other)`.
    pub fn min(self, other: Observable) -> (o: Observable)
        ensures
            o == Observable::Min(Box::new(self), Box::new(other)),
    {
        Observable::Min(Box::new(self), Box::new(other))
    }

    /// Condition `self >= other`.
    pub fn ge(self, other: Observable) -> (c: Condition)
        ensures
            c == Condition::Ge(self, other),
    {
        Condition::Ge(self, other)
    }

    /// Condition `self > other`.
    pub fn gt(self, other: Observable) -> (c: Condition)
        ensures
            c == Condition::Gt(self, other),
    {
        Condition::Gt(self, other)
    }

    /// Condition `self <= other`.
    pub fn le(self, other: Observable) -> (c: Condition)
        ensures
            c == Condition::Le(self, other),
    {
        Condition::Le(self, other)
    }

    /// Condition `self < other`.
    pub fn lt(self, other: Observable) -> (c: Condition)
        ensures
            c == Condition::Lt(self, other),
    {
        Condition::Lt(self, other)
    }

    /// Floor: `max(self, floor)`.
    pub fn clip(self, floor: u64) -> (o: Observable)
        ensures
            o == Observable::Max(Box::new(self), Box::new(Observable::Const(floor))),
    {
        self.max(Observable::Const(floor))
    }
}

impl Condition {
    /// Conjunction `self && other`.
    pub fn and(self, other: Condition) -> (c: Condition)
        ensures
            c == Condition::And(Box::new(self), Box::new(other)),
    {
        Condition::And(Box::new(self), Box::new(other))
    }

    /// Disjunction `self || other`.
    pub fn or(self, other: Condition) -> (c: Condition)
        ensures
            c == Condition::Or(Box::new(self), Box::new(other)),
    {
        Condition::Or(Box::new(self), Box::new(other))
    }
}

impl Contract {
    /// `self` acquired the first time `cond` holds.
    pub fn when(self, cond: Condition) -> (r: Contract)
        ensures
            r == Contract::When(cond, Box::new(self)),
    {
        Contract::When(cond, Box::new(self))
    }

    /// `self` held until `cond` holds (knock-out).
    pub fn until(self, cond: Condition) -> (r: Contract)
        ensures
            r == Contract::Until(cond, Box::new(self)),
    {
        Contract::Until(cond, Box::new(self))
    }

    /// `self` exercisable once `cond` holds.
    pub fn anytime(self, cond: Condition) -> (r: Contract)
        ensures
            r == Contract::Anytime(cond, Box::new(self)),
    {
        Contract::Anytime(cond, Box::new(self))
    }

    /// Hold `self` and `other`.
    pub fn and(self, other: Contract) -> (r: Contract)
        ensures
            r == Contract::And(Box::new(self), Box::new(other)),
    {
        Contract::And(Box::new(self), Box::new(other))
    }

    /// Choice between `self` and `other`.
    pub fn or(self, other: Contract) -> (r: Contract)
        ensures
            r == Contract::Or(Box::new(self), Box::new(other)),
    {
        Contract::Or(Box::new(self), Box::new(other))
    }

    /// Reverse the flows of `self`.
    pub fn give(self) -> (r: Contract)
        ensures
            r == Contract::Give(Box::new(self)),
    {
        Contract::Give(Box::new(self))
    }
}

// --- Operators ------------------------------------------------------------------

impl Add for Observable {
    type Output = Observable;

    fn add(self, rhs: Observable) -> (o: Observable) {
        Observable::Add(Box::new(self), Box::new(rhs))
    }
}

impl AddSpecImpl for Observable {
    open spec fn obeys_add_spec() -> bool {
        true
    }

    open spec fn add_req(self, rhs: Observable) -> bool {
        true
    }

    open spec fn add_spec(self, rhs: Observable) -> Observable {
        Observable::Add(Box::new(self), Box::new(rhs))
    }
}

impl Sub for Observable {
    type Output = Observable;

    fn sub(self, rhs: Observable) -> (o: Observable) {
        Observable::Sub(Box::new(self), Box::new(rhs))
    }
}

impl SubSpecImpl for Observable {
    open spec fn obeys_sub_spec() -> bool {
        true
    }

    open spec fn sub_req(self, rhs: Observable) -> bool {
        true
    }

    open spec fn sub_spec(self, rhs: Observable) -> Observable {
        Observable::Sub(Box::new(self), Box::new(rhs))
    }
}

impl Mul for Observable {
    type Output = Observable;

    fn mul(self, rhs: Observable) -> (o: Observable) {
        Observable::Mul(Box::new(self), Box::new(rhs))
    }
}

impl MulSpecImpl for Observable {
    open spec fn obeys_mul_spec() -> bool {
        true
    }

    open spec fn mul_req(self, rhs: Observable) -> bool {
        true
    }

    open spec fn mul_spec(self, rhs: Observable) -> Observable {
        Observable::Mul(Box::new(self), Box::new(rhs))
    }
}

impl Div for Observable {
    type Output = Observable;

    fn div(self, rhs: Observable) -> (o: Observable) {
        Observable::Div(Box::new(self), Box::new(rhs))
    }
}

impl DivSpecImpl for Observable {
    open spec fn obeys_div_spec() -> bool {
        true
    }

    open spec fn div_req(self, rhs: Observable) -> bool {
        true
    }

    open spec fn div_spec(self, rhs: Observable) -> Observable {
        Observable::Div(Box::new(self), Box::new(rhs))
    }
}

impl Neg for Observable {
    type Output = Observable;

    fn neg(self) -> (o: Observable) {
        Observable::Neg(Box::new(self))
    }
}

impl NegSpecImpl for Observable {
    open spec fn obeys_neg_spec() -> bool {
        true
    }

    open spec fn neg_req(self) -> bool {
        true
    }

    open spec fn neg_spec(self) -> Observable {
        Observable::Neg(Box::new(self))
    }
}

/// `observable * contract` scales the contract.
impl Mul<Contract> for Observable {
    type Output = Contract;

    fn mul(self, c: Contract) -> (r: Contract) {
        Contract::Scale(self, Box::new(c))
    }
}

impl MulSpecImpl<Contract> for Observable {
    open spec fn obeys_mul_spec() -> bool {
        true
    }

    open spec fn mul_req(self, c: Contract) -> bool {
        true
    }

    open spec fn mul_spec(self, c: Contract) -> Contract {
        Contract::Scale(self, Box::new(c))
    }
}

impl Not for Condition {
    type Output = Condition;

    fn not(self) -> (c: Condition) {
        Condition::Not(Box::new(self))
    }
}

impl NotSpecImpl for Condition {
    open spec fn obeys_not_spec() -> bool {
        true
    }

    open spec fn not_req(self) -> bool {
        true
    }

    open spec fn not_spec(self) -> Condition {
        Condition::Not(Box::new(self))
    }
}

} // verus!
