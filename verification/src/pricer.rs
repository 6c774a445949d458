//! The compositional reduction of a contract into cash flows along one path.
//!
//! The pricer knows no named product: it reduces a [`Contract`] recursively
//! into flows `(sign, scale factors, date index)`:
//!   - `zero` gives no flow; `one(ccy)` a unit flow at the current date;
//!   - `give(c)` reverses the sign of every flow of `c`;
//!   - `and(a, b)` gives the flows of `a` followed by those of `b`;
//!   - `scale(o, c)` multiplies each flow of `c` by `o` taken at that flow's date;
//!   - `when(cond, c)` and `anytime(cond, c)` acquire `c` at the first date, from
//!     the current one on, where `cond` holds (first touch), and give nothing
//!     if it never holds;
//!   - `until(cond, c)` keeps the flows of `c` strictly before the first date
//!     where `cond` holds (knock-out);
//!   - `or(a, b)` needs an exercise policy and is not supported here.
//!
//! Evaluating conditions and observables on a path is numerical work done by
//! the caller: it hands over, for each condition node and each scale node of
//! the contract (numbered in the order of [`condition_nodes`] and
//! [`scale_nodes`]), the outcome of the evaluation at every date of the path.
//! The amount of a flow is `±1` times its factors, multiplied in order.
use vstd::prelude::*;

use crate::ast::{Condition, ConditionModel, Contract, ContractModel, Observable, ObservableModel};
use crate::error::KontractError;

verus! {

/// A cash flow: its sign, the factors that scale it (innermost first, as bit
/// patterns of binary64 values) and the index of its date.
pub struct Flow {
    pub negated: bool,
    pub factors: Vec<u64>,
    pub step: usize,
}

/// The model of a flow.
pub open spec fn flow_model(f: Flow) -> (bool, Seq<u64>, usize) {
    (f.negated, f.factors@, f.step)
}

/// The models of a list of flows.
pub open spec fn flow_models(v: Seq<Flow>) -> Seq<(bool, Seq<u64>, usize)> {
    v.map_values(|f: Flow| flow_model(f))
}

/// The rows of a table.
pub open spec fn rows<T>(v: Seq<Vec<T>>) -> Seq<Seq<T>> {
    v.map_values(|r: Vec<T>| r@)
}

/// Number of condition nodes (`when`, `anytime`, `until`) in a contract.
pub open spec fn cond_count(k: ContractModel) -> nat
    decreases k,
{
    match k {
        ContractModel::Zero => 0,
        ContractModel::One(_) => 0,
        ContractModel::Give(a) => cond_count(*a),
        ContractModel::And(a, b) => cond_count(*a) + cond_count(*b),
        ContractModel::Or(a, b) => cond_count(*a) + cond_count(*b),
        ContractModel::Scale(_, a) => cond_count(*a),
        ContractModel::When(_, a) => 1 + cond_count(*a),
        ContractModel::Anytime(_, a) => 1 + cond_count(*a),
        ContractModel::Until(_, a) => 1 + cond_count(*a),
    }
}

/// Number of scale nodes in a contract.
pub open spec fn scale_count(k: ContractModel) -> nat
    decreases k,
{
    match k {
        ContractModel::Zero => 0,
        ContractModel::One(_) => 0,
        ContractModel::Give(a) => scale_count(*a),
        ContractModel::And(a, b) => scale_count(*a) + scale_count(*b),
        ContractModel::Or(a, b) => scale_count(*a) + scale_count(*b),
        ContractModel::Scale(_, a) => 1 + scale_count(*a),
        ContractModel::When(_, a) => scale_count(*a),
        ContractModel::Anytime(_, a) => scale_count(*a),
        ContractModel::Until(_, a) => scale_count(*a),
    }
}

/// The conditions of the contract's condition nodes, in prefix order.
pub open spec fn cond_nodes(k: ContractModel) -> Seq<ConditionModel>
    decreases k,
{
    match k {
        ContractModel::Zero => seq![],
        ContractModel::One(_) => seq![],
        ContractModel::Give(a) => cond_nodes(*a),
        ContractModel::And(a, b) => cond_nodes(*a) + cond_nodes(*b),
        ContractModel::Or(a, b) => cond_nodes(*a) + cond_nodes(*b),
        ContractModel::Scale(_, a) => cond_nodes(*a),
        ContractModel::When(c, a) => seq![c] + cond_nodes(*a),
        ContractModel::Anytime(c, a) => seq![c] + cond_nodes(*a),
        ContractModel::Until(c, a) => seq![c] + cond_nodes(*a),
    }
}

/// The observables of the contract's scale nodes, in prefix order.
pub open spec fn scale_obs(k: ContractModel) -> Seq<ObservableModel>
    decreases k,
{
    match k {
        ContractModel::Zero => seq![],
        ContractModel::One(_) => seq![],
        ContractModel::Give(a) => scale_obs(*a),
        ContractModel::And(a, b) => scale_obs(*a) + scale_obs(*b),
        ContractModel::Or(a, b) => scale_obs(*a) + scale_obs(*b),
        ContractModel::Scale(o, a) => seq![o] + scale_obs(*a),
        ContractModel::When(_, a) => scale_obs(*a),
        ContractModel::Anytime(_, a) => scale_obs(*a),
        ContractModel::Until(_, a) => scale_obs(*a),
    }
}

/// The first date, from `start` on, where the condition holds: evaluation
/// outcomes are read in order and the first failure is reported.
pub open spec fn first_activation_spec(row: Seq<Result<bool, KontractError>>, start: int) -> Result<
    Option<usize>,
    KontractError,
>
    decreases row.len() - start,
{
    if start < 0 || start >= row.len() {
        Ok(None)
    } else {
        match row[start] {
            Err(e) => Err(e),
            Ok(true) => Ok(Some(start as usize)),
            Ok(false) => first_activation_spec(row, start + 1),
        }
    }
}

/// Reverses the sign of every flow.
pub open spec fn negate_flows(fs: Seq<(bool, Seq<u64>, usize)>) -> Seq<(bool, Seq<u64>, usize)> {
    fs.map_values(|f: (bool, Seq<u64>, usize)| (!f.0, f.1, f.2))
}

/// Multiplies each flow by the factor of its date; the first failed
/// evaluation, in the order of the flows, is reported.
pub open spec fn scale_flows(
    fs: Seq<(bool, Seq<u64>, usize)>,
    row: Seq<Result<u64, KontractError>>,
) -> Result<Seq<(bool, Seq<u64>, usize)>, Option<KontractError>>
    decreases fs.len(),
{
    if fs.len() == 0 {
        Ok(seq![])
    } else {
        match scale_flows(fs.drop_last(), row) {
            Err(e) => Err(e),
            Ok(prev) => match row[fs.last().2 as int] {
                Err(e) => Err(Some(e)),
                Ok(v) => Ok(prev.push((fs.last().0, fs.last().1.push(v), fs.last().2))),
            },
        }
    }
}

/// The flows of `k` acquired at date `t`, its condition nodes being numbered
/// from `cb` and its scale nodes from `sb`. An error `None` stands for an
/// unsupported combination; `Some(e)` for a failed evaluation.
pub open spec fn flows_spec(
    k: ContractModel,
    t: usize,
    cb: int,
    sb: int,
    conds: Seq<Seq<Result<bool, KontractError>>>,
    scales: Seq<Seq<Result<u64, KontractError>>>,
) -> Result<Seq<(bool, Seq<u64>, usize)>, Option<KontractError>>
    decreases k,
{
    match k {
        ContractModel::Zero => Ok(seq![]),
        ContractModel::One(_) => Ok(seq![(false, Seq::<u64>::empty(), t)]),
        ContractModel::Give(a) => match flows_spec(*a, t, cb, sb, conds, scales) {
            Err(e) => Err(e),
            Ok(fs) => Ok(negate_flows(fs)),
        },
        ContractModel::And(a, b) => match flows_spec(*a, t, cb, sb, conds, scales) {
            Err(e) => Err(e),
            Ok(fa) => match flows_spec(
                *b,
                t,
                cb + cond_count(*a),
                sb + scale_count(*a),
                conds,
                scales,
            ) {
                Err(e) => Err(e),
                Ok(fb) => Ok(fa + fb),
            },
        },
        ContractModel::Or(_, _) => Err(None),
        ContractModel::Scale(_, a) => match flows_spec(*a, t, cb, sb + 1, conds, scales) {
            Err(e) => Err(e),
            Ok(fa) => scale_flows(fa, scales[sb]),
        },
        ContractModel::When(_, a) => match first_activation_spec(conds[cb], t as int) {
            Err(e) => Err(Some(e)),
            Ok(None) => Ok(seq![]),
            Ok(Some(j)) => flows_spec(*a, j, cb + 1, sb, conds, scales),
        },
        ContractModel::Anytime(_, a) => match first_activation_spec(conds[cb], t as int) {
            Err(e) => Err(Some(e)),
            Ok(None) => Ok(seq![]),
            Ok(Some(j)) => flows_spec(*a, j, cb + 1, sb, conds, scales),
        },
        ContractModel::Until(_, a) => match flows_spec(*a, t, cb + 1, sb, conds, scales) {
            Err(e) => Err(e),
            Ok(fa) => match first_activation_spec(conds[cb], t as int) {
                Err(e) => Err(Some(e)),
                Ok(None) => Ok(fa),
                Ok(Some(j)) => Ok(fa.filter(|f: (bool, Seq<u64>, usize)| f.2 < j)),
            },
        },
    }
}

/// The exec result agrees with the spec result.
pub open spec fn agrees(
    r: Result<Vec<Flow>, KontractError>,
    s: Result<Seq<(bool, Seq<u64>, usize)>, Option<KontractError>>,
) -> bool {
    match r {
        Ok(v) => s == Ok::<Seq<(bool, Seq<u64>, usize)>, Option<KontractError>>(flow_models(v@)),
        Err(e) => match s {
            Ok(_) => false,
            Err(None) => e is Unsupported,
            Err(Some(e2)) => e == e2,
        },
    }
}

/// Tables with one row per node, each holding one outcome per date.
pub open spec fn tables_fit(
    conds: Seq<Vec<Result<bool, KontractError>>>,
    scales: Seq<Vec<Result<u64, KontractError>>>,
    n_steps: usize,
) -> bool {
    &&& forall|i: int| 0 <= i < conds.len() ==> #[trigger] conds[i]@.len() == n_steps
    &&& forall|i: int| 0 <= i < scales.len() ==> #[trigger] scales[i]@.len() == n_steps
}

/// The first date, from `start` on, where the condition holds.
pub fn first_activation(row: &Vec<Result<bool, KontractError>>, start: usize) -> (r: Result<
    Option<usize>,
    KontractError,
>)
    ensures
        r == first_activation_spec(row@, start as int),
{
    let mut i = start;
    while i < row.len()
        invariant
            start <= i,
            first_activation_spec(row@, start as int) == first_activation_spec(row@, i as int),
        decreases row.len() - i,
    {
        match &row[i] {
            Err(e) => {
                return Err(e.clone());
            },
            Ok(true) => {
                return Ok(Some(i));
            },
            Ok(false) => {},
        }
        i = i + 1;
    }
    Ok(None)
}

fn negate_all(v: Vec<Flow>) -> (r: Vec<Flow>)
    ensures
        flow_models(r@) == negate_flows(flow_models(v@)),
        forall|i: int| 0 <= i < r@.len() ==> #[trigger] r@[i].step == v@[i].step,
        r@.len() == v@.len(),
{
    let ghost v0 = v@;
    let mut out: Vec<Flow> = Vec::new();
    let mut v = v;
    while v.len() > 0
        invariant
            v@ == v0.skip(out@.len() as int),
            out@.len() <= v0.len(),
            flow_models(out@) == negate_flows(flow_models(v0.take(out@.len() as int))),
            forall|i: int| 0 <= i < out@.len() ==> #[trigger] out@[i].step == v0[i].step,
        decreases v.len(),
    {
        let ghost k = out@.len() as int;
        let f = v.remove(0);
        assert(f == v0[k]);
        let ghost out0 = out@;
        let g = Flow { negated: !f.negated, factors: f.factors, step: f.step };
        assert(flow_model(g) == (!flow_model(v0[k]).0, flow_model(v0[k]).1, flow_model(v0[k]).2));
        out.push(g);
        assert(v0.take(k + 1) =~= v0.take(k).push(v0[k]));
        assert(flow_models(out@) =~= flow_models(out0).push(flow_model(g)));
        assert(flow_models(v0.take(k + 1)) =~= flow_models(v0.take(k)).push(flow_model(v0[k])));
        assert(negate_flows(flow_models(v0.take(k + 1))) =~= negate_flows(
            flow_models(v0.take(k)),
        ).push(flow_model(g)));
        assert(v@ =~= v0.skip(k + 1));
    }
    assert(v0.take(v0.len() as int) =~= v0);
    out
}

/// An evaluation failure among the first flows is the failure of the whole.
proof fn lemma_scale_flows_prefix_err(
    fs: Seq<(bool, Seq<u64>, usize)>,
    row: Seq<Result<u64, KontractError>>,
    i: int,
)
    requires
        0 <= i <= fs.len(),
        scale_flows(fs.take(i), row) is Err,
    ensures
        scale_flows(fs, row) == scale_flows(fs.take(i), row),
    decreases fs.len(),
{
    if fs.len() > i {
        assert(fs.drop_last().take(i) =~= fs.take(i));
        lemma_scale_flows_prefix_err(fs.drop_last(), row, i);
    } else {
        assert(fs.take(i) =~= fs);
    }
}

fn scale_all(v: Vec<Flow>, row: &Vec<Result<u64, KontractError>>) -> (r: Result<
    Vec<Flow>,
    KontractError,
>)
    requires
        forall|i: int| 0 <= i < v@.len() ==> #[trigger] v@[i].step < row@.len(),
    ensures
        agrees(r, scale_flows(flow_models(v@), row@)),
        r matches Ok(w) ==> w@.len() == v@.len() && forall|i: int|
            0 <= i < w@.len() ==> #[trigger] w@[i].step == v@[i].step,
{
    let ghost v0 = v@;
    let ghost m0 = flow_models(v0);
    let mut out: Vec<Flow> = Vec::new();
    let mut rest = v;
    assert(m0.take(0) =~= Seq::<(bool, Seq<u64>, usize)>::empty());
    assert(flow_models(out@) =~= Seq::<(bool, Seq<u64>, usize)>::empty());
    while rest.len() > 0
        invariant
            rest@ == v0.skip(out@.len() as int),
            v0 == v@,
            m0 == flow_models(v0),
            out@.len() <= v0.len(),
            forall|i: int| 0 <= i < v0.len() ==> #[trigger] v0[i].step < row@.len(),
            scale_flows(m0.take(out@.len() as int), row@) == Ok::<
                Seq<(bool, Seq<u64>, usize)>,
                Option<KontractError>,
            >(flow_models(out@)),
            forall|i: int| 0 <= i < out@.len() ==> #[trigger] out@[i].step == v0[i].step,
        decreases rest.len(),
    {
        let ghost k = out@.len() as int;
        let ghost out0 = out@;
        let f = rest.remove(0);
        assert(f == v0[k]);
        assert(m0.take(k + 1).drop_last() =~= m0.take(k));
        assert(m0.take(k + 1).last() == flow_model(v0[k]));
        match &row[f.step] {
            Err(e) => {
                proof {
                    assert(scale_flows(m0.take(k + 1), row@) == Err::<
                        Seq<(bool, Seq<u64>, usize)>,
                        Option<KontractError>,
                    >(Some(*e)));
                    lemma_scale_flows_prefix_err(m0, row@, k + 1);
                }
                let e2 = e.clone();
                assert(e2 == *e);
                return Err(e2);
            },
            Ok(x) => {
                let x = *x;
                let mut factors = f.factors;
                factors.push(x);
                let g = Flow { negated: f.negated, factors, step: f.step };
                out.push(g);
                assert(flow_models(out@) =~= flow_models(out0).push(flow_model(g)));
            },
        }
        assert(rest@ =~= v0.skip(k + 1));
    }
    assert(m0.take(v0.len() as int) =~= m0);
    Ok(out)
}

fn keep_before(v: Vec<Flow>, j: usize, bound: usize) -> (r: Vec<Flow>)
    requires
        forall|i: int| 0 <= i < v@.len() ==> #[trigger] v@[i].step < bound,
    ensures
        flow_models(r@) == flow_models(v@).filter(|f: (bool, Seq<u64>, usize)| f.2 < j),
        forall|i: int| 0 <= i < r@.len() ==> #[trigger] r@[i].step < bound,
{
    let ghost v0 = v@;
    let ghost m0 = flow_models(v0);
    let ghost pred = |f: (bool, Seq<u64>, usize)| f.2 < j;
    let mut out: Vec<Flow> = Vec::new();
    let mut v = v;
    let mut n: usize = 0;
    assert(v0.len() == v.len());
    proof {
        reveal_with_fuel(Seq::<_>::filter, 1);
        assert(m0.take(0) =~= Seq::<(bool, Seq<u64>, usize)>::empty());
    }
    while v.len() > 0
        invariant
            v@ == v0.skip(n as int),
            n <= v0.len(),
            v0.len() <= usize::MAX,
            m0 == flow_models(v0),
            pred == (|f: (bool, Seq<u64>, usize)| f.2 < j),
            flow_models(out@) == m0.take(n as int).filter(pred),
            forall|i: int| 0 <= i < v0.len() ==> #[trigger] v0[i].step < bound,
            forall|i: int| 0 <= i < out@.len() ==> #[trigger] out@[i].step < bound,
        decreases v.len(),
    {
        let ghost out0 = out@;
        assert(n < v0.len());
        let f = v.remove(0);
        assert(f == v0[n as int]);
        proof {
            reveal_with_fuel(Seq::<_>::filter, 1);
            assert(m0.take(n + 1).drop_last() =~= m0.take(n as int));
            assert(m0.take(n + 1).last() == flow_model(f));
        }
        if f.step < j {
            let ghost fm = flow_model(f);
            out.push(f);
            assert(flow_models(out@) =~= flow_models(out0).push(fm));
        }
        n = n + 1;
        assert(v@ =~= v0.skip(n as int));
    }
    assert(m0.take(v0.len() as int) =~= m0);
    out
}

/// An activation found from `start` on lies in `[start, row.len())`.
proof fn lemma_activation_in_range(row: Seq<Result<bool, KontractError>>, start: int)
    requires
        0 <= start,
        row.len() <= usize::MAX,
    ensures
        first_activation_spec(row, start) matches Ok(Some(j)) ==> start <= j < row.len(),
    decreases row.len() - start,
{
    if start < row.len() {
        lemma_activation_in_range(row, start + 1);
    }
}

/// Numbers of condition nodes and of scale nodes of a contract.
fn node_counts(k: &Contract) -> (r: (usize, usize))
    requires
        cond_count(k@) <= usize::MAX,
        scale_count(k@) <= usize::MAX,
    ensures
        r.0 == cond_count(k@),
        r.1 == scale_count(k@),
    decreases k,
{
    match k {
        Contract::Zero | Contract::One(_) => (0, 0),
        Contract::Give(a) => node_counts(a),
        Contract::And(a, b) | Contract::Or(a, b) => {
            let (ca, sa) = node_counts(a);
            let (cb, sb) = node_counts(b);
            (ca + cb, sa + sb)
        },
        Contract::Scale(_, a) => {
            let (c, s) = node_counts(a);
            (c, s + 1)
        },
        Contract::When(_, a) | Contract::Anytime(_, a) | Contract::Until(_, a) => {
            let (c, s) = node_counts(a);
            (c + 1, s)
        },
    }
}

fn flows_rec(
    k: &Contract,
    t: usize,
    cb: usize,
    sb: usize,
    conds: &Vec<Vec<Result<bool, KontractError>>>,
    scales: &Vec<Vec<Result<u64, KontractError>>>,
    n_steps: usize,
) -> (r: Result<Vec<Flow>, KontractError>)
    requires
        t < n_steps,
        cb + cond_count(k@) <= conds@.len(),
        sb + scale_count(k@) <= scales@.len(),
        tables_fit(conds@, scales@, n_steps),
    ensures
        agrees(r, flows_spec(k@, t, cb as int, sb as int, rows(conds@), rows(scales@))),
        r matches Ok(v) ==> forall|i: int| 0 <= i < v@.len() ==> #[trigger] v@[i].step < n_steps,
    decreases k,
{
    let ghost cr = rows(conds@);
    let ghost sr = rows(scales@);
    assert(conds@.len() == conds.len() && scales@.len() == scales.len());
    match k {
        Contract::Zero => {
            let v: Vec<Flow> = Vec::new();
            assert(flow_models(v@) =~= Seq::<(bool, Seq<u64>, usize)>::empty());
            Ok(v)
        },
        Contract::One(_) => {
            let mut v: Vec<Flow> = Vec::new();
            let f = Flow { negated: false, factors: Vec::new(), step: t };
            v.push(f);
            assert(flow_models(v@) =~= seq![(false, Seq::<u64>::empty(), t)]);
            Ok(v)
        },
        Contract::Give(a) => {
            match flows_rec(a, t, cb, sb, conds, scales, n_steps) {
                Ok(fa) => Ok(negate_all(fa)),
                Err(e) => Err(e),
            }
        },
        Contract::And(a, b) => {
            let fa = match flows_rec(a, t, cb, sb, conds, scales, n_steps) {
                Ok(fa) => fa,
                Err(e) => {
                    return Err(e);
                },
            };
            let (ca, sa) = node_counts(a);
            let fb = match flows_rec(b, t, cb + ca, sb + sa, conds, scales, n_steps) {
                Ok(fb) => fb,
                Err(e) => {
                    return Err(e);
                },
            };
            let ghost ma = flow_models(fa@);
            let ghost mb = flow_models(fb@);
            let ghost va = fa@;
            let ghost vb = fb@;
            let mut out = fa;
            let mut fb = fb;
            out.append(&mut fb);
            assert(out@ =~= va + vb);
            assert(flow_models(out@) =~= ma + mb);
            assert forall|i: int| 0 <= i < out@.len() implies #[trigger] out@[i].step < n_steps by {
                if i < va.len() {
                    assert(out@[i] == va[i]);
                } else {
                    assert(out@[i] == vb[i - va.len()]);
                }
            }
            Ok(out)
        },
        Contract::Or(_, _) => Err(KontractError::Unsupported("or (jalon J17, LSM)".to_owned())),
        Contract::Scale(_, a) => {
            let fa = match flows_rec(a, t, cb, sb + 1, conds, scales, n_steps) {
                Ok(fa) => fa,
                Err(e) => {
                    return Err(e);
                },
            };
            assert(sr[sb as int] == scales@[sb as int]@);
            scale_all(fa, &scales[sb])
        },
        Contract::When(_, a) | Contract::Anytime(_, a) => {
            let act = first_activation(&conds[cb], t);
            assert(cr[cb as int] == conds@[cb as int]@);
            proof {
                lemma_activation_in_range(conds@[cb as int]@, t as int);
            }
            match act {
                Err(e) => Err(e),
                Ok(None) => {
                    let v: Vec<Flow> = Vec::new();
                    assert(flow_models(v@) =~= Seq::<(bool, Seq<u64>, usize)>::empty());
                    Ok(v)
                },
                Ok(Some(j)) => flows_rec(a, j, cb + 1, sb, conds, scales, n_steps),
            }
        },
        Contract::Until(_, a) => {
            let fa = match flows_rec(a, t, cb + 1, sb, conds, scales, n_steps) {
                Ok(fa) => fa,
                Err(e) => {
                    return Err(e);
                },
            };
            let act = first_activation(&conds[cb], t);
            assert(cr[cb as int] == conds@[cb as int]@);
            match act {
                Err(e) => Err(e),
                Ok(None) => Ok(fa),
                Ok(Some(j)) => {
                    let r = keep_before(fa, j, n_steps);
                    Ok(r)
                },
            }
        },
    }
}

/// Reduces a contract, acquired at date `t_idx`, into its cash flows along
/// one path of `n_steps` dates.
///
/// `conds[i][t]` is the outcome of evaluating the `i`-th condition node
/// (see [`condition_nodes`]) at date `t`, and `scales[j][t]` that of the
/// `j`-th scale node's observable (see [`scale_nodes`]). Only the outcomes
/// that the reduction reaches are read, in the order the reduction reaches
/// them; the first failure read is the error returned. A choice (`or`) fails
/// with `Unsupported`.
pub fn cashflows(
    contract: &Contract,
    t_idx: usize,
    n_steps: usize,
    conds: &Vec<Vec<Result<bool, KontractError>>>,
    scales: &Vec<Vec<Result<u64, KontractError>>>,
) -> (r: Result<Vec<Flow>, KontractError>)
    requires
        t_idx < n_steps,
        cond_count(contract@) <= conds@.len(),
        scale_count(contract@) <= scales@.len(),
        tables_fit(conds@, scales@, n_steps),
    ensures
        agrees(r, flows_spec(contract@, t_idx, 0, 0, rows(conds@), rows(scales@))),
        r matches Ok(v) ==> forall|i: int| 0 <= i < v@.len() ==> #[trigger] v@[i].step < n_steps,
{
    flows_rec(contract, t_idx, 0, 0, conds, scales, n_steps)
}

/// The models of a list of conditions.
pub open spec fn cond_models(v: Seq<Condition>) -> Seq<ConditionModel> {
    v.map_values(|c: Condition| c@)
}

/// The models of a list of observables.
pub open spec fn obs_models(v: Seq<Observable>) -> Seq<ObservableModel> {
    v.map_values(|o: Observable| o@)
}

/// The conditions of the contract's `when`, `anytime` and `until` nodes, in
/// prefix order: row `i` of the condition table of [`cashflows`] holds the
/// outcomes of the `i`-th of them.
pub fn condition_nodes(k: &Contract) -> (v: Vec<Condition>)
    ensures
        cond_models(v@) == cond_nodes(k@),
    decreases k,
{
    match k {
        Contract::Zero | Contract::One(_) => {
            let v: Vec<Condition> = Vec::new();
            assert(cond_models(v@) =~= Seq::<ConditionModel>::empty());
            v
        },
        Contract::Give(a) | Contract::Scale(_, a) => condition_nodes(a),
        Contract::And(a, b) | Contract::Or(a, b) => {
            let mut va = condition_nodes(a);
            let mut vb = condition_nodes(b);
            let ghost ma = va@;
            let ghost mb = vb@;
            va.append(&mut vb);
            assert(va@ =~= ma + mb);
            assert(cond_models(va@) =~= cond_models(ma) + cond_models(mb));
            va
        },
        Contract::When(c, a) | Contract::Anytime(c, a) | Contract::Until(c, a) => {
            let mut v: Vec<Condition> = Vec::new();
            v.push(c.clone());
            let mut rest = condition_nodes(a);
            let ghost mr = rest@;
            let ghost m0 = v@;
            v.append(&mut rest);
            assert(v@ =~= m0 + mr);
            assert(cond_models(v@) =~= cond_models(m0) + cond_models(mr));
            assert(cond_models(m0) =~= seq![c@]);
            v
        },
    }
}

/// The observables of the contract's scale nodes, in prefix order: row `j`
/// of the scale table of [`cashflows`] holds the outcomes of the `j`-th of
/// them.
pub fn scale_nodes(k: &Contract) -> (v: Vec<Observable>)
    ensures
        obs_models(v@) == scale_obs(k@),
    decreases k,
{
    match k {
        Contract::Zero | Contract::One(_) => {
            let v: Vec<Observable> = Vec::new();
            assert(obs_models(v@) =~= Seq::<ObservableModel>::empty());
            v
        },
        Contract::Give(a) | Contract::When(_, a) | Contract::Anytime(_, a) | Contract::Until(_, a) => {
            scale_nodes(a)
        },
        Contract::And(a, b) | Contract::Or(a, b) => {
            let mut va = scale_nodes(a);
            let mut vb = scale_nodes(b);
            let ghost ma = va@;
            let ghost mb = vb@;
            va.append(&mut vb);
            assert(va@ =~= ma + mb);
            assert(obs_models(va@) =~= obs_models(ma) + obs_models(mb));
            va
        },
        Contract::Scale(o, a) => {
            let mut v: Vec<Observable> = Vec::new();
            v.push(o.clone());
            let mut rest = scale_nodes(a);
            let ghost mr = rest@;
            let ghost m0 = v@;
            v.append(&mut rest);
            assert(v@ =~= m0 + mr);
            assert(obs_models(v@) =~= obs_models(m0) + obs_models(mr));
            assert(obs_models(m0) =~= seq![o@]);
            v
        },
    }
}

// --- Laws ----------------------------------------------------------------------

/// What a filter keeps comes from the filtered sequence and satisfies the
/// predicate.
proof fn lemma_filter_keeps<A>(s: Seq<A>, pred: spec_fn(A) -> bool)
    ensures
        forall|i: int|
            0 <= i < s.filter(pred).len() ==> pred(#[trigger] s.filter(pred)[i]) && s.contains(
                s.filter(pred)[i],
            ),
    decreases s.len(),
{
    reveal(Seq::filter);
    if s.len() > 0 {
        lemma_filter_keeps(s.drop_last(), pred);
        let sub = s.drop_last().filter(pred);
        assert forall|i: int| 0 <= i < s.filter(pred).len() implies pred(
            #[trigger] s.filter(pred)[i],
        ) && s.contains(s.filter(pred)[i]) by {
            if i < sub.len() {
                assert(s.filter(pred)[i] == sub[i]);
                let k = choose|k: int| 0 <= k < s.drop_last().len() && s.drop_last()[k] == sub[i];
                assert(s[k] == sub[i]);
            } else {
                assert(s.filter(pred)[i] == s.last());
                assert(s[s.len() - 1] == s.last());
            }
        }
    }
}

/// Scaling keeps the number, order and dates of the flows.
proof fn lemma_scale_keeps_dates(
    fs: Seq<(bool, Seq<u64>, usize)>,
    row: Seq<Result<u64, KontractError>>,
)
    ensures
        scale_flows(fs, row) matches Ok(out) ==> out.len() == fs.len() && forall|i: int|
            0 <= i < fs.len() ==> #[trigger] out[i].2 == fs[i].2 && out[i].0 == fs[i].0,
    decreases fs.len(),
{
    if fs.len() > 0 {
        lemma_scale_keeps_dates(fs.drop_last(), row);
    }
}

/// Holding both contracts holds the flows of each: the flows of `and(a, b)`
/// are those of `a` followed by those of `b` (whose nodes are numbered after
/// those of `a`), and the first failure of either is the failure of both.
pub proof fn lemma_and_holds_both(
    a: ContractModel,
    b: ContractModel,
    t: usize,
    cb: int,
    sb: int,
    conds: Seq<Seq<Result<bool, KontractError>>>,
    scales: Seq<Seq<Result<u64, KontractError>>>,
)
    ensures
        ({
            let fa = flows_spec(a, t, cb, sb, conds, scales);
            let fb = flows_spec(b, t, cb + cond_count(a), sb + scale_count(a), conds, scales);
            let fab = flows_spec(
                ContractModel::And(Box::new(a), Box::new(b)),
                t,
                cb,
                sb,
                conds,
                scales,
            );
            &&& (fa is Ok && fb is Ok) ==> fab == Ok::<Seq<(bool, Seq<u64>, usize)>, Option<KontractError>>(fa->Ok_0 + fb->Ok_0)
            &&& fa is Err ==> fab == fa
            &&& (fa is Ok && fb is Err) ==> fab == fb
        }),
{
}

/// Selling a contract reverses every one of its flows: `give(c)` fails
/// exactly as `c` does, and otherwise has as many flows as `c`, each with
/// the opposite sign and the same factors and date.
pub proof fn lemma_give_reverses_every_flow(
    c: ContractModel,
    t: usize,
    cb: int,
    sb: int,
    conds: Seq<Seq<Result<bool, KontractError>>>,
    scales: Seq<Seq<Result<u64, KontractError>>>,
)
    ensures
        ({
            let fc = flows_spec(c, t, cb, sb, conds, scales);
            let fg = flows_spec(ContractModel::Give(Box::new(c)), t, cb, sb, conds, scales);
            &&& fc is Err ==> fg == fc
            &&& fc is Ok ==> fg is Ok && fg->Ok_0.len() == fc->Ok_0.len() && forall|i: int|
                0 <= i < fc->Ok_0.len() ==> (#[trigger] fg->Ok_0[i]).0 == !fc->Ok_0[i].0
                    && fg->Ok_0[i].1 == fc->Ok_0[i].1 && fg->Ok_0[i].2 == fc->Ok_0[i].2
        }),
{
}

/// Each flow of a scaled contract is the corresponding flow of the contract
/// with one more factor: the scale observable's outcome at the flow's date.
/// The scaled contract succeeds exactly when the contract does and every one
/// of those outcomes is available.
pub proof fn lemma_scale_multiplies_every_flow(
    fs: Seq<(bool, Seq<u64>, usize)>,
    row: Seq<Result<u64, KontractError>>,
)
    ensures
        scale_flows(fs, row) is Ok <==> forall|i: int| 0 <= i < fs.len() ==> #[trigger] row[fs[i].2 as int] is Ok,
        scale_flows(fs, row) is Ok ==> {
            let gs = scale_flows(fs, row)->Ok_0;
            &&& gs.len() == fs.len()
            &&& forall|i: int|
                0 <= i < fs.len() ==> (#[trigger] gs[i]).0 == fs[i].0 && gs[i].2 == fs[i].2
                    && gs[i].1 == fs[i].1.push(row[fs[i].2 as int]->Ok_0)
        },
    decreases fs.len(),
{
    if fs.len() > 0 {
        let p = fs.drop_last();
        lemma_scale_multiplies_every_flow(p, row);
        if scale_flows(fs, row) is Ok {
            assert forall|i: int| 0 <= i < fs.len() implies #[trigger] row[fs[i].2 as int] is Ok by {
                if i < fs.len() - 1 {
                    assert(fs[i] == p[i]);
                }
            }
        } else {
            if scale_flows(p, row) is Ok {
                assert(row[fs[fs.len() - 1].2 as int] is Err);
            } else {
                let j = choose|j: int| 0 <= j < p.len() && !(#[trigger] row[p[j].2 as int] is Ok);
                assert(fs[j] == p[j]);
            }
        }
    }
}

/// The first activation from `start` on is the first date from `start` on
/// whose outcome is not `Ok(false)`: a date where the condition holds, or
/// the failure reported there; none when every later outcome is `Ok(false)`.
pub proof fn lemma_first_activation_is_first(row: Seq<Result<bool, KontractError>>, start: int)
    requires
        0 <= start,
        row.len() <= usize::MAX,
    ensures
        first_activation_spec(row, start) matches Ok(Some(j)) ==> start <= j < row.len() && row[j as int]
            == Ok::<bool, KontractError>(true) && forall|i: int| start <= i < j ==> #[trigger] row[i] == Ok::<
            bool,
            KontractError,
        >(false),
        first_activation_spec(row, start) is Ok && first_activation_spec(row, start)->Ok_0 is None
            ==> forall|i: int| start <= i < row.len() ==> #[trigger] row[i] == Ok::<bool, KontractError>(
            false,
        ),
        first_activation_spec(row, start) matches Err(e) ==> exists|j: int|
            start <= j < row.len() && row[j] == Err::<bool, KontractError>(e) && forall|i: int|
                start <= i < j ==> #[trigger] row[i] == Ok::<bool, KontractError>(false),
    decreases row.len() - start,
{
    if start < row.len() {
        lemma_first_activation_is_first(row, start + 1);
        match row[start] {
            Ok(false) => {
                assert(row[start] == Ok::<bool, KontractError>(false));
                if let Ok(Some(j)) = first_activation_spec(row, start) {
                    assert forall|i: int| start <= i < j implies #[trigger] row[i] == Ok::<
                        bool,
                        KontractError,
                    >(false) by {
                        if i > start {
                        }
                    }
                }
                if let Err(e) = first_activation_spec(row, start) {
                    let j = choose|j: int|
                        start + 1 <= j < row.len() && row[j] == Err::<bool, KontractError>(e) && forall|i: int|
                            start + 1 <= i < j ==> #[trigger] row[i] == Ok::<bool, KontractError>(false);
                    assert forall|i: int| start <= i < j implies #[trigger] row[i] == Ok::<
                        bool,
                        KontractError,
                    >(false) by {
                        if i > start {
                        }
                    }
                }
            },
            Err(e) => {
                assert(row[start] == Err::<bool, KontractError>(e));
            },
            _ => {},
        }
    }
}

/// A contract acquired when a condition first holds pays, from that date,
/// what the inner contract pays when acquired then; nothing when the
/// condition never holds; and fails when the condition's evaluation fails
/// first. `anytime` is reduced the same way (first exercise).
pub proof fn lemma_when_acquires_at_first_activation(
    cond: ConditionModel,
    a: ContractModel,
    t: usize,
    cb: int,
    sb: int,
    conds: Seq<Seq<Result<bool, KontractError>>>,
    scales: Seq<Seq<Result<u64, KontractError>>>,
)
    ensures
        ({
            let act = first_activation_spec(conds[cb], t as int);
            let w = flows_spec(ContractModel::When(cond, Box::new(a)), t, cb, sb, conds, scales);
            let y = flows_spec(ContractModel::Anytime(cond, Box::new(a)), t, cb, sb, conds, scales);
            &&& act matches Ok(Some(j)) ==> w == flows_spec(a, j, cb + 1, sb, conds, scales)
                && y == flows_spec(a, j, cb + 1, sb, conds, scales)
            &&& act matches Ok(None) ==> w == Ok::<Seq<(bool, Seq<u64>, usize)>, Option<KontractError>>(seq![])
                && y == w
            &&& act matches Err(e) ==> w == Err::<Seq<(bool, Seq<u64>, usize)>, Option<KontractError>>(Some(e))
                && y == w
        }),
{
}

/// Reversing the flows twice gives the flows back: `give(give(c))` has the
/// flows of `c`.
pub proof fn lemma_give_twice(
    c: ContractModel,
    t: usize,
    cb: int,
    sb: int,
    conds: Seq<Seq<Result<bool, KontractError>>>,
    scales: Seq<Seq<Result<u64, KontractError>>>,
)
    ensures
        flows_spec(
            ContractModel::Give(Box::new(ContractModel::Give(Box::new(c)))),
            t,
            cb,
            sb,
            conds,
            scales,
        ) == flows_spec(c, t, cb, sb, conds, scales),
{
    reveal_with_fuel(flows_spec, 2);
    if let Ok(fs) = flows_spec(c, t, cb, sb, conds, scales) {
        assert(negate_flows(negate_flows(fs)) =~= fs);
    }
}

/// No flow precedes the date at which the contract is acquired: every flow
/// of a contract acquired at `t` is dated at `t` or later.
pub proof fn lemma_flows_not_before_acquisition(
    k: ContractModel,
    t: usize,
    cb: int,
    sb: int,
    conds: Seq<Seq<Result<bool, KontractError>>>,
    scales: Seq<Seq<Result<u64, KontractError>>>,
)
    requires
        0 <= cb,
        cb + cond_count(k) <= conds.len(),
        forall|i: int| 0 <= i < conds.len() ==> #[trigger] conds[i].len() <= usize::MAX,
    ensures
        flows_spec(k, t, cb, sb, conds, scales) matches Ok(fs) ==> forall|i: int|
            0 <= i < fs.len() ==> #[trigger] fs[i].2 >= t,
    decreases k,
{
    match k {
        ContractModel::Zero => {},
        ContractModel::One(_) => {},
        ContractModel::Give(a) => {
            lemma_flows_not_before_acquisition(*a, t, cb, sb, conds, scales);
        },
        ContractModel::And(a, b) => {
            lemma_flows_not_before_acquisition(*a, t, cb, sb, conds, scales);
            lemma_flows_not_before_acquisition(
                *b,
                t,
                cb + cond_count(*a),
                sb + scale_count(*a),
                conds,
                scales,
            );
            if let Ok(fs) = flows_spec(k, t, cb, sb, conds, scales) {
                let fa = flows_spec(*a, t, cb, sb, conds, scales).unwrap();
                let fb = flows_spec(
                    *b,
                    t,
                    cb + cond_count(*a),
                    sb + scale_count(*a),
                    conds,
                    scales,
                ).unwrap();
                assert forall|i: int| 0 <= i < fs.len() implies #[trigger] fs[i].2 >= t by {
                    if i < fa.len() {
                        assert(fs[i] == fa[i]);
                    } else {
                        assert(fs[i] == fb[i - fa.len()]);
                    }
                }
            }
        },
        ContractModel::Or(_, _) => {},
        ContractModel::Scale(_, a) => {
            lemma_flows_not_before_acquisition(*a, t, cb, sb + 1, conds, scales);
            if let Ok(fa) = flows_spec(*a, t, cb, sb + 1, conds, scales) {
                lemma_scale_keeps_dates(fa, scales[sb]);
            }
        },
        ContractModel::When(_, a) | ContractModel::Anytime(_, a) => {
            lemma_activation_in_range(conds[cb], t as int);
            if let Ok(Some(j)) = first_activation_spec(conds[cb], t as int) {
                lemma_flows_not_before_acquisition(*a, j, cb + 1, sb, conds, scales);
            }
        },
        ContractModel::Until(_, a) => {
            lemma_flows_not_before_acquisition(*a, t, cb + 1, sb, conds, scales);
            if let Ok(fa) = flows_spec(*a, t, cb + 1, sb, conds, scales) {
                if let Ok(Some(j)) = first_activation_spec(conds[cb], t as int) {
                    let pred = |f: (bool, Seq<u64>, usize)| f.2 < j;
                    lemma_filter_keeps(fa, pred);
                    assert forall|i: int| 0 <= i < fa.filter(pred).len() implies #[trigger] fa.filter(
                        pred,
                    )[i].2 >= t by {
                        let m = choose|m: int| 0 <= m < fa.len() && fa[m] == fa.filter(pred)[i];
                    }
                }
            }
        },
    }
}

/// A knock-out pays only what the inner contract pays strictly before the
/// barrier is first hit: every flow of `until(cond, c)` is a flow of `c`
/// dated before the first date from acquisition on where `cond` holds.
pub proof fn lemma_knock_out_stops_at_barrier(
    cond: ConditionModel,
    c: ContractModel,
    t: usize,
    cb: int,
    sb: int,
    conds: Seq<Seq<Result<bool, KontractError>>>,
    scales: Seq<Seq<Result<u64, KontractError>>>,
)
    ensures
        flows_spec(ContractModel::Until(cond, Box::new(c)), t, cb, sb, conds, scales) matches Ok(
            fs,
        ) ==> {
            &&& flows_spec(c, t, cb + 1, sb, conds, scales) is Ok
            &&& forall|i: int|
                0 <= i < fs.len() ==> flows_spec(c, t, cb + 1, sb, conds, scales)->Ok_0.contains(
                    #[trigger] fs[i],
                )
            &&& first_activation_spec(conds[cb], t as int) matches Ok(Some(j)) ==> forall|i: int|
                0 <= i < fs.len() ==> #[trigger] fs[i].2 < j
        },
{
    if let Ok(fa) = flows_spec(c, t, cb + 1, sb, conds, scales) {
        if let Ok(Some(j)) = first_activation_spec(conds[cb], t as int) {
            let pred = |f: (bool, Seq<u64>, usize)| f.2 < j;
            lemma_filter_keeps(fa, pred);
        } else if let Ok(None) = first_activation_spec(conds[cb], t as int) {
            assert forall|i: int| 0 <= i < fa.len() implies fa.contains(#[trigger] fa[i]) by {}
        }
    }
}

} // verus!
