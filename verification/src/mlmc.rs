//! The integer side of Multilevel Monte-Carlo (Giles): the cost of a path at
//! each level and the seeds that keep levels and runs apart.
//!
//! Level `l` simulates a fine grid of `2^l` steps coupled with a coarse grid of
//! `2^(l-1)` steps (level 0 has a single step and no coarse grid).
use vstd::arithmetic::power2::{
    lemma2_to64, lemma2_to64_rest, lemma_pow2_strictly_increases, lemma_pow2_unfold, pow2,
};
use vstd::bits::{lemma_usize_pow2_no_overflow, lemma_usize_shl_is_mul};
use vstd::prelude::*;

use crate::simulator::{mix, mix_spec};

verus! {

/// Cost of one path at a level, in simulated time steps.
pub open spec fn level_cost_spec(level: nat) -> nat {
    if level == 0 {
        1
    } else {
        pow2(level) + pow2((level - 1) as nat)
    }
}

/// Cost of one path at level `level`, in simulated time steps: one step at
/// level 0, otherwise `2^l` fine steps plus `2^(l-1)` coarse ones.
pub fn level_cost(level: usize) -> (c: usize)
    requires
        level < usize::BITS,
    ensures
        c == level_cost_spec(level as nat),
        level > 0 ==> c == 3 * pow2((level - 1) as nat),
{
    if level == 0 {
        1
    } else {
        proof {
            lemma_pow2_unfold(level as nat);
            lemma_usize_pow2_no_overflow(level as nat);
            lemma_usize_shl_is_mul(1, level);
            lemma_usize_shl_is_mul(1, (level - 1) as usize);
            lemma2_to64();
            lemma2_to64_rest();
            let b = usize::BITS as nat;
            if level - 1 < b - 2 {
                lemma_pow2_strictly_increases((level - 1) as nat, (b - 2) as nat);
            }
            assert(3 * pow2((b - 2) as nat) <= usize::MAX);
        }
        (1usize << level) + (1usize << (level - 1))
    }
}

/// From level 1 on, each level costs twice the previous one.
pub proof fn lemma_level_cost_doubles(level: nat)
    requires
        level >= 1,
    ensures
        level_cost_spec(level + 1) == 2 * level_cost_spec(level),
{
    lemma_pow2_unfold(level + 1);
    lemma_pow2_unfold(level);
}

/// Costs of the levels `0..=n_levels`, each multiplied by the cost of a step
/// (taken as at least one).
pub fn level_costs(n_levels: usize, cost_per_step: usize) -> (v: Vec<usize>)
    requires
        n_levels < usize::BITS,
        level_cost_spec(n_levels as nat) * (if cost_per_step == 0 { 1 } else { cost_per_step })
            <= usize::MAX,
    ensures
        v@.len() == n_levels + 1,
        forall|l: int|
            0 <= l <= n_levels ==> #[trigger] v@[l] == level_cost_spec(l as nat) * (if cost_per_step
                == 0 {
                1
            } else {
                cost_per_step
            }),
{
    let step: usize = if cost_per_step == 0 { 1 } else { cost_per_step };
    let mut v: Vec<usize> = Vec::new();
    let mut l: usize = 0;
    while l <= n_levels
        invariant
            l <= n_levels + 1,
            n_levels < usize::BITS,
            step >= 1,
            step == (if cost_per_step == 0 { 1 } else { cost_per_step }),
            level_cost_spec(n_levels as nat) * step <= usize::MAX,
            v@.len() == l,
            forall|k: int| 0 <= k < l ==> #[trigger] v@[k] == level_cost_spec(k as nat) * step,
        decreases n_levels + 1 - l,
    {
        let c = level_cost(l);
        proof {
            lemma_level_cost_monotone(l as nat, n_levels as nat);
            assert(c * step <= level_cost_spec(n_levels as nat) * step) by (nonlinear_arith)
                requires
                    c <= level_cost_spec(n_levels as nat),
                    step >= 1,
            ;
        }
        v.push(c * step);
        l = l + 1;
    }
    v
}

/// Costs never decrease with the level.
pub proof fn lemma_level_cost_monotone(a: nat, b: nat)
    requires
        a <= b,
    ensures
        level_cost_spec(a) <= level_cost_spec(b),
    decreases b - a,
{
    if a < b {
        lemma_level_cost_monotone(a, (b - 1) as nat);
        if b - 1 >= 1 {
            lemma_level_cost_doubles((b - 1) as nat);
        } else {
            lemma_pow2_unfold(1);
            lemma2_to64();
        }
    }
}

/// Offset applied to the seed of the main run.
pub const MAIN_RUN_SEED_OFFSET: u64 = 0xA5A5_5A5A_DEAD_BEEFu64;

/// Seed of the main run, distinct from the pilot run's seed so that the main
/// run never reuses the pilot's draws.
pub fn main_run_seed(seed: u64) -> (r: u64)
    ensures
        r == seed ^ MAIN_RUN_SEED_OFFSET,
        r != seed,
{
    let r = seed ^ MAIN_RUN_SEED_OFFSET;
    assert(seed ^ 0xA5A5_5A5A_DEAD_BEEFu64 != seed) by (bit_vector);
    r
}

/// Seed of the coupled samples of one level.
pub fn level_seed(seed: u64, level: usize) -> (r: u64)
    ensures
        r == mix_spec(seed, level as u64),
{
    mix(seed, level as u64)
}

} // verus!
