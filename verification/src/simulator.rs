//! Seed derivation for reproducible simulations: every path draws its own
//! seed from `(seed, index)`, so results do not depend on scheduling; and the
//! digit expansion behind the Halton low-discrepancy points.
use vstd::prelude::*;

use crate::error::KontractError;

verus! {

/// The SplitMix64 increment.
pub const SPLITMIX_GAMMA: u64 = 0x9E37_79B9_7F4A_7C15u64;

/// `index * GAMMA`, modulo 2^64.
pub open spec fn scrambled_index(index: u64) -> u64 {
    ((index * SPLITMIX_GAMMA) % 0x1_0000_0000_0000_0000) as u64
}

/// The seed derived from `(seed, index)`.
pub open spec fn mix_spec(seed: u64, index: u64) -> u64 {
    seed ^ scrambled_index(index)
}

/// Mixes `(seed, index)` into a well-decorrelated seed:
/// `seed XOR (index * GAMMA mod 2^64)`.
pub fn mix(seed: u64, index: u64) -> (r: u64)
    ensures
        r == mix_spec(seed, index),
{
    seed ^ index.wrapping_mul(SPLITMIX_GAMMA)
}

/// Index zero leaves the seed unchanged.
pub proof fn lemma_mix_zero(seed: u64)
    ensures
        mix_spec(seed, 0) == seed,
{
    assert(scrambled_index(0) == 0);
    assert(seed ^ 0u64 == seed) by (bit_vector);
}

/// Mixing twice with the same index gives the seed back: for a fixed index,
/// `mix` is a bijection of seeds, so distinct seeds never collide.
pub proof fn lemma_mix_involutive(seed: u64, index: u64)
    ensures
        mix_spec(mix_spec(seed, index), index) == seed,
{
    let m = scrambled_index(index);
    assert((seed ^ m) ^ m == seed) by (bit_vector);
}

/// Checks the shape of a grid of call prices for the Dupire local
/// volatility: at least three strikes (for the second derivative in the
/// strike), at least two maturities (for the derivative in time), and one
/// price per (maturity, strike) pair.
pub fn dupire_grid_check(n_strikes: usize, n_maturities: usize, n_prices: usize) -> (r: Result<
    (),
    KontractError,
>)
    ensures
        r is Ok <==> (n_strikes >= 3 && n_maturities >= 2 && n_prices == n_maturities
            * n_strikes),
        r matches Err(e) ==> e is MalformedContract,
{
    if n_strikes < 3 {
        return Err(
            KontractError::MalformedContract(
                "Dupire : au moins 3 strikes requis pour ∂²C/∂K²".to_owned(),
            ),
        );
    }
    if n_maturities < 2 {
        return Err(
            KontractError::MalformedContract(
                "Dupire : au moins 2 maturités requises pour ∂C/∂T".to_owned(),
            ),
        );
    }
    match n_maturities.checked_mul(n_strikes) {
        Some(n) => if n == n_prices {
            Ok(())
        } else {
            Err(
                KontractError::MalformedContract(
                    grid_size_message(n_prices, n_maturities, n_strikes, n),
                ),
            )
        },
        None => Err(
            KontractError::MalformedContract(
                "Dupire : call_prices.len() ≠ n_t×n_k".to_owned(),
            ),
        ),
    }
}

/// The message of a price grid of the wrong size, written by std's
/// `format!` with the counts in decimal. Nothing is claimed of the text: the
/// result is only carried into the error.
#[verifier::external_body]
fn grid_size_message(n_prices: usize, n_maturities: usize, n_strikes: usize, n: usize) -> String {
    format!("Dupire : call_prices.len()={} ≠ n_t×n_k={}×{}={}", n_prices, n_maturities, n_strikes, n)
}

/// The base-`b` digits of `n`, least significant first, with no trailing
/// zero (none at all for `n == 0`).
pub open spec fn digits_spec(n: nat, b: nat) -> Seq<nat>
    decreases n,
{
    if n == 0 || b < 2 {
        Seq::empty()
    } else {
        proof {
            vstd::arithmetic::div_mod::lemma_div_decreases(n as int, b as int);
        }
        seq![n % b].add(digits_spec(n / b, b))
    }
}

/// The number that a digit sequence (least significant first) denotes.
pub open spec fn digits_value(ds: Seq<nat>, b: nat) -> nat
    decreases ds.len(),
{
    if ds.len() == 0 {
        0
    } else {
        ds[0] + b * digits_value(ds.drop_first(), b)
    }
}

/// The digits of `n` denote `n`, each is below the base, and the most
/// significant one is not zero.
pub proof fn lemma_digits_spec(n: nat, b: nat)
    requires
        b >= 2,
    ensures
        digits_value(digits_spec(n, b), b) == n,
        forall|k: int| 0 <= k < digits_spec(n, b).len() ==> #[trigger] digits_spec(n, b)[k] < b,
        n > 0 ==> digits_spec(n, b).last() != 0,
    decreases n,
{
    if n > 0 {
        let ds = digits_spec(n, b);
        let rest = digits_spec(n / b, b);
        vstd::arithmetic::div_mod::lemma_div_decreases(n as int, b as int);
        lemma_digits_spec(n / b, b);
        assert(ds.drop_first() =~= rest);
        vstd::arithmetic::div_mod::lemma_fundamental_div_mod(n as int, b as int);
        if n / b == 0 {
            assert(b * (n / b) == 0);
        }
    }
}

/// The base-`b` digits of `n`, least significant first: the radical-inverse
/// (Halton) point of index `n` in base `b` is `sum d[k] / b^(k+1)`.
pub fn radical_digits(n: u32, b: u32) -> (r: Vec<u32>)
    requires
        b >= 2,
    ensures
        r@.map_values(|d: u32| d as nat) == digits_spec(n as nat, b as nat),
        digits_value(r@.map_values(|d: u32| d as nat), b as nat) == n,
        forall|k: int| 0 <= k < r@.len() ==> #[trigger] r@[k] < b,
{
    let mut r: Vec<u32> = Vec::new();
    let mut i: u32 = n;
    while i > 0
        invariant
            b >= 2,
            r@.map_values(|d: u32| d as nat) + digits_spec(i as nat, b as nat) == digits_spec(
                n as nat,
                b as nat,
            ),
        decreases i,
    {
        let ghost r0 = r@;
        r.push(i % b);
        proof {
            assert(r@.map_values(|d: u32| d as nat) =~= r0.map_values(|d: u32| d as nat).push(
                (i % b) as nat,
            ));
            assert(digits_spec(i as nat, b as nat) == seq![(i % b) as nat].add(
                digits_spec((i / b) as nat, b as nat),
            ));
            assert(r@.map_values(|d: u32| d as nat) + digits_spec((i / b) as nat, b as nat)
                =~= r0.map_values(|d: u32| d as nat) + digits_spec(i as nat, b as nat));
        }
        i = i / b;
    }
    proof {
        assert(r@.map_values(|d: u32| d as nat) =~= digits_spec(n as nat, b as nat));
        lemma_digits_spec(n as nat, b as nat);
        assert forall|k: int| 0 <= k < r@.len() implies #[trigger] r@[k] < b by {
            assert(r@.map_values(|d: u32| d as nat)[k] == r@[k] as nat);
        }
    }
    r
}

} // verus!
