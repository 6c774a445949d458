//! Merging of acquisition dates closer than 1e-12 years.
//!
//! Dates are finite, non-negative binary64 numbers held as bit patterns. Two
//! dates are merged when the binary64 difference of the later and the
//! earlier one, rounded to nearest, is below the binary64 number nearest to
//! 1e-12. That number is `T = 0x1_1979_9812_DEA11 * 2^-92`; its predecessor
//! has an even significand, so a difference rounds below `T` exactly when its
//! exact value is at most the midpoint of `T` and its predecessor,
//! `0x23_2F33_025B_D421 * 2^-93`. The comparison is made exactly, on
//! integers: every such number is an integer multiple of `2^-1074`.
use vstd::arithmetic::power2::{
    lemma2_to64, lemma2_to64_rest, lemma_pow2_adds, lemma_pow2_pos, lemma_pow2_strictly_increases, lemma_pow2_unfold,
    pow2,
};
use vstd::prelude::*;

use crate::compiler::POS_INFINITY_BITS;
use crate::order::{date_set, dates_sorted};

verus! {

/// `2^52`: one unit of the exponent field of a bit pattern.
pub const FRACTION_ONE: u64 = 0x10_0000_0000_0000u64;

/// The midpoint of `1e-12` (as binary64) and its predecessor, in units of
/// `2^-93`.
pub const MIDPOINT_SIGNIFICAND: u64 = 0x23_2F33_025B_D421u64;

/// The exponent field of a non-negative bit pattern.
pub open spec fn exponent_field(bits: u64) -> int {
    bits as int / FRACTION_ONE as int
}

/// The significand, the implicit bit included for normal numbers.
pub open spec fn significand(bits: u64) -> int {
    let f = bits as int % FRACTION_ONE as int;
    if exponent_field(bits) == 0 {
        f
    } else {
        f + FRACTION_ONE
    }
}

/// The power of two that scales the significand, in units of `2^-1074`.
pub open spec fn scale_exp(bits: u64) -> nat {
    if exponent_field(bits) == 0 {
        0
    } else {
        (exponent_field(bits) - 1) as nat
    }
}

/// The value of a finite, non-negative binary64 number, in units of
/// `2^-1074` (the smallest subnormal number).
pub open spec fn date_units(bits: u64) -> int {
    significand(bits) * pow2(scale_exp(bits))
}

/// The largest exact difference, in units of `2^-1074`, that rounds below
/// `1e-12`.
pub open spec fn merge_threshold() -> int {
    MIDPOINT_SIGNIFICAND * pow2(981)
}

/// `later` lies less than `1e-12` after `earlier`, in binary64 arithmetic.
pub open spec fn near_dates(earlier: u64, later: u64) -> bool {
    date_units(later) - date_units(earlier) <= merge_threshold()
}

/// A sorted list of dates with each date dropped that lies less than `1e-12`
/// after the last date kept before it.
pub open spec fn merge_near(s: Seq<u64>) -> Seq<u64>
    decreases s.len(),
{
    if s.len() == 0 {
        s
    } else {
        let r = merge_near(s.drop_last());
        if r.len() > 0 && near_dates(r.last(), s.last()) {
            r
        } else {
            r.push(s.last())
        }
    }
}

/// Merging keeps a sorted list sorted, keeps only dates of the list, always
/// keeps the first date, and never keeps two successive dates of which the
/// second lies less than `1e-12` after the first.
pub proof fn lemma_merge_near(s: Seq<u64>)
    requires
        dates_sorted(s),
    ensures
        dates_sorted(merge_near(s)),
        forall|d: u64| date_set(merge_near(s)).contains(d) ==> date_set(s).contains(d),
        s.len() == 0 <==> merge_near(s).len() == 0,
        s.len() > 0 ==> merge_near(s)[0] == s[0],
        forall|i: int|
            0 <= i < merge_near(s).len() - 1 ==> !near_dates(
                #[trigger] merge_near(s)[i],
                merge_near(s)[i + 1],
            ),
    decreases s.len(),
{
    if s.len() > 0 {
        let s1 = s.drop_last();
        assert(dates_sorted(s1)) by {
            assert forall|i: int, j: int| 0 <= i < j < s1.len() implies #[trigger] s1[i]
                < #[trigger] s1[j] by {
                assert(s1[i] == s[i] && s1[j] == s[j]);
            }
        }
        lemma_merge_near(s1);
        let r = merge_near(s1);
        assert forall|d: u64| date_set(s1).contains(d) implies date_set(s).contains(d) by {
            let i = choose|i: int| 0 <= i < s1.len() && #[trigger] s1[i] == d;
            assert(s[i] == d);
        }
        if !(r.len() > 0 && near_dates(r.last(), s.last())) {
            let m = r.push(s.last());
            assert(merge_near(s) == m);
            assert forall|x: int| 0 <= x < r.len() implies #[trigger] r[x] < s.last() by {
                assert(date_set(r).contains(r[x]));
                assert(date_set(s1).contains(r[x]));
                let i = choose|i: int| 0 <= i < s1.len() && #[trigger] s1[i] == r[x];
                assert(s[i] == r[x]);
                assert(s[i] < s[s.len() - 1]);
            }
            assert(dates_sorted(m)) by {
                assert forall|i: int, j: int| 0 <= i < j < m.len() implies #[trigger] m[i]
                    < #[trigger] m[j] by {
                    if j < r.len() {
                        assert(m[i] == r[i] && m[j] == r[j]);
                    } else {
                        assert(m[i] == r[i]);
                    }
                }
            }
            assert forall|d: u64| date_set(m).contains(d) implies date_set(s).contains(d) by {
                let i = choose|i: int| 0 <= i < m.len() && #[trigger] m[i] == d;
                if i < r.len() {
                    assert(date_set(r).contains(r[i]));
                } else {
                    assert(s[s.len() - 1] == d);
                }
            }
            assert forall|i: int| 0 <= i < m.len() - 1 implies !near_dates(
                #[trigger] m[i],
                m[i + 1],
            ) by {
                if i < r.len() - 1 {
                    assert(m[i] == r[i] && m[i + 1] == r[i + 1]);
                } else {
                    assert(m[i] == r.last());
                }
            }
            if r.len() == 0 {
                assert(s1.len() == 0);
            }
        }
    }
}

/// The significand and the scale of a finite, non-negative number.
fn decompose(bits: u64) -> (r: (u64, u32))
    requires
        bits < POS_INFINITY_BITS,
    ensures
        r.0 == significand(bits),
        r.1 == scale_exp(bits),
        r.0 < 2 * FRACTION_ONE,
        r.1 <= 2045,
        exponent_field(bits) >= 1 ==> r.0 >= FRACTION_ONE,
        exponent_field(bits) <= 2046,
{
    let e = bits / FRACTION_ONE;
    let f = bits % FRACTION_ONE;
    proof {
        vstd::arithmetic::div_mod::lemma_fundamental_div_mod(bits as int, FRACTION_ONE as int);
    }
    assert(e <= 2046);
    if e == 0 {
        (f, 0)
    } else {
        (f + FRACTION_ONE, (e - 1) as u32)
    }
}

/// `x * 2^k`.
fn mul_pow2(x: u128, k: u32) -> (r: u128)
    requires
        x * pow2(k as nat) <= u128::MAX,
    ensures
        r == x * pow2(k as nat),
{
    let mut r = x;
    let mut i: u32 = 0;
    proof {
        lemma2_to64();
    }
    while i < k
        invariant
            i <= k,
            r == x * pow2(i as nat),
            x * pow2(k as nat) <= u128::MAX,
        decreases k - i,
    {
        proof {
            lemma_pow2_unfold((i + 1) as nat);
            if i + 1 < k {
                lemma_pow2_strictly_increases((i + 1) as nat, k as nat);
            }
            assert(x * pow2((i + 1) as nat) <= x * pow2(k as nat)) by (nonlinear_arith)
                requires
                    pow2((i + 1) as nat) <= pow2(k as nat),
            ;
            assert(x * pow2((i + 1) as nat) == 2 * (x * pow2(i as nat))) by (nonlinear_arith)
                requires
                    pow2((i + 1) as nat) == 2 * pow2(i as nat),
            ;
        }
        r = r * 2;
        i = i + 1;
    }
    r
}

/// Whether `later` lies less than `1e-12` after `earlier` (see the module's
/// documentation), decided exactly on the bit patterns.
pub fn dates_near(earlier: u64, later: u64) -> (r: bool)
    requires
        earlier <= later,
        later < POS_INFINITY_BITS,
    ensures
        r == near_dates(earlier, later),
{
    let (ma, sa) = decompose(later);
    let (mb, sb) = decompose(earlier);
    let ghost a = date_units(later);
    let ghost b = date_units(earlier);
    let ghost t = merge_threshold();
    proof {
        lemma2_to64();
        lemma2_to64_rest();
        lemma_pow2_pos(sa as nat);
        lemma_pow2_pos(sb as nat);
        lemma_pow2_pos(981);
        vstd::arithmetic::div_mod::lemma_div_is_ordered(
            earlier as int,
            later as int,
            FRACTION_ONE as int,
        );
        vstd::arithmetic::div_mod::lemma_fundamental_div_mod(earlier as int, FRACTION_ONE as int);
        vstd::arithmetic::div_mod::lemma_fundamental_div_mod(later as int, FRACTION_ONE as int);
        assert(b >= 0) by (nonlinear_arith)
            requires
                b == mb * pow2(sb as nat),
                mb >= 0,
        ;
    }
    if sa <= 980 {
        proof {
            if sa < 980 {
                lemma_pow2_strictly_increases(sa as nat, 980);
            }
            lemma_pow2_unfold(981);
            assert(a <= t) by (nonlinear_arith)
                requires
                    a == ma * pow2(sa as nat),
                    pow2(sa as nat) <= pow2(980),
                    ma < 2 * FRACTION_ONE,
                    pow2(981) == 2 * pow2(980),
                    t == MIDPOINT_SIGNIFICAND * pow2(981),
                    ma >= 0,
            ;
        }
        return true;
    }
    if sb >= 981 {
        let k = sa - sb;
        proof {
            lemma_pow2_adds(k as nat, sb as nat);
            lemma_pow2_adds((sb - 981) as nat, 981);
        }
        if k >= 64 {
            proof {
                if k > 64 {
                    lemma_pow2_strictly_increases(64, k as nat);
                }
                if sb > 981 {
                    lemma_pow2_strictly_increases(981, sb as nat);
                }
                assert(a - b > t) by (nonlinear_arith)
                    requires
                        a == ma * (pow2(k as nat) * pow2(sb as nat)),
                        b == mb * pow2(sb as nat),
                        ma >= FRACTION_ONE,
                        mb < 2 * FRACTION_ONE,
                        pow2(k as nat) >= 0x1_0000_0000_0000_0000,
                        pow2(sb as nat) >= pow2(981),
                        pow2(981) > 0,
                        t == MIDPOINT_SIGNIFICAND * pow2(981),
                ;
            }
            return false;
        }
        proof {
            if k > 0 {
                lemma_pow2_strictly_increases(0, k as nat);
            }
            if k < 63 {
                lemma_pow2_strictly_increases(k as nat, 63);
            }
            assert(ma * pow2(k as nat) <= u128::MAX) by (nonlinear_arith)
                requires
                    ma < 2 * FRACTION_ONE,
                    pow2(k as nat) <= 0x8000_0000_0000_0000,
                    ma >= 0,
            ;
            if k > 0 {
                assert(ma * pow2(k as nat) >= mb) by (nonlinear_arith)
                    requires
                        ma >= FRACTION_ONE,
                        mb < 2 * FRACTION_ONE,
                        pow2(k as nat) >= 2,
                ;
            } else {
                assert(exponent_field(later) == exponent_field(earlier));
                assert(significand(later) >= significand(earlier));
                assert(ma * pow2(k as nat) >= mb) by (nonlinear_arith)
                    requires
                        pow2(k as nat) == 1,
                        ma >= mb,
                ;
            }
        }
        let ak = mul_pow2(ma as u128, k);
        let d = ak - mb as u128;
        let j = sb - 981;
        proof {
            assert(a - b == d * pow2(j as nat) * pow2(981)) by (nonlinear_arith)
                requires
                    a == ma * pow2(sa as nat),
                    pow2(sa as nat) == pow2(k as nat) * pow2(sb as nat),
                    pow2(sb as nat) == pow2(j as nat) * pow2(981),
                    b == mb * pow2(sb as nat),
                    d == ma * pow2(k as nat) - mb,
            ;
            assert((a - b <= t) == (d * pow2(j as nat) <= MIDPOINT_SIGNIFICAND)) by (nonlinear_arith)
                requires
                    a - b == d * pow2(j as nat) * pow2(981),
                    t == MIDPOINT_SIGNIFICAND * pow2(981),
                    pow2(981) > 0,
            ;
            lemma_pow2_pos(j as nat);
        }
        if d == 0 {
            assert(d * pow2(j as nat) == 0) by (nonlinear_arith)
                requires
                    d == 0,
            ;
            return true;
        }
        if d > MIDPOINT_SIGNIFICAND as u128 {
            proof {
                assert(d * pow2(j as nat) >= d) by (nonlinear_arith)
                    requires
                        pow2(j as nat) >= 1,
                        d >= 0,
                ;
            }
            return false;
        }
        if j >= 64 {
            proof {
                if j > 64 {
                    lemma_pow2_strictly_increases(64, j as nat);
                }
                assert(d * pow2(j as nat) >= pow2(j as nat)) by (nonlinear_arith)
                    requires
                        pow2(j as nat) >= 1,
                        d >= 1,
                ;
            }
            return false;
        }
        proof {
            if j > 0 {
                lemma_pow2_strictly_increases(j as nat, 64);
            }
            assert(d * pow2(j as nat) <= u128::MAX) by (nonlinear_arith)
                requires
                    d <= MIDPOINT_SIGNIFICAND,
                    pow2(j as nat) <= 0x1_0000_0000_0000_0000,
                    d >= 0,
            ;
        }
        let dj = mul_pow2(d, j);
        return dj <= MIDPOINT_SIGNIFICAND as u128;
    }
    // Here `earlier` is below `2^1033` units and `later` at least `2^1033`.
    if sa >= 985 {
        proof {
            lemma_pow2_adds(4, 981);
            if sa > 985 {
                lemma_pow2_strictly_increases(985, sa as nat);
            }
            if sb < 980 {
                lemma_pow2_strictly_increases(sb as nat, 980);
            }
            lemma_pow2_unfold(981);
            assert(a - b > t) by (nonlinear_arith)
                requires
                    a == ma * pow2(sa as nat),
                    b == mb * pow2(sb as nat),
                    ma >= FRACTION_ONE,
                    mb < 2 * FRACTION_ONE,
                    mb >= 0,
                    pow2(sa as nat) >= pow2(985),
                    pow2(985) == 16 * pow2(981),
                    pow2(sb as nat) <= pow2(980),
                    pow2(981) == 2 * pow2(980),
                    pow2(980) > 0,
                    t == MIDPOINT_SIGNIFICAND * pow2(981),
            ;
        }
        return false;
    }
    let k = sa - 981;
    proof {
        lemma_pow2_adds(k as nat, 981);
        if k > 0 {
            lemma_pow2_strictly_increases(k as nat, 4);
        }
        assert(pow2(4) == 16);
        assert(ma * pow2(k as nat) <= u128::MAX) by (nonlinear_arith)
            requires
                ma < 2 * FRACTION_ONE,
                pow2(k as nat) <= 16,
                ma >= 0,
        ;
        assert(a == ma * pow2(k as nat) * pow2(981)) by (nonlinear_arith)
            requires
                a == ma * pow2(sa as nat),
                pow2(sa as nat) == pow2(k as nat) * pow2(981),
        ;
    }
    let ak = mul_pow2(ma as u128, k);
    if ak <= MIDPOINT_SIGNIFICAND as u128 {
        proof {
            assert(a <= t) by (nonlinear_arith)
                requires
                    a == ak * pow2(981),
                    ak <= MIDPOINT_SIGNIFICAND,
                    t == MIDPOINT_SIGNIFICAND * pow2(981),
                    pow2(981) > 0,
            ;
        }
        return true;
    }
    assert(ak <= 32 * FRACTION_ONE) by (nonlinear_arith)
        requires
            ak == ma * pow2(k as nat),
            ma < 2 * FRACTION_ONE,
            pow2(k as nat) <= 16,
            ma >= 0,
    ;
    let excess = ak - MIDPOINT_SIGNIFICAND as u128;
    let j = 981 - sb;
    proof {
        lemma_pow2_adds(j as nat, sb as nat);
        lemma_pow2_pos(j as nat);
        assert((a - b <= t) == (excess * pow2(j as nat) <= mb)) by (nonlinear_arith)
            requires
                a == ak * pow2(981),
                excess == ak - MIDPOINT_SIGNIFICAND,
                t == MIDPOINT_SIGNIFICAND * pow2(981),
                b == mb * pow2(sb as nat),
                pow2(981) == pow2(j as nat) * pow2(sb as nat),
                pow2(sb as nat) > 0,
        ;
    }
    if j >= 53 {
        proof {
            if j > 53 {
                lemma_pow2_strictly_increases(53, j as nat);
            }
            assert(excess * pow2(j as nat) >= pow2(j as nat)) by (nonlinear_arith)
                requires
                    pow2(j as nat) >= 1,
                    excess >= 1,
            ;
        }
        return false;
    }
    proof {
        if j < 53 {
            lemma_pow2_strictly_increases(j as nat, 53);
        }
        assert(excess * pow2(j as nat) <= u128::MAX) by (nonlinear_arith)
            requires
                excess <= 32 * FRACTION_ONE,
                pow2(j as nat) <= 0x20_0000_0000_0000,
                excess >= 0,
        ;
    }
    let ej = mul_pow2(excess, j);
    ej <= mb as u128
}

/// Drops from a sorted list of dates each date that lies less than `1e-12`
/// after the last date kept before it.
pub fn merge_near_dates(s: &Vec<u64>) -> (r: Vec<u64>)
    requires
        dates_sorted(s@),
        forall|i: int| 0 <= i < s@.len() ==> #[trigger] s@[i] < POS_INFINITY_BITS,
    ensures
        r@ == merge_near(s@),
{
    let mut r: Vec<u64> = Vec::new();
    let mut i: usize = 0;
    let ghost mut last: int = 0;
    proof {
        assert(s@.take(0) =~= Seq::<u64>::empty());
    }
    while i < s.len()
        invariant
            i <= s@.len(),
            dates_sorted(s@),
            forall|k: int| 0 <= k < s@.len() ==> #[trigger] s@[k] < POS_INFINITY_BITS,
            r@ == merge_near(s@.take(i as int)),
            r@.len() > 0 ==> 0 <= last < i && r@.last() == s@[last],
        decreases s.len() - i,
    {
        let d = s[i];
        assert(s@.take(i + 1).drop_last() =~= s@.take(i as int));
        assert(s@.take(i + 1).last() == d);
        if r.len() > 0 && dates_near(r[r.len() - 1], d) {
        } else {
            r.push(d);
            proof {
                last = i as int;
            }
        }
        i = i + 1;
    }
    assert(s@.take(s@.len() as int) =~= s@);
    r
}

} // verus!
