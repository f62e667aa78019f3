use vstd::prelude::*;

use crate::{ONE_REF, ONE_SCRAP};
use vstd::arithmetic::div_mod::{
    lemma_fundamental_div_mod, lemma_fundamental_div_mod_converse, lemma_mod_multiples_basic,
};

verus! {

/// How a scaled metal value is snapped to denomination boundaries.
#[derive(Clone, Copy, Debug, PartialEq, Eq, Structural)]
pub enum Rounding {
    /// Odd values go up by one, to a whole scrap.
    UpScrap,
    /// Odd values go down by one, to a whole scrap.
    DownScrap,
    /// Add half a refined, then go down (toward negative infinity) to a
    /// multiple of a refined: the nearest refined, ties up.
    Refined,
    /// Up (toward positive infinity) to a multiple of a refined.
    UpRefined,
    /// Down (toward negative infinity) to a multiple of a refined.
    DownRefined,
    /// The value is kept as it is.
    Unchanged,
}

/// The largest multiple of `k` that is at most `m`.
pub open spec fn floor_multiple(m: int, k: int) -> int {
    m - m % k
}

/// The smallest multiple of `k` that is at least `m`.
pub open spec fn ceil_multiple(m: int, k: int) -> int {
    if m % k == 0 {
        m
    } else {
        m - m % k + k
    }
}

/// The value of `m` rounded under the policy `r`; zero stays zero.
pub open spec fn rounded(m: int, r: Rounding) -> int {
    if m == 0 {
        0
    } else {
        match r {
            Rounding::UpScrap => if m % (ONE_SCRAP as int) != 0 { m + 1 } else { m },
            Rounding::DownScrap => if m % (ONE_SCRAP as int) != 0 { m - 1 } else { m },
            Rounding::Refined => floor_multiple(m + ONE_REF / 2, ONE_REF as int),
            Rounding::UpRefined => ceil_multiple(m, ONE_REF as int),
            Rounding::DownRefined => floor_multiple(m, ONE_REF as int),
            Rounding::Unchanged => m,
        }
    }
}

/// Relates the remainder of a negative value to that of its magnitude.
proof fn lemma_negative_remainder(m: int, k: int)
    requires
        m < 0,
        k > 0,
    ensures
        (-m) % k == 0 ==> m % k == 0,
        (-m) % k != 0 ==> m % k == k - (-m) % k,
{
    let q = (-m) / k;
    let t = (-m) % k;
    lemma_fundamental_div_mod(-m, k);
    assert(0 <= t < k);
    if t == 0 {
        assert(m == (-q) * k + 0) by (nonlinear_arith)
            requires -m == k * q + t, t == 0;
        lemma_fundamental_div_mod_converse(m, k, -q, 0);
    } else {
        assert(m == (-q - 1) * k + (k - t)) by (nonlinear_arith)
            requires -m == k * q + t;
        lemma_fundamental_div_mod_converse(m, k, -q - 1, k - t);
    }
}

/// Rounds a scaled metal value under the given policy.
pub fn round_metal(metal: i32, rounding: &Rounding) -> (r: i32)
    requires
        i32::MIN <= rounded(metal as int, *rounding) <= i32::MAX,
    ensures
        r == rounded(metal as int, *rounding),
{
    if metal == 0 {
        return metal;
    }
    proof {
        if metal < 0 {
            lemma_negative_remainder(metal as int, ONE_SCRAP as int);
            lemma_negative_remainder(metal as int, ONE_REF as int);
        }
        let v = metal + ONE_REF / 2;
        if v < 0 {
            lemma_negative_remainder(v, ONE_REF as int);
        }
    }
    match *rounding {
        Rounding::UpScrap => {
            if metal % ONE_SCRAP != 0 {
                metal + 1
            } else {
                metal
            }
        },
        Rounding::DownScrap => {
            if metal % ONE_SCRAP != 0 {
                metal - 1
            } else {
                metal
            }
        },
        Rounding::Refined => {
            // Widened so that adding half a refined cannot overflow.
            let value: i64 = metal as i64 + (ONE_REF / 2) as i64;
            let rem: i64 = value % (ONE_REF as i64);
            let result: i64 = if rem < 0 {
                value - rem - ONE_REF as i64
            } else {
                value - rem
            };
            result as i32
        },
        Rounding::UpRefined => {
            let remainder: i32 = metal % ONE_REF;
            if remainder != 0 {
                if metal > 0 {
                    metal - (remainder - ONE_REF)
                } else {
                    metal - remainder
                }
            } else {
                metal
            }
        },
        Rounding::DownRefined => {
            let remainder: i32 = metal % ONE_REF;
            if remainder != 0 {
                if metal > 0 {
                    metal - remainder
                } else {
                    metal - (remainder + ONE_REF)
                }
            } else {
                metal
            }
        },
        Rounding::Unchanged => metal,
    }
}

/// A multiple of `k` plus `j`, with `0 <= j < k`, leaves the remainder `j`.
proof fn lemma_multiple_plus(r: int, k: int, j: int)
    requires
        k > 0,
        r % k == 0,
        0 <= j < k,
    ensures
        (r + j) % k == j,
{
    lemma_fundamental_div_mod(r, k);
    let q = r / k;
    assert(r + j == q * k + j) by (nonlinear_arith)
        requires r == k * q + r % k, r % k == 0;
    lemma_fundamental_div_mod_converse(r + j, k, q, j);
}

/// Both the floor and the ceiling to a multiple of `k` are multiples of `k`,
/// and a multiple of `k` is its own floor and ceiling.
proof fn lemma_multiples(m: int, k: int)
    requires
        k > 0,
    ensures
        floor_multiple(m, k) % k == 0,
        ceil_multiple(m, k) % k == 0,
        m % k == 0 ==> floor_multiple(m, k) == m && ceil_multiple(m, k) == m,
{
    lemma_fundamental_div_mod(m, k);
    let q = m / k;
    assert(m - m % k == q * k) by (nonlinear_arith)
        requires m == k * q + m % k;
    lemma_mod_multiples_basic(q, k);
    assert(m - m % k + k == (q + 1) * k) by (nonlinear_arith)
        requires m - m % k == q * k;
    lemma_mod_multiples_basic(q + 1, k);
}

/// Zero is left as it is by every policy.
pub proof fn lemma_zero_is_fixed(r: Rounding)
    ensures
        rounded(0, r) == 0,
{
}

/// The scrap policies move an odd value by one, up or down, and keep an even one.
pub proof fn lemma_scrap_rounding(m: int)
    ensures
        m % 2 != 0 ==> rounded(m, Rounding::UpScrap) == m + 1,
        m % 2 != 0 ==> rounded(m, Rounding::DownScrap) == m - 1,
        m % 2 == 0 ==> rounded(m, Rounding::UpScrap) == m,
        m % 2 == 0 ==> rounded(m, Rounding::DownScrap) == m,
{
}

/// Rounding to the nearest refined always lands on a multiple of a refined.
pub proof fn lemma_refined_is_multiple(m: int)
    ensures
        rounded(m, Rounding::Refined) % (ONE_REF as int) == 0,
{
    lemma_multiples(m + ONE_REF / 2, ONE_REF as int);
}

/// Rounding twice under one policy gives what rounding once gives.
pub proof fn lemma_rounding_idempotent(m: int, r: Rounding)
    ensures
        rounded(rounded(m, r), r) == rounded(m, r),
{
    let k = ONE_REF as int;
    lemma_multiples(m, k);
    let once = rounded(m, r);
    match r {
        Rounding::Refined => {
            lemma_multiples(m + ONE_REF / 2, k);
            lemma_multiple_plus(once, k, ONE_REF / 2);
        },
        Rounding::UpRefined => {
            lemma_multiples(once, k);
        },
        Rounding::DownRefined => {
            lemma_multiples(once, k);
        },
        _ => {},
    }
}

} // verus!
