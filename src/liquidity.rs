//! Liquidity-share arithmetic: shares minted for a deposit, the deposit-ratio guard, and
//! the proportional refund of a withdrawal.

use crate::error::PoolError;
use crate::fixed_point::{
    isqrt_of_product, lemma_mul_div_at_most, multiply_ratio, mul_div, Decimal, DECIMAL_FRACTIONAL};
use crate::swap::MAX_ALLOWED_SLIPPAGE;
use vstd::prelude::*;

verus! {

/// Shares minted on the first deposit to a holder that can never withdraw them, so that
/// nobody owns the whole share base.
pub const MINIMUM_LIQUIDITY_AMOUNT: u128 = 1_000;

/// `r` is the integer square root of `n`.
pub open spec fn is_int_sqrt(r: int, n: int) -> bool {
    0 <= r && r * r <= n < (r + 1) * (r + 1)
}

/// The integer square root of `n`.
pub open spec fn int_sqrt(n: int) -> int {
    choose|r: int| is_int_sqrt(r, n)
}

/// An integer square root is unique.
proof fn lemma_int_sqrt_unique(r: int, s: int, n: int)
    requires
        is_int_sqrt(r, n),
        is_int_sqrt(s, n),
    ensures
        r == s,
{
    if r < s {
        assert((r + 1) * (r + 1) <= s * s) by (nonlinear_arith)
            requires
                0 <= r < s,
        ;
    } else if s < r {
        assert((s + 1) * (s + 1) <= r * r) by (nonlinear_arith)
            requires
                0 <= s < r,
        ;
    }
}

/// `r` is the integer square root of `n`, so `int_sqrt(n)` names it.
pub proof fn lemma_int_sqrt_is(r: int, n: int)
    requires
        is_int_sqrt(r, n),
    ensures
        int_sqrt(n) == r,
{
    lemma_int_sqrt_unique(int_sqrt(n), r, n);
}

/// Shares for the first deposit of `d0` and `d1`: the geometric mean, rounded down, less
/// the locked minimum.
pub open spec fn first_share(d0: int, d1: int) -> int {
    int_sqrt(d0 * d1) - MINIMUM_LIQUIDITY_AMOUNT
}

/// Shares for a later deposit: the smaller of the two sides' proportional claims.
pub open spec fn later_share(d0: int, d1: int, p0: int, p1: int, total: int) -> int {
    let a = mul_div(d0, total, p0);
    let b = mul_div(d1, total, p1);
    if a <= b {
        a
    } else {
        b
    }
}

/// A deposit's ratio is further from the pool's than `tolerance` allows: one side, less
/// the tolerance, exceeds in whole units what the other side is worth at the pool's price.
pub open spec fn slippage_exceeded(d0: int, d1: int, p0: int, p1: int, tolerance: int) -> bool {
    let keep = DECIMAL_FRACTIONAL - tolerance;
    mul_div(d0, keep, DECIMAL_FRACTIONAL as int) > mul_div(d1, p0, p1) || mul_div(
        d1,
        keep,
        DECIMAL_FRACTIONAL as int,
    ) > mul_div(d0, p1, p0)
}

/// The outcome of `deposit_share`, as a function of its arguments.
pub open spec fn deposit_share_spec(
    d0: u128,
    d1: u128,
    p0: u128,
    p1: u128,
    total: u128,
    slippage_tolerance: Option<Decimal>,
) -> Result<u128, PoolError> {
    if total == 0 {
        if int_sqrt(d0 * d1) <= MINIMUM_LIQUIDITY_AMOUNT {
            Err(PoolError::MinimumLiquidityAmount)
        } else {
            Ok(first_share(d0 as int, d1 as int) as u128)
        }
    } else {
        match slippage_tolerance {
            Some(s) if s.atomics > MAX_ALLOWED_SLIPPAGE => Err(PoolError::AllowedSpreadAssertion),
            Some(s) if slippage_exceeded(d0 as int, d1 as int, p0 as int, p1 as int, s.atomics as int) => Err(
                PoolError::MaxSlippageAssertion,
            ),
            _ => {
                if mul_div(d0 as int, total as int, p0 as int) > u128::MAX || mul_div(
                    d1 as int,
                    total as int,
                    p1 as int,
                ) > u128::MAX {
                    Err(PoolError::Overflow)
                } else {
                    Ok(later_share(d0 as int, d1 as int, p0 as int, p1 as int, total as int) as u128)
                }
            },
        }
    }
}

/// `x` in whole units is above `num * mul / den`, which may not fit in `u128`.
fn exceeds_ratio(x: u128, num: u128, mul: u128, den: u128) -> (r: bool)
    requires
        den > 0,
    ensures
        r == (x > mul_div(num as int, mul as int, den as int)),
{
    match multiply_ratio(num, mul, den) {
        Some(v) => x > v,
        None => false,
    }
}

/// Shares minted for depositing `d0` and `d1` into reserves `p0` and `p1` with `total`
/// shares outstanding. The slippage tolerance applies to later deposits only.
pub fn deposit_share(
    d0: u128,
    d1: u128,
    p0: u128,
    p1: u128,
    total: u128,
    slippage_tolerance: Option<Decimal>,
) -> (r: Result<u128, PoolError>)
    requires
        total > 0 ==> p0 > 0 && p1 > 0,
    ensures
        r == deposit_share_spec(d0, d1, p0, p1, total, slippage_tolerance),
{
    if total == 0 {
        let root = isqrt_of_product(d0, d1);
        proof {
            lemma_int_sqrt_is(root as int, d0 * d1);
        }
        if root <= MINIMUM_LIQUIDITY_AMOUNT {
            return Err(PoolError::MinimumLiquidityAmount);
        }
        return Ok(root - MINIMUM_LIQUIDITY_AMOUNT);
    }
    match slippage_tolerance {
        Some(s) => {
            if s.atomics > MAX_ALLOWED_SLIPPAGE {
                return Err(PoolError::AllowedSpreadAssertion);
            }
            let keep = DECIMAL_FRACTIONAL - s.atomics;
            proof {
                lemma_mul_div_at_most(d0 as int, keep as int, DECIMAL_FRACTIONAL as int);
                lemma_mul_div_at_most(d1 as int, keep as int, DECIMAL_FRACTIONAL as int);
            }
            let lhs0 = match multiply_ratio(d0, keep, DECIMAL_FRACTIONAL) {
                Some(v) => v,
                None => return Err(PoolError::Overflow),
            };
            let lhs1 = match multiply_ratio(d1, keep, DECIMAL_FRACTIONAL) {
                Some(v) => v,
                None => return Err(PoolError::Overflow),
            };
            if exceeds_ratio(lhs0, d1, p0, p1) || exceeds_ratio(lhs1, d0, p1, p0) {
                return Err(PoolError::MaxSlippageAssertion);
            }
        },
        None => {},
    }
    let a = match multiply_ratio(d0, total, p0) {
        Some(v) => v,
        None => return Err(PoolError::Overflow),
    };
    let b = match multiply_ratio(d1, total, p1) {
        Some(v) => v,
        None => return Err(PoolError::Overflow),
    };
    Ok(
        if a <= b {
            a
        } else {
            b
        },
    )
}

/// The part of a reserve paid out for burning `share` of `total` shares, rounded down.
pub open spec fn refund_of(reserve: int, share: int, total: int) -> int {
    mul_div(reserve, share, total)
}

/// The part of `reserve` paid out for burning `share` of `total` shares, rounded down.
pub fn share_in_reserve(reserve: u128, share: u128, total: u128) -> (r: u128)
    requires
        0 < total,
        share <= total,
    ensures
        r == refund_of(reserve as int, share as int, total as int),
        r <= reserve,
{
    proof {
        lemma_mul_div_at_most(reserve as int, share as int, total as int);
    }
    match multiply_ratio(reserve, share, total) {
        Some(v) => v,
        None => 0,
    }
}

} // verus!
