//! Swap arithmetic on the constant-product curve: the curve's return, the spread against
//! the pre-swap price, the commission and how it is split, and the spread guard.

use crate::error::PoolError;
use crate::fixed_point::{
    lemma_mul_div_at_most, multiply_ratio, mul_div, Decimal, DECIMAL_FRACTIONAL, DECIMAL_FRACTIONAL_SQUARED,
};
use vstd::arithmetic::div_mod::{
    lemma_div_is_ordered, lemma_div_is_ordered_by_denominator, lemma_fundamental_div_mod,
};
use vstd::prelude::*;

verus! {

/// Basis points in one whole.
pub const BPS_DENOMINATOR: u128 = 10_000;

/// The spread tolerance of a swap that names none: 0.5%.
pub const DEFAULT_SLIPPAGE: u128 = 5_000_000_000_000_000;

/// The largest slippage or spread tolerance a caller may name: 50%.
pub const MAX_ALLOWED_SLIPPAGE: u128 = 500_000_000_000_000_000;

/// What the curve pays for `offer_amount` put into a pool of `offer_pool` and `ask_pool`,
/// before any fee: `ask_pool - offer_pool * ask_pool / (offer_pool + offer_amount)`, rounded
/// in the pool's favour, which is `ask_pool * offer_amount / (offer_pool + offer_amount)`
/// rounded down.
pub open spec fn gross_return(offer_pool: int, ask_pool: int, offer_amount: int) -> int {
    mul_div(ask_pool, offer_amount, offer_pool + offer_amount)
}

/// What `offer_amount` is worth at the pool's price before the swap, rounded down.
pub open spec fn linear_return(offer_pool: int, ask_pool: int, offer_amount: int) -> int {
    mul_div(offer_amount, ask_pool, offer_pool)
}

/// The shortfall of the curve's return against the pre-swap price, never below zero.
pub open spec fn spread_of(offer_pool: int, ask_pool: int, offer_amount: int) -> int {
    let l = linear_return(offer_pool, ask_pool, offer_amount);
    let g = gross_return(offer_pool, ask_pool, offer_amount);
    if l > g {
        l - g
    } else {
        0
    }
}

/// `amount * bps / 10000`, rounded down.
pub open spec fn bps_of(amount: int, bps: int) -> int {
    mul_div(amount, bps, BPS_DENOMINATOR as int)
}

/// What a swap pays and charges, before the commission is split.
#[derive(Clone, Copy, Debug, PartialEq, Eq, Structural)]
pub struct SwapAmounts {
    /// What the trader receives: the curve's return less the commission.
    pub return_amount: u128,
    /// The shortfall against the pre-swap price.
    pub spread_amount: u128,
    /// The whole commission, taken from the curve's return.
    pub commission_amount: u128,
}

/// The outcome of `compute_swap`, as a function of its arguments.
pub open spec fn compute_swap_spec(
    offer_pool: u128,
    ask_pool: u128,
    offer_amount: u128,
    total_fee_bps: u16,
) -> Result<SwapAmounts, PoolError> {
    if offer_pool == 0 || ask_pool == 0 {
        Err(PoolError::OneOfPoolsIsEmpty)
    } else if offer_amount == 0 {
        Err(PoolError::ZeroSwapAmount)
    } else if offer_pool + offer_amount > u128::MAX || linear_return(
        offer_pool as int,
        ask_pool as int,
        offer_amount as int,
    ) > u128::MAX {
        Err(PoolError::Overflow)
    } else {
        let g = gross_return(offer_pool as int, ask_pool as int, offer_amount as int);
        let c = bps_of(g, total_fee_bps as int);
        Ok(
            SwapAmounts {
                return_amount: (g - c) as u128,
                spread_amount: spread_of(
                    offer_pool as int,
                    ask_pool as int,
                    offer_amount as int,
                ) as u128,
                commission_amount: c as u128,
            },
        )
    }
}

/// The curve pays no more than the pre-swap price, and less than the whole ask side.
pub proof fn lemma_gross_bounds(offer_pool: int, ask_pool: int, offer_amount: int)
    requires
        offer_pool > 0,
        ask_pool > 0,
        offer_amount >= 0,
    ensures
        0 <= gross_return(offer_pool, ask_pool, offer_amount) <= linear_return(
            offer_pool,
            ask_pool,
            offer_amount,
        ),
        gross_return(offer_pool, ask_pool, offer_amount) < ask_pool,
        gross_return(offer_pool, ask_pool, offer_amount) * (offer_pool + offer_amount)
            <= ask_pool * offer_amount,
{
    let d = offer_pool + offer_amount;
    let n = ask_pool * offer_amount;
    assert(ask_pool * offer_amount >= 0) by (nonlinear_arith)
        requires
            ask_pool > 0,
            offer_amount >= 0,
    ;
    assert(offer_amount * ask_pool == ask_pool * offer_amount) by (nonlinear_arith);
    lemma_div_is_ordered_by_denominator(n, offer_pool, d);
    lemma_div_is_ordered(0, n, d);
    lemma_fundamental_div_mod(n, d);
    let g = n / d;
    assert(g * d <= n) by (nonlinear_arith)
        requires
            n == d * g + n % d,
            n % d >= 0,
    ;
    assert(g < ask_pool) by (nonlinear_arith)
        requires
            g * d <= n,
            n == ask_pool * offer_amount,
            d == offer_pool + offer_amount,
            offer_pool > 0,
            ask_pool > 0,
            offer_amount >= 0,
            g >= 0,
    ;
}

/// What a swap pays, the spread against the pre-swap price, and the commission at
/// `total_fee_bps`.
pub fn compute_swap(offer_pool: u128, ask_pool: u128, offer_amount: u128, total_fee_bps: u16) -> (r:
    Result<SwapAmounts, PoolError>)
    requires
        total_fee_bps <= BPS_DENOMINATOR,
    ensures
        r == compute_swap_spec(offer_pool, ask_pool, offer_amount, total_fee_bps),
        r matches Ok(s) ==> s.return_amount + s.commission_amount == gross_return(
            offer_pool as int,
            ask_pool as int,
            offer_amount as int,
        ),
        r matches Ok(s) ==> s.return_amount <= linear_return(
            offer_pool as int,
            ask_pool as int,
            offer_amount as int,
        ),
{
    if offer_pool == 0 || ask_pool == 0 {
        return Err(PoolError::OneOfPoolsIsEmpty);
    }
    if offer_amount == 0 {
        return Err(PoolError::ZeroSwapAmount);
    }
    if offer_pool > u128::MAX - offer_amount {
        return Err(PoolError::Overflow);
    }
    let linear = match multiply_ratio(offer_amount, ask_pool, offer_pool) {
        Some(v) => v,
        None => return Err(PoolError::Overflow),
    };
    proof {
        lemma_gross_bounds(offer_pool as int, ask_pool as int, offer_amount as int);
    }
    let gross = match multiply_ratio(ask_pool, offer_amount, offer_pool + offer_amount) {
        Some(v) => v,
        None => return Err(PoolError::Overflow),
    };
    proof {
        lemma_mul_div_at_most(gross as int, total_fee_bps as int, BPS_DENOMINATOR as int);
    }
    let commission = match multiply_ratio(gross, total_fee_bps as u128, BPS_DENOMINATOR) {
        Some(v) => v,
        None => return Err(PoolError::Overflow),
    };
    let spread = if linear > gross {
        linear - gross
    } else {
        0
    };
    Ok(
        SwapAmounts {
            return_amount: gross - commission,
            spread_amount: spread,
            commission_amount: commission,
        },
    )
}

/// What a swap that pays a given amount costs and charges.
#[derive(Clone, Copy, Debug, PartialEq, Eq, Structural)]
pub struct ReverseSwapAmounts {
    /// What the trader must offer.
    pub offer_amount: u128,
    /// The shortfall against the pre-swap price.
    pub spread_amount: u128,
    /// The commission charged on the way.
    pub commission_amount: u128,
}

/// What the curve must pay before the commission for the trader to receive `ask_amount`.
pub open spec fn before_commission(ask_amount: int, total_fee_bps: int) -> int {
    mul_div(ask_amount, BPS_DENOMINATOR as int, BPS_DENOMINATOR - total_fee_bps)
}

/// The outcome of `compute_offer_amount`, as a function of its arguments.
pub open spec fn compute_offer_spec(
    offer_pool: u128,
    ask_pool: u128,
    ask_amount: u128,
    total_fee_bps: u16,
) -> Result<ReverseSwapAmounts, PoolError> {
    if offer_pool == 0 || ask_pool == 0 {
        Err(PoolError::OneOfPoolsIsEmpty)
    } else if ask_amount == 0 {
        Err(PoolError::ZeroSwapAmount)
    } else if total_fee_bps == BPS_DENOMINATOR || before_commission(
        ask_amount as int,
        total_fee_bps as int,
    ) >= ask_pool {
        Err(PoolError::InsufficientLiquidity)
    } else {
        let before = before_commission(ask_amount as int, total_fee_bps as int);
        let total_offer = mul_div(offer_pool as int, ask_pool as int, ask_pool - before);
        let offer = total_offer - offer_pool;
        if total_offer > u128::MAX || linear_return(offer_pool as int, ask_pool as int, offer)
            > u128::MAX {
            Err(PoolError::Overflow)
        } else {
            let l = linear_return(offer_pool as int, ask_pool as int, offer);
            Ok(
                ReverseSwapAmounts {
                    offer_amount: offer as u128,
                    spread_amount: (if l > before {
                        l - before
                    } else {
                        0
                    }) as u128,
                    commission_amount: bps_of(before, total_fee_bps as int) as u128,
                },
            )
        }
    }
}

/// What must be offered for the trader to receive `ask_amount` after the commission at
/// `total_fee_bps`, with the spread and the commission on the way.
pub fn compute_offer_amount(
    offer_pool: u128,
    ask_pool: u128,
    ask_amount: u128,
    total_fee_bps: u16,
) -> (r: Result<ReverseSwapAmounts, PoolError>)
    requires
        total_fee_bps <= BPS_DENOMINATOR,
    ensures
        r == compute_offer_spec(offer_pool, ask_pool, ask_amount, total_fee_bps),
{
    if offer_pool == 0 || ask_pool == 0 {
        return Err(PoolError::OneOfPoolsIsEmpty);
    }
    if ask_amount == 0 {
        return Err(PoolError::ZeroSwapAmount);
    }
    if total_fee_bps as u128 == BPS_DENOMINATOR {
        return Err(PoolError::InsufficientLiquidity);
    }
    let before = match multiply_ratio(
        ask_amount,
        BPS_DENOMINATOR,
        BPS_DENOMINATOR - total_fee_bps as u128,
    ) {
        Some(v) => v,
        None => return Err(PoolError::InsufficientLiquidity),
    };
    if before >= ask_pool {
        return Err(PoolError::InsufficientLiquidity);
    }
    let total_offer = match multiply_ratio(offer_pool, ask_pool, ask_pool - before) {
        Some(v) => v,
        None => return Err(PoolError::Overflow),
    };
    proof {
        assert(offer_pool * ask_pool >= offer_pool * (ask_pool - before)) by (nonlinear_arith)
            requires
                before >= 0,
                offer_pool >= 0,
        ;
        vstd::arithmetic::div_mod::lemma_div_is_ordered(
            offer_pool * (ask_pool - before),
            offer_pool * ask_pool,
            ask_pool - before,
        );
        assert(offer_pool * (ask_pool - before) / (ask_pool - before) as int == offer_pool)
            by (nonlinear_arith)
            requires
                ask_pool - before > 0,
        ;
    }
    let offer = total_offer - offer_pool;
    let linear = match multiply_ratio(offer, ask_pool, offer_pool) {
        Some(v) => v,
        None => return Err(PoolError::Overflow),
    };
    proof {
        lemma_mul_div_at_most(before as int, total_fee_bps as int, BPS_DENOMINATOR as int);
    }
    let commission = match multiply_ratio(before, total_fee_bps as u128, BPS_DENOMINATOR) {
        Some(v) => v,
        None => return Err(PoolError::Overflow),
    };
    Ok(
        ReverseSwapAmounts {
            offer_amount: offer,
            spread_amount: if linear > before {
                linear - before
            } else {
                0
            },
            commission_amount: commission,
        },
    )
}

/// How a commission is split: a share for the configured recipient first, then the
/// treasury's fee out of what is left, and the rest stays with the liquidity providers.
#[derive(Clone, Copy, Debug, PartialEq, Eq, Structural)]
pub struct FeeSplit {
    pub fee_share_amount: u128,
    pub maker_fee_amount: u128,
    pub lp_retained_amount: u128,
}

/// The share of `commission` sent to the fee-share recipient.
pub open spec fn fee_share_part(commission: int, fee_share_bps: Option<u16>) -> int {
    match fee_share_bps {
        Some(b) => bps_of(commission, b as int),
        None => 0,
    }
}

/// The treasury's fee out of what the fee share leaves; none without a treasury.
pub open spec fn maker_fee_part(
    commission: int,
    fee_share_bps: Option<u16>,
    maker_fee_bps: u16,
    has_treasury: bool,
) -> int {
    if has_treasury {
        bps_of(commission - fee_share_part(commission, fee_share_bps), maker_fee_bps as int)
    } else {
        0
    }
}

/// Splits `commission` between the fee-share recipient, the treasury and the pool. The
/// three parts add up to the commission exactly.
pub fn split_commission(
    commission: u128,
    fee_share_bps: Option<u16>,
    maker_fee_bps: u16,
    has_treasury: bool,
) -> (r: FeeSplit)
    requires
        fee_share_bps matches Some(b) ==> b <= BPS_DENOMINATOR,
        maker_fee_bps <= BPS_DENOMINATOR,
    ensures
        r.fee_share_amount == fee_share_part(commission as int, fee_share_bps),
        r.maker_fee_amount == maker_fee_part(
            commission as int,
            fee_share_bps,
            maker_fee_bps,
            has_treasury,
        ),
        r.fee_share_amount + r.maker_fee_amount + r.lp_retained_amount == commission,
{
    let fee_share: u128 = match fee_share_bps {
        Some(b) => {
            proof {
                lemma_mul_div_at_most(commission as int, b as int, BPS_DENOMINATOR as int);
            }
            match multiply_ratio(commission, b as u128, BPS_DENOMINATOR) {
                Some(v) => v,
                None => 0,
            }
        },
        None => 0,
    };
    let rest = commission - fee_share;
    let maker: u128 = if has_treasury {
        proof {
            lemma_mul_div_at_most(rest as int, maker_fee_bps as int, BPS_DENOMINATOR as int);
        }
        match multiply_ratio(rest, maker_fee_bps as u128, BPS_DENOMINATOR) {
            Some(v) => v,
            None => 0,
        }
    } else {
        0
    };
    FeeSplit { fee_share_amount: fee_share, maker_fee_amount: maker, lp_retained_amount: rest - maker }
}

/// `floor(num / den)` at 18 decimal places, compared with a tolerance.
pub open spec fn ratio_exceeds(num: int, den: int, tolerance: u128) -> bool {
    mul_div(num, DECIMAL_FRACTIONAL as int, den) > tolerance
}

/// What the spread guard decides for a swap that pays `return_amount` (commission
/// included) for `offer_amount` with the given spread.
pub open spec fn max_spread_check(
    belief_price: Option<Decimal>,
    max_spread: Option<Decimal>,
    offer_amount: u128,
    return_amount: u128,
    spread_amount: u128,
) -> Result<(), PoolError> {
    let m = match max_spread {
        Some(d) => d.atomics,
        None => DEFAULT_SLIPPAGE,
    };
    if m > MAX_ALLOWED_SLIPPAGE {
        Err(PoolError::AllowedSpreadAssertion)
    } else {
        match belief_price {
            Some(b) => {
                if b.atomics == 0 {
                    Err(PoolError::ZeroBeliefPrice)
                } else {
                    let inv = DECIMAL_FRACTIONAL_SQUARED as int / (b.atomics as int);
                    let expected = mul_div(offer_amount as int, inv, DECIMAL_FRACTIONAL as int);
                    if expected > u128::MAX {
                        Err(PoolError::Overflow)
                    } else if return_amount < expected && ratio_exceeds(
                        expected - return_amount,
                        expected,
                        m,
                    ) {
                        Err(PoolError::MaxSpreadAssertion)
                    } else {
                        Ok(())
                    }
                }
            },
            None => {
                if return_amount + spread_amount > 0 && ratio_exceeds(
                    spread_amount as int,
                    return_amount + spread_amount,
                    m,
                ) {
                    Err(PoolError::MaxSpreadAssertion)
                } else {
                    Ok(())
                }
            },
        }
    }
}

proof fn lemma_ratio_at_most_one(num: int, den: int)
    requires
        0 <= num <= den,
        den > 0,
    ensures
        0 <= mul_div(num, DECIMAL_FRACTIONAL as int, den) <= DECIMAL_FRACTIONAL,
{
    assert(0 <= num * DECIMAL_FRACTIONAL <= den * DECIMAL_FRACTIONAL) by (nonlinear_arith)
        requires
            0 <= num <= den,
    ;
    lemma_div_is_ordered(0, num * DECIMAL_FRACTIONAL, den);
    lemma_div_is_ordered(num * DECIMAL_FRACTIONAL, den * DECIMAL_FRACTIONAL, den);
    assert(den * DECIMAL_FRACTIONAL / den == DECIMAL_FRACTIONAL as int) by (nonlinear_arith)
        requires
            den > 0,
    ;
}

/// Rejects a swap whose spread exceeds the tolerance (0.5% when none is named): against
/// the belief price when one is given, else against the pre-swap price.
pub fn assert_max_spread(
    belief_price: Option<Decimal>,
    max_spread: Option<Decimal>,
    offer_amount: u128,
    return_amount: u128,
    spread_amount: u128,
) -> (r: Result<(), PoolError>)
    requires
        return_amount + spread_amount <= u128::MAX,
    ensures
        r == max_spread_check(belief_price, max_spread, offer_amount, return_amount, spread_amount),
{
    let m = match max_spread {
        Some(d) => d.atomics,
        None => DEFAULT_SLIPPAGE,
    };
    if m > MAX_ALLOWED_SLIPPAGE {
        return Err(PoolError::AllowedSpreadAssertion);
    }
    match belief_price {
        Some(b) => {
            let inv = match b.inv() {
                Some(i) => i,
                None => return Err(PoolError::ZeroBeliefPrice),
            };
            let expected = match multiply_ratio(offer_amount, inv.atomics, DECIMAL_FRACTIONAL) {
                Some(v) => v,
                None => return Err(PoolError::Overflow),
            };
            if return_amount < expected {
                proof {
                    lemma_ratio_at_most_one((expected - return_amount) as int, expected as int);
                }
                let ratio = Decimal::from_ratio(expected - return_amount, expected);
                if ratio.atomics > m {
                    return Err(PoolError::MaxSpreadAssertion);
                }
            }
            Ok(())
        },
        None => {
            let total = return_amount + spread_amount;
            if total > 0 {
                proof {
                    lemma_ratio_at_most_one(spread_amount as int, total as int);
                }
                let ratio = Decimal::from_ratio(spread_amount, total);
                if ratio.atomics > m {
                    return Err(PoolError::MaxSpreadAssertion);
                }
            }
            Ok(())
        },
    }
}

} // verus!
