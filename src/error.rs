//! Failures of the pool's operations. Every failure leaves the pool unchanged.

use vstd::prelude::*;

verus! {

#[derive(Clone, Debug, PartialEq, Eq)]
pub enum PoolError {
    /// An asset does not belong to the pool, or the pool's assets are not all given.
    AssetMismatch,
    /// A pool is made of exactly two assets, and a deposit names exactly two.
    InvalidNumberOfAssets,
    /// The two assets of a pool are the same.
    DoublingAssets,
    /// A native deposit differs from the funds attached to the call.
    NativeTokenBalanceMismatch { denom: String, argument: u128, transferred: u128 },
    /// A deposit of zero into one side of the pool.
    InvalidZeroAmount,
    /// A first deposit too small to lock the minimum liquidity.
    MinimumLiquidityAmount,
    /// A deposit whose ratio is further from the pool's than the tolerance allows.
    MaxSlippageAssertion,
    /// A slippage or spread tolerance above the largest one allowed.
    AllowedSpreadAssertion,
    /// A deposit would mint fewer shares than the caller asked for.
    MinLpToReceiveNotSatisfied { share: u128, min: u128 },
    /// The list of minimum withdrawal amounts does not name two assets.
    WrongAssetLength,
    /// A withdrawal would pay less of an asset than the caller asked for.
    WithdrawSlippageViolation { received: u128, expected: u128 },
    /// More shares burned than can be withdrawn.
    InsufficientShares,
    /// A swap against a pool with an empty side.
    OneOfPoolsIsEmpty,
    /// A pool too shallow to pay the amount asked for.
    InsufficientLiquidity,
    /// A swap of nothing.
    ZeroSwapAmount,
    /// A belief price of zero.
    ZeroBeliefPrice,
    /// A swap whose spread exceeds the tolerance.
    MaxSpreadAssertion,
    /// A caller without the right to the operation.
    Unauthorized,
    /// A fee share of zero or above the cap.
    FeeShareOutOfBounds,
    /// A result that does not fit in its integer type.
    Overflow,
}

} // verus!
