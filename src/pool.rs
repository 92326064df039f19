//! The pool: its two assets, reserves, share supply, oracle and fee-share policy, and the
//! operations that change them. Each operation either succeeds as a whole or fails and
//! leaves the pool as it was.

use crate::asset::{
    assert_sent_native_token_balance, native_balance_check, same_asset, Asset, AssetInfo, Coin,
};
use crate::error::PoolError;
use crate::fixed_point::{lemma_mul_div_at_most, Decimal};
use crate::liquidity::{
    deposit_share, deposit_share_spec, refund_of, share_in_reserve, MINIMUM_LIQUIDITY_AMOUNT,
};
use crate::oracle::{accumulate_ok, accumulate_spec, Oracle};
use crate::swap::{
    assert_max_spread, bps_of, compute_offer_amount, compute_offer_spec, compute_swap,
    compute_swap_spec, fee_share_part, gross_return, lemma_gross_bounds, linear_return,
    maker_fee_part, max_spread_check, split_commission, ReverseSwapAmounts, SwapAmounts,
    BPS_DENOMINATOR,
};
use vstd::arithmetic::div_mod::{lemma_fundamental_div_mod, lemma_multiply_divide_lt};
use vstd::prelude::*;

verus! {

/// The largest fee share, in basis points of the commission.
pub const MAX_FEE_SHARE_BPS: u16 = 1000;

/// A part of every commission sent to a third party.
#[derive(Clone, Debug, PartialEq, Eq)]
pub struct FeeShareConfig {
    pub bps: u16,
    pub recipient: String,
}

/// The fee policy the registry holds for a pool.
#[derive(Clone, Debug, PartialEq, Eq)]
pub struct FeeInfo {
    pub total_fee_bps: u16,
    pub maker_fee_bps: u16,
    /// The treasury; without one no treasury fee is taken.
    pub fee_address: Option<String>,
}

impl FeeInfo {
    pub open spec fn wf(&self) -> bool {
        self.total_fee_bps <= BPS_DENOMINATOR && self.maker_fee_bps <= BPS_DENOMINATOR
    }
}

/// A change to a pool's fee-share policy.
#[derive(Clone, Debug, PartialEq, Eq)]
pub enum UpdateParams {
    EnableFeeShare { fee_share_bps: u16, fee_share_address: String },
    DisableFeeShare,
}

/// A pool of two assets.
#[derive(Debug)]
pub struct Pool {
    pub asset0: AssetInfo,
    pub asset1: AssetInfo,
    /// The ledger of this pool's liquidity shares.
    pub liquidity_token: String,
    pub factory_addr: String,
    pub reserve0: u128,
    pub reserve1: u128,
    pub total_supply: u128,
    pub oracle: Oracle,
    pub fee_share: Option<FeeShareConfig>,
}

/// What a deposit minted.
#[derive(Clone, Copy, Debug, PartialEq, Eq, Structural)]
pub struct ProvideOutcome {
    /// Shares for the depositor.
    pub share: u128,
    /// Shares locked for good: the minimum liquidity on the first deposit, else zero.
    pub locked: u128,
}

/// What a withdrawal paid out of each side.
#[derive(Clone, Copy, Debug, PartialEq, Eq, Structural)]
pub struct WithdrawOutcome {
    pub refund0: u128,
    pub refund1: u128,
}

/// What a swap paid and where its commission went.
#[derive(Clone, Copy, Debug, PartialEq, Eq, Structural)]
pub struct SwapOutcome {
    /// Whether the trader received asset 1 (else asset 0).
    pub ask_is_asset1: bool,
    pub return_amount: u128,
    pub spread_amount: u128,
    pub commission_amount: u128,
    pub fee_share_amount: u128,
    pub maker_fee_amount: u128,
}

/// The fee-share rate of a policy, if any.
pub open spec fn fee_share_bps(f: Option<FeeShareConfig>) -> Option<u16> {
    match f {
        Some(c) => Some(c.bps),
        None => None,
    }
}

/// `assets` names the pool's two assets, in either order.
pub open spec fn names_pool_assets(p: Pool, assets: Seq<Asset>) -> bool {
    assets.len() == 2 && ((same_asset(assets[0].info, p.asset0) && same_asset(
        assets[1].info,
        p.asset1,
    )) || (same_asset(assets[0].info, p.asset1) && same_asset(assets[1].info, p.asset0)))
}

/// The amount that a list of two assets names for `info`.
pub open spec fn amount_for(assets: Seq<Asset>, info: AssetInfo) -> u128 {
    if same_asset(assets[0].info, info) {
        assets[0].amount
    } else {
        assets[1].amount
    }
}

/// The checks of a deposit's assets that come before any arithmetic.
pub open spec fn deposit_assets_check(p: Pool, assets: Seq<Asset>) -> Result<(), PoolError> {
    if assets.len() != 2 {
        Err(PoolError::InvalidNumberOfAssets)
    } else if !names_pool_assets(p, assets) {
        Err(PoolError::AssetMismatch)
    } else if amount_for(assets, p.asset0) == 0 || amount_for(assets, p.asset1) == 0 {
        Err(PoolError::InvalidZeroAmount)
    } else {
        Ok(())
    }
}

/// A withdrawal of fewer shares than the whole supply leaves part of each reserve.
proof fn lemma_refund_below_reserve(reserve: int, share: int, total: int)
    requires
        reserve > 0,
        0 < share < total,
    ensures
        refund_of(reserve, share, total) < reserve,
{
    assert(reserve * share < total * reserve) by (nonlinear_arith)
        requires
            reserve > 0,
            0 < share < total,
    ;
    lemma_multiply_divide_lt(reserve * share, total, reserve);
}

/// A successful swap's gross return and spread add up to the linear return, which fits in
/// `u128`, and the gross return is less than the ask reserve.
proof fn lemma_gross_and_spread_fit(offer_pool: u128, ask_pool: u128, offer_amount: u128, fee_bps: u16)
    requires
        fee_bps <= BPS_DENOMINATOR,
        compute_swap_spec(offer_pool, ask_pool, offer_amount, fee_bps).is_ok(),
    ensures
        ({
            let s = compute_swap_spec(offer_pool, ask_pool, offer_amount, fee_bps)->Ok_0;
            s.return_amount + s.commission_amount + s.spread_amount <= u128::MAX
                && s.return_amount + s.commission_amount < ask_pool
        }),
{
    lemma_gross_bounds(offer_pool as int, ask_pool as int, offer_amount as int);
    lemma_mul_div_at_most(
        gross_return(offer_pool as int, ask_pool as int, offer_amount as int),
        fee_bps as int,
        BPS_DENOMINATOR as int,
    );
}

/// What `provide_liquidity` does, as a function of the pool and its arguments.
pub open spec fn provide_spec(
    p: Pool,
    assets: Seq<Asset>,
    funds: Seq<Coin>,
    slippage_tolerance: Option<Decimal>,
    min_lp_to_receive: Option<u128>,
    now: u64,
) -> Result<(Pool, ProvideOutcome), PoolError> {
    if assets.len() != 2 {
        Err(PoolError::InvalidNumberOfAssets)
    } else if !names_pool_assets(p, assets) {
        Err(PoolError::AssetMismatch)
    } else if native_balance_check(assets[0], funds).is_err() {
        Err(native_balance_check(assets[0], funds)->Err_0)
    } else if native_balance_check(assets[1], funds).is_err() {
        Err(native_balance_check(assets[1], funds)->Err_0)
    } else {
        let d0 = amount_for(assets, p.asset0);
        let d1 = amount_for(assets, p.asset1);
        if d0 == 0 || d1 == 0 {
            Err(PoolError::InvalidZeroAmount)
        } else {
            match deposit_share_spec(
                d0,
                d1,
                p.reserve0,
                p.reserve1,
                p.total_supply,
                slippage_tolerance,
            ) {
                Err(e) => Err(e),
                Ok(share) => {
                    let locked: u128 = if p.total_supply == 0 {
                        MINIMUM_LIQUIDITY_AMOUNT
                    } else {
                        0
                    };
                    if min_lp_to_receive matches Some(m) && share < m {
                        Err(
                            PoolError::MinLpToReceiveNotSatisfied {
                                share,
                                min: min_lp_to_receive->Some_0,
                            },
                        )
                    } else if p.reserve0 + d0 > u128::MAX || p.reserve1 + d1 > u128::MAX
                        || p.total_supply + share + locked > u128::MAX || !accumulate_ok(
                        p.oracle,
                        now,
                        p.reserve0,
                        p.reserve1,
                    ) {
                        Err(PoolError::Overflow)
                    } else {
                        Ok(
                            (
                                Pool {
                                    reserve0: (p.reserve0 + d0) as u128,
                                    reserve1: (p.reserve1 + d1) as u128,
                                    total_supply: (p.total_supply + share + locked) as u128,
                                    oracle: accumulate_spec(p.oracle, now, p.reserve0, p.reserve1),
                                    ..p
                                },
                                ProvideOutcome { share, locked },
                            ),
                        )
                    }
                },
            }
        }
    }
}

/// What `withdraw_liquidity` does, as a function of the pool and its arguments.
pub open spec fn withdraw_spec(
    p: Pool,
    sender: Seq<char>,
    share: u128,
    min_assets_to_receive: Option<Seq<Asset>>,
    now: u64,
) -> Result<(Pool, WithdrawOutcome), PoolError> {
    if sender != p.liquidity_token@ {
        Err(PoolError::Unauthorized)
    } else if share == 0 {
        Err(PoolError::InvalidZeroAmount)
    } else if p.total_supply < MINIMUM_LIQUIDITY_AMOUNT + share {
        Err(PoolError::InsufficientShares)
    } else {
        let w0 = refund_of(p.reserve0 as int, share as int, p.total_supply as int);
        let w1 = refund_of(p.reserve1 as int, share as int, p.total_supply as int);
        let guard: Result<(), PoolError> = match min_assets_to_receive {
            None => Ok(()),
            Some(m) => {
                if m.len() != 2 {
                    Err(PoolError::WrongAssetLength)
                } else if !names_pool_assets(p, m) {
                    Err(PoolError::AssetMismatch)
                } else if w0 < amount_for(m, p.asset0) {
                    Err(
                        PoolError::WithdrawSlippageViolation {
                            received: w0 as u128,
                            expected: amount_for(m, p.asset0),
                        },
                    )
                } else if w1 < amount_for(m, p.asset1) {
                    Err(
                        PoolError::WithdrawSlippageViolation {
                            received: w1 as u128,
                            expected: amount_for(m, p.asset1),
                        },
                    )
                } else {
                    Ok(())
                }
            },
        };
        if guard.is_err() {
            Err(guard->Err_0)
        } else if !accumulate_ok(p.oracle, now, p.reserve0, p.reserve1) {
            Err(PoolError::Overflow)
        } else {
            Ok(
                (
                    Pool {
                        reserve0: (p.reserve0 - w0) as u128,
                        reserve1: (p.reserve1 - w1) as u128,
                        total_supply: (p.total_supply - share) as u128,
                        oracle: accumulate_spec(p.oracle, now, p.reserve0, p.reserve1),
                        ..p
                    },
                    WithdrawOutcome { refund0: w0 as u128, refund1: w1 as u128 },
                ),
            )
        }
    }
}

/// What `swap` does, as a function of the pool and its arguments.
pub open spec fn swap_spec(
    p: Pool,
    offer: Asset,
    ask_info: Option<AssetInfo>,
    belief_price: Option<Decimal>,
    max_spread: Option<Decimal>,
    fee: FeeInfo,
    now: u64,
) -> Result<(Pool, SwapOutcome), PoolError> {
    let offer_is0 = same_asset(offer.info, p.asset0);
    let offer_is1 = same_asset(offer.info, p.asset1);
    let other = if offer_is0 {
        p.asset1
    } else {
        p.asset0
    };
    let (offer_pool, ask_pool) = if offer_is0 {
        (p.reserve0, p.reserve1)
    } else {
        (p.reserve1, p.reserve0)
    };
    if !offer_is0 && !offer_is1 {
        Err(PoolError::AssetMismatch)
    } else if ask_info matches Some(a) && !same_asset(a, other) {
        Err(PoolError::AssetMismatch)
    } else {
        match compute_swap_spec(offer_pool, ask_pool, offer.amount, fee.total_fee_bps) {
            Err(e) => Err(e),
            Ok(s) => {
                let check = max_spread_check(
                    belief_price,
                    max_spread,
                    offer.amount,
                    (s.return_amount + s.commission_amount) as u128,
                    s.spread_amount,
                );
                if check.is_err() {
                    Err(check->Err_0)
                } else if !accumulate_ok(p.oracle, now, p.reserve0, p.reserve1) {
                    Err(PoolError::Overflow)
                } else {
                    let fs = fee_share_part(s.commission_amount as int, fee_share_bps(p.fee_share));
                    let mf = maker_fee_part(
                        s.commission_amount as int,
                        fee_share_bps(p.fee_share),
                        fee.maker_fee_bps,
                        fee.fee_address.is_some(),
                    );
                    let new_offer = (offer_pool + offer.amount) as u128;
                    let new_ask = (ask_pool - s.return_amount - fs - mf) as u128;
                    let oracle = accumulate_spec(p.oracle, now, p.reserve0, p.reserve1);
                    Ok(
                        (
                            if offer_is0 {
                                Pool { reserve0: new_offer, reserve1: new_ask, oracle, ..p }
                            } else {
                                Pool { reserve0: new_ask, reserve1: new_offer, oracle, ..p }
                            },
                            SwapOutcome {
                                ask_is_asset1: offer_is0,
                                return_amount: s.return_amount,
                                spread_amount: s.spread_amount,
                                commission_amount: s.commission_amount,
                                fee_share_amount: fs as u128,
                                maker_fee_amount: mf as u128,
                            },
                        ),
                    )
                }
            },
        }
    }
}

/// What `update_config` does, as a function of the pool and its arguments.
pub open spec fn update_config_spec(
    p: Pool,
    sender: Seq<char>,
    owner: Seq<char>,
    params: UpdateParams,
) -> Result<Pool, PoolError> {
    if sender != owner {
        Err(PoolError::Unauthorized)
    } else {
        match params {
            UpdateParams::EnableFeeShare { fee_share_bps, fee_share_address } => {
                if fee_share_bps == 0 || fee_share_bps > MAX_FEE_SHARE_BPS {
                    Err(PoolError::FeeShareOutOfBounds)
                } else {
                    Ok(
                        Pool {
                            fee_share: Some(
                                FeeShareConfig { bps: fee_share_bps, recipient: fee_share_address },
                            ),
                            ..p
                        },
                    )
                }
            },
            UpdateParams::DisableFeeShare => Ok(Pool { fee_share: None, ..p }),
        }
    }
}

impl Pool {
    /// The pool's invariant: two distinct assets; no shares exactly when nothing is
    /// deposited, and once shares exist both reserves are positive and the locked minimum
    /// is among them; a fee share, when enabled, within its bounds.
    pub open spec fn wf(&self) -> bool {
        &&& !same_asset(self.asset0, self.asset1)
        &&& (self.total_supply == 0 ==> self.reserve0 == 0 && self.reserve1 == 0)
        &&& (self.total_supply > 0 ==> self.reserve0 > 0 && self.reserve1 > 0
            && self.total_supply >= MINIMUM_LIQUIDITY_AMOUNT)
        &&& (self.fee_share matches Some(f) ==> 0 < f.bps <= MAX_FEE_SHARE_BPS)
    }

    /// A new, empty pool of the two assets in `asset_infos`.
    pub fn instantiate(asset_infos: Vec<AssetInfo>, liquidity_token: String, factory_addr: String) -> (r:
        Result<Pool, PoolError>)
        ensures
            r == Err::<Pool, PoolError>(PoolError::InvalidNumberOfAssets) <==> asset_infos.len() != 2,
            r == Err::<Pool, PoolError>(PoolError::DoublingAssets) <==> asset_infos.len() == 2
                && same_asset(asset_infos[0], asset_infos[1]),
            r.is_ok() <==> asset_infos.len() == 2 && !same_asset(asset_infos[0], asset_infos[1]),
            r matches Ok(p) ==> {
                &&& p.wf()
                &&& p.asset0 == asset_infos[0]
                &&& p.asset1 == asset_infos[1]
                &&& p.liquidity_token == liquidity_token
                &&& p.factory_addr == factory_addr
                &&& p.reserve0 == 0
                &&& p.reserve1 == 0
                &&& p.total_supply == 0
                &&& p.oracle == Oracle { block_time_last: 0, price0_cumulative: 0, price1_cumulative: 0 }
                &&& p.fee_share.is_none()
            },
    {
        if asset_infos.len() != 2 {
            return Err(PoolError::InvalidNumberOfAssets);
        }
        if asset_infos[0].equal(&asset_infos[1]) {
            return Err(PoolError::DoublingAssets);
        }
        let ghost infos = asset_infos@;
        let mut infos_left = asset_infos;
        let asset1 = infos_left.pop().unwrap();
        let asset0 = infos_left.pop().unwrap();
        assert(asset0 == infos[0] && asset1 == infos[1]);
        Ok(
            Pool {
                asset0,
                asset1,
                liquidity_token,
                factory_addr,
                reserve0: 0,
                reserve1: 0,
                total_supply: 0,
                oracle: Oracle::new(),
                fee_share: None,
            },
        )
    }

    /// Whether `assets` names this pool's two assets, in either order.
    fn names_assets(&self, assets: &Vec<Asset>) -> (r: bool)
        requires
            assets.len() == 2,
        ensures
            r == names_pool_assets(*self, assets@),
    {
        (assets[0].info.equal(&self.asset0) && assets[1].info.equal(&self.asset1)) || (
        assets[0].info.equal(&self.asset1) && assets[1].info.equal(&self.asset0))
    }

    /// The amount that a list of two assets names for each side of the pool.
    fn deposits(&self, assets: &Vec<Asset>) -> (r: (u128, u128))
        requires
            self.wf(),
            names_pool_assets(*self, assets@),
        ensures
            r.0 == amount_for(assets@, self.asset0),
            r.1 == amount_for(assets@, self.asset1),
    {
        if assets[0].info.equal(&self.asset0) {
            (assets[0].amount, assets[1].amount)
        } else {
            (assets[1].amount, assets[0].amount)
        }
    }

    /// Deposits one amount of each asset and mints shares for it. The oracle first moves
    /// forward on the reserves as they stood before the deposit.
    pub fn provide_liquidity(
        &mut self,
        assets: &Vec<Asset>,
        funds: &Vec<Coin>,
        slippage_tolerance: Option<Decimal>,
        min_lp_to_receive: Option<u128>,
        now: u64,
    ) -> (r: Result<ProvideOutcome, PoolError>)
        requires
            old(self).wf(),
        ensures
            final(self).wf(),
            match r {
                Ok(o) => provide_spec(
                    *old(self),
                    assets@,
                    funds@,
                    slippage_tolerance,
                    min_lp_to_receive,
                    now,
                ) == Ok::<(Pool, ProvideOutcome), PoolError>((*final(self), o)),
                Err(e) => provide_spec(
                    *old(self),
                    assets@,
                    funds@,
                    slippage_tolerance,
                    min_lp_to_receive,
                    now,
                ) == Err::<(Pool, ProvideOutcome), PoolError>(e) && *final(self) == *old(self),
            },
    {
        if assets.len() != 2 {
            return Err(PoolError::InvalidNumberOfAssets);
        }
        if !self.names_assets(assets) {
            return Err(PoolError::AssetMismatch);
        }
        match assert_sent_native_token_balance(&assets[0], funds) {
            Ok(()) => {},
            Err(e) => return Err(e),
        }
        match assert_sent_native_token_balance(&assets[1], funds) {
            Ok(()) => {},
            Err(e) => return Err(e),
        }
        let (d0, d1) = self.deposits(assets);
        if d0 == 0 || d1 == 0 {
            return Err(PoolError::InvalidZeroAmount);
        }
        let share = match deposit_share(
            d0,
            d1,
            self.reserve0,
            self.reserve1,
            self.total_supply,
            slippage_tolerance,
        ) {
            Ok(s) => s,
            Err(e) => return Err(e),
        };
        let locked: u128 = if self.total_supply == 0 {
            MINIMUM_LIQUIDITY_AMOUNT
        } else {
            0
        };
        match min_lp_to_receive {
            Some(m) => {
                if share < m {
                    return Err(PoolError::MinLpToReceiveNotSatisfied { share, min: m });
                }
            },
            None => {},
        }
        if self.reserve0 > u128::MAX - d0 || self.reserve1 > u128::MAX - d1 || share > u128::MAX
            - locked || self.total_supply > u128::MAX - share - locked {
            return Err(PoolError::Overflow);
        }
        let oracle = match self.oracle.accumulate(now, self.reserve0, self.reserve1) {
            Ok(o) => o,
            Err(e) => return Err(e),
        };
        self.reserve0 = self.reserve0 + d0;
        self.reserve1 = self.reserve1 + d1;
        self.total_supply = self.total_supply + share + locked;
        self.oracle = oracle;
        Ok(ProvideOutcome { share, locked })
    }

    /// Burns `share` shares, sent back through the pool's share ledger `sender`, and pays
    /// out the same fraction of each reserve, rounded down. The locked minimum can never be
    /// withdrawn. The oracle first moves forward on the reserves before the withdrawal.
    pub fn withdraw_liquidity(
        &mut self,
        sender: &String,
        share: u128,
        min_assets_to_receive: Option<Vec<Asset>>,
        now: u64,
    ) -> (r: Result<WithdrawOutcome, PoolError>)
        requires
            old(self).wf(),
        ensures
            final(self).wf(),
            match r {
                Ok(o) => withdraw_spec(
                    *old(self),
                    sender@,
                    share,
                    match min_assets_to_receive {
                        Some(m) => Some(m@),
                        None => None,
                    },
                    now,
                ) == Ok::<(Pool, WithdrawOutcome), PoolError>((*final(self), o)),
                Err(e) => withdraw_spec(
                    *old(self),
                    sender@,
                    share,
                    match min_assets_to_receive {
                        Some(m) => Some(m@),
                        None => None,
                    },
                    now,
                ) == Err::<(Pool, WithdrawOutcome), PoolError>(e) && *final(self) == *old(self),
            },
    {
        if *sender != self.liquidity_token {
            return Err(PoolError::Unauthorized);
        }
        if share == 0 {
            return Err(PoolError::InvalidZeroAmount);
        }
        if self.total_supply < MINIMUM_LIQUIDITY_AMOUNT || self.total_supply
            - MINIMUM_LIQUIDITY_AMOUNT < share {
            return Err(PoolError::InsufficientShares);
        }
        let w0 = share_in_reserve(self.reserve0, share, self.total_supply);
        let w1 = share_in_reserve(self.reserve1, share, self.total_supply);
        match min_assets_to_receive {
            None => {},
            Some(m) => {
                if m.len() != 2 {
                    return Err(PoolError::WrongAssetLength);
                }
                if !self.names_assets(&m) {
                    return Err(PoolError::AssetMismatch);
                }
                let (m0, m1) = self.deposits(&m);
                if w0 < m0 {
                    return Err(PoolError::WithdrawSlippageViolation { received: w0, expected: m0 });
                }
                if w1 < m1 {
                    return Err(PoolError::WithdrawSlippageViolation { received: w1, expected: m1 });
                }
            },
        }
        let oracle = match self.oracle.accumulate(now, self.reserve0, self.reserve1) {
            Ok(o) => o,
            Err(e) => return Err(e),
        };
        proof {
            lemma_refund_below_reserve(self.reserve0 as int, share as int, self.total_supply as int);
            lemma_refund_below_reserve(self.reserve1 as int, share as int, self.total_supply as int);
        }
        self.reserve0 = self.reserve0 - w0;
        self.reserve1 = self.reserve1 - w1;
        self.total_supply = self.total_supply - share;
        self.oracle = oracle;
        Ok(WithdrawOutcome { refund0: w0, refund1: w1 })
    }

    /// Sells `offer` for the pool's other asset along the constant-product curve. The
    /// commission stays in the ask reserve but for the fee share and the treasury fee,
    /// which leave it with the trader's payout. The oracle first moves forward on the
    /// reserves before the swap.
    pub fn swap(
        &mut self,
        offer: &Asset,
        ask_info: Option<AssetInfo>,
        belief_price: Option<Decimal>,
        max_spread: Option<Decimal>,
        fee: &FeeInfo,
        now: u64,
    ) -> (r: Result<SwapOutcome, PoolError>)
        requires
            old(self).wf(),
            fee.wf(),
        ensures
            final(self).wf(),
            match r {
                Ok(o) => swap_spec(*old(self), *offer, ask_info, belief_price, max_spread, *fee, now)
                    == Ok::<(Pool, SwapOutcome), PoolError>((*final(self), o)),
                Err(e) => swap_spec(*old(self), *offer, ask_info, belief_price, max_spread, *fee, now)
                    == Err::<(Pool, SwapOutcome), PoolError>(e) && *final(self) == *old(self),
            },
    {
        let offer_is0 = offer.info.equal(&self.asset0);
        let offer_is1 = offer.info.equal(&self.asset1);
        if !offer_is0 && !offer_is1 {
            return Err(PoolError::AssetMismatch);
        }
        match &ask_info {
            Some(a) => {
                let ok = if offer_is0 {
                    a.equal(&self.asset1)
                } else {
                    a.equal(&self.asset0)
                };
                if !ok {
                    return Err(PoolError::AssetMismatch);
                }
            },
            None => {},
        }
        let (offer_pool, ask_pool) = if offer_is0 {
            (self.reserve0, self.reserve1)
        } else {
            (self.reserve1, self.reserve0)
        };
        let s = match compute_swap(offer_pool, ask_pool, offer.amount, fee.total_fee_bps) {
            Ok(s) => s,
            Err(e) => return Err(e),
        };
        proof {
            lemma_gross_and_spread_fit(offer_pool, ask_pool, offer.amount, fee.total_fee_bps);
        }
        match assert_max_spread(
            belief_price,
            max_spread,
            offer.amount,
            s.return_amount + s.commission_amount,
            s.spread_amount,
        ) {
            Ok(()) => {},
            Err(e) => return Err(e),
        }
        let oracle = match self.oracle.accumulate(now, self.reserve0, self.reserve1) {
            Ok(o) => o,
            Err(e) => return Err(e),
        };
        let share_bps: Option<u16> = match &self.fee_share {
            Some(f) => Some(f.bps),
            None => None,
        };
        let split = split_commission(
            s.commission_amount,
            share_bps,
            fee.maker_fee_bps,
            fee.fee_address.is_some(),
        );
        let new_offer = offer_pool + offer.amount;
        let new_ask = ask_pool - s.return_amount - split.fee_share_amount - split.maker_fee_amount;
        if offer_is0 {
            self.reserve0 = new_offer;
            self.reserve1 = new_ask;
        } else {
            self.reserve1 = new_offer;
            self.reserve0 = new_ask;
        }
        self.oracle = oracle;
        Ok(
            SwapOutcome {
                ask_is_asset1: offer_is0,
                return_amount: s.return_amount,
                spread_amount: s.spread_amount,
                commission_amount: s.commission_amount,
                fee_share_amount: split.fee_share_amount,
                maker_fee_amount: split.maker_fee_amount,
            },
        )
    }

    /// Enables or disables the fee share; only `owner`, the registry's owner, may.
    pub fn update_config(&mut self, sender: &String, owner: &String, params: UpdateParams) -> (r:
        Result<(), PoolError>)
        requires
            old(self).wf(),
        ensures
            final(self).wf(),
            match r {
                Ok(()) => update_config_spec(*old(self), sender@, owner@, params) == Ok::<
                    Pool,
                    PoolError,
                >(*final(self)),
                Err(e) => update_config_spec(*old(self), sender@, owner@, params) == Err::<
                    Pool,
                    PoolError,
                >(e) && *final(self) == *old(self),
            },
    {
        if *sender != *owner {
            return Err(PoolError::Unauthorized);
        }
        match params {
            UpdateParams::EnableFeeShare { fee_share_bps, fee_share_address } => {
                if fee_share_bps == 0 || fee_share_bps > MAX_FEE_SHARE_BPS {
                    return Err(PoolError::FeeShareOutOfBounds);
                }
                self.fee_share = Some(
                    FeeShareConfig { bps: fee_share_bps, recipient: fee_share_address },
                );
            },
            UpdateParams::DisableFeeShare => {
                self.fee_share = None;
            },
        }
        Ok(())
    }

    /// The accumulated prices as they would stand at `now`; the pool is not changed.
    pub fn cumulative_prices(&self, now: u64) -> (r: Result<(u128, u128), PoolError>)
        ensures
            r.is_ok() <==> accumulate_ok(self.oracle, now, self.reserve0, self.reserve1),
            r matches Err(e) ==> e == PoolError::Overflow,
            r matches Ok(c) ==> c == (
                accumulate_spec(self.oracle, now, self.reserve0, self.reserve1).price0_cumulative,
                accumulate_spec(self.oracle, now, self.reserve0, self.reserve1).price1_cumulative,
            ),
    {
        match self.oracle.accumulate(now, self.reserve0, self.reserve1) {
            Ok(o) => Ok((o.price0_cumulative, o.price1_cumulative)),
            Err(e) => Err(e),
        }
    }

    /// The shares a deposit would mint now, without the checks of attached funds and of a
    /// minimum.
    pub fn simulate_provide(&self, assets: &Vec<Asset>, slippage_tolerance: Option<Decimal>) -> (r:
        Result<u128, PoolError>)
        requires
            self.wf(),
        ensures
            match deposit_assets_check(*self, assets@) {
                Err(e) => r == Err::<u128, PoolError>(e),
                Ok(()) => r == deposit_share_spec(
                    amount_for(assets@, self.asset0),
                    amount_for(assets@, self.asset1),
                    self.reserve0,
                    self.reserve1,
                    self.total_supply,
                    slippage_tolerance,
                ),
            },
    {
        if assets.len() != 2 {
            return Err(PoolError::InvalidNumberOfAssets);
        }
        if !self.names_assets(assets) {
            return Err(PoolError::AssetMismatch);
        }
        let (d0, d1) = self.deposits(assets);
        if d0 == 0 || d1 == 0 {
            return Err(PoolError::InvalidZeroAmount);
        }
        deposit_share(d0, d1, self.reserve0, self.reserve1, self.total_supply, slippage_tolerance)
    }

    /// What a swap of `offer` would pay and charge now; the pool is not changed.
    pub fn simulate_swap(&self, offer: &Asset, fee: &FeeInfo) -> (r: Result<SwapAmounts, PoolError>)
        requires
            fee.wf(),
        ensures
            !same_asset(offer.info, self.asset0) && !same_asset(offer.info, self.asset1) ==> r
                == Err::<SwapAmounts, PoolError>(PoolError::AssetMismatch),
            same_asset(offer.info, self.asset0) ==> r == compute_swap_spec(
                self.reserve0,
                self.reserve1,
                offer.amount,
                fee.total_fee_bps,
            ),
            !same_asset(offer.info, self.asset0) && same_asset(offer.info, self.asset1) ==> r
                == compute_swap_spec(self.reserve1, self.reserve0, offer.amount, fee.total_fee_bps),
    {
        if offer.info.equal(&self.asset0) {
            compute_swap(self.reserve0, self.reserve1, offer.amount, fee.total_fee_bps)
        } else if offer.info.equal(&self.asset1) {
            compute_swap(self.reserve1, self.reserve0, offer.amount, fee.total_fee_bps)
        } else {
            Err(PoolError::AssetMismatch)
        }
    }

    /// What must be offered now for the trader to receive `ask`; the pool is not changed.
    pub fn reverse_simulate_swap(&self, ask: &Asset, fee: &FeeInfo) -> (r: Result<
        ReverseSwapAmounts,
        PoolError,
    >)
        requires
            fee.wf(),
        ensures
            !same_asset(ask.info, self.asset0) && !same_asset(ask.info, self.asset1) ==> r
                == Err::<ReverseSwapAmounts, PoolError>(PoolError::AssetMismatch),
            same_asset(ask.info, self.asset1) ==> r == compute_offer_spec(
                self.reserve0,
                self.reserve1,
                ask.amount,
                fee.total_fee_bps,
            ),
            !same_asset(ask.info, self.asset1) && same_asset(ask.info, self.asset0) ==> r
                == compute_offer_spec(self.reserve1, self.reserve0, ask.amount, fee.total_fee_bps),
    {
        if ask.info.equal(&self.asset1) {
            compute_offer_amount(self.reserve0, self.reserve1, ask.amount, fee.total_fee_bps)
        } else if ask.info.equal(&self.asset0) {
            compute_offer_amount(self.reserve1, self.reserve0, ask.amount, fee.total_fee_bps)
        } else {
            Err(PoolError::AssetMismatch)
        }
    }

    /// A swap handed over by a token ledger is accepted only from the ledger of one of the
    /// pool's token assets.
    pub fn authorize_swap_hook(&self, sender: &String) -> (r: Result<(), PoolError>)
        ensures
            r.is_ok() <==> (same_asset(self.asset0, AssetInfo::Token { contract_addr: *sender })
                || same_asset(self.asset1, AssetInfo::Token { contract_addr: *sender })),
            r.is_err() ==> r == Err::<(), PoolError>(PoolError::Unauthorized),
    {
        let as_token = AssetInfo::Token { contract_addr: sender.clone() };
        if self.asset0.equal(&as_token) || self.asset1.equal(&as_token) {
            Ok(())
        } else {
            Err(PoolError::Unauthorized)
        }
    }
}

/// Depositing and then burning the shares that the deposit minted brings the share supply
/// back to what it was, plus the locked minimum when the deposit was the first. When both
/// refunds are exact fractions of the reserves, the refunds stand in the pool's ratio and
/// so do the reserves left behind.
pub proof fn lemma_provide_then_withdraw(
    p: Pool,
    assets: Seq<Asset>,
    funds: Seq<Coin>,
    slippage_tolerance: Option<Decimal>,
    min_lp_to_receive: Option<u128>,
    t1: u64,
    sender: Seq<char>,
    min_assets_to_receive: Option<Seq<Asset>>,
    t2: u64,
)
    requires
        p.wf(),
        provide_spec(p, assets, funds, slippage_tolerance, min_lp_to_receive, t1).is_ok(),
        withdraw_spec(
            provide_spec(p, assets, funds, slippage_tolerance, min_lp_to_receive, t1)->Ok_0.0,
            sender,
            provide_spec(p, assets, funds, slippage_tolerance, min_lp_to_receive, t1)->Ok_0.1.share,
            min_assets_to_receive,
            t2,
        ).is_ok(),
    ensures
        ({
            let (q, o) = provide_spec(p, assets, funds, slippage_tolerance, min_lp_to_receive, t1)->Ok_0;
            let (w, r) = withdraw_spec(q, sender, o.share, min_assets_to_receive, t2)->Ok_0;
            &&& o.locked == if p.total_supply == 0 {
                MINIMUM_LIQUIDITY_AMOUNT
            } else {
                0
            }
            &&& w.total_supply == p.total_supply + o.locked
            &&& ((q.reserve0 * o.share) % (q.total_supply as int) == 0 && (q.reserve1 * o.share) % (
            q.total_supply as int) == 0) ==> {
                &&& r.refund0 * q.reserve1 == r.refund1 * q.reserve0
                &&& w.reserve0 * q.reserve1 == w.reserve1 * q.reserve0
            }
        }),
{
    let (q, o) = provide_spec(p, assets, funds, slippage_tolerance, min_lp_to_receive, t1)->Ok_0;
    let (w, r) = withdraw_spec(q, sender, o.share, min_assets_to_receive, t2)->Ok_0;
    let t = q.total_supply as int;
    let s = o.share as int;
    let q0 = q.reserve0 as int;
    let q1 = q.reserve1 as int;
    assert(q.total_supply == p.total_supply + o.share + o.locked);
    assert(t >= MINIMUM_LIQUIDITY_AMOUNT + s);
    lemma_mul_div_at_most(q0, s, t);
    lemma_mul_div_at_most(q1, s, t);
    assert(r.refund0 == refund_of(q0, s, t));
    assert(r.refund1 == refund_of(q1, s, t));
    assert(w.reserve0 == q0 - refund_of(q0, s, t));
    assert(w.reserve1 == q1 - refund_of(q1, s, t));
    assert(w.total_supply == t - s);
    if (q0 * s) % t == 0 && (q1 * s) % t == 0 {
        lemma_fundamental_div_mod(q0 * s, t);
        lemma_fundamental_div_mod(q1 * s, t);
        let k0 = (q0 * s) / t;
        let k1 = (q1 * s) / t;
        assert(k0 * q1 == k1 * q0) by (nonlinear_arith)
            requires
                q0 * s == t * k0 + 0,
                q1 * s == t * k1 + 0,
                t > 0,
        ;
        assert((q0 - k0) * q1 == (q1 - k1) * q0) by (nonlinear_arith)
            requires
                k0 * q1 == k1 * q0,
        ;
    }
}

/// A swap never lowers the product of the reserves: it grows by at least the part of the
/// commission that stays in the pool.
pub proof fn lemma_swap_grows_product(
    p: Pool,
    offer: Asset,
    ask_info: Option<AssetInfo>,
    belief_price: Option<Decimal>,
    max_spread: Option<Decimal>,
    fee: FeeInfo,
    now: u64,
)
    requires
        p.wf(),
        fee.wf(),
        swap_spec(p, offer, ask_info, belief_price, max_spread, fee, now).is_ok(),
    ensures
        ({
            let (q, o) = swap_spec(p, offer, ask_info, belief_price, max_spread, fee, now)->Ok_0;
            q.reserve0 * q.reserve1 >= p.reserve0 * p.reserve1 + (o.commission_amount
                - o.fee_share_amount - o.maker_fee_amount)
        }),
{
    let (q, o) = swap_spec(p, offer, ask_info, belief_price, max_spread, fee, now)->Ok_0;
    let offer_is0 = same_asset(offer.info, p.asset0);
    let (op, ap) = if offer_is0 {
        (p.reserve0 as int, p.reserve1 as int)
    } else {
        (p.reserve1 as int, p.reserve0 as int)
    };
    let amt = offer.amount as int;
    lemma_gross_bounds(op, ap, amt);
    let g = gross_return(op, ap, amt);
    let c = o.commission_amount as int;
    let fs = o.fee_share_amount as int;
    let mf = o.maker_fee_amount as int;
    let share_bps = fee_share_bps(p.fee_share);
    match share_bps {
        Some(b) => lemma_mul_div_at_most(c, b as int, BPS_DENOMINATOR as int),
        None => {},
    }
    lemma_mul_div_at_most(c - fs, fee.maker_fee_bps as int, BPS_DENOMINATOR as int);
    lemma_mul_div_at_most(g, fee.total_fee_bps as int, BPS_DENOMINATOR as int);
    assert(c == bps_of(g, fee.total_fee_bps as int));
    assert(o.return_amount == g - c);
    assert(fs == fee_share_part(c, share_bps));
    assert(mf == maker_fee_part(c, share_bps, fee.maker_fee_bps, fee.fee_address.is_some()));
    assert(0 <= fs <= c);
    assert(0 <= mf <= c - fs);
    let kept = c - fs - mf;
    let new_ask = ap - g + kept;
    assert(new_ask == ap - o.return_amount - fs - mf);
    assert((op + amt) * new_ask >= op * ap + kept) by (nonlinear_arith)
        requires
            g * (op + amt) <= ap * amt,
            new_ask == ap - g + kept,
            kept >= 0,
            op > 0,
            amt >= 0,
    ;
    assert(kept == o.commission_amount - o.fee_share_amount - o.maker_fee_amount);
    if offer_is0 {
        assert(q.reserve0 == op + amt && q.reserve1 == new_ask);
        assert(q.reserve0 * q.reserve1 == (op + amt) * new_ask);
        assert(p.reserve0 * p.reserve1 == op * ap);
    } else {
        assert(q.reserve1 == op + amt && q.reserve0 == new_ask);
        assert(q.reserve0 * q.reserve1 == (op + amt) * new_ask) by (nonlinear_arith)
            requires
                q.reserve1 == op + amt,
                q.reserve0 == new_ask,
        ;
        assert(p.reserve0 * p.reserve1 == op * ap) by (nonlinear_arith)
            requires
                p.reserve0 == ap,
                p.reserve1 == op,
        ;
    }
    assert(q.reserve0 * q.reserve1 >= p.reserve0 * p.reserve1 + kept);
}

/// A trader is never paid more than the offer is worth at the pool's price before the
/// swap; the spread is that shortfall and is never negative.
pub proof fn lemma_swap_pays_at_most_linear(
    p: Pool,
    offer: Asset,
    ask_info: Option<AssetInfo>,
    belief_price: Option<Decimal>,
    max_spread: Option<Decimal>,
    fee: FeeInfo,
    now: u64,
)
    requires
        p.wf(),
        fee.wf(),
        swap_spec(p, offer, ask_info, belief_price, max_spread, fee, now).is_ok(),
    ensures
        ({
            let (q, o) = swap_spec(p, offer, ask_info, belief_price, max_spread, fee, now)->Ok_0;
            let (op, ap) = if o.ask_is_asset1 {
                (p.reserve0 as int, p.reserve1 as int)
            } else {
                (p.reserve1 as int, p.reserve0 as int)
            };
            &&& o.return_amount <= linear_return(op, ap, offer.amount as int)
            &&& o.return_amount + o.commission_amount + o.spread_amount == linear_return(
                op,
                ap,
                offer.amount as int,
            )
        }),
{
    let offer_is0 = same_asset(offer.info, p.asset0);
    let (op, ap) = if offer_is0 {
        (p.reserve0 as int, p.reserve1 as int)
    } else {
        (p.reserve1 as int, p.reserve0 as int)
    };
    lemma_gross_bounds(op, ap, offer.amount as int);
    lemma_mul_div_at_most(
        gross_return(op, ap, offer.amount as int),
        fee.total_fee_bps as int,
        BPS_DENOMINATOR as int,
    );
}

/// Disabling the fee share right after enabling it leaves no fee share.
pub proof fn lemma_disable_after_enable(
    p: Pool,
    sender: Seq<char>,
    owner: Seq<char>,
    fee_share_bps: u16,
    fee_share_address: String,
)
    requires
        update_config_spec(
            p,
            sender,
            owner,
            UpdateParams::EnableFeeShare { fee_share_bps, fee_share_address },
        ).is_ok(),
    ensures
        update_config_spec(
            p,
            sender,
            owner,
            UpdateParams::EnableFeeShare { fee_share_bps, fee_share_address },
        )->Ok_0.fee_share matches Some(f) && f.bps == fee_share_bps,
        ({
            let q = update_config_spec(
                p,
                sender,
                owner,
                UpdateParams::EnableFeeShare { fee_share_bps, fee_share_address },
            )->Ok_0;
            update_config_spec(q, sender, owner, UpdateParams::DisableFeeShare) == Ok::<
                Pool,
                PoolError,
            >(Pool { fee_share: None, ..p })
        }),
{
}

} // verus!
