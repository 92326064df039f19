use astroport::asset::{Asset, AssetInfo, Coin};
use astroport::error::PoolError;
use astroport::fixed_point::{DecMul, Decimal, Decimal256, U256};
use astroport::oracle::TWAP_PRECISION;
use astroport::pool::{FeeInfo, FeeShareConfig, Pool, UpdateParams, MAX_FEE_SHARE_BPS};

const NOW: u64 = 1_571_797_419;

fn native(denom: &str) -> AssetInfo {
    AssetInfo::NativeToken {
        denom: denom.to_string(),
    }
}

fn token(addr: &str) -> AssetInfo {
    AssetInfo::Token {
        contract_addr: addr.to_string(),
    }
}

fn asset(info: AssetInfo, amount: u128) -> Asset {
    Asset { info, amount }
}

fn coin(denom: &str, amount: u128) -> Coin {
    Coin {
        denom: denom.to_string(),
        amount,
    }
}

fn no_fees() -> FeeInfo {
    FeeInfo {
        total_fee_bps: 0,
        maker_fee_bps: 0,
        fee_address: None,
    }
}

fn native_pair() -> Pool {
    Pool::instantiate(
        vec![native("uusd"), native("uluna")],
        "lp_token".to_string(),
        "factory".to_string(),
    )
    .unwrap()
}

fn provide_liquidity_msg(uusd_amount: u128, uluna_amount: u128) -> (Vec<Asset>, Vec<Coin>) {
    (
        vec![
            asset(native("uusd"), uusd_amount),
            asset(native("uluna"), uluna_amount),
        ],
        vec![coin("uluna", uluna_amount), coin("uusd", uusd_amount)],
    )
}

#[test]
fn test_provide_and_withdraw_liquidity() {
    let mut pool = native_pair();
    assert_eq!(pool.asset0, native("uusd"));
    assert_eq!(pool.asset1, native("uluna"));

    let (assets, funds) = provide_liquidity_msg(100_000_000, 100_000_000);
    let res = pool
        .provide_liquidity(&assets, &funds, None, None, NOW)
        .unwrap();
    assert_eq!(res.share, 99_999_000);
    assert_eq!(res.locked, 1000);

    // A deposit on behalf of another receiver mints in the same way.
    let (assets, funds) = provide_liquidity_msg(100, 100);
    let res = pool
        .provide_liquidity(&assets, &funds, None, None, NOW)
        .unwrap();
    assert_eq!(res.share, 100);
    assert_eq!(res.locked, 0);

    // Asking for twice what a deposit would mint fails.
    let (assets, _) = provide_liquidity_msg(100_000_000, 100_000_000);
    let min_lp_amount_to_receive = pool.simulate_provide(&assets, None).unwrap();
    let double_amount_to_receive = min_lp_amount_to_receive * 2;
    let (assets, funds) = provide_liquidity_msg(100, 100);
    let err = pool
        .provide_liquidity(&assets, &funds, None, Some(double_amount_to_receive), NOW)
        .unwrap_err();
    assert_eq!(
        err,
        PoolError::MinLpToReceiveNotSatisfied {
            share: 100,
            min: double_amount_to_receive
        }
    );

    // Shares sent back by a ledger other than the pool's are refused.
    let err = pool
        .withdraw_liquidity(&"foo_token".to_string(), 50, None, NOW)
        .unwrap_err();
    assert_eq!(err, PoolError::Unauthorized);
    // Through the pool's own share ledger the withdrawal goes through.
    pool.withdraw_liquidity(&"lp_token".to_string(), 50, None, NOW)
        .unwrap();

    let err = pool
        .swap(
            &asset(native("cny"), 10),
            None,
            None,
            None,
            &no_fees(),
            NOW,
        )
        .unwrap_err();
    assert_eq!(err, PoolError::AssetMismatch);

    assert_eq!(pool.oracle.block_time_last, NOW);
    assert_eq!(pool.fee_share, None);
    assert_eq!(pool.factory_addr, "factory".to_string());
}

#[test]
fn test_compatibility_of_tokens_with_different_precision() {
    let x_amount: u128 = 1000000_00000;
    let y_amount: u128 = 1000000_0000000;
    let x_offer: u128 = 1_00000;
    let y_expected_return: u128 = 1_0000000;

    let mut pool = Pool::instantiate(
        vec![token("xtoken"), token("ytoken")],
        "lp_token".to_string(),
        "factory".to_string(),
    )
    .unwrap();

    pool.authorize_swap_hook(&"xtoken".to_string()).unwrap();
    let err = pool
        .swap(&asset(token("xtoken"), x_offer), None, None, None, &no_fees(), NOW)
        .unwrap_err();
    assert_eq!(err, PoolError::OneOfPoolsIsEmpty);

    pool.provide_liquidity(
        &vec![asset(token("xtoken"), x_amount), asset(token("ytoken"), y_amount)],
        &vec![],
        None,
        None,
        NOW,
    )
    .unwrap();

    let res = pool
        .swap(&asset(token("xtoken"), x_offer), None, None, None, &no_fees(), NOW)
        .unwrap();

    let acceptable_spread_amount: u128 = 10;
    assert_eq!(res.return_amount, y_expected_return - acceptable_spread_amount);
}

#[test]
fn test_if_twap_is_calculated_correctly_when_pool_idles() {
    let mut pool = native_pair();

    let (assets, funds) = provide_liquidity_msg(1000000_000000, 1000000_000000);
    pool.provide_liquidity(&assets, &funds, Some(Decimal::one()), None, NOW)
        .unwrap();

    const BLOCKS_PER_DAY: u64 = 17280;
    const ELAPSED_SECONDS: u64 = BLOCKS_PER_DAY * 5;

    let t1 = NOW + ELAPSED_SECONDS;
    let (assets, funds) = provide_liquidity_msg(2000000_000000, 1000000_000000);
    pool.provide_liquidity(&assets, &funds, Some(Decimal::percent(50)), None, t1)
        .unwrap();

    let cpr_old = pool.cumulative_prices(t1).unwrap();
    let t2 = t1 + ELAPSED_SECONDS;
    let cpr_new = pool.cumulative_prices(t2).unwrap();

    let twap0 = cpr_new.0 - cpr_old.0;
    let twap1 = cpr_new.1 - cpr_old.1;

    let price_precision = 10u128.pow(TWAP_PRECISION);
    assert_eq!(twap0 / price_precision, 57600);
    assert_eq!(twap1 / price_precision, 129600);
}

#[test]
fn create_pair_with_same_assets() {
    let resp = Pool::instantiate(
        vec![native("uusd"), native("uusd")],
        "lp_token".to_string(),
        "factory".to_string(),
    )
    .unwrap_err();
    assert_eq!(resp, PoolError::DoublingAssets);
}

#[test]
fn wrong_number_of_assets() {
    let err = Pool::instantiate(
        vec![native("uusd")],
        "lp_token".to_string(),
        "factory".to_string(),
    )
    .unwrap_err();
    assert_eq!(err, PoolError::InvalidNumberOfAssets);

    let err = Pool::instantiate(
        vec![native("uusd"), native("dust"), native("stone")],
        "lp_token".to_string(),
        "factory".to_string(),
    )
    .unwrap_err();
    assert_eq!(err, PoolError::InvalidNumberOfAssets);
}

#[test]
fn update_pair_config() {
    let pool = native_pair();
    assert_eq!(pool.oracle.block_time_last, 0);
    assert_eq!(pool.fee_share, None);
    assert_eq!(pool.factory_addr, "factory".to_string());
}

#[test]
fn enable_disable_fee_sharing() {
    let mut pool = native_pair();
    let owner = "owner".to_string();
    assert_eq!(pool.fee_share, None);

    let err = pool
        .update_config(
            &owner,
            &owner,
            UpdateParams::EnableFeeShare {
                fee_share_bps: MAX_FEE_SHARE_BPS + 1,
                fee_share_address: "contract".to_string(),
            },
        )
        .unwrap_err();
    assert_eq!(err, PoolError::FeeShareOutOfBounds);

    let err = pool
        .update_config(
            &owner,
            &owner,
            UpdateParams::EnableFeeShare {
                fee_share_bps: 0,
                fee_share_address: "contract".to_string(),
            },
        )
        .unwrap_err();
    assert_eq!(err, PoolError::FeeShareOutOfBounds);

    let fee_share_bps = 500;
    pool.update_config(
        &owner,
        &owner,
        UpdateParams::EnableFeeShare {
            fee_share_bps,
            fee_share_address: "contract".to_string(),
        },
    )
    .unwrap();
    assert_eq!(
        pool.fee_share,
        Some(FeeShareConfig {
            bps: fee_share_bps,
            recipient: "contract".to_string(),
        })
    );

    pool.update_config(&owner, &owner, UpdateParams::DisableFeeShare)
        .unwrap();
    assert_eq!(pool.fee_share, None);
}

#[test]
fn test_imbalanced_withdraw_is_disabled() {
    let mut pool = native_pair();
    assert_eq!(pool.asset0, native("uusd"));
    assert_eq!(pool.asset1, native("uluna"));

    let (assets, funds) = provide_liquidity_msg(100_000_000, 100_000_000);
    pool.provide_liquidity(&assets, &funds, None, None, NOW)
        .unwrap();

    let (assets, funds) = provide_liquidity_msg(100, 100);
    pool.provide_liquidity(&assets, &funds, None, None, NOW)
        .unwrap();
}

fn test_fee_share(
    maker_fee_bps: u16,
    total_fee_bps: u16,
    fee_share_bps: u16,
    expected_fee_share: u128,
    expected_maker_fee: u128,
) {
    let x_amount: u128 = 1_000_000_000000;
    let y_amount: u128 = 1_000_000_000000;
    let x_offer: u128 = 1_000000;

    let mut pool = Pool::instantiate(
        vec![token("xtoken"), token("ytoken")],
        "lp_token".to_string(),
        "factory".to_string(),
    )
    .unwrap();
    pool.provide_liquidity(
        &vec![asset(token("xtoken"), x_amount), asset(token("ytoken"), y_amount)],
        &vec![],
        None,
        None,
        NOW,
    )
    .unwrap();

    let owner = "owner".to_string();
    pool.update_config(
        &owner,
        &owner,
        UpdateParams::EnableFeeShare {
            fee_share_bps,
            fee_share_address: "fee_share".to_string(),
        },
    )
    .unwrap();

    let fee = FeeInfo {
        total_fee_bps,
        maker_fee_bps,
        fee_address: Some("maker".to_string()),
    };
    let res = pool
        .swap(&asset(token("xtoken"), x_offer), None, None, None, &fee, NOW)
        .unwrap();

    let y_expected_return =
        x_offer - x_offer.dec_mul(Decimal::from_ratio(total_fee_bps as u128, 10000));
    assert_eq!(res.return_amount, y_expected_return);

    let acceptable_spread_amount: u128 = 1;
    assert_eq!(
        res.fee_share_amount,
        expected_fee_share - acceptable_spread_amount
    );
    assert_eq!(res.maker_fee_amount, expected_maker_fee);

    assert_eq!(pool.reserve0, x_amount + x_offer);
    assert_eq!(
        pool.reserve1,
        y_amount - y_expected_return - expected_maker_fee - expected_fee_share
            + acceptable_spread_amount
    );
}

#[test]
fn check_correct_fee_share() {
    test_fee_share(3333u16, 30u16, 1000u16, 300, 899);
    test_fee_share(5000u16, 30u16, 500u16, 150, 1425);
    test_fee_share(3333u16, 10u16, 500u16, 50, 316);
}

#[test]
fn test_provide_liquidity_without_funds() {
    let mut pool = native_pair();
    assert_eq!(pool.asset0, native("uusd"));
    assert_eq!(pool.asset1, native("uluna"));

    let (assets, funds) = provide_liquidity_msg(100_000_000, 100_000_000);
    pool.provide_liquidity(&assets, &funds, None, None, NOW)
        .unwrap();
    pool.provide_liquidity(&assets, &funds, None, None, NOW)
        .unwrap();

    let err = pool
        .provide_liquidity(&assets, &vec![], None, None, NOW)
        .unwrap_err();
    assert_eq!(
        err,
        PoolError::NativeTokenBalanceMismatch {
            denom: "uusd".to_string(),
            argument: 100_000_000,
            transferred: 0,
        }
    );
}

#[test]
fn test_dec_mul() {
    let a = u128::MAX;
    let b = Decimal::from_ratio(1, 2);
    assert_eq!(a.dec_mul(b), u128::MAX / 2);

    let a = U256::max();
    let b = Decimal256::from_ratio(1, 2);

    assert_eq!(
        a.dec_mul(b),
        U256 {
            hi: u128::MAX / 2,
            lo: u128::MAX
        }
    );
}
