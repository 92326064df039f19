use astroport::asset::{Asset, AssetInfo, Coin};
use astroport::error::PoolError;
use astroport::fixed_point::{
    multiply_ratio, pow10_exec, to_decimal, to_decimal_at, to_uint, DecMul, Decimal, Decimal256,
    U256,
};
use astroport::mock_api::{
    canonicalize_lowered, digit_sum, riffle_shuffle, AddrError, CustomMockApi, LegacyMockApi, CANONICAL_LENGTH,
};
use astroport::pool::{FeeInfo, Pool, UpdateParams};
use astroport::swap::split_commission;

const T0: u64 = 1_000_000;

fn native(denom: &str) -> AssetInfo {
    AssetInfo::NativeToken {
        denom: denom.to_string(),
    }
}

fn token(addr: &str) -> AssetInfo {
    AssetInfo::Token {
        contract_addr: addr.to_string(),
    }
}

fn token_pool(x: u128, y: u128) -> Pool {
    let mut pool = Pool::instantiate(
        vec![token("xtoken"), token("ytoken")],
        "lp".to_string(),
        "factory".to_string(),
    )
    .unwrap();
    pool.provide_liquidity(
        &vec![
            Asset { info: token("xtoken"), amount: x },
            Asset { info: token("ytoken"), amount: y },
        ],
        &vec![],
        None,
        None,
        T0,
    )
    .unwrap();
    pool
}

fn deposit(x: u128, y: u128) -> Vec<Asset> {
    vec![
        Asset { info: token("xtoken"), amount: x },
        Asset { info: token("ytoken"), amount: y },
    ]
}

fn fees(total: u16, maker: u16, treasury: bool) -> FeeInfo {
    FeeInfo {
        total_fee_bps: total,
        maker_fee_bps: maker,
        fee_address: if treasury { Some("maker".to_string()) } else { None },
    }
}

#[test]
fn provide_then_withdraw_restores_supply_and_ratio() {
    let mut pool = Pool::instantiate(
        vec![token("xtoken"), token("ytoken")],
        "lp".to_string(),
        "factory".to_string(),
    )
    .unwrap();
    let o = pool
        .provide_liquidity(&deposit(1_000_000, 4_000_000), &vec![], None, None, T0)
        .unwrap();
    assert_eq!(o.share, 1_999_000);
    assert_eq!(o.locked, 1_000);
    assert_eq!(pool.total_supply, 2_000_000);

    let w = pool
        .withdraw_liquidity(&"lp".to_string(), o.share, None, T0 + 10)
        .unwrap();
    assert_eq!(pool.total_supply, 1_000);
    assert_eq!(w.refund0, 999_500);
    assert_eq!(w.refund1, 3_998_000);
    assert_eq!(w.refund0 * 4, w.refund1);
    assert_eq!((pool.reserve0, pool.reserve1), (500, 2_000));
}

#[test]
fn later_deposit_mints_smaller_proportional_claim() {
    let mut pool = token_pool(1_000_000, 4_000_000);
    let o = pool
        .provide_liquidity(&deposit(1_000, 8_000), &vec![], None, None, T0)
        .unwrap();
    // min(1000 * 2e6 / 1e6, 8000 * 2e6 / 4e6)
    assert_eq!(o.share, 2_000);
    assert_eq!(o.locked, 0);
    assert_eq!(pool.total_supply, 2_002_000);
}

#[test]
fn first_deposit_share_is_rounded_square_root() {
    let mut pool = Pool::instantiate(
        vec![token("xtoken"), token("ytoken")],
        "lp".to_string(),
        "factory".to_string(),
    )
    .unwrap();
    // floor(sqrt(2 * 10^6)) = 1414
    let o = pool
        .provide_liquidity(&deposit(2, 1_000_000), &vec![], None, None, T0)
        .unwrap();
    assert_eq!(o.share, 414);
}

#[test]
fn swap_grows_the_reserve_product() {
    let mut pool = token_pool(1_000_000, 1_000_000);
    let before = pool.reserve0 * pool.reserve1;
    let o = pool
        .swap(
            &Asset { info: token("xtoken"), amount: 10_000 },
            None,
            None,
            Some(Decimal::percent(2)),
            &fees(30, 0, false),
            T0,
        )
        .unwrap();
    let kept = o.commission_amount - o.fee_share_amount - o.maker_fee_amount;
    assert_eq!(o.return_amount + o.commission_amount, 9_900);
    assert_eq!(o.commission_amount, 29);
    assert_eq!(kept, 29);
    assert_eq!((pool.reserve0, pool.reserve1), (1_010_000, 990_129));
    assert!(pool.reserve0 * pool.reserve1 >= before + kept);
}

#[test]
fn swap_pays_no_more_than_the_linear_price() {
    let mut pool = token_pool(3_000_000, 1_000_000);
    let o = pool
        .swap(
            &Asset { info: token("ytoken"), amount: 1_000 },
            Some(token("xtoken")),
            None,
            None,
            &fees(0, 0, false),
            T0,
        )
        .unwrap();
    assert!(!o.ask_is_asset1);
    // linear: 1000 * 3e6 / 1e6 = 3000; curve: floor(3e6 * 1000 / 1_001_000) = 2997
    assert_eq!(o.return_amount, 2_997);
    assert_eq!(o.spread_amount, 3);
    assert!(o.return_amount <= 3_000);
}

#[test]
fn commission_split_adds_up() {
    let split = split_commission(2_999, Some(1_000), 3_333, true);
    assert_eq!(split.fee_share_amount, 299);
    assert_eq!(split.maker_fee_amount, 899);
    assert_eq!(split.lp_retained_amount, 1_801);
    assert_eq!(
        split.fee_share_amount + split.maker_fee_amount + split.lp_retained_amount,
        2_999
    );
    let no_treasury = split_commission(2_999, None, 3_333, false);
    assert_eq!(no_treasury.fee_share_amount, 0);
    assert_eq!(no_treasury.maker_fee_amount, 0);
    assert_eq!(no_treasury.lp_retained_amount, 2_999);
}

#[test]
fn cumulative_price_difference_is_elapsed_price() {
    let pool = token_pool(3_000_000, 2_000_000);
    let first = pool.cumulative_prices(T0).unwrap();
    assert_eq!(first, (0, 0));
    let a = pool.cumulative_prices(T0 + 50).unwrap();
    let b = pool.cumulative_prices(T0 + 100).unwrap();
    // 100 s at 2/3 and at 3/2, six decimals
    assert_eq!(b.0 - first.0, 66_666_666);
    assert_eq!(b.1 - first.1, 150_000_000);
    assert_eq!(pool.cumulative_prices(T0 + 50).unwrap(), a);
    assert_eq!(pool.oracle.block_time_last, T0);
}

#[test]
fn oracle_moves_only_on_pre_operation_reserves() {
    let mut pool = token_pool(1_000_000, 1_000_000);
    pool.provide_liquidity(&deposit(1_000_000, 1_000_000), &vec![], None, None, T0 + 10)
        .unwrap();
    assert_eq!(pool.oracle.block_time_last, T0 + 10);
    assert_eq!(pool.oracle.price0_cumulative, 10_000_000);
    assert_eq!(pool.oracle.price1_cumulative, 10_000_000);
}

#[test]
fn deposit_errors() {
    let mut pool = token_pool(1_000_000, 1_000_000);
    assert_eq!(
        pool.provide_liquidity(&deposit(0, 10), &vec![], None, None, T0),
        Err(PoolError::InvalidZeroAmount)
    );
    assert_eq!(
        pool.provide_liquidity(
            &vec![
                Asset { info: token("xtoken"), amount: 1 },
                Asset { info: token("xtoken"), amount: 1 },
            ],
            &vec![],
            None,
            None,
            T0
        ),
        Err(PoolError::AssetMismatch)
    );
    let mut three = deposit(1, 1);
    three.push(Asset { info: native("uusd"), amount: 1 });
    assert_eq!(
        pool.provide_liquidity(&three, &vec![], None, None, T0),
        Err(PoolError::InvalidNumberOfAssets)
    );
    assert_eq!(
        pool.provide_liquidity(&deposit(2_000, 1_000), &vec![], Some(Decimal::percent(10)), None, T0),
        Err(PoolError::MaxSlippageAssertion)
    );
    assert_eq!(
        pool.provide_liquidity(&deposit(1_000, 1_000), &vec![], Some(Decimal::percent(60)), None, T0),
        Err(PoolError::AllowedSpreadAssertion)
    );
    assert_eq!(
        pool.provide_liquidity(&deposit(u128::MAX, u128::MAX), &vec![], None, None, T0),
        Err(PoolError::Overflow)
    );
    assert_eq!(pool.reserve0, 1_000_000);
    assert_eq!(pool.total_supply, 1_000_000);

    let mut fresh = Pool::instantiate(
        vec![token("xtoken"), token("ytoken")],
        "lp".to_string(),
        "factory".to_string(),
    )
    .unwrap();
    assert_eq!(
        fresh.provide_liquidity(&deposit(10, 10), &vec![], None, None, T0),
        Err(PoolError::MinimumLiquidityAmount)
    );
}

#[test]
fn native_deposit_must_match_attached_funds() {
    let mut pool = Pool::instantiate(
        vec![native("uusd"), native("uluna")],
        "lp".to_string(),
        "factory".to_string(),
    )
    .unwrap();
    let assets = vec![
        Asset { info: native("uluna"), amount: 5_000 },
        Asset { info: native("uusd"), amount: 7_000 },
    ];
    let err = pool
        .provide_liquidity(
            &assets,
            &vec![Coin { denom: "uluna".to_string(), amount: 4_999 }],
            None,
            None,
            T0,
        )
        .unwrap_err();
    assert_eq!(
        err,
        PoolError::NativeTokenBalanceMismatch {
            denom: "uluna".to_string(),
            argument: 5_000,
            transferred: 4_999,
        }
    );
    let funds = vec![
        Coin { denom: "uusd".to_string(), amount: 7_000 },
        Coin { denom: "uluna".to_string(), amount: 5_000 },
    ];
    pool.provide_liquidity(&assets, &funds, None, None, T0).unwrap();
    assert_eq!((pool.reserve0, pool.reserve1), (7_000, 5_000));
}

#[test]
fn withdraw_errors() {
    let mut pool = token_pool(1_000_000, 1_000_000);
    let lp = "lp".to_string();
    assert_eq!(
        pool.withdraw_liquidity(&lp, 0, None, T0),
        Err(PoolError::InvalidZeroAmount)
    );
    assert_eq!(
        pool.withdraw_liquidity(&lp, 999_001, None, T0),
        Err(PoolError::InsufficientShares)
    );
    assert_eq!(
        pool.withdraw_liquidity(&lp, 1_000, Some(vec![]), T0),
        Err(PoolError::WrongAssetLength)
    );
    assert_eq!(
        pool.withdraw_liquidity(
            &lp,
            1_000,
            Some(vec![
                Asset { info: token("ytoken"), amount: 1_000 },
                Asset { info: token("xtoken"), amount: 1_001 },
            ]),
            T0
        ),
        Err(PoolError::WithdrawSlippageViolation {
            received: 1_000,
            expected: 1_001
        })
    );
    let w = pool
        .withdraw_liquidity(
            &lp,
            999_000,
            Some(vec![
                Asset { info: token("ytoken"), amount: 999_000 },
                Asset { info: token("xtoken"), amount: 999_000 },
            ]),
            T0,
        )
        .unwrap();
    assert_eq!((w.refund0, w.refund1), (999_000, 999_000));
    assert_eq!(pool.total_supply, 1_000);
}

#[test]
fn swap_errors() {
    let mut pool = token_pool(1_000_000, 1_000_000);
    let offer = Asset { info: token("xtoken"), amount: 1_000 };
    assert_eq!(
        pool.swap(&Asset { info: token("xtoken"), amount: 0 }, None, None, None, &fees(30, 0, false), T0),
        Err(PoolError::ZeroSwapAmount)
    );
    assert_eq!(
        pool.swap(&offer, Some(token("xtoken")), None, None, &fees(30, 0, false), T0),
        Err(PoolError::AssetMismatch)
    );
    assert_eq!(
        pool.swap(&offer, None, Some(Decimal::zero()), None, &fees(30, 0, false), T0),
        Err(PoolError::ZeroBeliefPrice)
    );
    // Believing one x buys two y, a return near one y is far beyond a 1% spread.
    assert_eq!(
        pool.swap(&offer, None, Some(Decimal::percent(50)), Some(Decimal::percent(1)), &fees(30, 0, false), T0),
        Err(PoolError::MaxSpreadAssertion)
    );
    assert_eq!(
        pool.swap(&offer, None, None, Some(Decimal::percent(51)), &fees(30, 0, false), T0),
        Err(PoolError::AllowedSpreadAssertion)
    );
    // Half the pool in one swap is far beyond the default 0.5% spread.
    assert_eq!(
        pool.swap(&Asset { info: token("xtoken"), amount: 500_000 }, None, None, None, &fees(30, 0, false), T0),
        Err(PoolError::MaxSpreadAssertion)
    );
    assert_eq!((pool.reserve0, pool.reserve1), (1_000_000, 1_000_000));
    assert_eq!(pool.authorize_swap_hook(&"foo".to_string()), Err(PoolError::Unauthorized));
    assert_eq!(pool.authorize_swap_hook(&"ytoken".to_string()), Ok(()));
    let o = pool
        .swap(&offer, None, Some(Decimal::one()), None, &fees(30, 0, false), T0)
        .unwrap();
    // floor(1e6 * 1000 / 1_001_000) = 999, less floor(999 * 0.3%) = 2
    assert_eq!(o.return_amount, 997);
}

#[test]
fn simulations_leave_the_pool_unchanged() {
    let pool = token_pool(1_000_000, 1_000_000);
    let s = pool
        .simulate_swap(&Asset { info: token("xtoken"), amount: 10_000 }, &fees(30, 0, false))
        .unwrap();
    assert_eq!(s.return_amount, 9_871);
    assert_eq!(s.commission_amount, 29);
    assert_eq!(s.spread_amount, 100);
    assert_eq!(pool.simulate_provide(&deposit(1_000, 1_000), None), Ok(1_000));
    let r = pool
        .reverse_simulate_swap(&Asset { info: token("ytoken"), amount: 9_871 }, &fees(30, 0, false))
        .unwrap();
    // before commission: floor(9871 / 0.997) = 9900; offer: floor(1e12 / 990_100) - 1e6
    assert_eq!(r.offer_amount, 9_998);
    assert_eq!(r.spread_amount, 98);
    assert_eq!(r.commission_amount, 29);
    assert_eq!(
        pool.reverse_simulate_swap(&Asset { info: token("ytoken"), amount: 1_000_000 }, &fees(30, 0, false)),
        Err(PoolError::InsufficientLiquidity)
    );
    assert_eq!(
        pool.reverse_simulate_swap(&Asset { info: native("uusd"), amount: 1 }, &fees(30, 0, false)),
        Err(PoolError::AssetMismatch)
    );
    assert_eq!((pool.reserve0, pool.reserve1), (1_000_000, 1_000_000));
}

#[test]
fn only_the_owner_updates_the_fee_share() {
    let mut pool = token_pool(1_000, 1_000_000);
    assert_eq!(
        pool.update_config(
            &"mallory".to_string(),
            &"owner".to_string(),
            UpdateParams::DisableFeeShare
        ),
        Err(PoolError::Unauthorized)
    );
    let owner = "owner".to_string();
    pool.update_config(&owner, &owner, UpdateParams::DisableFeeShare).unwrap();
    pool.update_config(&owner, &owner, UpdateParams::DisableFeeShare).unwrap();
    assert_eq!(pool.fee_share, None);
}

#[test]
fn multiply_ratio_is_exact_at_double_width() {
    assert_eq!(multiply_ratio(u128::MAX, 3, 4), Some(u128::MAX / 4 * 3 + 2));
    assert_eq!(multiply_ratio(u128::MAX, 2, 1), None);
    assert_eq!(multiply_ratio(5, 99, 100), Some(4));
    assert_eq!(Decimal::from_ratio(1, 3).atomics, 333_333_333_333_333_333);
    assert_eq!(Decimal::checked_from_ratio(u128::MAX, 1), None);
    assert_eq!(1_000u128.dec_mul(Decimal::percent(30)), 300);
    assert_eq!(Decimal::percent(50).inv(), Some(Decimal::raw(2_000_000_000_000_000_000)));
    assert_eq!(Decimal::permille(5).atomics, 5_000_000_000_000_000);
}

#[test]
fn riffle_and_digit_sum() {
    assert_eq!(riffle_shuffle(&[1, 2, 3, 4, 5, 6]), vec![4, 1, 5, 2, 6, 3]);
    assert_eq!(riffle_shuffle::<u8>(&[]), Vec::<u8>::new());
    assert_eq!(digit_sum(&[1, 2, 250]), 253);
    assert_eq!(digit_sum(&[]), 0);
}

#[test]
fn address_codec_round_trips() {
    let api = CustomMockApi;
    let canonical = api.addr_canonicalize("Alice123").unwrap();
    assert_eq!(canonical.len(), CANONICAL_LENGTH);
    let mut padded = b"alice123".to_vec();
    padded.resize(CANONICAL_LENGTH, 0);
    assert_ne!(canonical, padded);
    assert_eq!(api.addr_humanize(&canonical), Ok("alice123".to_string()));
    assert_eq!(api.addr_validate("alice123"), Ok("alice123".to_string()));
    assert_eq!(api.addr_validate("Alice123"), Err(AddrError::NotNormalized));
    assert_eq!(api.addr_canonicalize("ab"), Err(AddrError::TooShort));
    assert_eq!(
        api.addr_canonicalize(&"a".repeat(CANONICAL_LENGTH + 1)),
        Err(AddrError::TooLong)
    );
    assert_eq!(api.addr_humanize(&[1, 2, 3]), Err(AddrError::WrongCanonicalLength));

    let legacy = LegacyMockApi;
    let long = "b".repeat(CANONICAL_LENGTH);
    assert_eq!(legacy.addr_validate(&long), Ok(long.clone()));
}

#[test]
fn precision_conversions() {
    assert_eq!(pow10_exec(0), 1);
    assert_eq!(pow10_exec(38), 10u128.pow(38));
    // 1_234_567 with six places is 1.234567
    assert_eq!(
        to_decimal_at(1_234_567, 6).atomics,
        U256::from_u128(1_234_567_000_000_000_000)
    );
    // u128::MAX whole units: u128::MAX * 10^18 atomics, beyond 128 bits
    let big = to_decimal_at(u128::MAX, 0);
    assert_eq!(
        big.atomics,
        U256 {
            hi: 999_999_999_999_999_999,
            lo: u128::MAX - 999_999_999_999_999_999
        }
    );
    assert_eq!(to_uint(big, 0), Ok(u128::MAX));
    assert_eq!(to_uint(big, 1), Err(PoolError::Overflow));
    assert_eq!(to_decimal_at(7, 38).atomics, U256::zero());
    assert_eq!(to_decimal(5), Decimal::raw(5_000_000_000_000_000_000));
    // 1.2345678 at six places, rounded down
    let d = Decimal256::raw(U256::from_u128(1_234_567_800_000_000_000));
    assert_eq!(to_uint(d, 6), Ok(1_234_567));
    // Precision beyond 38 places where the result still fits: 10^-17 at 50 places
    assert_eq!(
        to_uint(Decimal256::raw(U256::from_u128(10)), 50),
        Ok(10u128.pow(33))
    );
    assert_eq!(to_uint(Decimal256::from_ratio(1, 2), 0), Ok(0));
}

#[test]
fn refused_addresses_get_their_own_error() {
    let api = CustomMockApi;
    assert_eq!(api.addr_validate("ab"), Err(AddrError::TooShort));
    assert_eq!(
        api.addr_validate(&"a".repeat(CANONICAL_LENGTH + 1)),
        Err(AddrError::TooLong)
    );
    assert_eq!(api.addr_validate("Bob123"), Err(AddrError::NotNormalized));
    assert_eq!(
        LegacyMockApi.addr_validate("CAROL"),
        Err(AddrError::NotNormalized)
    );
    assert_eq!(
        canonicalize_lowered("alice123"),
        api.addr_canonicalize("ALICE123").unwrap()
    );
    assert_ne!(canonicalize_lowered("alice123"), canonicalize_lowered("ALICE123"));
    // Bytes that decode to no UTF-8: a lone continuation byte.
    let mut bad = vec![0u8; CANONICAL_LENGTH];
    bad[0] = 0x80;
    assert_eq!(api.addr_humanize(&bad), Err(AddrError::InvalidUtf8));
}

#[test]
fn oracle_overflow_is_reported_as_overflow() {
    let pool = token_pool(1_001, u128::MAX / 2);
    assert_eq!(pool.cumulative_prices(u64::MAX), Err(PoolError::Overflow));
}

#[test]
fn codec_gives_back_a_lowered_address() {
    let api = CustomMockApi;
    for addr in ["abc", "terra1qwerty", "żółw-42"] {
        let canonical = canonicalize_lowered(addr);
        assert_eq!(canonical.len(), CANONICAL_LENGTH);
        assert_eq!(api.addr_humanize(&canonical), Ok(addr.to_string()));
    }
}
