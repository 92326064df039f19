//! Asset identifiers, amounts of an asset, and native funds attached to a call.

use crate::error::PoolError;
use vstd::prelude::*;

verus! {

/// What identifies an asset: a native currency by its denomination, or a token contract
/// by its address.
#[derive(Clone, Debug, PartialEq, Eq)]
pub enum AssetInfo {
    NativeToken { denom: String },
    Token { contract_addr: String },
}

/// An amount of an asset.
#[derive(Clone, Debug, PartialEq, Eq)]
pub struct Asset {
    pub info: AssetInfo,
    pub amount: u128,
}

/// Native funds attached to a call.
#[derive(Clone, Debug, PartialEq, Eq)]
pub struct Coin {
    pub denom: String,
    pub amount: u128,
}

/// Two identifiers name the same asset.
pub open spec fn same_asset(a: AssetInfo, b: AssetInfo) -> bool {
    match (a, b) {
        (AssetInfo::NativeToken { denom: x }, AssetInfo::NativeToken { denom: y }) => x@ == y@,
        (AssetInfo::Token { contract_addr: x }, AssetInfo::Token { contract_addr: y }) => x@ == y@,
        _ => false,
    }
}

/// The denomination of a native asset.
pub open spec fn native_denom(a: AssetInfo) -> Option<Seq<char>> {
    match a {
        AssetInfo::NativeToken { denom } => Some(denom@),
        AssetInfo::Token { .. } => None,
    }
}

impl AssetInfo {
    pub fn equal(&self, other: &AssetInfo) -> (r: bool)
        ensures
            r == same_asset(*self, *other),
    {
        match (self, other) {
            (AssetInfo::NativeToken { denom: x }, AssetInfo::NativeToken { denom: y }) => *x == *y,
            (AssetInfo::Token { contract_addr: x }, AssetInfo::Token { contract_addr: y }) => *x == *y,
            _ => false,
        }
    }

    pub fn is_native_token(&self) -> (r: bool)
        ensures
            r == native_denom(*self).is_some(),
    {
        match self {
            AssetInfo::NativeToken { .. } => true,
            AssetInfo::Token { .. } => false,
        }
    }
}

/// The amount of the first coin of denomination `denom` among `funds`, zero if none.
pub open spec fn sent_amount(funds: Seq<Coin>, denom: Seq<char>) -> u128
    decreases funds.len(),
{
    if funds.len() == 0 {
        0
    } else if funds[0].denom@ == denom {
        funds[0].amount
    } else {
        sent_amount(funds.drop_first(), denom)
    }
}

/// The amount of the first coin of denomination `denom` among `funds`, zero if none.
pub fn sent_native_amount(funds: &Vec<Coin>, denom: &String) -> (r: u128)
    ensures
        r == sent_amount(funds@, denom@),
{
    let mut i: usize = 0;
    assert(funds@.skip(0) =~= funds@);
    while i < funds.len()
        invariant
            i <= funds.len(),
            sent_amount(funds@, denom@) == sent_amount(funds@.skip(i as int), denom@),
        decreases funds.len() - i,
    {
        assert(funds@.skip(i as int).drop_first() =~= funds@.skip(i + 1));
        if funds[i].denom == *denom {
            return funds[i].amount;
        }
        i = i + 1;
    }
    0
}

/// A native asset's amount equals what was attached to the call; other assets pass.
pub open spec fn native_balance_matches(asset: Asset, funds: Seq<Coin>) -> bool {
    match asset.info {
        AssetInfo::NativeToken { denom } => asset.amount == sent_amount(funds, denom@),
        AssetInfo::Token { .. } => true,
    }
}

/// The check of a native asset's amount against the funds attached to the call.
pub open spec fn native_balance_check(asset: Asset, funds: Seq<Coin>) -> Result<(), PoolError> {
    match asset.info {
        AssetInfo::NativeToken { denom } => {
            let sent = sent_amount(funds, denom@);
            if asset.amount == sent {
                Ok(())
            } else {
                Err(
                    PoolError::NativeTokenBalanceMismatch {
                        denom: denom,
                        argument: asset.amount,
                        transferred: sent,
                    },
                )
            }
        },
        AssetInfo::Token { .. } => Ok(()),
    }
}

/// Checks that a native asset's amount equals the funds of its denomination attached to
/// the call.
pub fn assert_sent_native_token_balance(asset: &Asset, funds: &Vec<Coin>) -> (r: Result<(), PoolError>)
    ensures
        r == native_balance_check(*asset, funds@),
        r.is_ok() <==> native_balance_matches(*asset, funds@),
{
    match &asset.info {
        AssetInfo::NativeToken { denom } => {
            let sent = sent_native_amount(funds, denom);
            if sent == asset.amount {
                Ok(())
            } else {
                Err(PoolError::NativeTokenBalanceMismatch {
                    denom: denom.clone(),
                    argument: asset.amount,
                    transferred: sent,
                })
            }
        },
        AssetInfo::Token { .. } => Ok(()),
    }
}

} // verus!
