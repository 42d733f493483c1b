use vstd::prelude::*;
use crate::error::{ContractError, PaymentError};
use cosmwasm_std::{Addr, MessageInfo};
use cw_utils::PaymentError as OneCoinError;

verus! {

/// A token: a cw20 contract or a native denomination.
#[derive(Debug)]
pub enum AssetInfo {
    Token { contract_addr: String },
    NativeToken { denom: String },
}

impl AssetInfo {
    /// Two asset infos name the same token.
    pub open spec fn same_as(&self, other: &AssetInfo) -> bool {
        match (self, other) {
            (AssetInfo::Token { contract_addr: a }, AssetInfo::Token { contract_addr: b }) => a@ == b@,
            (AssetInfo::NativeToken { denom: a }, AssetInfo::NativeToken { denom: b }) => a@ == b@,
            _ => false,
        }
    }

    pub fn copy(&self) -> (r: AssetInfo)
        ensures
            r == *self,
    {
        match self {
            AssetInfo::Token { contract_addr } => AssetInfo::Token { contract_addr: contract_addr.clone() },
            AssetInfo::NativeToken { denom } => AssetInfo::NativeToken { denom: denom.clone() },
        }
    }
}

impl PartialEq for AssetInfo {
    fn eq(&self, other: &AssetInfo) -> (r: bool) {
        match (self, other) {
            (AssetInfo::Token { contract_addr: a }, AssetInfo::Token { contract_addr: b }) => a.eq(b),
            (AssetInfo::NativeToken { denom: a }, AssetInfo::NativeToken { denom: b }) => a.eq(b),
            _ => false,
        }
    }
}

impl vstd::std_specs::cmp::PartialEqSpecImpl for AssetInfo {
    open spec fn obeys_eq_spec() -> bool {
        true
    }

    open spec fn eq_spec(&self, other: &AssetInfo) -> bool {
        self.same_as(other)
    }
}

/// An amount of a token.
#[derive(Debug)]
pub struct Asset {
    pub info: AssetInfo,
    pub amount: u128,
}

/// A token movement the contract asks the chain to make.
#[derive(Debug)]
pub enum TokenMsg {
    /// Burn `amount` of the token, held by the contract.
    Burn { asset: AssetInfo, amount: u128 },
    /// Send `amount` of the token to `recipient`.
    Transfer { asset: AssetInfo, recipient: String, amount: u128 },
}

/// A native coin attached to a message.
#[derive(Debug)]
pub struct Coin {
    pub denom: String,
    pub amount: u128,
}

pub open spec fn one_coin_ok(c: Coin) -> Result<Coin, PaymentError> {
    Ok(c)
}

pub open spec fn one_coin_err(e: PaymentError) -> Result<Coin, PaymentError> {
    Err(e)
}

/// The funds a message carries, as `cw_utils::one_coin` judges them: exactly
/// one coin of a non-zero amount, else `NoFunds` (none, or a zero amount) or
/// `MultipleDenoms` (more than one).
#[verifier::external_body]
fn one_coin(funds: &Vec<Coin>) -> (r: Result<Coin, PaymentError>)
    ensures
        funds.len() == 0 ==> r == one_coin_err(PaymentError::NoFunds),
        funds.len() == 1 && funds[0].amount == 0 ==> r == one_coin_err(PaymentError::NoFunds),
        funds.len() == 1 && funds[0].amount != 0 ==> r == one_coin_ok(funds[0]),
        funds.len() > 1 ==> r == one_coin_err(PaymentError::MultipleDenoms),
{
    let mut coins = Vec::new();
    for c in funds.iter() {
        coins.push(cosmwasm_std::coin(c.amount, c.denom.clone()));
    }
    let info = MessageInfo { sender: Addr::unchecked(""), funds: coins };
    match cw_utils::one_coin(&info) {
        Ok(c) => Ok(Coin { denom: c.denom, amount: c.amount.u128() }),
        Err(OneCoinError::MissingDenom(d)) => Err(PaymentError::MissingDenom(d)),
        Err(OneCoinError::ExtraDenom(d)) => Err(PaymentError::ExtraDenom(d)),
        Err(OneCoinError::MultipleDenoms {}) => Err(PaymentError::MultipleDenoms),
        Err(OneCoinError::NoFunds {}) => Err(PaymentError::NoFunds),
        Err(OneCoinError::NonPayable {}) => Err(PaymentError::NonPayable),
    }
}

/// The native funds of a message as an asset: the one coin attached, as the
/// `SubmitBid` and `CreateNewRoundFromTreasury` messages require.
pub fn native_funds(funds: &Vec<Coin>) -> (r: Result<Asset, ContractError>)
    ensures
        funds.len() == 1 && funds[0].amount != 0 ==> (r matches Ok(a) && a == (Asset {
            info: AssetInfo::NativeToken { denom: funds[0].denom },
            amount: funds[0].amount,
        })),
        funds.len() == 0 || (funds.len() == 1 && funds[0].amount == 0) ==> r matches Err(
            ContractError::Payment(PaymentError::NoFunds),
        ),
        funds.len() > 1 ==> r matches Err(ContractError::Payment(PaymentError::MultipleDenoms)),
{
    match one_coin(funds) {
        Ok(coin) => Ok(Asset { info: AssetInfo::NativeToken { denom: coin.denom }, amount: coin.amount }),
        Err(e) => Err(ContractError::Payment(e)),
    }
}

} // verus!
