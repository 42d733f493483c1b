use vstd::prelude::*;
use crate::asset::AssetInfo;
use crate::decimal::Decimal;
use crate::state::{BiddingInfo, DistributionInfo};

verus! {

/// The settings the contract starts with.
#[derive(Debug)]
pub struct InstantiateMsg {
    pub owner: String,
    pub underlying_token: AssetInfo,
    pub distribution_token: AssetInfo,
    pub max_slot: u8,
    pub premium_rate_per_slot: Decimal,
    pub min_deposit_amount: u128,
    pub treasury: String,
    pub bidding_duration: u64,
}

/// The settings a migration installs.
#[derive(Debug)]
pub struct MigrateMsg {
    pub owner: String,
    pub underlying_token: AssetInfo,
    pub distribution_token: AssetInfo,
    pub max_slot: u8,
    pub premium_rate_per_slot: Decimal,
    pub min_deposit_amount: u128,
    pub treasury: String,
    pub bidding_duration: u64,
}

/// What a cw20 token sent to the contract asks for.
#[derive(Clone, Copy, Debug, PartialEq, Eq, Structural)]
pub enum Cw20HookMsg {
    /// Bid the tokens sent in `round` in the pool of `premium_slot`.
    SubmitBid { round: u64, premium_slot: u8 },
    /// Open the next round with the tokens sent as its reward.
    CreateNewRoundFromTreasury,
}

/// A round with its reward side.
#[derive(Clone, Copy, Debug, PartialEq, Eq, Structural)]
pub struct BiddingInfoResponse {
    pub bid_info: BiddingInfo,
    pub distribution_info: DistributionInfo,
}

/// What a bid would receive, and get back, at a given exchange rate.
#[derive(Clone, Copy, Debug, PartialEq, Eq, Structural)]
pub struct EstimateAmountReceiveOfBidResponse {
    pub receive: u128,
    pub residue_bid: u128,
}

} // verus!
