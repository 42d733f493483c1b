use coharvest_bid_pool::asset::{Asset, AssetInfo};
use coharvest_bid_pool::bid::{allocation_fits, execute_finalize_bidding_round_result, execute_submit_bid};
use coharvest_bid_pool::decimal::Decimal;
use coharvest_bid_pool::error::{ContractError, GenericReason, StdError};
use coharvest_bid_pool::limits::{
    check_create_new_round_in_range, check_estimate_ok, check_estimate_receive_in_range, check_treasury_round_in_range,
};
use coharvest_bid_pool::state::{BidPool, BiddingInfo, Config, DistributionInfo};

const ONE: u128 = 1_000_000_000_000_000_000;

fn config() -> Config {
    Config {
        owner: "owner".to_string(),
        underlying_token: AssetInfo::NativeToken { denom: "orai".to_string() },
        distribution_token: AssetInfo::Token { contract_addr: "usdt".to_string() },
        max_slot: 2,
        premium_rate_per_slot: Decimal::raw(ONE / 100),
        min_deposit_amount: 1,
        treasury: "treasury".to_string(),
        bidding_duration: 100,
    }
}

fn pool(slot: u8, total: u128) -> BidPool {
    BidPool {
        slot,
        total_bid_amount: total,
        premium_rate: Decimal::raw(ONE / 100 * slot as u128),
        index_snapshot: Decimal::zero(),
        received_per_token: Decimal::zero(),
    }
}

fn round(total: u128) -> BiddingInfo {
    BiddingInfo { round: 1, start_time: 10, end_time: 20, total_bid_amount: total, total_bid_matched: 0 }
}

fn reward(total: u128) -> DistributionInfo {
    DistributionInfo {
        total_distribution: total,
        exchange_rate: Decimal::zero(),
        is_released: false,
        actual_distributed: 0,
        num_bids_distributed: 0,
    }
}

#[test]
fn pool_priced_at_nothing_cannot_be_allocated() {
    assert!(!allocation_fits(&vec![pool(1, 1)], 10, Decimal::raw(ONE / 2)));
    assert!(allocation_fits(&vec![pool(1, 2)], 10, Decimal::raw(ONE / 2)));
    assert!(allocation_fits(&vec![pool(1, 0)], 10, Decimal::zero()));
}

#[test]
fn reward_per_token_beyond_range_cannot_be_allocated() {
    assert!(!allocation_fits(&vec![pool(1, 1)], u128::MAX, Decimal::raw(u128::MAX)));
    assert!(allocation_fits(&vec![pool(1, 1)], ONE, Decimal::raw(u128::MAX)));
}

#[test]
fn estimate_beyond_range_is_refused() {
    let mut p = pool(1, 1);
    p.received_per_token = Decimal::raw(u128::MAX);
    assert!(!check_estimate_ok(&vec![p], 2, 1, u128::MAX));
    assert!(check_estimate_ok(&vec![p], 2, 1, 1));
    assert!(!check_estimate_ok(&vec![p], 2, 3, 1));
    let mut wide = pool(5, 1);
    wide.index_snapshot = Decimal::zero();
    assert!(!check_estimate_ok(&vec![wide], 2, 1, 1));
}

#[test]
fn estimate_of_deposit_overflowing_its_pool_is_refused() {
    let cfg = config();
    let stored = vec![Some(pool(1, u128::MAX)), None];
    assert!(!check_estimate_receive_in_range(&cfg, Some(reward(1)), Some(round(0)), &stored, 1, 1, Decimal::one()));
    // no round: refused before any arithmetic
    assert!(check_estimate_receive_in_range(&cfg, Some(reward(1)), None, &stored, 1, 1, Decimal::one()));
}

#[test]
fn round_counter_at_its_limit() {
    let cfg = config();
    assert!(!check_create_new_round_in_range(&cfg, &"owner".to_string(), Some(u64::MAX)));
    assert!(check_create_new_round_in_range(&cfg, &"eve".to_string(), Some(u64::MAX)));
    assert!(check_create_new_round_in_range(&cfg, &"owner".to_string(), Some(7)));
}

#[test]
fn treasury_round_ending_beyond_time_range() {
    let mut cfg = config();
    cfg.bidding_duration = u64::MAX;
    let funds = Asset { info: AssetInfo::Token { contract_addr: "usdt".to_string() }, amount: 1 };
    assert!(!check_treasury_round_in_range(&cfg, &"treasury".to_string(), &funds, 5, Some(0), None));
    assert!(check_treasury_round_in_range(&cfg, &"bob".to_string(), &funds, 5, Some(0), None));
    let last = BiddingInfo { round: 1, start_time: 1, end_time: u64::MAX, total_bid_amount: 0, total_bid_matched: 0 };
    assert!(!check_treasury_round_in_range(&config(), &"treasury".to_string(), &funds, 5, Some(1), Some(last)));
}

#[test]
fn finalized_round_is_not_finalized_again() {
    let cfg = config();
    let stored = vec![Some(pool(1, 100)), Some(pool(2, 200))];
    let rate = Decimal::raw(ONE + ONE / 2);
    let owner = "owner".to_string();
    let out =
        execute_finalize_bidding_round_result(&cfg, &owner, 21, 1, rate, Some(round(300)), Some(reward(400)), &stored)
            .unwrap();
    let saved: Vec<Option<BidPool>> = out.bid_pools.iter().map(|p| Some(*p)).collect();
    let again = execute_finalize_bidding_round_result(
        &cfg,
        &owner,
        22,
        1,
        rate,
        Some(out.bidding_info),
        Some(out.distribution_info),
        &saved,
    )
    .unwrap_err();
    assert_eq!(again, ContractError::Std(StdError::GenericErr { reason: GenericReason::RoundFinalized { round: 1 } }));
    // the matched deposits never exceed the round's deposits
    assert!(out.bidding_info.total_bid_matched <= out.bidding_info.total_bid_amount);
    assert!(out.distribution_info.actual_distributed <= out.distribution_info.total_distribution);
}

#[test]
fn bid_keeps_round_total_equal_to_its_pools() {
    let cfg = config();
    let stored = [Some(pool(1, 100)), Some(pool(2, 200))];
    let info = round(300);
    let funds = Asset { info: AssetInfo::NativeToken { denom: "orai".to_string() }, amount: 50 };
    let out = execute_submit_bid(&cfg, 15, 1, 2, "dave".to_string(), true, &funds, Some(info), stored[1], Some(3)).unwrap();
    let pools_total = stored[0].unwrap().total_bid_amount + out.bid_pool.total_bid_amount;
    assert_eq!(out.bidding_info.total_bid_amount, pools_total);
}
