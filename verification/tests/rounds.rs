use coharvest_bid_pool::asset::{Asset, AssetInfo};
use coharvest_bid_pool::bid::{
    execute_create_new_round, execute_create_new_round_from_treasury, execute_update_round,
};
use coharvest_bid_pool::contract::{execute_update_config, instantiate, migrate};
use coharvest_bid_pool::decimal::Decimal;
use coharvest_bid_pool::error::{ContractError, GenericReason, StdError, StoredItem};
use coharvest_bid_pool::msg::{InstantiateMsg, MigrateMsg};
use coharvest_bid_pool::state::{BiddingInfo, Config, DistributionInfo};

fn native(denom: &str) -> AssetInfo {
    AssetInfo::NativeToken { denom: denom.to_string() }
}

fn token(addr: &str) -> AssetInfo {
    AssetInfo::Token { contract_addr: addr.to_string() }
}

fn config() -> Config {
    Config {
        owner: "owner".to_string(),
        underlying_token: native("orai"),
        distribution_token: token("usdt"),
        max_slot: 3,
        premium_rate_per_slot: Decimal::raw(10_000_000_000_000_000),
        min_deposit_amount: 100,
        treasury: "treasury".to_string(),
        bidding_duration: 100,
    }
}

fn round(round: u64, start_time: u64, end_time: u64) -> BiddingInfo {
    BiddingInfo { round, start_time, end_time, total_bid_amount: 0, total_bid_matched: 0 }
}

fn distribution(total: u128) -> DistributionInfo {
    DistributionInfo {
        total_distribution: total,
        exchange_rate: Decimal::zero(),
        is_released: false,
        actual_distributed: 0,
        num_bids_distributed: 0,
    }
}

#[test]
fn instantiate_stores_settings_and_round_zero() {
    let (cfg, last_round) = instantiate(InstantiateMsg {
        owner: "owner".to_string(),
        underlying_token: native("orai"),
        distribution_token: token("usdt"),
        max_slot: 5,
        premium_rate_per_slot: Decimal::raw(7),
        min_deposit_amount: 10,
        treasury: "treasury".to_string(),
        bidding_duration: 60,
    });
    assert_eq!(last_round, 0);
    assert_eq!(cfg.owner, "owner");
    assert_eq!(cfg.max_slot, 5);
    assert_eq!(cfg.premium_rate_per_slot, Decimal::raw(7));
    assert_eq!(cfg.min_deposit_amount, 10);
    assert_eq!(cfg.bidding_duration, 60);
    assert!(cfg.distribution_token == token("usdt"));
}

#[test]
fn migrate_installs_settings() {
    let cfg = migrate(MigrateMsg {
        owner: "new_owner".to_string(),
        underlying_token: token("cw20"),
        distribution_token: native("orai"),
        max_slot: 2,
        premium_rate_per_slot: Decimal::one(),
        min_deposit_amount: 1,
        treasury: "t".to_string(),
        bidding_duration: 9,
    });
    assert_eq!(cfg.owner, "new_owner");
    assert!(cfg.underlying_token == token("cw20"));
    assert_eq!(cfg.max_slot, 2);
}

#[test]
fn owner_creates_next_round() {
    let cfg = config();
    let out = execute_create_new_round(&cfg, &"owner".to_string(), 10, Some(4), 20, 30, 1000).unwrap();
    assert_eq!(out.round, 5);
    assert_eq!(out.bidding_info, round(5, 20, 30));
    assert_eq!(out.distribution_info, distribution(1000));
}

#[test]
fn only_owner_creates_rounds() {
    let cfg = config();
    let err = execute_create_new_round(&cfg, &"alice".to_string(), 10, Some(0), 20, 30, 1000).unwrap_err();
    assert_eq!(err, ContractError::Unauthorized);
}

#[test]
fn created_round_must_run_forward_from_now() {
    let cfg = config();
    let owner = "owner".to_string();
    assert_eq!(
        execute_create_new_round(&cfg, &owner, 10, Some(0), 30, 30, 1).unwrap_err(),
        ContractError::InvalidBiddingTimeRange
    );
    assert_eq!(
        execute_create_new_round(&cfg, &owner, 10, Some(0), 5, 30, 1).unwrap_err(),
        ContractError::InvalidBiddingTimeRange
    );
    assert!(execute_create_new_round(&cfg, &owner, 10, Some(0), 10, 11, 1).is_ok());
}

#[test]
fn round_creation_needs_the_round_counter() {
    let cfg = config();
    assert_eq!(
        execute_create_new_round(&cfg, &"owner".to_string(), 10, None, 20, 30, 1).unwrap_err(),
        ContractError::Std(StdError::NotFound { item: StoredItem::LastRoundId })
    );
}

#[test]
fn first_treasury_round_starts_after_now() {
    let cfg = config();
    let funds = Asset { info: token("usdt"), amount: 777 };
    let out = execute_create_new_round_from_treasury(&cfg, &"treasury".to_string(), &funds, 50, Some(0), None).unwrap();
    assert_eq!(out.round, 1);
    assert_eq!(out.bidding_info, round(1, 51, 151));
    assert_eq!(out.distribution_info.total_distribution, 777);
}

#[test]
fn treasury_round_follows_last_round() {
    let cfg = config();
    let funds = Asset { info: token("usdt"), amount: 5 };
    let last = round(3, 20, 300);
    let out =
        execute_create_new_round_from_treasury(&cfg, &"treasury".to_string(), &funds, 25, Some(3), Some(last)).unwrap();
    assert_eq!(out.round, 4);
    assert_eq!(out.bidding_info.start_time, 301);
    assert_eq!(out.bidding_info.end_time, 401);
    // a last round that ended long ago: the new round starts now
    let old = round(3, 1, 2);
    let out =
        execute_create_new_round_from_treasury(&cfg, &"treasury".to_string(), &funds, 25, Some(3), Some(old)).unwrap();
    assert_eq!(out.bidding_info.start_time, 25);
    assert_eq!(out.bidding_info.end_time, 125);
}

#[test]
fn treasury_round_waits_for_last_round_to_start() {
    let cfg = config();
    let funds = Asset { info: token("usdt"), amount: 5 };
    let err = execute_create_new_round_from_treasury(
        &cfg,
        &"treasury".to_string(),
        &funds,
        25,
        Some(3),
        Some(round(3, 40, 50)),
    )
    .unwrap_err();
    assert_eq!(err, ContractError::Std(StdError::GenericErr { reason: GenericReason::LastRoundNotStarted }));
}

#[test]
fn treasury_round_checks_token_then_sender_then_round() {
    let cfg = config();
    let wrong = Asset { info: native("usdt"), amount: 5 };
    assert_eq!(
        execute_create_new_round_from_treasury(&cfg, &"alice".to_string(), &wrong, 25, Some(0), None).unwrap_err(),
        ContractError::InvalidFunds
    );
    let funds = Asset { info: token("usdt"), amount: 5 };
    assert_eq!(
        execute_create_new_round_from_treasury(&cfg, &"alice".to_string(), &funds, 25, Some(0), None).unwrap_err(),
        ContractError::Unauthorized
    );
    assert_eq!(
        execute_create_new_round_from_treasury(&cfg, &"treasury".to_string(), &funds, 25, Some(2), None).unwrap_err(),
        ContractError::Std(StdError::NotFound { item: StoredItem::BiddingInfo })
    );
    assert_eq!(
        execute_create_new_round_from_treasury(&cfg, &"treasury".to_string(), &funds, 25, None, None).unwrap_err(),
        ContractError::Std(StdError::NotFound { item: StoredItem::LastRoundId })
    );
}

#[test]
fn owner_updates_round_before_it_starts() {
    let cfg = config();
    let (info, dist) = execute_update_round(
        &cfg,
        &"owner".to_string(),
        10,
        Some(round(1, 20, 30)),
        Some(distribution(100)),
        Some(15),
        Some(40),
        Some(900),
    )
    .unwrap();
    assert_eq!(info, round(1, 15, 40));
    assert_eq!(dist, distribution(900));
}

#[test]
fn update_round_refusals() {
    let cfg = config();
    let owner = "owner".to_string();
    assert_eq!(
        execute_update_round(&cfg, &"bob".to_string(), 10, Some(round(1, 20, 30)), Some(distribution(1)), None, None, None)
            .unwrap_err(),
        ContractError::Unauthorized
    );
    // the round has ended
    assert_eq!(
        execute_update_round(&cfg, &owner, 31, Some(round(1, 20, 30)), Some(distribution(1)), None, None, Some(5))
            .unwrap_err(),
        ContractError::RoundEnded
    );
    // a new end time before now
    assert_eq!(
        execute_update_round(&cfg, &owner, 25, Some(round(1, 20, 30)), Some(distribution(1)), None, Some(24), None)
            .unwrap_err(),
        ContractError::InvalidBiddingTimeRange
    );
    // a new start time while bids are taken
    assert_eq!(
        execute_update_round(&cfg, &owner, 25, Some(round(1, 20, 30)), Some(distribution(1)), Some(26), None, None)
            .unwrap_err(),
        ContractError::InvalidBiddingTimeRange
    );
    // an open round that has started fails the final range check
    assert_eq!(
        execute_update_round(&cfg, &owner, 25, Some(round(1, 20, 30)), Some(distribution(1)), None, None, Some(7))
            .unwrap_err(),
        ContractError::InvalidBiddingTimeRange
    );
    assert_eq!(
        execute_update_round(&cfg, &owner, 25, None, Some(distribution(1)), None, None, None).unwrap_err(),
        ContractError::Std(StdError::NotFound { item: StoredItem::BiddingInfo })
    );
    assert_eq!(
        execute_update_round(&cfg, &owner, 25, Some(round(1, 20, 30)), None, None, None, None).unwrap_err(),
        ContractError::Std(StdError::NotFound { item: StoredItem::DistributionInfo })
    );
}

#[test]
fn owner_updates_config() {
    let cfg = config();
    let out = execute_update_config(
        cfg,
        &"owner".to_string(),
        Some("new_owner".to_string()),
        None,
        Some(native("uusd")),
        Some(9),
        None,
        Some(1),
        None,
        Some(7),
    )
    .unwrap();
    assert_eq!(out.owner, "new_owner");
    assert!(out.underlying_token == native("orai"));
    assert!(out.distribution_token == native("uusd"));
    assert_eq!(out.max_slot, 9);
    assert_eq!(out.premium_rate_per_slot, Decimal::raw(10_000_000_000_000_000));
    assert_eq!(out.min_deposit_amount, 1);
    assert_eq!(out.treasury, "treasury");
    assert_eq!(out.bidding_duration, 7);
}

#[test]
fn only_owner_updates_config() {
    let err = execute_update_config(config(), &"eve".to_string(), None, None, None, None, None, None, None, None)
        .unwrap_err();
    assert_eq!(err, ContractError::Unauthorized);
}
