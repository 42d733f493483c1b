use coharvest_bid_pool::asset::{native_funds, AssetInfo, Coin};
use coharvest_bid_pool::contract::{
    query_all_bid_pool_in_round, query_bidding_info, query_bids_by_user, receive_cw20, Cw20Request,
};
use coharvest_bid_pool::decimal::Decimal;
use coharvest_bid_pool::error::{ContractError, PaymentError, StdError, StoredItem};
use coharvest_bid_pool::limits::check_premium_in_range;
use coharvest_bid_pool::msg::Cw20HookMsg;
use coharvest_bid_pool::state::{
    calc_range_start, count_number_bids_in_round, pop_bid_idx, read_all_bids_in_round, read_bids_by_round,
    read_or_create_bid_pool, store_bid, Bid, BidPool, BiddingInfo, Config, DistributionInfo,
};

const ONE: u128 = 1_000_000_000_000_000_000;

fn config(max_slot: u8, rate: u128) -> Config {
    Config {
        owner: "owner".to_string(),
        underlying_token: AssetInfo::NativeToken { denom: "orai".to_string() },
        distribution_token: AssetInfo::Token { contract_addr: "usdt".to_string() },
        max_slot,
        premium_rate_per_slot: Decimal::raw(rate),
        min_deposit_amount: 1,
        treasury: "treasury".to_string(),
        bidding_duration: 10,
    }
}

fn info() -> BiddingInfo {
    BiddingInfo { round: 2, start_time: 1, end_time: 2, total_bid_amount: 0, total_bid_matched: 0 }
}

#[test]
fn bid_counter_starts_at_one() {
    assert_eq!(pop_bid_idx(None), (1, 2));
    assert_eq!(pop_bid_idx(Some(41)), (41, 42));
}

#[test]
fn bidder_index_list_grows() {
    assert_eq!(store_bid(None, 7), vec![7]);
    assert_eq!(store_bid(Some(vec![1, 3]), 7), vec![1, 3, 7]);
}

#[test]
fn new_pool_gets_premium_of_its_slot() {
    let cfg = config(5, ONE / 100);
    let p = read_or_create_bid_pool(&cfg, None, 3).unwrap();
    assert_eq!(p.slot, 3);
    assert_eq!(p.total_bid_amount, 0);
    assert_eq!(p.premium_rate, Decimal::raw(3 * ONE / 100));
    let stored = BidPool {
        slot: 3,
        total_bid_amount: 9,
        premium_rate: Decimal::raw(1),
        index_snapshot: Decimal::zero(),
        received_per_token: Decimal::zero(),
    };
    assert_eq!(read_or_create_bid_pool(&cfg, Some(stored), 3).unwrap(), stored);
}

#[test]
fn all_pools_fill_missing_slots() {
    let cfg = config(3, ONE / 10);
    let stored = BidPool {
        slot: 2,
        total_bid_amount: 50,
        premium_rate: Decimal::raw(5),
        index_snapshot: Decimal::zero(),
        received_per_token: Decimal::zero(),
    };
    let pools = info().read_all_bid_pool(&cfg, &vec![None, Some(stored), None]).unwrap();
    assert_eq!(pools.len(), 3);
    assert_eq!(pools[0].slot, 1);
    assert_eq!(pools[0].premium_rate, Decimal::raw(ONE / 10));
    assert_eq!(pools[1], stored);
    assert_eq!(pools[2].slot, 3);
    assert_eq!(pools[2].premium_rate, Decimal::raw(3 * ONE / 10));
    let none = info().read_all_bid_pool(&config(0, ONE), &vec![]).unwrap();
    assert!(none.is_empty());
}

#[test]
fn premium_beyond_decimal_range_would_panic() {
    assert!(check_premium_in_range(&config(3, u128::MAX / 3)));
    assert!(!check_premium_in_range(&config(3, u128::MAX / 3 + 1)));
}

#[test]
fn round_time_predicates() {
    let r = BiddingInfo { round: 1, start_time: 10, end_time: 20, total_bid_amount: 0, total_bid_matched: 0 };
    assert!(r.is_valid_duration(10));
    assert!(!r.is_valid_duration(11));
    assert!(r.opening(10) && r.opening(20));
    assert!(!r.opening(9) && !r.opening(21));
    assert!(r.finished(21));
    assert!(!r.finished(20));
}

#[test]
fn bids_listed_in_pages() {
    let keys = vec![1, 2, 3, 5, 8];
    assert_eq!(read_bids_by_round(&keys, Some(2), Some(2), None), vec![3, 5]);
    assert_eq!(read_bids_by_round(&keys, Some(2), Some(2), Some(1)), vec![3, 5]);
    assert_eq!(read_bids_by_round(&keys, Some(2), Some(2), Some(2)), vec![8, 5]);
    assert_eq!(read_bids_by_round(&keys, None, None, None), vec![1, 2, 3, 5, 8]);
    assert_eq!(read_bids_by_round(&keys, None, None, Some(2)), vec![8, 5, 3, 2, 1]);
    assert_eq!(read_bids_by_round(&keys, Some(4), Some(0), None), Vec::<u64>::new());
    assert_eq!(read_bids_by_round(&keys, Some(8), None, None), Vec::<u64>::new());
    assert_eq!(read_bids_by_round(&keys, Some(0), Some(u64::MAX), None), vec![1, 2, 3, 5, 8]);
}

#[test]
fn bid_pages_are_capped() {
    let keys: Vec<u64> = (1..=1500).collect();
    assert_eq!(read_bids_by_round(&keys, None, None, None).len(), 30);
    assert_eq!(read_bids_by_round(&keys, None, Some(5000), None).len(), 1000);
    let page = read_bids_by_round(&keys, Some(1495), Some(5000), Some(2));
    assert_eq!(page, vec![1500, 1499, 1498, 1497, 1496]);
}

#[test]
fn next_page_continues_after_last_key() {
    let keys: Vec<u64> = vec![2, 4, 6, 8, 10, 12, 14];
    let first = read_bids_by_round(&keys, None, Some(3), None);
    assert_eq!(first, vec![2, 4, 6]);
    let second = read_bids_by_round(&keys, Some(*first.last().unwrap()), Some(3), None);
    assert_eq!(second, vec![8, 10, 12]);
    let third = read_bids_by_round(&keys, Some(*second.last().unwrap()), Some(3), None);
    assert_eq!(third, vec![14]);
}

#[test]
fn all_bids_in_either_order() {
    let keys = vec![4, 9, 11];
    assert_eq!(read_all_bids_in_round(&keys, None), vec![4, 9, 11]);
    assert_eq!(read_all_bids_in_round(&keys, Some(2)), vec![11, 9, 4]);
    assert_eq!(read_all_bids_in_round(&keys, Some(7)), vec![4, 9, 11]);
    assert_eq!(count_number_bids_in_round(&keys), 3);
    assert_eq!(count_number_bids_in_round(&vec![]), 0);
}

#[test]
fn range_start_is_key_bytes_then_zero() {
    assert_eq!(calc_range_start(None), None);
    assert_eq!(calc_range_start(Some(0x0102_0304_0506_0708)), Some(vec![1, 2, 3, 4, 5, 6, 7, 8, 0]));
    assert_eq!(calc_range_start(Some(5)), Some(vec![0, 0, 0, 0, 0, 0, 0, 5, 0]));
    // storage order: every greater key sorts after the bound, the key itself before it
    let bound = calc_range_start(Some(5)).unwrap();
    assert!(6u64.to_be_bytes().to_vec() > bound);
    assert!(5u64.to_be_bytes().to_vec() < bound);
}

#[test]
fn one_native_coin_is_the_funds() {
    let funds = native_funds(&vec![Coin { denom: "orai".to_string(), amount: 12 }]).unwrap();
    assert!(funds.info == AssetInfo::NativeToken { denom: "orai".to_string() });
    assert_eq!(funds.amount, 12);
}

#[test]
fn funds_refusals() {
    assert_eq!(native_funds(&vec![]).unwrap_err(), ContractError::Payment(PaymentError::NoFunds));
    assert_eq!(
        native_funds(&vec![Coin { denom: "orai".to_string(), amount: 0 }]).unwrap_err(),
        ContractError::Payment(PaymentError::NoFunds)
    );
    assert_eq!(
        native_funds(&vec![
            Coin { denom: "orai".to_string(), amount: 1 },
            Coin { denom: "atom".to_string(), amount: 1 }
        ])
        .unwrap_err(),
        ContractError::Payment(PaymentError::MultipleDenoms)
    );
}

#[test]
fn cw20_hook_routes_tokens() {
    match receive_cw20(Cw20HookMsg::SubmitBid { round: 3, premium_slot: 2 }, "token".to_string(), "alice".to_string(), 50) {
        Cw20Request::SubmitBid { round, premium_slot, bidder, funds } => {
            assert_eq!((round, premium_slot), (3, 2));
            assert_eq!(bidder, "alice");
            assert!(funds.info == AssetInfo::Token { contract_addr: "token".to_string() });
            assert_eq!(funds.amount, 50);
        },
        other => panic!("unexpected {:?}", other),
    }
    match receive_cw20(Cw20HookMsg::CreateNewRoundFromTreasury, "token".to_string(), "treasury".to_string(), 9) {
        Cw20Request::CreateNewRoundFromTreasury { sender, funds } => {
            assert_eq!(sender, "treasury");
            assert_eq!(funds.amount, 9);
        },
        other => panic!("unexpected {:?}", other),
    }
}

#[test]
fn bidding_info_query() {
    let dist = DistributionInfo {
        total_distribution: 5,
        exchange_rate: Decimal::zero(),
        is_released: false,
        actual_distributed: 0,
        num_bids_distributed: 0,
    };
    let r = query_bidding_info(Some(info()), Some(dist)).unwrap();
    assert_eq!(r.bid_info, info());
    assert_eq!(r.distribution_info, dist);
    assert_eq!(query_bidding_info(None, Some(dist)).unwrap_err(), StdError::NotFound { item: StoredItem::BiddingInfo });
    assert_eq!(
        query_bidding_info(Some(info()), None).unwrap_err(),
        StdError::NotFound { item: StoredItem::DistributionInfo }
    );
}

fn bid(idx: u64) -> Bid {
    Bid {
        idx,
        round: 2,
        premium_slot: 1,
        timestamp: 1,
        bidder: "alice".to_string(),
        amount: 10,
        residue_bid: 10,
        amount_received: 0,
        is_distributed: false,
    }
}

#[test]
fn bids_by_user_query() {
    let bids = query_bids_by_user(Some(&vec![Some(bid(1)), Some(bid(4))])).unwrap();
    assert_eq!(bids.len(), 2);
    assert_eq!(bids[1].idx, 4);
    assert_eq!(query_bids_by_user(None).unwrap_err(), StdError::NotFound { item: StoredItem::BidsByUser });
    assert_eq!(
        query_bids_by_user(Some(&vec![Some(bid(1)), None])).unwrap_err(),
        StdError::NotFound { item: StoredItem::Bid }
    );
}

#[test]
fn all_pools_query() {
    let cfg = config(2, ONE);
    let pools = query_all_bid_pool_in_round(&cfg, Some(info()), &vec![None, None]).unwrap();
    assert_eq!(pools.len(), 2);
    assert_eq!(pools[1].premium_rate, Decimal::raw(2 * ONE));
    assert_eq!(
        query_all_bid_pool_in_round(&cfg, None, &vec![None, None]).unwrap_err(),
        StdError::NotFound { item: StoredItem::BiddingInfo }
    );
}
