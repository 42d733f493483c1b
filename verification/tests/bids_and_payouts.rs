use coharvest_bid_pool::asset::{Asset, AssetInfo, TokenMsg};
use coharvest_bid_pool::bid::{
    execute_distribute, execute_finalize_bidding_round_result, execute_submit_bid, process_calc_distribution_amount,
};
use coharvest_bid_pool::contract::{query_estimate_amount_receive, query_estimate_amount_receive_of_bid};
use coharvest_bid_pool::decimal::Decimal;
use coharvest_bid_pool::error::{ContractError, GenericReason, StdError, StoredItem};
use coharvest_bid_pool::limits::{check_distribute_in_range, check_finalize_in_range, check_submit_bid_in_range};
use coharvest_bid_pool::state::{store_bid, Bid, BidPool, BiddingInfo, Config, DistributionInfo};

const ONE: u128 = 1_000_000_000_000_000_000;

fn native(denom: &str) -> AssetInfo {
    AssetInfo::NativeToken { denom: denom.to_string() }
}

fn token(addr: &str) -> AssetInfo {
    AssetInfo::Token { contract_addr: addr.to_string() }
}

fn config() -> Config {
    Config {
        owner: "owner".to_string(),
        underlying_token: native("orai"),
        distribution_token: token("usdt"),
        max_slot: 3,
        premium_rate_per_slot: Decimal::raw(ONE / 100),
        min_deposit_amount: 100,
        treasury: "treasury".to_string(),
        bidding_duration: 100,
    }
}

fn pool(slot: u8, total: u128) -> BidPool {
    BidPool {
        slot,
        total_bid_amount: total,
        premium_rate: Decimal::raw(ONE / 100 * slot as u128),
        index_snapshot: Decimal::zero(),
        received_per_token: Decimal::zero(),
    }
}

fn open_round() -> BiddingInfo {
    BiddingInfo { round: 1, start_time: 20, end_time: 30, total_bid_amount: 300, total_bid_matched: 0 }
}

fn reward(total: u128) -> DistributionInfo {
    DistributionInfo {
        total_distribution: total,
        exchange_rate: Decimal::zero(),
        is_released: false,
        actual_distributed: 0,
        num_bids_distributed: 0,
    }
}

fn bid(idx: u64, slot: u8, bidder: &str, amount: u128) -> Bid {
    Bid {
        idx,
        round: 1,
        premium_slot: slot,
        timestamp: 21,
        bidder: bidder.to_string(),
        amount,
        residue_bid: amount,
        amount_received: 0,
        is_distributed: false,
    }
}

fn orai(amount: u128) -> Asset {
    Asset { info: native("orai"), amount }
}

fn rate() -> Decimal {
    Decimal::raw(ONE + ONE / 2)
}

#[test]
fn bid_opens_a_pool_and_takes_the_first_index() {
    let cfg = config();
    let out = execute_submit_bid(&cfg, 25, 1, 2, "alice".to_string(), true, &orai(500), Some(open_round()), None, None).unwrap();
    assert_eq!(out.bidding_info.total_bid_amount, 800);
    assert_eq!(out.bid_pool.slot, 2);
    assert_eq!(out.bid_pool.total_bid_amount, 500);
    // the premium of slot 2 is twice the premium per slot
    assert_eq!(out.bid_pool.premium_rate, Decimal::raw(ONE / 50));
    assert_eq!(out.bid.idx, 1);
    assert_eq!(out.next_bid_idx, 2);
    assert_eq!(out.bid.bidder, "alice");
    assert_eq!(out.bid.residue_bid, 500);
    assert!(!out.bid.is_distributed);
}

#[test]
fn bid_adds_to_stored_pool_and_counter() {
    let cfg = config();
    let out = execute_submit_bid(
        &cfg,
        20,
        1,
        1,
        "bob".to_string(),
        true,
        &orai(100),
        Some(open_round()),
        Some(pool(1, 40)),
        Some(17),
    )
    .unwrap();
    assert_eq!(out.bid_pool.total_bid_amount, 140);
    assert_eq!(out.bid.idx, 17);
    assert_eq!(out.next_bid_idx, 18);
}

#[test]
fn bid_refusals_in_order() {
    let cfg = config();
    assert_eq!(
        execute_submit_bid(&cfg, 25, 1, 1, "a".to_string(), true, &Asset { info: token("orai"), amount: 500 }, None, None, None)
            .unwrap_err(),
        ContractError::InvalidFunds
    );
    assert_eq!(
        execute_submit_bid(&cfg, 25, 1, 1, "a".to_string(), true, &orai(99), None, None, None).unwrap_err(),
        ContractError::Std(StdError::GenericErr {
            reason: GenericReason::MinimumDeposit { min_deposit_amount: 100, amount: 99 }
        })
    );
    assert_eq!(
        execute_submit_bid(&cfg, 25, 1, 0, "a".to_string(), true, &orai(100), None, None, None).unwrap_err(),
        ContractError::Std(StdError::GenericErr {
            reason: GenericReason::PremiumSlotOutOfRange { max_slot: 3, premium_slot: 0 }
        })
    );
    assert_eq!(
        execute_submit_bid(&cfg, 25, 1, 4, "a".to_string(), true, &orai(100), None, None, None).unwrap_err(),
        ContractError::Std(StdError::GenericErr {
            reason: GenericReason::PremiumSlotOutOfRange { max_slot: 3, premium_slot: 4 }
        })
    );
    assert_eq!(
        execute_submit_bid(&cfg, 25, 1, 1, "a".to_string(), true, &orai(100), None, None, None).unwrap_err(),
        ContractError::Std(StdError::NotFound { item: StoredItem::BiddingInfo })
    );
    assert_eq!(
        execute_submit_bid(&cfg, 31, 1, 1, "a".to_string(), true, &orai(100), Some(open_round()), None, None).unwrap_err(),
        ContractError::BidNotOpen
    );
    assert_eq!(
        execute_submit_bid(&cfg, 19, 1, 1, "a".to_string(), true, &orai(100), Some(open_round()), None, None).unwrap_err(),
        ContractError::BidNotOpen
    );
}

#[test]
fn bid_counter_at_its_limit_would_overflow() {
    let cfg = config();
    assert!(!check_submit_bid_in_range(&cfg, 25, 1, &orai(100), Some(open_round()), None, Some(u64::MAX)));
    assert!(check_submit_bid_in_range(&cfg, 25, 1, &orai(100), Some(open_round()), None, Some(5)));
    // refused before the counter is read: no overflow
    assert!(check_submit_bid_in_range(&cfg, 25, 1, &orai(1), Some(open_round()), None, Some(u64::MAX)));
}

#[test]
fn allocation_fills_lowest_slot_first() {
    let mut pools = vec![pool(1, 100), pool(2, 200), pool(3, 0)];
    let mut left = 400u128;
    let matched = process_calc_distribution_amount(&mut pools, &mut left, rate()).unwrap();
    // slot 1 asks 100 * 1.5 * 1.01 = 151 and gets it; slot 2 asks 306 and gets the 249 left
    assert_eq!(left, 0);
    assert_eq!(matched, 100 + 162);
    assert_eq!(pools[0].index_snapshot, Decimal::raw(ONE));
    assert_eq!(pools[0].received_per_token, Decimal::raw(1_510_000_000_000_000_000));
    assert_eq!(pools[1].index_snapshot, Decimal::raw(813_725_490_196_078_431));
    assert_eq!(pools[1].received_per_token, Decimal::raw(1_245_000_000_000_000_000));
    assert_eq!(pools[2], pool(3, 0));
}

#[test]
fn allocation_with_reward_to_spare_matches_every_pool() {
    let mut pools = vec![pool(1, 100), pool(2, 200), pool(3, 0)];
    let mut left = 1000u128;
    let matched = process_calc_distribution_amount(&mut pools, &mut left, rate()).unwrap();
    assert_eq!(left, 1000 - 151 - 306);
    assert_eq!(matched, 300);
    assert_eq!(pools[0].index_snapshot, Decimal::one());
    assert_eq!(pools[1].index_snapshot, Decimal::one());
    assert_eq!(pools[1].received_per_token, Decimal::raw(1_530_000_000_000_000_000));
}

#[test]
fn allocation_stops_once_reward_is_spent() {
    let mut pools = vec![pool(1, 100), pool(2, 200)];
    let mut left = 151u128;
    let matched = process_calc_distribution_amount(&mut pools, &mut left, rate()).unwrap();
    assert_eq!(left, 0);
    assert_eq!(matched, 100);
    assert_eq!(pools[1], pool(2, 200));
}

fn finalize(total: u128) -> Result<coharvest_bid_pool::bid::FinalizedRound, ContractError> {
    let cfg = config();
    let stored = vec![Some(pool(1, 100)), Some(pool(2, 200)), None];
    execute_finalize_bidding_round_result(&cfg, &"owner".to_string(), 31, 1, rate(), Some(open_round()), Some(reward(total)), &stored)
}

#[test]
fn finalize_burns_matched_deposits() {
    let out = finalize(400).unwrap();
    assert_eq!(out.bidding_info.total_bid_matched, 262);
    assert!(out.distribution_info.is_released);
    assert_eq!(out.distribution_info.exchange_rate, rate());
    assert_eq!(out.distribution_info.actual_distributed, 400);
    assert_eq!(out.bid_pools.len(), 3);
    assert_eq!(out.bid_pools[2], pool(3, 0));
    assert_eq!(out.messages.len(), 1);
    match &out.messages[0] {
        TokenMsg::Burn { asset, amount } => {
            assert!(*asset == native("orai"));
            assert_eq!(*amount, 262);
        },
        other => panic!("unexpected {:?}", other),
    }
}

#[test]
fn finalize_returns_unspent_reward_to_owner() {
    let out = finalize(1000).unwrap();
    assert_eq!(out.distribution_info.actual_distributed, 457);
    assert_eq!(out.messages.len(), 2);
    match &out.messages[1] {
        TokenMsg::Transfer { asset, recipient, amount } => {
            assert!(*asset == token("usdt"));
            assert_eq!(recipient, "owner");
            assert_eq!(*amount, 543);
        },
        other => panic!("unexpected {:?}", other),
    }
}

#[test]
fn finalize_refusals() {
    let cfg = config();
    let stored = vec![None, None, None];
    let owner = "owner".to_string();
    assert_eq!(
        execute_finalize_bidding_round_result(&cfg, &"x".to_string(), 31, 1, rate(), Some(open_round()), Some(reward(1)), &stored)
            .unwrap_err(),
        ContractError::Unauthorized
    );
    assert_eq!(
        execute_finalize_bidding_round_result(&cfg, &owner, 30, 1, rate(), Some(open_round()), Some(reward(1)), &stored)
            .unwrap_err(),
        ContractError::BidNotEnded
    );
    let mut released = reward(1);
    released.is_released = true;
    assert_eq!(
        execute_finalize_bidding_round_result(&cfg, &owner, 31, 7, rate(), Some(open_round()), Some(released), &stored)
            .unwrap_err(),
        ContractError::Std(StdError::GenericErr { reason: GenericReason::RoundFinalized { round: 7 } })
    );
    assert_eq!(
        execute_finalize_bidding_round_result(&cfg, &owner, 31, 1, rate(), None, Some(reward(1)), &stored).unwrap_err(),
        ContractError::Std(StdError::NotFound { item: StoredItem::BiddingInfo })
    );
    assert_eq!(
        execute_finalize_bidding_round_result(&cfg, &owner, 31, 1, rate(), Some(open_round()), None, &stored).unwrap_err(),
        ContractError::Std(StdError::NotFound { item: StoredItem::DistributionInfo })
    );
}

#[test]
fn finalize_with_a_pool_too_small_to_price_would_panic() {
    let cfg = config();
    // one token at rate 0.5 asks for no reward at all: the ratio divides by zero
    let stored = vec![Some(pool(1, 1)), None, None];
    let half = Decimal::raw(ONE / 2);
    assert!(!check_finalize_in_range(&cfg, &"owner".to_string(), 31, 1, Some(open_round()), Some(reward(10)), &stored, half));
    let fine = vec![Some(pool(1, 100)), None, None];
    assert!(check_finalize_in_range(&cfg, &"owner".to_string(), 31, 1, Some(open_round()), Some(reward(10)), &fine, half));
    // not the owner: refused before any arithmetic
    assert!(check_finalize_in_range(&cfg, &"x".to_string(), 31, 1, Some(open_round()), Some(reward(10)), &stored, half));
}

fn finalized_pools() -> Vec<Option<BidPool>> {
    finalize(400).unwrap().bid_pools.into_iter().map(Some).collect()
}

fn released() -> DistributionInfo {
    let mut d = reward(400);
    d.is_released = true;
    d.num_bids_distributed = 4;
    d
}

#[test]
fn distribute_pays_reward_and_residue() {
    let cfg = config();
    let pools = finalized_pools();
    let mut done = bid(3, 1, "carol", 50);
    done.is_distributed = true;
    let bids = vec![(1, Some(bid(1, 1, "alice", 100))), (2, Some(bid(2, 2, "bob", 200))), (3, Some(done))];
    assert!(check_distribute_in_range(&cfg, Some(released()), &pools, &bids));
    let out = execute_distribute(&cfg, Some(released()), &pools, &bids).unwrap();
    assert_eq!(out.distribution_info.num_bids_distributed, 6);
    assert_eq!(out.bids.len(), 2);
    let (k, alice) = &out.bids[0];
    assert_eq!(*k, 1);
    assert_eq!(alice.amount_received, 151);
    assert_eq!(alice.residue_bid, 0);
    assert!(alice.is_distributed);
    let (k, bob) = &out.bids[1];
    assert_eq!(*k, 2);
    assert_eq!(bob.amount_received, 249);
    assert_eq!(bob.residue_bid, 37);
    assert_eq!(out.messages.len(), 3);
    match (&out.messages[0], &out.messages[1], &out.messages[2]) {
        (
            TokenMsg::Transfer { asset: a0, recipient: r0, amount: m0 },
            TokenMsg::Transfer { asset: a1, recipient: r1, amount: m1 },
            TokenMsg::Transfer { asset: a2, recipient: r2, amount: m2 },
        ) => {
            assert!(*a0 == token("usdt") && r0 == "alice" && *m0 == 151);
            assert!(*a1 == token("usdt") && r1 == "bob" && *m1 == 249);
            assert!(*a2 == native("orai") && r2 == "bob" && *m2 == 37);
        },
        other => panic!("unexpected {:?}", other),
    }
}

#[test]
fn distribute_twice_pays_once() {
    let cfg = config();
    let pools = finalized_pools();
    let bids = vec![(1, Some(bid(1, 1, "alice", 100))), (2, Some(bid(2, 2, "bob", 200)))];
    let first = execute_distribute(&cfg, Some(released()), &pools, &bids).unwrap();
    let stored: Vec<(u64, Option<Bid>)> = first.bids.into_iter().map(|(k, b)| (k, Some(b))).collect();
    let second = execute_distribute(&cfg, Some(first.distribution_info), &pools, &stored).unwrap();
    assert!(second.bids.is_empty());
    assert!(second.messages.is_empty());
    assert_eq!(second.distribution_info.num_bids_distributed, 6);
}

#[test]
fn distribute_refusals() {
    let cfg = config();
    let pools = finalized_pools();
    let bids = vec![(1, Some(bid(1, 1, "alice", 100))), (2, None)];
    assert_eq!(
        execute_distribute(&cfg, None, &pools, &bids).unwrap_err(),
        ContractError::Std(StdError::NotFound { item: StoredItem::DistributionInfo })
    );
    assert_eq!(execute_distribute(&cfg, Some(reward(400)), &pools, &bids).unwrap_err(), ContractError::BidNotEnded);
    assert_eq!(
        execute_distribute(&cfg, Some(released()), &pools, &bids).unwrap_err(),
        ContractError::Std(StdError::NotFound { item: StoredItem::Bid })
    );
}

#[test]
fn distribute_with_a_bid_beyond_the_slots_would_panic() {
    let cfg = config();
    let pools = finalized_pools();
    let bids = vec![(1, Some(bid(1, 4, "alice", 100)))];
    assert!(!check_distribute_in_range(&cfg, Some(released()), &pools, &bids));
}

#[test]
fn estimate_of_bid_matches_its_payout() {
    let cfg = config();
    let stored = vec![Some(pool(1, 100)), Some(pool(2, 200)), None];
    let bob = bid(2, 2, "bob", 200);
    let est = query_estimate_amount_receive_of_bid(&cfg, Some(reward(400)), Some(bob), Some(open_round()), &stored, rate())
        .unwrap();
    assert_eq!(est.receive, 249);
    assert_eq!(est.residue_bid, 37);
    let alice = bid(1, 1, "alice", 100);
    let est = query_estimate_amount_receive_of_bid(&cfg, Some(reward(400)), Some(alice), Some(open_round()), &stored, rate())
        .unwrap();
    assert_eq!(est.receive, 151);
    assert_eq!(est.residue_bid, 0);
}

#[test]
fn estimate_of_bid_refusals() {
    let cfg = config();
    let stored = vec![None, None, None];
    assert_eq!(
        query_estimate_amount_receive_of_bid(&cfg, None, None, None, &stored, rate()).unwrap_err(),
        StdError::NotFound { item: StoredItem::DistributionInfo }
    );
    assert_eq!(
        query_estimate_amount_receive_of_bid(&cfg, Some(reward(1)), None, None, &stored, rate()).unwrap_err(),
        StdError::NotFound { item: StoredItem::Bid }
    );
    assert_eq!(
        query_estimate_amount_receive_of_bid(&cfg, Some(reward(1)), Some(bid(1, 1, "a", 100)), None, &stored, rate())
            .unwrap_err(),
        StdError::NotFound { item: StoredItem::BiddingInfo }
    );
}

#[test]
fn estimate_of_new_deposit_counts_it_in_its_pool() {
    let cfg = config();
    let stored = vec![Some(pool(1, 100)), None, None];
    // slot 2 with 200 more: the same round as above
    let est = query_estimate_amount_receive(&cfg, Some(reward(400)), Some(open_round()), &stored, 2, 200, rate()).unwrap();
    assert_eq!(est.receive, 249);
    assert_eq!(est.residue_bid, 37);
    // slot 0 has no pool: nothing received, all given back
    let est = query_estimate_amount_receive(&cfg, Some(reward(400)), Some(open_round()), &stored, 0, 50, rate()).unwrap();
    assert_eq!(est.receive, 0);
    assert_eq!(est.residue_bid, 50);
}

#[test]
fn payout_of_split_bids_stays_within_the_round() {
    let cfg = config();
    let finalized = finalize(400).unwrap();
    let matched = finalized.bidding_info.total_bid_matched;
    let handed_out = finalized.distribution_info.actual_distributed;
    let pools: Vec<Option<BidPool>> = finalized.bid_pools.into_iter().map(Some).collect();
    // the deposits of slot 1 (100) and slot 2 (200), split over four bids
    let bids = vec![
        (1, Some(bid(1, 1, "alice", 33))),
        (2, Some(bid(2, 1, "bob", 67))),
        (3, Some(bid(3, 2, "carol", 101))),
        (4, Some(bid(4, 2, "dave", 99))),
    ];
    let out = execute_distribute(&cfg, Some(released()), &pools, &bids).unwrap();
    let received: Vec<u128> = out.bids.iter().map(|(_, b)| b.amount_received).collect();
    let residue: Vec<u128> = out.bids.iter().map(|(_, b)| b.residue_bid).collect();
    assert_eq!(received, vec![49, 101, 125, 123]);
    assert_eq!(residue, vec![0, 0, 18, 18]);
    let total_received: u128 = received.iter().sum();
    let total_residue: u128 = residue.iter().sum();
    assert!(total_received <= handed_out);
    assert_eq!((total_received, handed_out), (398, 400));
    assert!(matched + total_residue <= 300);
    assert_eq!(matched + total_residue, 298);
}

#[test]
fn bid_from_a_refused_address_is_refused() {
    let cfg = config();
    assert_eq!(
        execute_submit_bid(&cfg, 25, 1, 2, "Not An Address".to_string(), false, &orai(500), Some(open_round()), None, None)
            .unwrap_err(),
        ContractError::Std(StdError::GenericErr { reason: GenericReason::InvalidAddress })
    );
    // the round must be open first: a closed round is refused as such
    assert_eq!(
        execute_submit_bid(&cfg, 31, 1, 2, "Not An Address".to_string(), false, &orai(500), Some(open_round()), None, None)
            .unwrap_err(),
        ContractError::BidNotOpen
    );
}

#[test]
fn estimate_of_new_deposit_is_what_the_bid_is_paid() {
    let cfg = config();
    let stored = vec![Some(pool(1, 100)), None, None];
    let mut round = open_round();
    round.total_bid_amount = 100;
    let est = query_estimate_amount_receive(&cfg, Some(reward(400)), Some(round), &stored, 2, 200, rate()).unwrap();
    // make the bid
    let made = execute_submit_bid(&cfg, 25, 1, 2, "erin".to_string(), true, &orai(200), Some(round), None, Some(9)).unwrap();
    assert_eq!(made.bid_pool.slot, 2);
    let after = vec![Some(pool(1, 100)), Some(made.bid_pool), None];
    // finalize and pay out
    let fin = execute_finalize_bidding_round_result(
        &cfg,
        &"owner".to_string(),
        31,
        1,
        rate(),
        Some(made.bidding_info),
        Some(reward(400)),
        &after,
    )
    .unwrap();
    let slots: Vec<u8> = fin.bid_pools.iter().map(|p| p.slot).collect();
    assert_eq!(slots, vec![1, 2, 3]);
    let saved: Vec<Option<BidPool>> = fin.bid_pools.into_iter().map(Some).collect();
    let paid = execute_distribute(&cfg, Some(released()), &saved, &vec![(9, Some(made.bid))]).unwrap();
    let (_, bid) = &paid.bids[0];
    assert_eq!((bid.amount_received, bid.residue_bid), (est.receive, est.residue_bid));
    assert_eq!((est.receive, est.residue_bid), (249, 37));
}

#[test]
fn stored_totals_stay_consistent_through_a_round() {
    let cfg = config();
    let mut info = open_round();
    info.total_bid_amount = 0;
    let mut pools: Vec<Option<BidPool>> = vec![None, None, None];
    let mut counter: Option<u64> = None;
    let mut bids: Vec<Bid> = Vec::new();
    let mut alice_list: Option<Vec<u64>> = None;
    for (who, slot, amount) in [("alice", 1u8, 120u128), ("bob", 2, 200), ("alice", 2, 150)] {
        let k = (slot - 1) as usize;
        let out = execute_submit_bid(&cfg, 25, 1, slot, who.to_string(), true, &orai(amount), Some(info), pools[k], counter)
            .unwrap();
        info = out.bidding_info;
        pools[k] = Some(out.bid_pool);
        counter = Some(out.next_bid_idx);
        if who == "alice" {
            alice_list = Some(store_bid(alice_list, out.bid.idx));
        }
        bids.push(out.bid);
    }
    // round total == sum of pool totals == sum of bid amounts
    let pool_sum: u128 = pools.iter().map(|p| p.map_or(0, |p| p.total_bid_amount)).sum();
    let bid_sum: u128 = bids.iter().map(|b| b.amount).sum();
    assert_eq!((info.total_bid_amount, pool_sum, bid_sum), (470, 470, 470));
    assert_eq!(pools[1].unwrap().total_bid_amount, 350);
    // the bidder's list holds their bids, in order; the counter only grows
    assert_eq!(alice_list, Some(vec![1, 3]));
    assert_eq!(counter, Some(4));
    // finalizing keeps every pool's deposits and its slot
    let fin = execute_finalize_bidding_round_result(&cfg, &"owner".to_string(), 31, 1, rate(), Some(info), Some(reward(400)), &pools)
        .unwrap();
    for (i, p) in fin.bid_pools.iter().enumerate() {
        assert_eq!(p.slot as usize, i + 1);
        assert_eq!(p.total_bid_amount, pools[i].map_or(0, |p| p.total_bid_amount));
    }
    assert_eq!(fin.bidding_info.total_bid_amount, 470);
    // paying out keeps each bid's index, slot, bidder and deposit
    let saved: Vec<Option<BidPool>> = fin.bid_pools.into_iter().map(Some).collect();
    let entries: Vec<(u64, Option<Bid>)> = bids.iter().map(|b| (b.idx, Some(b.copy()))).collect();
    let mut dist = fin.distribution_info;
    dist.num_bids_distributed = 0;
    let paid = execute_distribute(&cfg, Some(dist), &saved, &entries).unwrap();
    assert_eq!(paid.distribution_info.exchange_rate, rate());
    assert_eq!(paid.distribution_info.actual_distributed, dist.actual_distributed);
    for ((k, p), b) in paid.bids.iter().zip(bids.iter()) {
        assert_eq!((*k, p.idx, p.premium_slot, p.amount), (b.idx, b.idx, b.premium_slot, b.amount));
        assert_eq!(p.bidder, b.bidder);
        assert!(p.is_distributed);
    }
}
