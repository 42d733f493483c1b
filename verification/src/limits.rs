//! Where the contract would panic: on an arithmetic overflow, a division by
//! zero or an index out of range. Each handler requires the predicate here
//! named after it, and each predicate has a check that decides it.
use vstd::prelude::*;
use crate::asset::Asset;
use crate::bid::{
    allocation, allocation_fits, allocation_ok, bid_precheck, count_unpaid, finalize_precheck, payable, pool_for_bid, process_calc_distribution_amount, round_before, slot_index,
    slot_received_per_token, stored_before, treasury_times_fit, treasury_start,
};
use crate::contract::{add_to_slot, estimate_ok, pool_of_slot};
use crate::decimal::{checked_mul_uint_decimal, Decimal, DECIMAL_FRACTIONAL};
use crate::state::{next_bid_idx, pools_or_empty, Bid, BidPool, BiddingInfo, Config, DistributionInfo};

verus! {

/// The premium of every slot fits in a decimal.
pub open spec fn premium_in_range(config: &Config) -> bool {
    config.premium_rate_per_slot.atomics * config.max_slot <= u128::MAX
}

/// A round the owner creates gets an id that fits.
pub open spec fn create_new_round_in_range(config: &Config, sender: &String, last_round_id: Option<u64>) -> bool {
    config.owner@ == sender@ ==> (last_round_id matches Some(id) ==> id < u64::MAX)
}

/// A round the treasury opens gets an id, a start and an end that fit.
pub open spec fn treasury_round_in_range(
    config: &Config,
    sender: &String,
    funds: &Asset,
    now: u64,
    last_round_id: Option<u64>,
    stored_last_round: Option<BiddingInfo>,
) -> bool {
    config.distribution_token.same_as(&funds.info) && config.treasury@ == sender@ ==> (last_round_id matches Some(id)
        ==> (round_before(id, stored_last_round, now) matches Some(last) ==> (last.start_time <= now ==> (
    treasury_times_fit(last, now, config.bidding_duration) && id < u64::MAX))))
}

/// A bid fits: the premium of a new pool, the new totals and the next bid index.
pub open spec fn submit_bid_in_range(
    config: &Config,
    now: u64,
    premium_slot: u8,
    funds: &Asset,
    stored_bidding_info: Option<BiddingInfo>,
    stored_pool: Option<BidPool>,
    stored_bid_idx: Option<u64>,
) -> bool {
    bid_precheck(config, premium_slot, funds) is None ==> (stored_bidding_info matches Some(info) ==> (info.opening_at(
        now,
    ) ==> {
        &&& stored_pool is None ==> config.premium_rate_per_slot.atomics * premium_slot <= u128::MAX
        &&& info.total_bid_amount + funds.amount <= u128::MAX
        &&& pool_for_bid(config, stored_pool, premium_slot).total_bid_amount + funds.amount <= u128::MAX
        &&& next_bid_idx(stored_bid_idx) < u64::MAX
    }))
}

/// Finalizing a round fits: the premiums and the allocation of its reward.
pub open spec fn finalize_in_range(
    config: &Config,
    sender: &String,
    now: u64,
    round: u64,
    stored_bidding_info: Option<BiddingInfo>,
    stored_distribution: Option<DistributionInfo>,
    stored_pools: Seq<Option<BidPool>>,
    exchange_rate: Decimal,
) -> bool {
    finalize_precheck(config, sender, now, round, stored_bidding_info, stored_distribution) is None ==> {
        &&& premium_in_range(config)
        &&& allocation_ok(
            pools_or_empty(config, stored_pools),
            0,
            stored_distribution->Some_0.total_distribution as int,
            0,
            exchange_rate,
        )
    }
}

/// Paying out a round fits: every bid reached is payable, and the count of
/// paid bids fits.
pub open spec fn distribute_in_range(
    config: &Config,
    stored_distribution: Option<DistributionInfo>,
    stored_pools: Seq<Option<BidPool>>,
    bids: Seq<(u64, Option<Bid>)>,
) -> bool {
    stored_distribution matches Some(dist) ==> (dist.is_released ==> {
        &&& forall|i: int|
            0 <= i < bids.len() && stored_before(bids, i) ==> (bids[i].1 matches Some(b) ==> (!b.is_distributed
                ==> payable(config, stored_pools, b)))
        &&& forall|i: int|
            0 <= i <= bids.len() && stored_before(bids, i) ==> dist.num_bids_distributed + count_unpaid(
                #[trigger] bids.take(i),
            ) <= u64::MAX
    })
}

/// Estimating what a stored bid receives fits.
pub open spec fn estimate_of_bid_in_range(
    config: &Config,
    stored_distribution: Option<DistributionInfo>,
    stored_bid: Option<Bid>,
    stored_bidding_info: Option<BiddingInfo>,
    stored_pools: Seq<Option<BidPool>>,
    exchange_rate: Decimal,
) -> bool {
    stored_distribution matches Some(dist) ==> (stored_bid matches Some(bid) ==> (stored_bidding_info is Some ==> {
        &&& premium_in_range(config)
        &&& allocation_ok(pools_or_empty(config, stored_pools), 0, dist.total_distribution as int, 0, exchange_rate)
        &&& estimate_ok(
            allocation(pools_or_empty(config, stored_pools), dist.total_distribution as int, exchange_rate).0,
            config.max_slot,
            bid.premium_slot,
            bid.amount,
        )
    }))
}

/// Estimating what a new deposit receives fits.
pub open spec fn estimate_receive_in_range(
    config: &Config,
    stored_distribution: Option<DistributionInfo>,
    stored_bidding_info: Option<BiddingInfo>,
    stored_pools: Seq<Option<BidPool>>,
    slot: u8,
    bid_amount: u128,
    exchange_rate: Decimal,
) -> bool {
    stored_distribution matches Some(dist) ==> (stored_bidding_info is Some ==> {
        let pools = add_to_slot(pools_or_empty(config, stored_pools), slot, bid_amount);
        &&& premium_in_range(config)
        &&& add_fits(pools_or_empty(config, stored_pools), slot, bid_amount)
        &&& allocation_ok(pools, 0, dist.total_distribution as int, 0, exchange_rate)
        &&& estimate_ok(allocation(pools, dist.total_distribution as int, exchange_rate).0, config.max_slot, slot, bid_amount)
    })
}

/// The first pool among `pools` with slot `slot` can take `amount` more.
pub open spec fn add_fits(pools: Seq<BidPool>, slot: u8, amount: u128) -> bool {
    forall|i: int|
        0 <= i < pools.len() && (#[trigger] pools[i]).slot == slot && (forall|j: int|
            0 <= j < i ==> (#[trigger] pools[j]).slot != slot) ==> pools[i].total_bid_amount + amount <= u128::MAX
}

pub fn check_premium_in_range(config: &Config) -> (r: bool)
    ensures
        r == premium_in_range(config),
{
    config.premium_rate_per_slot.atomics.checked_mul(config.max_slot as u128).is_some()
}

pub fn check_create_new_round_in_range(config: &Config, sender: &String, last_round_id: Option<u64>) -> (r: bool)
    ensures
        r == create_new_round_in_range(config, sender, last_round_id),
{
    !(config.owner.eq(sender) && last_round_id == Some(u64::MAX))
}

pub fn check_treasury_round_in_range(
    config: &Config,
    sender: &String,
    funds: &Asset,
    now: u64,
    last_round_id: Option<u64>,
    stored_last_round: Option<BiddingInfo>,
) -> (r: bool)
    ensures
        r == treasury_round_in_range(config, sender, funds, now, last_round_id, stored_last_round),
{
    if !(config.distribution_token == funds.info) || !config.treasury.eq(sender) {
        return true;
    }
    let id = match last_round_id {
        Some(id) => id,
        None => return true,
    };
    let last = if id != 0 {
        match stored_last_round {
            Some(info) => info,
            None => return true,
        }
    } else {
        BiddingInfo { round: 0, start_time: now, end_time: now, total_bid_amount: 0, total_bid_matched: 0 }
    };
    if last.start_time > now {
        return true;
    }
    if last.end_time == u64::MAX || id == u64::MAX {
        return false;
    }
    let after_last = last.end_time + 1;
    let start = if now >= after_last { now } else { after_last };
    assert(start == treasury_start(now, last.end_time));
    start.checked_add(config.bidding_duration).is_some()
}

pub fn check_submit_bid_in_range(
    config: &Config,
    now: u64,
    premium_slot: u8,
    funds: &Asset,
    stored_bidding_info: Option<BiddingInfo>,
    stored_pool: Option<BidPool>,
    stored_bid_idx: Option<u64>,
) -> (r: bool)
    ensures
        r == submit_bid_in_range(config, now, premium_slot, funds, stored_bidding_info, stored_pool, stored_bid_idx),
{
    if !(config.underlying_token == funds.info) || config.min_deposit_amount > funds.amount || premium_slot < 1
        || premium_slot > config.max_slot {
        return true;
    }
    let info = match stored_bidding_info {
        Some(info) => info,
        None => return true,
    };
    if !info.opening(now) {
        return true;
    }
    let pool_total = match stored_pool {
        Some(p) => p.total_bid_amount,
        None => {
            if config.premium_rate_per_slot.atomics.checked_mul(premium_slot as u128).is_none() {
                return false;
            }
            0
        },
    };
    let next = match stored_bid_idx {
        Some(v) => v,
        None => 1,
    };
    info.total_bid_amount.checked_add(funds.amount).is_some() && pool_total.checked_add(funds.amount).is_some() && next
        < u64::MAX
}

pub fn check_finalize_in_range(
    config: &Config,
    sender: &String,
    now: u64,
    round: u64,
    stored_bidding_info: Option<BiddingInfo>,
    stored_distribution: Option<DistributionInfo>,
    stored_pools: &Vec<Option<BidPool>>,
    exchange_rate: Decimal,
) -> (r: bool)
    requires
        stored_pools.len() == config.max_slot,
    ensures
        r == finalize_in_range(config, sender, now, round, stored_bidding_info, stored_distribution, stored_pools@, exchange_rate),
{
    if !config.owner.eq(sender) {
        return true;
    }
    let info = match stored_bidding_info {
        Some(info) => info,
        None => return true,
    };
    if !info.finished(now) {
        return true;
    }
    let dist = match stored_distribution {
        Some(dist) => dist,
        None => return true,
    };
    if dist.is_released {
        return true;
    }
    if !check_premium_in_range(config) {
        return false;
    }
    match info.read_all_bid_pool(config, stored_pools) {
        Ok(pools) => allocation_fits(&pools, dist.total_distribution, exchange_rate),
        Err(_) => true,
    }
}

/// The matched share and the reward per token of a slot, from the pools
/// stored for slots `1..=stored.len()`.
fn stored_slot_rates(stored_pools: &Vec<Option<BidPool>>, slot: u8) -> (r: (Decimal, Decimal))
    ensures
        r.0.atomics == slot_index(stored_pools@, slot),
        r.1.atomics == slot_received_per_token(stored_pools@, slot),
{
    if 1 <= slot && (slot as usize) <= stored_pools.len() {
        match stored_pools[(slot - 1) as usize] {
            Some(pool) => (pool.index_snapshot, pool.received_per_token),
            None => (Decimal::zero(), Decimal::zero()),
        }
    } else {
        (Decimal::zero(), Decimal::zero())
    }
}

proof fn lemma_count_unpaid_step(bids: Seq<(u64, Option<Bid>)>, i: int)
    requires
        0 <= i < bids.len(),
    ensures
        count_unpaid(bids.take(i + 1)) == count_unpaid(bids.take(i)) + match bids[i].1 {
            Some(b) => if b.is_distributed { 0int } else { 1int },
            None => 0int,
        },
{
    assert(bids.take(i + 1).drop_last() =~= bids.take(i));
    assert(bids.take(i + 1).last() == bids[i]);
}

pub fn check_distribute_in_range(
    config: &Config,
    stored_distribution: Option<DistributionInfo>,
    stored_pools: &Vec<Option<BidPool>>,
    bids: &Vec<(u64, Option<Bid>)>,
) -> (r: bool)
    ensures
        r == distribute_in_range(config, stored_distribution, stored_pools@, bids@),
{
    let dist = match stored_distribution {
        Some(dist) => dist,
        None => return true,
    };
    if !dist.is_released {
        return true;
    }
    let mut count: u64 = dist.num_bids_distributed;
    let mut i: usize = 0;
    assert(bids@.take(0) =~= Seq::<(u64, Option<Bid>)>::empty());
    while i < bids.len()
        invariant
            i <= bids.len(),
            stored_distribution == Some(dist),
            dist.is_released,
            stored_before(bids@, i as int),
            count == dist.num_bids_distributed + count_unpaid(bids@.take(i as int)),
            forall|k: int|
                0 <= k < i && stored_before(bids@, k) ==> (bids@[k].1 matches Some(b) ==> (!b.is_distributed ==> payable(
                    config,
                    stored_pools@,
                    b,
                ))),
            forall|k: int|
                0 <= k <= i && stored_before(bids@, k) ==> dist.num_bids_distributed + count_unpaid(
                    #[trigger] bids@.take(k),
                ) <= u64::MAX,
        decreases bids.len() - i,
    {
        proof {
            lemma_count_unpaid_step(bids@, i as int);
        }
        let bid = match &bids[i].1 {
            Some(b) => b,
            None => {
                assert forall|k: int|
                    0 <= k <= bids.len() && stored_before(bids@, k) implies dist.num_bids_distributed + count_unpaid(
                    #[trigger] bids@.take(k),
                ) <= u64::MAX by {
                    if k > i {
                        assert(bids@[i as int].1 is Some);
                    }
                }
                assert forall|k: int|
                    0 <= k < bids.len() && stored_before(bids@, k) implies (bids@[k].1 matches Some(b) ==> (
                    !b.is_distributed ==> payable(config, stored_pools@, b))) by {
                    if k > i {
                        assert(bids@[i as int].1 is Some);
                    }
                }
                return true;
            },
        };
        if !bid.is_distributed {
            let (index, per_token) = stored_slot_rates(stored_pools, bid.premium_slot);
            let fits = bid.premium_slot <= config.max_slot && index.atomics <= DECIMAL_FRACTIONAL
                && checked_mul_uint_decimal(bid.amount, per_token).is_some();
            if !fits {
                assert(!payable(config, stored_pools@, *bid));
                return false;
            }
            if count == u64::MAX {
                assert(stored_before(bids@, i + 1));
                assert(dist.num_bids_distributed + count_unpaid(bids@.take(i + 1)) > u64::MAX);
                return false;
            }
            count = count + 1;
        }
        assert(stored_before(bids@, i + 1));
        i = i + 1;
    }
    true
}

/// Whether an estimate from the allocated pools fits: all pools hold slots in
/// range, and the matched share and the reward of `slot` are in range.
pub fn check_estimate_ok(pools: &Vec<BidPool>, max_slot: u8, slot: u8, amount: u128) -> (r: bool)
    ensures
        r == estimate_ok(pools@, max_slot, slot, amount),
{
    if slot > max_slot {
        return false;
    }
    let mut found: Option<BidPool> = None;
    let mut i: usize = 0;
    while i < pools.len()
        invariant
            i <= pools.len(),
            forall|j: int| 0 <= j < i ==> (#[trigger] pools@[j]).slot <= max_slot,
            found == pool_of_slot(pools@.take(i as int), slot),
        decreases pools.len() - i,
    {
        proof {
            assert(pools@.take(i + 1).drop_last() =~= pools@.take(i as int));
            assert(pools@.take(i + 1).last() == pools@[i as int]);
        }
        if pools[i].slot > max_slot {
            return false;
        }
        if pools[i].slot == slot {
            found = Some(pools[i]);
        }
        i = i + 1;
    }
    assert(pools@.take(pools.len() as int) =~= pools@);
    let (index, per_token) = match found {
        Some(p) => (p.index_snapshot, p.received_per_token),
        None => (Decimal::zero(), Decimal::zero()),
    };
    index.atomics <= DECIMAL_FRACTIONAL && checked_mul_uint_decimal(amount, per_token).is_some()
}

pub fn check_estimate_of_bid_in_range(
    config: &Config,
    stored_distribution: Option<DistributionInfo>,
    stored_bid: Option<Bid>,
    stored_bidding_info: Option<BiddingInfo>,
    stored_pools: &Vec<Option<BidPool>>,
    exchange_rate: Decimal,
) -> (r: bool)
    requires
        stored_pools.len() == config.max_slot,
    ensures
        r == estimate_of_bid_in_range(config, stored_distribution, stored_bid, stored_bidding_info, stored_pools@, exchange_rate),
{
    let (dist, bid, info) = match (stored_distribution, stored_bid, stored_bidding_info) {
        (Some(dist), Some(bid), Some(info)) => (dist, bid, info),
        _ => return true,
    };
    if !check_premium_in_range(config) {
        return false;
    }
    let mut pools = match info.read_all_bid_pool(config, stored_pools) {
        Ok(pools) => pools,
        Err(_) => return true,
    };
    if !allocation_fits(&pools, dist.total_distribution, exchange_rate) {
        return false;
    }
    let mut remaining = dist.total_distribution;
    let _ = process_calc_distribution_amount(&mut pools, &mut remaining, exchange_rate);
    check_estimate_ok(&pools, config.max_slot, bid.premium_slot, bid.amount)
}

pub fn check_estimate_receive_in_range(
    config: &Config,
    stored_distribution: Option<DistributionInfo>,
    stored_bidding_info: Option<BiddingInfo>,
    stored_pools: &Vec<Option<BidPool>>,
    slot: u8,
    bid_amount: u128,
    exchange_rate: Decimal,
) -> (r: bool)
    requires
        stored_pools.len() == config.max_slot,
    ensures
        r == estimate_receive_in_range(config, stored_distribution, stored_bidding_info, stored_pools@, slot, bid_amount, exchange_rate),
{
    let (dist, info) = match (stored_distribution, stored_bidding_info) {
        (Some(dist), Some(info)) => (dist, info),
        _ => return true,
    };
    if !check_premium_in_range(config) {
        return false;
    }
    let mut pools = match info.read_all_bid_pool(config, stored_pools) {
        Ok(pools) => pools,
        Err(_) => return true,
    };
    let ghost pools0 = pools@;
    let mut id: usize = 0;
    while id < pools.len() && pools[id].slot != slot
        invariant
            id <= pools.len(),
            pools@ == pools0,
            forall|j: int| 0 <= j < id ==> (#[trigger] pools0[j]).slot != slot,
        decreases pools.len() - id,
    {
        id = id + 1;
    }
    proof {
        crate::contract::lemma_add_to_slot(pools0, slot, bid_amount, id as int);
    }
    if id < pools.len() {
        let pool = pools[id];
        if pool.total_bid_amount.checked_add(bid_amount).is_none() {
            assert(!add_fits(pools0, slot, bid_amount));
            return false;
        }
        pools.set(id, BidPool { total_bid_amount: pool.total_bid_amount + bid_amount, ..pool });
    }
    assert(add_fits(pools0, slot, bid_amount));
    assert(pools@ == add_to_slot(pools0, slot, bid_amount));
    if !allocation_fits(&pools, dist.total_distribution, exchange_rate) {
        return false;
    }
    let mut remaining = dist.total_distribution;
    let _ = process_calc_distribution_amount(&mut pools, &mut remaining, exchange_rate);
    check_estimate_ok(&pools, config.max_slot, slot, bid_amount)
}

} // verus!
