use vstd::prelude::*;
use crate::asset::{Asset, AssetInfo, TokenMsg};
use crate::decimal::{
    checked_decimal_from_ratio, checked_mul_uint_decimal, decimal_from_ratio, mul_floor, mul_uint_decimal, ratio_atomics,
    Decimal, DECIMAL_FRACTIONAL,
};
use crate::error::{generic, not_found, ContractError, GenericReason, StdError, StoredItem};
use crate::laws::token_name;
use crate::limits::{
    create_new_round_in_range, distribute_in_range, finalize_in_range, submit_bid_in_range, treasury_round_in_range,
};
use crate::state::{
    empty_pool, next_bid_idx, pools_or_empty, pop_bid_idx, read_or_create_bid_pool, Bid, BidPool,
    BiddingInfo, Config, DistributionInfo,
};

verus! {

pub open spec fn min_int(a: int, b: int) -> int {
    if a <= b { a } else { b }
}

/// The reward a pool asks for: its deposits at the exchange rate, then with
/// its premium on top, each product rounded down.
pub open spec fn desired_amount(pool: BidPool, rate: Decimal) -> int {
    mul_floor(
        mul_floor(pool.total_bid_amount as int, rate.atomics as int),
        DECIMAL_FRACTIONAL + pool.premium_rate.atomics,
    )
}

/// The reward a pool gets out of `remaining`: what it asks for, or all that
/// is left when that is less.
pub open spec fn allocated_amount(pool: BidPool, remaining: int, rate: Decimal) -> int {
    min_int(desired_amount(pool, rate), remaining)
}

/// A pool once its share of `remaining` is settled: the matched share of its
/// bids and the reward per deposited token.
pub open spec fn matched_pool(pool: BidPool, remaining: int, rate: Decimal) -> BidPool {
    let actual = allocated_amount(pool, remaining, rate);
    BidPool {
        slot: pool.slot,
        total_bid_amount: pool.total_bid_amount,
        premium_rate: pool.premium_rate,
        index_snapshot: Decimal { atomics: ratio_atomics(actual, desired_amount(pool, rate)) as u128 },
        received_per_token: Decimal { atomics: ratio_atomics(actual, pool.total_bid_amount as int) as u128 },
    }
}

/// The deposits of a pool that its share of the reward matches.
pub open spec fn matched_amount(pool: BidPool, remaining: int, rate: Decimal) -> int {
    mul_floor(pool.total_bid_amount as int, matched_pool(pool, remaining, rate).index_snapshot.atomics as int)
}

/// The allocation, from pool `i` on, with `remaining` reward left and
/// `matched` deposits matched so far: pools without deposits are passed
/// over, each other pool takes its share in turn, and the allocation stops
/// once no reward is left. Gives the pools, the reward left and the deposits
/// matched.
pub open spec fn allocate_from(pools: Seq<BidPool>, i: int, remaining: int, matched: int, rate: Decimal) -> (Seq<BidPool>, int, int)
    decreases pools.len() - i,
{
    if i < 0 || i >= pools.len() {
        (pools, remaining, matched)
    } else if pools[i].total_bid_amount == 0 {
        allocate_from(pools, i + 1, remaining, matched, rate)
    } else {
        let next = pools.update(i, matched_pool(pools[i], remaining, rate));
        let left = remaining - allocated_amount(pools[i], remaining, rate);
        let m = matched + matched_amount(pools[i], remaining, rate);
        if left == 0 {
            (next, left, m)
        } else {
            allocate_from(next, i + 1, left, m, rate)
        }
    }
}

/// The arithmetic of one pool's allocation stays in range and divides by no zero.
pub open spec fn step_ok(pool: BidPool, remaining: int, matched: int, rate: Decimal) -> bool {
    &&& mul_floor(pool.total_bid_amount as int, rate.atomics as int) <= u128::MAX
    &&& DECIMAL_FRACTIONAL + pool.premium_rate.atomics <= u128::MAX
    &&& desired_amount(pool, rate) <= u128::MAX
    &&& desired_amount(pool, rate) > 0
    &&& ratio_atomics(allocated_amount(pool, remaining, rate), pool.total_bid_amount as int) <= u128::MAX
    &&& matched + matched_amount(pool, remaining, rate) <= u128::MAX
}

/// The allocation from pool `i` on runs without overflow or division by zero.
pub open spec fn allocation_ok(pools: Seq<BidPool>, i: int, remaining: int, matched: int, rate: Decimal) -> bool
    decreases pools.len() - i,
{
    if i < 0 || i >= pools.len() {
        true
    } else if pools[i].total_bid_amount == 0 {
        allocation_ok(pools, i + 1, remaining, matched, rate)
    } else {
        let next = pools.update(i, matched_pool(pools[i], remaining, rate));
        let left = remaining - allocated_amount(pools[i], remaining, rate);
        let m = matched + matched_amount(pools[i], remaining, rate);
        step_ok(pools[i], remaining, matched, rate) && (left == 0 || allocation_ok(next, i + 1, left, m, rate))
    }
}

/// The allocation of a round's reward over its pools, in slot order.
pub open spec fn allocation(pools: Seq<BidPool>, reward: int, rate: Decimal) -> (Seq<BidPool>, int, int) {
    allocate_from(pools, 0, reward, 0, rate)
}

/// A ratio of a part to its whole is at most one.
pub proof fn lemma_ratio_at_most_one(a: int, b: int)
    requires
        0 <= a <= b,
        0 < b,
    ensures
        0 <= ratio_atomics(a, b) <= DECIMAL_FRACTIONAL,
{
    let f = DECIMAL_FRACTIONAL as int;
    assert(a * f <= b * f) by (nonlinear_arith)
        requires 0 <= a <= b, f > 0;
    assert(0 <= a * f) by (nonlinear_arith)
        requires 0 <= a, f > 0;
    vstd::arithmetic::div_mod::lemma_div_is_ordered(a * f, b * f, b);
    vstd::arithmetic::div_mod::lemma_div_by_multiple(f, b);
    assert(b * f == f * b) by (nonlinear_arith);
    vstd::arithmetic::div_mod::lemma_div_pos_is_pos(a * f, b);
}

/// A whole number times a decimal of at most one is at most the number.
pub proof fn lemma_mul_floor_at_most(a: int, d: int)
    requires
        0 <= a,
        0 <= d <= DECIMAL_FRACTIONAL,
    ensures
        0 <= mul_floor(a, d) <= a,
{
    let f = DECIMAL_FRACTIONAL as int;
    assert(a * d <= a * f) by (nonlinear_arith)
        requires 0 <= a, 0 <= d <= f;
    assert(0 <= a * d) by (nonlinear_arith)
        requires 0 <= a, 0 <= d;
    vstd::arithmetic::div_mod::lemma_div_is_ordered(a * d, a * f, f);
    vstd::arithmetic::div_mod::lemma_div_by_multiple(a, f);
    vstd::arithmetic::div_mod::lemma_div_pos_is_pos(a * d, f);
}

/// Spreads the reward `distribution_amount` over the pools of a round at
/// `exchange_rate`, lowest slot first: every pool with deposits asks for its
/// deposits at the rate plus its premium and gets that, or what is left;
/// the pool records the matched share of its bids and the reward per token.
/// Stops once no reward is left. Leaves in `distribution_amount` the reward
/// not handed out and returns the deposits matched.
pub fn process_calc_distribution_amount(
    bid_pools: &mut Vec<BidPool>,
    distribution_amount: &mut u128,
    exchange_rate: Decimal,
) -> (r: Result<u128, StdError>)
    requires
        allocation_ok(old(bid_pools)@, 0, *old(distribution_amount) as int, 0, exchange_rate),
    ensures
        r matches Ok(matched) && (final(bid_pools)@, *final(distribution_amount) as int, matched as int) == allocation(
            old(bid_pools)@,
            *old(distribution_amount) as int,
            exchange_rate,
        ),
{
    let ghost start = (bid_pools@, *distribution_amount as int, exchange_rate);
    let mut total_matched: u128 = 0;
    let len = bid_pools.len();
    let mut i: usize = 0;
    while i < len
        invariant
            i <= len,
            len == bid_pools.len(),
            allocation(start.0, start.1, exchange_rate) == allocate_from(
                bid_pools@,
                i as int,
                *distribution_amount as int,
                total_matched as int,
                exchange_rate,
            ),
            allocation_ok(bid_pools@, i as int, *distribution_amount as int, total_matched as int, exchange_rate),
        decreases len - i,
    {
        let pool = bid_pools[i];
        if pool.total_bid_amount == 0 {
            i = i + 1;
            continue;
        }
        let ghost remaining = *distribution_amount as int;
        let ghost matched = total_matched as int;
        let with_rate = mul_uint_decimal(pool.total_bid_amount, exchange_rate);
        let premium = Decimal::one().add(pool.premium_rate);
        let desired_amount = mul_uint_decimal(with_rate, premium);
        let actual_amount = if desired_amount <= *distribution_amount {
            desired_amount
        } else {
            *distribution_amount
        };
        proof {
            lemma_ratio_at_most_one(actual_amount as int, desired_amount as int);
        }
        let index_snapshot = decimal_from_ratio(actual_amount, desired_amount);
        let received_per_token = decimal_from_ratio(actual_amount, pool.total_bid_amount);
        proof {
            lemma_mul_floor_at_most(pool.total_bid_amount as int, index_snapshot.atomics as int);
        }
        let matched_here = mul_uint_decimal(pool.total_bid_amount, index_snapshot);
        total_matched = total_matched + matched_here;
        *distribution_amount = *distribution_amount - actual_amount;
        bid_pools.set(
            i,
            BidPool {
                slot: pool.slot,
                total_bid_amount: pool.total_bid_amount,
                premium_rate: pool.premium_rate,
                index_snapshot,
                received_per_token,
            },
        );
        proof {
            assert(bid_pools@[i as int] == matched_pool(pool, remaining, exchange_rate));
        }
        if *distribution_amount == 0 {
            i = len;
        } else {
            i = i + 1;
        }
    }
    Ok(total_matched)
}

/// A round about to be stored: its id, its bidding side and its reward side.
#[derive(Debug)]
pub struct NewRound {
    pub round: u64,
    pub bidding_info: BiddingInfo,
    pub distribution_info: DistributionInfo,
}

/// The round created with id `round` over `[start_time, end_time]` with reward `total_distribution`.
pub open spec fn new_round(round: u64, start_time: u64, end_time: u64, total_distribution: u128) -> NewRound {
    NewRound {
        round,
        bidding_info: BiddingInfo { round, start_time, end_time, total_bid_amount: 0, total_bid_matched: 0 },
        distribution_info: DistributionInfo {
            total_distribution,
            exchange_rate: Decimal { atomics: 0 },
            is_released: false,
            actual_distributed: 0,
            num_bids_distributed: 0,
        },
    }
}

/// The outcome of creating a round after the stored last round id: the
/// round after it when the time range runs forward and has not started.
pub open spec fn create_round_result(
    last_round_id: Option<u64>,
    now: u64,
    start_time: u64,
    end_time: u64,
    total_distribution: u128,
) -> Result<NewRound, ContractError> {
    match last_round_id {
        None => Err(not_found(StoredItem::LastRoundId)),
        Some(id) => {
            let r = new_round((id + 1) as u64, start_time, end_time, total_distribution);
            if r.bidding_info.valid_duration_at(now) {
                Ok(r)
            } else {
                Err(ContractError::InvalidBiddingTimeRange)
            }
        },
    }
}

/// Funds are accepted only in the token the contract expects.
pub fn assert_token_match_funds(expected: &AssetInfo, funds: &AssetInfo) -> (r: Result<(), ContractError>)
    ensures
        expected.same_as(funds) ==> r is Ok,
        !expected.same_as(funds) ==> r == Err::<(), ContractError>(ContractError::InvalidFunds),
{
    if !(expected == funds) {
        return Err(ContractError::InvalidFunds);
    }
    Ok(())
}

/// Creates the round after the last one, over `[start_time, end_time]`,
/// which must run forward and not have started at `now`.
fn process_create_new_round(
    last_round_id: Option<u64>,
    now: u64,
    start_time: u64,
    end_time: u64,
    total_distribution: u128,
) -> (r: Result<NewRound, ContractError>)
    requires
        last_round_id matches Some(id) ==> id < u64::MAX,
    ensures
        r == create_round_result(last_round_id, now, start_time, end_time, total_distribution),
{
    let last_round = match last_round_id {
        Some(id) => id,
        None => return Err(ContractError::Std(StdError::NotFound { item: StoredItem::LastRoundId })),
    };
    let round = last_round + 1;
    let bidding_info = BiddingInfo { round, start_time, end_time, total_bid_amount: 0, total_bid_matched: 0 };
    let distribution_info = DistributionInfo {
        total_distribution,
        exchange_rate: Decimal::zero(),
        is_released: false,
        actual_distributed: 0,
        num_bids_distributed: 0,
    };
    if !bidding_info.is_valid_duration(now) {
        return Err(ContractError::InvalidBiddingTimeRange);
    }
    Ok(NewRound { round, bidding_info, distribution_info })
}

/// The owner creates the next round over `[start_time, end_time]` with reward
/// `total_distribution`.
pub fn execute_create_new_round(
    config: &Config,
    sender: &String,
    now: u64,
    last_round_id: Option<u64>,
    start_time: u64,
    end_time: u64,
    total_distribution: u128,
) -> (r: Result<NewRound, ContractError>)
    requires
        create_new_round_in_range(config, sender, last_round_id),
    ensures
        config.owner@ != sender@ ==> r == Err::<NewRound, ContractError>(ContractError::Unauthorized),
        config.owner@ == sender@ ==> r == create_round_result(last_round_id, now, start_time, end_time, total_distribution),
{
    if !config.owner.eq(sender) {
        return Err(ContractError::Unauthorized);
    }
    process_create_new_round(last_round_id, now, start_time, end_time, total_distribution)
}

/// The round a treasury round follows: the stored last round, or, before
/// the first round, an empty round at `now`.
pub open spec fn round_before(last_round_id: u64, stored: Option<BiddingInfo>, now: u64) -> Option<BiddingInfo> {
    if last_round_id != 0 {
        stored
    } else {
        Some(BiddingInfo { round: 0, start_time: now, end_time: now, total_bid_amount: 0, total_bid_matched: 0 })
    }
}

/// A treasury round starts at `now`, or just after the last round ends if that is later.
pub open spec fn treasury_start(now: u64, last_end: u64) -> int {
    if now >= last_end + 1 { now as int } else { last_end + 1 }
}

/// The start and end of the round the treasury opens after `last`, in range.
pub open spec fn treasury_times_fit(last: BiddingInfo, now: u64, duration: u64) -> bool {
    last.end_time < u64::MAX && treasury_start(now, last.end_time) + duration <= u64::MAX
}

/// The outcome of a treasury request, once the funds and the sender are accepted.
pub open spec fn treasury_round_result(
    config: &Config,
    amount: u128,
    now: u64,
    last_round_id: Option<u64>,
    stored_last_round: Option<BiddingInfo>,
) -> Result<NewRound, ContractError> {
    match last_round_id {
        None => Err(not_found(StoredItem::LastRoundId)),
        Some(id) => match round_before(id, stored_last_round, now) {
            None => Err(not_found(StoredItem::BiddingInfo)),
            Some(last) => if last.start_time > now {
                Err(generic(GenericReason::LastRoundNotStarted))
            } else {
                let start = treasury_start(now, last.end_time) as u64;
                create_round_result(last_round_id, now, start, (start + config.bidding_duration) as u64, amount)
            },
        },
    }
}

/// The treasury opens the next round with the reward it sends: the round
/// starts at `now`, or just after the last round ends if that is later, and
/// lasts the configured duration. The last round must have started.
pub fn execute_create_new_round_from_treasury(
    config: &Config,
    sender: &String,
    funds: &Asset,
    now: u64,
    last_round_id: Option<u64>,
    stored_last_round: Option<BiddingInfo>,
) -> (r: Result<NewRound, ContractError>)
    requires
        treasury_round_in_range(config, sender, funds, now, last_round_id, stored_last_round),
    ensures
        !config.distribution_token.same_as(&funds.info) ==> r == Err::<NewRound, ContractError>(
            ContractError::InvalidFunds,
        ),
        config.distribution_token.same_as(&funds.info) && config.treasury@ != sender@ ==> r == Err::<
            NewRound,
            ContractError,
        >(ContractError::Unauthorized),
        config.distribution_token.same_as(&funds.info) && config.treasury@ == sender@ ==> r == treasury_round_result(
            config,
            funds.amount,
            now,
            last_round_id,
            stored_last_round,
        ),
        !((config.distribution_token is NativeToken <==> funds.info is NativeToken) && token_name(
            config.distribution_token,
        ) == token_name(funds.info)) ==> r == Err::<NewRound, ContractError>(ContractError::InvalidFunds),
{
    proof {
        crate::laws::law_same_token(config.distribution_token, funds.info);
    }
    assert_token_match_funds(&config.distribution_token, &funds.info)?;
    if !sender.eq(&config.treasury) {
        return Err(ContractError::Unauthorized);
    }
    let last_round_id_value = match last_round_id {
        Some(id) => id,
        None => return Err(ContractError::Std(StdError::NotFound { item: StoredItem::LastRoundId })),
    };
    let last_round = if last_round_id_value != 0 {
        match stored_last_round {
            Some(info) => info,
            None => return Err(ContractError::Std(StdError::NotFound { item: StoredItem::BiddingInfo })),
        }
    } else {
        BiddingInfo { round: 0, start_time: now, end_time: now, total_bid_amount: 0, total_bid_matched: 0 }
    };
    if last_round.start_time > now {
        return Err(ContractError::Std(StdError::GenericErr { reason: GenericReason::LastRoundNotStarted }));
    }
    let after_last = last_round.end_time + 1;
    let start_time = if now >= after_last { now } else { after_last };
    let end_time = start_time + config.bidding_duration;
    process_create_new_round(last_round_id, now, start_time, end_time, funds.amount)
}

/// A round with its end time replaced, when one is given.
pub open spec fn with_end(info: BiddingInfo, end_time: Option<u64>) -> BiddingInfo {
    match end_time {
        Some(e) => BiddingInfo { end_time: e, ..info },
        None => info,
    }
}

/// A round with its start time replaced, when one is given.
pub open spec fn with_start(info: BiddingInfo, start_time: Option<u64>) -> BiddingInfo {
    match start_time {
        Some(s) => BiddingInfo { start_time: s, ..info },
        None => info,
    }
}

/// A reward side with its reward replaced, when one is given.
pub open spec fn with_total(dist: DistributionInfo, total_distribution: Option<u128>) -> DistributionInfo {
    match total_distribution {
        Some(t) => DistributionInfo { total_distribution: t, ..dist },
        None => dist,
    }
}

/// The outcome of a round update by the owner of a stored round: a round
/// that has ended is not changed; a new end time may not lie before `now`; a
/// new start time is refused while bids are taken (with the new end time);
/// and the updated round must run forward and not have started.
pub open spec fn update_round_result(
    info: BiddingInfo,
    dist: DistributionInfo,
    now: u64,
    start_time: Option<u64>,
    end_time: Option<u64>,
    total_distribution: Option<u128>,
) -> Result<(BiddingInfo, DistributionInfo), ContractError> {
    let ended = with_end(info, end_time);
    let updated = with_start(ended, start_time);
    if info.finished_at(now) {
        Err(ContractError::RoundEnded)
    } else if end_time matches Some(e) && e < now {
        Err(ContractError::InvalidBiddingTimeRange)
    } else if start_time is Some && ended.opening_at(now) {
        Err(ContractError::InvalidBiddingTimeRange)
    } else if !updated.valid_duration_at(now) {
        Err(ContractError::InvalidBiddingTimeRange)
    } else {
        Ok((updated, with_total(dist, total_distribution)))
    }
}

/// The owner changes the time range or the reward of a round.
pub fn execute_update_round(
    config: &Config,
    sender: &String,
    now: u64,
    stored_bidding_info: Option<BiddingInfo>,
    stored_distribution: Option<DistributionInfo>,
    start_time: Option<u64>,
    end_time: Option<u64>,
    total_distribution: Option<u128>,
) -> (r: Result<(BiddingInfo, DistributionInfo), ContractError>)
    ensures
        config.owner@ != sender@ ==> r == Err::<(BiddingInfo, DistributionInfo), ContractError>(
            ContractError::Unauthorized,
        ),
        config.owner@ == sender@ && stored_bidding_info is None ==> r == Err::<
            (BiddingInfo, DistributionInfo),
            ContractError,
        >(not_found(StoredItem::BiddingInfo)),
        config.owner@ == sender@ && stored_bidding_info is Some && stored_distribution is None ==> r == Err::<
            (BiddingInfo, DistributionInfo),
            ContractError,
        >(not_found(StoredItem::DistributionInfo)),
        config.owner@ == sender@ ==> (stored_bidding_info matches Some(info) ==> (stored_distribution matches Some(
            dist,
        ) ==> r == update_round_result(info, dist, now, start_time, end_time, total_distribution))),
        config.owner@ == sender@ && stored_distribution is Some && start_time is None && (
        stored_bidding_info matches Some(info) && end_time matches Some(e) && now <= info.end_time && now <= e
            && info.start_time < e && now <= info.start_time) ==> (r matches Ok(p) && p.0 == (BiddingInfo {
            end_time: end_time->Some_0,
            ..stored_bidding_info->Some_0
        })),
{
    proof {
        if stored_bidding_info is Some && stored_distribution is Some && end_time is Some {
            let info = stored_bidding_info->Some_0;
            let e = end_time->Some_0;
            if now <= info.end_time && now <= e && info.start_time < e && now <= info.start_time {
                crate::laws::law_update_end_time(info, stored_distribution->Some_0, now, e, total_distribution);
            }
        }
    }
    if !sender.eq(&config.owner) {
        return Err(ContractError::Unauthorized);
    }
    let mut bidding_info = match stored_bidding_info {
        Some(info) => info,
        None => return Err(ContractError::Std(StdError::NotFound { item: StoredItem::BiddingInfo })),
    };
    let mut distribution = match stored_distribution {
        Some(dist) => dist,
        None => return Err(ContractError::Std(StdError::NotFound { item: StoredItem::DistributionInfo })),
    };
    if bidding_info.finished(now) {
        return Err(ContractError::RoundEnded);
    }
    if let Some(total) = total_distribution {
        distribution.total_distribution = total;
    }
    if let Some(end) = end_time {
        if end < now {
            return Err(ContractError::InvalidBiddingTimeRange);
        }
        bidding_info.end_time = end;
    }
    if let Some(start) = start_time {
        if bidding_info.opening(now) {
            return Err(ContractError::InvalidBiddingTimeRange);
        }
        bidding_info.start_time = start;
    }
    if !bidding_info.is_valid_duration(now) {
        return Err(ContractError::InvalidBiddingTimeRange);
    }
    Ok((bidding_info, distribution))
}

/// What a bid writes: the round and the pool with the deposit added, the new
/// bid, and the bid counter to store back.
#[derive(Debug)]
pub struct SubmittedBid {
    pub bidding_info: BiddingInfo,
    pub bid_pool: BidPool,
    pub bid: Bid,
    pub next_bid_idx: u64,
}

/// The bid checks that come before the round is read, and their errors.
pub open spec fn bid_precheck(config: &Config, premium_slot: u8, funds: &Asset) -> Option<ContractError> {
    if !config.underlying_token.same_as(&funds.info) {
        Some(ContractError::InvalidFunds)
    } else if config.min_deposit_amount > funds.amount {
        Some(generic(GenericReason::MinimumDeposit { min_deposit_amount: config.min_deposit_amount, amount: funds.amount }))
    } else if premium_slot < 1 || premium_slot > config.max_slot {
        Some(generic(GenericReason::PremiumSlotOutOfRange { max_slot: config.max_slot, premium_slot }))
    } else {
        None
    }
}

/// The pool a bid goes into: the stored one or an empty one.
pub open spec fn pool_for_bid(config: &Config, stored_pool: Option<BidPool>, premium_slot: u8) -> BidPool {
    match stored_pool {
        Some(p) => p,
        None => empty_pool(config, premium_slot),
    }
}

/// The round once a bid of `amount` is taken: its deposits grow by the amount.
pub open spec fn bid_info_written(info: BiddingInfo, amount: u128) -> BiddingInfo {
    BiddingInfo { total_bid_amount: (info.total_bid_amount + amount) as u128, ..info }
}

/// The pool of the bid's slot once the bid is taken: the stored pool, or an
/// empty one, with the amount added.
pub open spec fn bid_pool_written(config: &Config, stored_pool: Option<BidPool>, premium_slot: u8, amount: u128) -> BidPool {
    let pool = pool_for_bid(config, stored_pool, premium_slot);
    BidPool { total_bid_amount: (pool.total_bid_amount + amount) as u128, ..pool }
}

/// The bid stored for a deposit of `amount`: the next bid index, nothing
/// received yet and all of the deposit as residue.
pub open spec fn bid_written(now: u64, round: u64, premium_slot: u8, bidder: String, amount: u128, stored_bid_idx: Option<u64>) -> Bid {
    Bid {
        idx: next_bid_idx(stored_bid_idx) as u64,
        round,
        premium_slot,
        timestamp: now,
        bidder,
        amount,
        residue_bid: amount,
        amount_received: 0,
        is_distributed: false,
    }
}

/// A bidder puts `funds` of the underlying token into the pool of
/// `premium_slot` of an open round: the deposit is added to the round and
/// to the pool, and the bid takes the next bid index, with nothing received
/// yet and all of its deposit as residue. `bidder_valid` is whether the
/// chain accepts `bidder` as an address; a bid from an address it refuses
/// is refused.
pub fn execute_submit_bid(
    config: &Config,
    now: u64,
    round: u64,
    premium_slot: u8,
    bidder: String,
    bidder_valid: bool,
    funds: &Asset,
    stored_bidding_info: Option<BiddingInfo>,
    stored_pool: Option<BidPool>,
    stored_bid_idx: Option<u64>,
) -> (r: Result<SubmittedBid, ContractError>)
    requires
        submit_bid_in_range(config, now, premium_slot, funds, stored_bidding_info, stored_pool, stored_bid_idx),
    ensures
        bid_precheck(config, premium_slot, funds) matches Some(e) ==> r == Err::<SubmittedBid, ContractError>(e),
        bid_precheck(config, premium_slot, funds) is None && stored_bidding_info is None ==> r == Err::<
            SubmittedBid,
            ContractError,
        >(not_found(StoredItem::BiddingInfo)),
        bid_precheck(config, premium_slot, funds) is None ==> (stored_bidding_info matches Some(info) ==> (
        !info.opening_at(now) ==> r == Err::<SubmittedBid, ContractError>(ContractError::BidNotOpen))),
        bid_precheck(config, premium_slot, funds) is None ==> (stored_bidding_info matches Some(info) ==> (
        info.opening_at(now) && !bidder_valid ==> r == Err::<SubmittedBid, ContractError>(
            generic(GenericReason::InvalidAddress),
        ))),
        bid_precheck(config, premium_slot, funds) is None ==> (stored_bidding_info matches Some(info) ==> (
        info.opening_at(now) && bidder_valid ==> (r matches Ok(out) && {
            &&& out.bidding_info == bid_info_written(info, funds.amount)
            &&& out.bid_pool == bid_pool_written(config, stored_pool, premium_slot, funds.amount)
            &&& out.bid == bid_written(now, round, premium_slot, bidder, funds.amount, stored_bid_idx)
            &&& out.next_bid_idx == next_bid_idx(stored_bid_idx) + 1
        }))),
        !((config.underlying_token is NativeToken <==> funds.info is NativeToken) && token_name(config.underlying_token)
            == token_name(funds.info)) ==> r == Err::<SubmittedBid, ContractError>(ContractError::InvalidFunds),
{
    proof {
        crate::laws::law_same_token(config.underlying_token, funds.info);
    }
    let amount = funds.amount;
    assert_token_match_funds(&config.underlying_token, &funds.info)?;
    if config.min_deposit_amount > amount {
        return Err(
            ContractError::Std(
                StdError::GenericErr {
                    reason: GenericReason::MinimumDeposit { min_deposit_amount: config.min_deposit_amount, amount },
                },
            ),
        );
    }
    if premium_slot < 1 || premium_slot > config.max_slot {
        return Err(
            ContractError::Std(
                StdError::GenericErr {
                    reason: GenericReason::PremiumSlotOutOfRange { max_slot: config.max_slot, premium_slot },
                },
            ),
        );
    }
    let mut bidding_info = match stored_bidding_info {
        Some(info) => info,
        None => return Err(ContractError::Std(StdError::NotFound { item: StoredItem::BiddingInfo })),
    };
    if !bidding_info.opening(now) {
        return Err(ContractError::BidNotOpen);
    }
    let mut bid_pool = match read_or_create_bid_pool(config, stored_pool, premium_slot) {
        Ok(p) => p,
        Err(e) => return Err(ContractError::Std(e)),
    };
    bidding_info.total_bid_amount = bidding_info.total_bid_amount + amount;
    bid_pool.total_bid_amount = bid_pool.total_bid_amount + amount;
    let (bid_idx, next_bid_idx) = pop_bid_idx(stored_bid_idx);
    if !bidder_valid {
        return Err(ContractError::Std(StdError::GenericErr { reason: GenericReason::InvalidAddress }));
    }
    let bid = Bid {
        idx: bid_idx,
        round,
        timestamp: now,
        premium_slot,
        bidder,
        amount,
        residue_bid: amount,
        amount_received: 0,
        is_distributed: false,
    };
    Ok(SubmittedBid { bidding_info, bid_pool, bid, next_bid_idx })
}

/// What finalizing a round writes and sends: the round with the matched
/// deposits, the reward side with the rate and the reward handed out, the
/// pools of all slots, and the token movements.
#[derive(Debug)]
pub struct FinalizedRound {
    pub bidding_info: BiddingInfo,
    pub distribution_info: DistributionInfo,
    pub bid_pools: Vec<BidPool>,
    pub messages: Vec<TokenMsg>,
}

/// The checks before a round is finalized, and their errors: only the owner
/// finalizes, a stored round that has ended and has not been finalized yet.
pub open spec fn finalize_precheck(
    config: &Config,
    sender: &String,
    now: u64,
    round: u64,
    stored_bidding_info: Option<BiddingInfo>,
    stored_distribution: Option<DistributionInfo>,
) -> Option<ContractError> {
    if config.owner@ != sender@ {
        Some(ContractError::Unauthorized)
    } else {
        match stored_bidding_info {
            None => Some(not_found(StoredItem::BiddingInfo)),
            Some(info) => if !info.finished_at(now) {
                Some(ContractError::BidNotEnded)
            } else {
                match stored_distribution {
                    None => Some(not_found(StoredItem::DistributionInfo)),
                    Some(dist) => if dist.is_released {
                        Some(generic(GenericReason::RoundFinalized { round }))
                    } else {
                        None
                    },
                }
            },
        }
    }
}

/// The token movements of a finalized round: the matched deposits of the
/// underlying token are burnt, and the reward left, if any, goes back to the
/// owner.
pub open spec fn finalize_messages(config: &Config, matched: int, left: int) -> Seq<TokenMsg> {
    let burn = seq![TokenMsg::Burn { asset: config.underlying_token, amount: matched as u128 }];
    if left != 0 {
        burn.push(TokenMsg::Transfer { asset: config.distribution_token, recipient: config.owner, amount: left as u128 })
    } else {
        burn
    }
}

/// The owner closes an ended round at `exchange_rate`: the reward is
/// allocated over the pools of all slots, the round records the deposits
/// matched and the reward side records the rate, the reward handed out and
/// that it is released. The matched deposits are burnt and the reward left
/// goes back to the owner.
pub fn execute_finalize_bidding_round_result(
    config: &Config,
    sender: &String,
    now: u64,
    round: u64,
    exchange_rate: Decimal,
    stored_bidding_info: Option<BiddingInfo>,
    stored_distribution: Option<DistributionInfo>,
    stored_pools: &Vec<Option<BidPool>>,
) -> (r: Result<FinalizedRound, ContractError>)
    requires
        stored_pools.len() == config.max_slot,
        finalize_in_range(config, sender, now, round, stored_bidding_info, stored_distribution, stored_pools@, exchange_rate),
    ensures
        finalize_precheck(config, sender, now, round, stored_bidding_info, stored_distribution) matches Some(e) ==> r
            == Err::<FinalizedRound, ContractError>(e),
        finalize_precheck(config, sender, now, round, stored_bidding_info, stored_distribution) is None ==> (
        r matches Ok(out) && {
            let info = stored_bidding_info->Some_0;
            let dist = stored_distribution->Some_0;
            let (pools, left, matched) = allocation(
                pools_or_empty(config, stored_pools@),
                dist.total_distribution as int,
                exchange_rate,
            );
            &&& out.bid_pools@ == pools
            &&& out.bidding_info == (BiddingInfo { total_bid_matched: matched as u128, ..info })
            &&& out.distribution_info == (DistributionInfo {
                exchange_rate,
                is_released: true,
                actual_distributed: (dist.total_distribution - left) as u128,
                ..dist
            })
            &&& out.messages@ == finalize_messages(config, matched, left)
            &&& out.distribution_info.actual_distributed <= dist.total_distribution
        }),
        r matches Ok(out) ==> out.messages@.len() >= 1 && out.messages@[0] == (TokenMsg::Burn {
            asset: config.underlying_token,
            amount: out.bidding_info.total_bid_matched,
        }),
        r matches Ok(out) ==> (out.distribution_info.actual_distributed < out.distribution_info.total_distribution
            ==> out.messages@.contains(
            TokenMsg::Transfer {
                asset: config.distribution_token,
                recipient: config.owner,
                amount: (out.distribution_info.total_distribution - out.distribution_info.actual_distributed) as u128,
            },
        )),
{
    if !config.owner.eq(sender) {
        return Err(ContractError::Unauthorized);
    }
    let mut bidding_info = match stored_bidding_info {
        Some(info) => info,
        None => return Err(ContractError::Std(StdError::NotFound { item: StoredItem::BiddingInfo })),
    };
    if !bidding_info.finished(now) {
        return Err(ContractError::BidNotEnded);
    }
    let mut distribution_info = match stored_distribution {
        Some(dist) => dist,
        None => return Err(ContractError::Std(StdError::NotFound { item: StoredItem::DistributionInfo })),
    };
    if distribution_info.is_released {
        return Err(ContractError::Std(StdError::GenericErr { reason: GenericReason::RoundFinalized { round } }));
    }
    distribution_info.exchange_rate = exchange_rate;
    distribution_info.is_released = true;
    let mut bid_pools = match bidding_info.read_all_bid_pool(config, stored_pools) {
        Ok(pools) => pools,
        Err(e) => return Err(ContractError::Std(e)),
    };
    let mut distribution_amount = distribution_info.total_distribution;
    let total_matched = match process_calc_distribution_amount(&mut bid_pools, &mut distribution_amount, exchange_rate) {
        Ok(m) => m,
        Err(e) => return Err(ContractError::Std(e)),
    };
    proof {
        lemma_allocate_from(
            pools_or_empty(config, stored_pools@),
            0,
            stored_distribution->Some_0.total_distribution as int,
            0,
            exchange_rate,
        );
    }
    distribution_info.actual_distributed = distribution_info.total_distribution - distribution_amount;
    bidding_info.total_bid_matched = total_matched;
    let mut messages: Vec<TokenMsg> = Vec::new();
    messages.push(TokenMsg::Burn { asset: config.underlying_token.copy(), amount: total_matched });
    if distribution_amount != 0 {
        messages.push(
            TokenMsg::Transfer {
                asset: config.distribution_token.copy(),
                recipient: config.owner.clone(),
                amount: distribution_amount,
            },
        );
    }
    proof {
        assert(messages@ =~= finalize_messages(config, total_matched as int, distribution_amount as int));
    }
    proof {
        crate::laws::law_finalize_returns_unspent(config, total_matched as int, distribution_amount as int);
    }
    Ok(FinalizedRound { bidding_info, distribution_info, bid_pools, messages })
}

/// Whether the allocation of `reward` over `pools` at `exchange_rate` runs
/// without overflow or division by zero, where the contract would panic.
pub fn allocation_fits(pools: &Vec<BidPool>, reward: u128, exchange_rate: Decimal) -> (r: bool)
    ensures
        r == allocation_ok(pools@, 0, reward as int, 0, exchange_rate),
{
    let mut bid_pools: Vec<BidPool> = Vec::new();
    let mut k: usize = 0;
    while k < pools.len()
        invariant
            k <= pools.len(),
            bid_pools@ == pools@.take(k as int),
        decreases pools.len() - k,
    {
        bid_pools.push(pools[k]);
        k = k + 1;
        assert(bid_pools@ =~= pools@.take(k as int));
    }
    assert(bid_pools@ =~= pools@);
    let ghost start = bid_pools@;
    let mut remaining: u128 = reward;
    let mut total_matched: u128 = 0;
    let len = bid_pools.len();
    let mut i: usize = 0;
    while i < len
        invariant
            i <= len,
            len == bid_pools.len(),
            start == pools@,
            allocation_ok(start, 0, reward as int, 0, exchange_rate) == allocation_ok(
                bid_pools@,
                i as int,
                remaining as int,
                total_matched as int,
                exchange_rate,
            ),
        decreases len - i,
    {
        let pool = bid_pools[i];
        if pool.total_bid_amount == 0 {
            i = i + 1;
            continue;
        }
        let ghost before_remaining = remaining as int;
        let with_rate = match checked_mul_uint_decimal(pool.total_bid_amount, exchange_rate) {
            Some(v) => v,
            None => return false,
        };
        if pool.premium_rate.atomics > u128::MAX - DECIMAL_FRACTIONAL {
            return false;
        }
        let premium = Decimal::one().add(pool.premium_rate);
        let desired_amount = match checked_mul_uint_decimal(with_rate, premium) {
            Some(v) => v,
            None => return false,
        };
        if desired_amount == 0 {
            return false;
        }
        let actual_amount = if desired_amount <= remaining {
            desired_amount
        } else {
            remaining
        };
        if checked_decimal_from_ratio(actual_amount, pool.total_bid_amount).is_none() {
            return false;
        }
        proof {
            lemma_ratio_at_most_one(actual_amount as int, desired_amount as int);
        }
        let index_snapshot = decimal_from_ratio(actual_amount, desired_amount);
        let received_per_token = decimal_from_ratio(actual_amount, pool.total_bid_amount);
        proof {
            lemma_mul_floor_at_most(pool.total_bid_amount as int, index_snapshot.atomics as int);
        }
        let matched_here = mul_uint_decimal(pool.total_bid_amount, index_snapshot);
        if total_matched > u128::MAX - matched_here {
            return false;
        }
        total_matched = total_matched + matched_here;
        remaining = remaining - actual_amount;
        bid_pools.set(
            i,
            BidPool {
                slot: pool.slot,
                total_bid_amount: pool.total_bid_amount,
                premium_rate: pool.premium_rate,
                index_snapshot,
                received_per_token,
            },
        );
        proof {
            assert(bid_pools@[i as int] == matched_pool(pool, before_remaining, exchange_rate));
        }
        if remaining == 0 {
            return true;
        }
        i = i + 1;
    }
    true
}

/// The deposits of the pools from position `i` on.
pub open spec fn deposits_from(pools: Seq<BidPool>, i: int) -> int
    decreases pools.len() - i,
{
    if i < 0 || i >= pools.len() {
        0
    } else {
        pools[i].total_bid_amount + deposits_from(pools, i + 1)
    }
}

/// A pool after the allocation: kept as it was, or settled with a matched
/// share of at most one and its slot, deposits and premium unchanged.
pub open spec fn settled_or_kept(before: BidPool, after: BidPool) -> bool {
    ||| after == before
    ||| {
        &&& after.slot == before.slot
        &&& after.total_bid_amount == before.total_bid_amount
        &&& after.premium_rate == before.premium_rate
        &&& after.index_snapshot.atomics <= DECIMAL_FRACTIONAL
    }
}

proof fn lemma_deposits_from_update(pools: Seq<BidPool>, k: int, p: BidPool, i: int)
    requires
        0 <= k < pools.len(),
        p.total_bid_amount == pools[k].total_bid_amount,
    ensures
        deposits_from(pools.update(k, p), i) == deposits_from(pools, i),
    decreases pools.len() - i,
{
    if 0 <= i < pools.len() {
        lemma_deposits_from_update(pools, k, p, i + 1);
    }
}

proof fn lemma_deposits_from_nonneg(pools: Seq<BidPool>, i: int)
    ensures
        deposits_from(pools, i) >= 0,
    decreases pools.len() - i,
{
    if 0 <= i < pools.len() {
        lemma_deposits_from_nonneg(pools, i + 1);
    }
}

/// The reward a pool asks for, once granted in full, matches all of its bids.
pub(crate) proof fn lemma_ratio_whole(d: int)
    requires
        d > 0,
    ensures
        ratio_atomics(d, d) == DECIMAL_FRACTIONAL,
{
    let f = DECIMAL_FRACTIONAL as int;
    assert(d * f == f * d) by (nonlinear_arith);
    vstd::arithmetic::div_mod::lemma_div_by_multiple(f, d);
}

/// The allocation from pool `i` on: hands out no more reward than is left,
/// matches no more deposits than the pools hold, settles each pool with a
/// matched share of at most one or leaves it as it was, leaves the pools
/// before `i` as they were, and, when reward is left at the end, has matched
/// every pool with deposits in full.
pub proof fn lemma_allocate_from(pools: Seq<BidPool>, i: int, remaining: int, matched: int, rate: Decimal)
    requires
        0 <= i,
        0 <= remaining,
        allocation_ok(pools, i, remaining, matched, rate),
    ensures
        ({
            let (out, left, m) = allocate_from(pools, i, remaining, matched, rate);
            &&& out.len() == pools.len()
            &&& 0 <= left <= remaining
            &&& matched <= m <= matched + deposits_from(pools, i)
            &&& forall|j: int| 0 <= j < pools.len() ==> settled_or_kept(pools[j], #[trigger] out[j])
            &&& forall|j: int| 0 <= j < i && j < pools.len() ==> #[trigger] out[j] == pools[j]
            &&& left > 0 ==> forall|j: int|
                i <= j < pools.len() && pools[j].total_bid_amount > 0 ==> (#[trigger] out[j]).index_snapshot.atomics
                    == DECIMAL_FRACTIONAL
        }),
    decreases pools.len() - i,
{
    lemma_deposits_from_nonneg(pools, i + 1);
    if i >= pools.len() {
    } else if pools[i].total_bid_amount == 0 {
        lemma_allocate_from(pools, i + 1, remaining, matched, rate);
    } else {
        let pool = pools[i];
        let desired = desired_amount(pool, rate);
        let actual = allocated_amount(pool, remaining, rate);
        let settled = matched_pool(pool, remaining, rate);
        let next = pools.update(i, settled);
        let left = remaining - actual;
        let m = matched + matched_amount(pool, remaining, rate);
        lemma_ratio_at_most_one(actual, desired);
        lemma_mul_floor_at_most(pool.total_bid_amount as int, settled.index_snapshot.atomics as int);
        lemma_deposits_from_update(pools, i, settled, i + 1);
        assert(settled_or_kept(pool, settled));
        if left != 0 {
            lemma_allocate_from(next, i + 1, left, m, rate);
            let (out, l2, m2) = allocate_from(next, i + 1, left, m, rate);
            assert(actual == desired);
            lemma_ratio_whole(desired);
            assert(out[i] == next[i]);
            assert forall|j: int| 0 <= j < pools.len() implies settled_or_kept(pools[j], #[trigger] out[j]) by {
                if j != i {
                    assert(next[j] == pools[j]);
                }
            }
        } else {
            assert forall|j: int| 0 <= j < pools.len() implies settled_or_kept(pools[j], #[trigger] next[j]) by {}
        }
    }
}

/// The matched share recorded for a slot by the pools stored for slots
/// `1..=stored.len()`; zero for a slot without a stored pool.
pub open spec fn slot_index(stored: Seq<Option<BidPool>>, slot: u8) -> int {
    if 1 <= slot <= stored.len() && stored[slot - 1] is Some {
        stored[slot - 1]->Some_0.index_snapshot.atomics as int
    } else {
        0
    }
}

/// The reward per token recorded for a slot; zero for a slot without a stored pool.
pub open spec fn slot_received_per_token(stored: Seq<Option<BidPool>>, slot: u8) -> int {
    if 1 <= slot <= stored.len() && stored[slot - 1] is Some {
        stored[slot - 1]->Some_0.received_per_token.atomics as int
    } else {
        0
    }
}

/// The reward a bid receives: its deposit times the reward per token of its slot.
pub open spec fn bid_received(stored: Seq<Option<BidPool>>, bid: Bid) -> int {
    mul_floor(bid.amount as int, slot_received_per_token(stored, bid.premium_slot))
}

/// The deposit a bid gets back: the share of its deposit its slot did not match.
pub open spec fn bid_residue(stored: Seq<Option<BidPool>>, bid: Bid) -> int {
    mul_floor(bid.amount as int, DECIMAL_FRACTIONAL - slot_index(stored, bid.premium_slot))
}

/// A bid once paid out.
pub open spec fn paid_bid(stored: Seq<Option<BidPool>>, bid: Bid) -> Bid {
    Bid {
        amount_received: bid_received(stored, bid) as u128,
        residue_bid: bid_residue(stored, bid) as u128,
        is_distributed: true,
        ..bid
    }
}

/// The transfers that pay out a bid: the reward it receives and the deposit
/// it gets back, each when not zero.
pub open spec fn bid_transfers(config: &Config, stored: Seq<Option<BidPool>>, bid: Bid) -> Seq<TokenMsg> {
    let received = bid_received(stored, bid);
    let residue = bid_residue(stored, bid);
    let reward = if received > 0 {
        seq![TokenMsg::Transfer { asset: config.distribution_token, recipient: bid.bidder, amount: received as u128 }]
    } else {
        Seq::empty()
    };
    if residue > 0 {
        reward.push(TokenMsg::Transfer { asset: config.underlying_token, recipient: bid.bidder, amount: residue as u128 })
    } else {
        reward
    }
}

/// The bids of a round paid out in order, skipping those already paid:
/// the paid bids under their keys and the transfers.
pub open spec fn payout(config: &Config, stored: Seq<Option<BidPool>>, bids: Seq<(u64, Option<Bid>)>) -> (Seq<(u64, Bid)>, Seq<TokenMsg>)
    decreases bids.len(),
{
    if bids.len() == 0 {
        (Seq::empty(), Seq::empty())
    } else {
        let (paid, msgs) = payout(config, stored, bids.drop_last());
        let (key, entry) = bids.last();
        match entry {
            Some(bid) => if bid.is_distributed {
                (paid, msgs)
            } else {
                (paid.push((key, paid_bid(stored, bid))), msgs + bid_transfers(config, stored, bid))
            },
            None => (paid, msgs),
        }
    }
}

/// The number of stored bids not paid out yet.
pub open spec fn count_unpaid(bids: Seq<(u64, Option<Bid>)>) -> int
    decreases bids.len(),
{
    if bids.len() == 0 {
        0
    } else {
        count_unpaid(bids.drop_last()) + match bids.last().1 {
            Some(bid) => if bid.is_distributed { 0int } else { 1int },
            None => 0int,
        }
    }
}

proof fn lemma_count_unpaid_bounds(bids: Seq<(u64, Option<Bid>)>)
    ensures
        0 <= count_unpaid(bids) <= bids.len(),
    decreases bids.len(),
{
    if bids.len() > 0 {
        lemma_count_unpaid_bounds(bids.drop_last());
    }
}

/// Every bid before position `i` is stored.
pub open spec fn stored_before(bids: Seq<(u64, Option<Bid>)>, i: int) -> bool {
    forall|j: int| 0 <= j < i ==> (#[trigger] bids[j]).1 is Some
}

/// A bid can be paid out without overflow: its slot is in range, the
/// matched share of its slot is at most one, and its reward fits.
pub open spec fn payable(config: &Config, stored: Seq<Option<BidPool>>, bid: Bid) -> bool {
    &&& bid.premium_slot <= config.max_slot
    &&& slot_index(stored, bid.premium_slot) <= DECIMAL_FRACTIONAL
    &&& bid_received(stored, bid) <= u128::MAX
}

/// What paying out a round writes and sends: the reward side with the
/// count of paid bids, the bids paid now under their keys, and the transfers.
#[derive(Debug)]
pub struct DistributedRound {
    pub distribution_info: DistributionInfo,
    pub bids: Vec<(u64, Bid)>,
    pub messages: Vec<TokenMsg>,
}

/// After a round is finalized, pays out its bids in order (`bids` holds the
/// key of each bid of the round and the bid stored under it): each bid not
/// paid yet receives its deposit times the reward per token of its slot in
/// the distribution token, gets back the share of its deposit its slot did
/// not match in the underlying token, and is marked paid; the round counts
/// the bids paid. `stored_pools[i]` is the pool stored for slot `i + 1`.
pub fn execute_distribute(
    config: &Config,
    stored_distribution: Option<DistributionInfo>,
    stored_pools: &Vec<Option<BidPool>>,
    bids: &Vec<(u64, Option<Bid>)>,
) -> (r: Result<DistributedRound, ContractError>)
    requires
        stored_pools.len() == config.max_slot,
        distribute_in_range(config, stored_distribution, stored_pools@, bids@),
    ensures
        stored_distribution is None ==> r == Err::<DistributedRound, ContractError>(
            not_found(StoredItem::DistributionInfo),
        ),
        stored_distribution matches Some(dist) && !dist.is_released ==> r == Err::<DistributedRound, ContractError>(
            ContractError::BidNotEnded,
        ),
        stored_distribution matches Some(dist) && dist.is_released && !stored_before(bids@, bids.len() as int) ==> r
            == Err::<DistributedRound, ContractError>(not_found(StoredItem::Bid)),
        stored_distribution matches Some(dist) ==> (dist.is_released && stored_before(bids@, bids.len() as int) ==> (
        r matches Ok(out) && {
            let (paid, msgs) = payout(config, stored_pools@, bids@);
            &&& out.bids@ == paid
            &&& out.messages@ == msgs
            &&& out.distribution_info == (DistributionInfo {
                num_bids_distributed: (dist.num_bids_distributed + count_unpaid(bids@)) as u64,
                ..dist
            })
        })),
        r matches Ok(out) ==> forall|k: int|
            0 <= k < bids.len() && (#[trigger] bids@[k]).1 is Some && !bids@[k].1->Some_0.is_distributed && mul_floor(
                bids@[k].1->Some_0.amount as int,
                DECIMAL_FRACTIONAL - slot_index(stored_pools@, bids@[k].1->Some_0.premium_slot),
            ) > 0 ==> out.messages@.contains(
                TokenMsg::Transfer {
                    asset: config.underlying_token,
                    recipient: bids@[k].1->Some_0.bidder,
                    amount: mul_floor(
                        bids@[k].1->Some_0.amount as int,
                        DECIMAL_FRACTIONAL - slot_index(stored_pools@, bids@[k].1->Some_0.premium_slot),
                    ) as u128,
                },
            ),
        r matches Ok(out) ==> forall|k: int|
            0 <= k < bids.len() && (#[trigger] bids@[k]).1 is Some && !bids@[k].1->Some_0.is_distributed && mul_floor(
                bids@[k].1->Some_0.amount as int,
                slot_received_per_token(stored_pools@, bids@[k].1->Some_0.premium_slot),
            ) > 0 ==> out.messages@.contains(
                TokenMsg::Transfer {
                    asset: config.distribution_token,
                    recipient: bids@[k].1->Some_0.bidder,
                    amount: mul_floor(
                        bids@[k].1->Some_0.amount as int,
                        slot_received_per_token(stored_pools@, bids@[k].1->Some_0.premium_slot),
                    ) as u128,
                },
            ),
{
    let mut distribution_info = match stored_distribution {
        Some(dist) => dist,
        None => return Err(ContractError::Std(StdError::NotFound { item: StoredItem::DistributionInfo })),
    };
    if !distribution_info.is_released {
        return Err(ContractError::BidNotEnded);
    }
    let ghost dist0 = distribution_info;
    // the matched share and the reward per token of each slot, slot 0 included
    let max_slot = config.max_slot;
    let mut index_snapshot: Vec<Decimal> = Vec::new();
    let mut receiver_per_token: Vec<Decimal> = Vec::new();
    index_snapshot.push(Decimal::zero());
    receiver_per_token.push(Decimal::zero());
    let mut done: u8 = 0;
    while done < max_slot
        invariant
            done <= max_slot,
            max_slot == config.max_slot,
            stored_pools.len() == max_slot,
            index_snapshot.len() == done + 1,
            receiver_per_token.len() == done + 1,
            forall|s: int| 0 <= s <= done ==> index_snapshot@[s].atomics == slot_index(stored_pools@, s as u8),
            forall|s: int|
                0 <= s <= done ==> receiver_per_token@[s].atomics == slot_received_per_token(stored_pools@, s as u8),
        decreases max_slot - done,
    {
        match stored_pools[done as usize] {
            Some(pool) => {
                index_snapshot.push(pool.index_snapshot);
                receiver_per_token.push(pool.received_per_token);
            },
            None => {
                index_snapshot.push(Decimal::zero());
                receiver_per_token.push(Decimal::zero());
            },
        }
        done = done + 1;
    }
    let mut paid: Vec<(u64, Bid)> = Vec::new();
    let mut messages: Vec<TokenMsg> = Vec::new();
    let mut i: usize = 0;
    while i < bids.len()
        invariant
            i <= bids.len(),
            stored_pools.len() == max_slot,
            max_slot == config.max_slot,
            index_snapshot.len() == max_slot + 1,
            receiver_per_token.len() == max_slot + 1,
            forall|s: int| 0 <= s <= max_slot ==> index_snapshot@[s].atomics == slot_index(stored_pools@, s as u8),
            forall|s: int|
                0 <= s <= max_slot ==> receiver_per_token@[s].atomics == slot_received_per_token(stored_pools@, s as u8),
            stored_before(bids@, i as int),
            stored_distribution == Some(dist0),
            dist0.is_released,
            distribution_info == (DistributionInfo {
                num_bids_distributed: (dist0.num_bids_distributed + count_unpaid(bids@.take(i as int))) as u64,
                ..dist0
            }),
            dist0.num_bids_distributed + count_unpaid(bids@.take(i as int)) <= u64::MAX,
            (paid@, messages@) == payout(config, stored_pools@, bids@.take(i as int)),
            forall|k: int|
                0 <= k < bids.len() && stored_before(bids@, k) ==> (bids@[k].1 matches Some(b) ==> (!b.is_distributed
                    ==> payable(config, stored_pools@, b))),
            forall|k: int|
                0 <= k <= bids.len() && stored_before(bids@, k) ==> dist0.num_bids_distributed + count_unpaid(
                    #[trigger] bids@.take(k),
                ) <= u64::MAX,
        decreases bids.len() - i,
    {
        let key = bids[i].0;
        let bid = match &bids[i].1 {
            Some(b) => b,
            None => return Err(ContractError::Std(StdError::NotFound { item: StoredItem::Bid })),
        };
        proof {
            assert(bids@.take(i + 1).drop_last() =~= bids@.take(i as int));
            assert(bids@.take(i + 1).last() == bids@[i as int]);
            assert(stored_before(bids@, i + 1));
            assert(bids@[i as int].1 == Some(*bid));
            lemma_count_unpaid_bounds(bids@.take(i as int));
            assert(count_unpaid(bids@.take(i + 1)) == count_unpaid(bids@.take(i as int)) + (if bid.is_distributed {
                0int
            } else {
                1int
            }));
            assert(dist0.num_bids_distributed + count_unpaid(bids@.take(i + 1)) <= u64::MAX);
        }
        if !bid.is_distributed {
            let slot = bid.premium_slot as usize;
            let amount_received = mul_uint_decimal(bid.amount, receiver_per_token[slot]);
            let unmatched = Decimal::one().sub(index_snapshot[slot]);
            proof {
                lemma_mul_floor_at_most(bid.amount as int, unmatched.atomics as int);
            }
            let residue_bid = mul_uint_decimal(bid.amount, unmatched);
            let ghost before = messages@;
            if amount_received > 0 {
                messages.push(
                    TokenMsg::Transfer {
                        asset: config.distribution_token.copy(),
                        recipient: bid.bidder.clone(),
                        amount: amount_received,
                    },
                );
            }
            if residue_bid > 0 {
                messages.push(
                    TokenMsg::Transfer {
                        asset: config.underlying_token.copy(),
                        recipient: bid.bidder.clone(),
                        amount: residue_bid,
                    },
                );
            }
            proof {
                assert(messages@ =~= before + bid_transfers(config, stored_pools@, *bid));
            }
            let mut updated = bid.copy();
            updated.amount_received = amount_received;
            updated.residue_bid = residue_bid;
            updated.is_distributed = true;
            paid.push((key, updated));
            distribution_info.num_bids_distributed = distribution_info.num_bids_distributed + 1;
        }
        i = i + 1;
    }
    proof {
        assert(bids@.take(bids.len() as int) =~= bids@);
    }
    proof {
        assert forall|k: int|
            0 <= k < bids.len() && (#[trigger] bids@[k]).1 is Some && !bids@[k].1->Some_0.is_distributed && mul_floor(
                bids@[k].1->Some_0.amount as int,
                DECIMAL_FRACTIONAL - slot_index(stored_pools@, bids@[k].1->Some_0.premium_slot),
            ) > 0 implies messages@.contains(
            TokenMsg::Transfer {
                asset: config.underlying_token,
                recipient: bids@[k].1->Some_0.bidder,
                amount: mul_floor(
                    bids@[k].1->Some_0.amount as int,
                    DECIMAL_FRACTIONAL - slot_index(stored_pools@, bids@[k].1->Some_0.premium_slot),
                ) as u128,
            },
        ) by {
            crate::laws::law_payout_refunds_unmatched(config, stored_pools@, bids@, k);
        }
        assert forall|k: int|
            0 <= k < bids.len() && (#[trigger] bids@[k]).1 is Some && !bids@[k].1->Some_0.is_distributed && mul_floor(
                bids@[k].1->Some_0.amount as int,
                slot_received_per_token(stored_pools@, bids@[k].1->Some_0.premium_slot),
            ) > 0 implies messages@.contains(
            TokenMsg::Transfer {
                asset: config.distribution_token,
                recipient: bids@[k].1->Some_0.bidder,
                amount: mul_floor(
                    bids@[k].1->Some_0.amount as int,
                    slot_received_per_token(stored_pools@, bids@[k].1->Some_0.premium_slot),
                ) as u128,
            },
        ) by {
            crate::laws::law_payout_pays_reward(config, stored_pools@, bids@, k);
        }
    }
    Ok(DistributedRound { distribution_info, bids: paid, messages })
}

} // verus!
