use vstd::prelude::*;
use crate::bid::{
    lemma_ratio_whole, allocate_from, allocated_amount, desired_amount, lemma_mul_floor_at_most, lemma_ratio_at_most_one, matched_amount,
    matched_pool, finalize_precheck, allocation, allocation_ok, bid_received, bid_residue, create_round_result, deposits_from, lemma_allocate_from,
    paid_bid, payout, count_unpaid, round_before, settled_or_kept, slot_index, slot_received_per_token,
    treasury_round_result, treasury_times_fit, update_round_result, pool_for_bid, bid_pool_written, bid_written,
    bid_transfers, finalize_messages, bid_precheck, step_ok, bid_info_written, treasury_start,
};
use crate::asset::{Asset, AssetInfo, TokenMsg};
use crate::error::ContractError;
use crate::contract::{add_to_slot, lemma_add_to_slot, allocated_pools, estimate, index_of_slot, pool_of_slot, received_per_token_of_slot};
use crate::decimal::{mul_floor, ratio_atomics, Decimal, DECIMAL_FRACTIONAL};
use crate::error::{generic, GenericReason};
use crate::msg::EstimateAmountReceiveOfBidResponse;
use crate::state::{next_bid_idx, pools_or_empty, Bid, BidPool, BiddingInfo, Config, DistributionInfo};

verus! {

/// Bid indices only grow: once a bid takes its index and the counter is
/// stored back, the next bid takes the index one above it, so no two bids
/// share an index.
pub proof fn law_bid_indices_increase(stored: Option<u64>)
    requires
        next_bid_idx(stored) < u64::MAX,
    ensures
        next_bid_idx(Some((next_bid_idx(stored) + 1) as u64)) == next_bid_idx(stored) + 1,
{
}

/// Every round created, by the owner or by the treasury, and every round
/// updated, runs forward in time and starts no earlier than the request.
pub proof fn law_rounds_run_forward(
    config: &Config,
    last_round_id: Option<u64>,
    stored_last_round: Option<BiddingInfo>,
    info: BiddingInfo,
    dist: DistributionInfo,
    now: u64,
    start_time: u64,
    end_time: u64,
    amount: u128,
    new_start: Option<u64>,
    new_end: Option<u64>,
    new_total: Option<u128>,
)
    ensures
        create_round_result(last_round_id, now, start_time, end_time, amount) matches Ok(r)
            ==> r.bidding_info.valid_duration_at(now),
        treasury_round_result(config, amount, now, last_round_id, stored_last_round) matches Ok(r)
            ==> r.bidding_info.valid_duration_at(now),
        update_round_result(info, dist, now, new_start, new_end, new_total) matches Ok(r)
            ==> r.0.valid_duration_at(now),
{
}

/// A round the treasury opens follows the last round: it gets the next id,
/// starts after the last round ends and no earlier than the request, and
/// lasts the configured duration.
pub proof fn law_treasury_round_follows_last(
    config: &Config,
    amount: u128,
    now: u64,
    last_round_id: u64,
    stored_last_round: Option<BiddingInfo>,
)
    requires
        last_round_id < u64::MAX,
        round_before(last_round_id, stored_last_round, now) matches Some(last) ==> treasury_times_fit(
            last,
            now,
            config.bidding_duration,
        ),
    ensures
        treasury_round_result(config, amount, now, Some(last_round_id), stored_last_round) matches Ok(r) ==> {
            let last = round_before(last_round_id, stored_last_round, now)->Some_0;
            &&& r.round == last_round_id + 1
            &&& r.bidding_info.start_time > last.end_time
            &&& r.bidding_info.start_time >= now
            &&& r.bidding_info.end_time == r.bidding_info.start_time + config.bidding_duration
            &&& r.distribution_info.total_distribution == amount
        },
{
}

/// The allocation of a round's reward hands out no more than the reward,
/// matches no more deposits than the pools hold, records in each pool it
/// settles a matched share of at most one (leaving the others as they were),
/// and, when reward is left over, has matched every pool with deposits in
/// full.
pub proof fn law_allocation_within_bounds(pools: Seq<BidPool>, reward: u128, rate: Decimal)
    requires
        allocation_ok(pools, 0, reward as int, 0, rate),
    ensures
        ({
            let (out, left, matched) = allocation(pools, reward as int, rate);
            &&& out.len() == pools.len()
            &&& 0 <= left <= reward
            &&& 0 <= matched <= deposits_from(pools, 0)
            &&& forall|j: int| 0 <= j < pools.len() ==> settled_or_kept(pools[j], #[trigger] out[j])
            &&& left > 0 ==> forall|j: int|
                0 <= j < pools.len() && pools[j].total_bid_amount > 0 ==> (#[trigger] out[j]).index_snapshot.atomics
                    == DECIMAL_FRACTIONAL
        }),
{
    lemma_allocate_from(pools, 0, reward as int, 0, rate);
}

/// A bid paid out.
pub open spec fn after_payout_entry(stored: Seq<Option<BidPool>>, entry: (u64, Option<Bid>)) -> (u64, Option<Bid>) {
    match entry.1 {
        Some(b) => if b.is_distributed {
            entry
        } else {
            (entry.0, Some(paid_bid(stored, b)))
        },
        None => entry,
    }
}

/// The bids of a round as stored after a payout.
pub open spec fn after_payout(stored: Seq<Option<BidPool>>, bids: Seq<(u64, Option<Bid>)>) -> Seq<(u64, Option<Bid>)> {
    bids.map_values(|e: (u64, Option<Bid>)| after_payout_entry(stored, e))
}

/// Paying out a round twice pays nothing the second time: once the paid
/// bids are stored, no bid is left unpaid, no bid is updated and no token
/// moves.
pub proof fn law_distribute_pays_once(config: &Config, stored: Seq<Option<BidPool>>, bids: Seq<(u64, Option<Bid>)>)
    ensures
        payout(config, stored, after_payout(stored, bids)) == (Seq::<(u64, Bid)>::empty(), Seq::<crate::asset::TokenMsg>::empty()),
        count_unpaid(after_payout(stored, bids)) == 0,
    decreases bids.len(),
{
    let after = after_payout(stored, bids);
    if bids.len() > 0 {
        law_distribute_pays_once(config, stored, bids.drop_last());
        assert(after.drop_last() =~= after_payout(stored, bids.drop_last()));
        assert(after.last() == after_payout_entry(stored, bids.last()));
    } else {
        assert(after =~= Seq::<(u64, Option<Bid>)>::empty());
    }
}

/// In pools whose slot numbers are their positions plus one, the pool of a
/// slot is the one at its position.
proof fn lemma_pool_of_slot_at(pools: Seq<BidPool>, slot: u8)
    requires
        1 <= slot <= pools.len(),
        forall|i: int| 0 <= i < pools.len() ==> (#[trigger] pools[i]).slot == i + 1,
    ensures
        pool_of_slot(pools, slot) == Some(pools[slot - 1]),
    decreases pools.len(),
{
    if pools.last().slot != slot {
        let rest = pools.drop_last();
        assert forall|i: int| 0 <= i < rest.len() implies (#[trigger] rest[i]).slot == i + 1 by {
            assert(rest[i] == pools[i]);
        }
        lemma_pool_of_slot_at(rest, slot);
    }
}

/// The pools of all slots carry their own slot numbers.
pub open spec fn slots_in_place(pools: Seq<BidPool>) -> bool {
    forall|i: int| 0 <= i < pools.len() ==> (#[trigger] pools[i]).slot == i + 1
}

/// Each pool stored for a slot (`stored[i]` for slot `i + 1`) carries that
/// slot's number.
pub open spec fn stored_slots_in_place(stored: Seq<Option<BidPool>>) -> bool {
    forall|i: int| 0 <= i < stored.len() ==> (#[trigger] stored[i] matches Some(p) ==> p.slot == i + 1)
}

proof fn lemma_pools_in_place(config: &Config, stored: Seq<Option<BidPool>>)
    requires
        stored.len() == config.max_slot,
        stored_slots_in_place(stored),
    ensures
        slots_in_place(pools_or_empty(config, stored)),
{
    let pools = pools_or_empty(config, stored);
    assert forall|i: int| 0 <= i < pools.len() implies (#[trigger] pools[i]).slot == i + 1 by {
        assert(stored[i] matches Some(p) ==> p.slot == i + 1);
    }
}

/// A bid keeps every stored pool under its own slot number: the pool the
/// bid writes for its slot carries that slot's number.
pub proof fn law_bid_keeps_pool_slots(config: &Config, stored: Seq<Option<BidPool>>, premium_slot: u8, amount: u128)
    requires
        stored.len() == config.max_slot,
        stored_slots_in_place(stored),
        1 <= premium_slot <= config.max_slot,
    ensures
        ({
            let pool = pool_for_bid(config, stored[premium_slot - 1], premium_slot);
            stored_slots_in_place(
                stored.update(
                    premium_slot - 1,
                    Some(BidPool { total_bid_amount: (pool.total_bid_amount + amount) as u128, ..pool }),
                ),
            )
        }),
{
    assert(stored[premium_slot - 1] matches Some(p) ==> p.slot == premium_slot);
}

/// Finalizing a round keeps every stored pool under its own slot number:
/// the pools it stores for slots `1..=max_slot` carry those numbers, and
/// hold the deposits they held.
pub proof fn law_finalize_keeps_pool_slots(config: &Config, stored: Seq<Option<BidPool>>, reward: u128, rate: Decimal)
    requires
        stored.len() == config.max_slot,
        stored_slots_in_place(stored),
        allocation_ok(pools_or_empty(config, stored), 0, reward as int, 0, rate),
    ensures
        stored_slots_in_place(allocated_pools(config, stored, reward, rate).map_values(|p: BidPool| Some(p))),
        forall|i: int|
            0 <= i < stored.len() ==> (#[trigger] allocated_pools(config, stored, reward, rate)[i]).total_bid_amount
                == pools_or_empty(config, stored)[i].total_bid_amount,
{
    let before = pools_or_empty(config, stored);
    lemma_pools_in_place(config, stored);
    lemma_allocate_from(before, 0, reward as int, 0, rate);
    let pools = allocated_pools(config, stored, reward, rate);
    let saved = pools.map_values(|p: BidPool| Some(p));
    assert forall|i: int| 0 <= i < saved.len() implies (#[trigger] saved[i] matches Some(p) ==> p.slot == i + 1) by {
        assert(settled_or_kept(before[i], pools[i]));
        assert(saved[i] == Some(pools[i]));
    }
    assert forall|i: int| 0 <= i < stored.len() implies (#[trigger] pools[i]).total_bid_amount
        == before[i].total_bid_amount by {
        assert(settled_or_kept(before[i], pools[i]));
    }
}

/// What the estimate query reports for a bid is what the bid is paid once
/// its round is finalized at the same rate: finalizing stores the allocated
/// pool of each slot, and the payout reads the matched share and the reward
/// per token of the bid's slot from them. The stored pools carry their own
/// slot numbers, as bids and finalization keep them (see
/// `law_bid_keeps_pool_slots` and `law_finalize_keeps_pool_slots`): the
/// estimate finds a pool by the number it carries, the payout by the slot
/// it is stored under. Every allocated pool records a
/// matched share of at most one when the stored pools do, so the payout
/// never gives back more than a deposit.
pub proof fn law_estimate_matches_payout(
    config: &Config,
    stored_pools: Seq<Option<BidPool>>,
    reward: u128,
    rate: Decimal,
    bid: Bid,
)
    requires
        stored_pools.len() == config.max_slot,
        stored_slots_in_place(stored_pools),
        allocation_ok(pools_or_empty(config, stored_pools), 0, reward as int, 0, rate),
        1 <= bid.premium_slot <= config.max_slot,
    ensures
        ({
            let pools = allocated_pools(config, stored_pools, reward, rate);
            let saved = pools.map_values(|p: BidPool| Some(p));
            &&& estimate(pools, bid.premium_slot, bid.amount) == (EstimateAmountReceiveOfBidResponse {
                receive: bid_received(saved, bid) as u128,
                residue_bid: bid_residue(saved, bid) as u128,
            })
            &&& (forall|i: int| 0 <= i < stored_pools.len() ==> (#[trigger] pools_or_empty(config, stored_pools)[i]).index_snapshot.atomics <= DECIMAL_FRACTIONAL)
                ==> forall|s: u8| 1 <= s <= config.max_slot ==> #[trigger] slot_index(saved, s) <= DECIMAL_FRACTIONAL
        }),
{
    let before = pools_or_empty(config, stored_pools);
    lemma_pools_in_place(config, stored_pools);
    lemma_allocate_from(before, 0, reward as int, 0, rate);
    let pools = allocated_pools(config, stored_pools, reward, rate);
    let saved = pools.map_values(|p: BidPool| Some(p));
    assert forall|i: int| 0 <= i < pools.len() implies (#[trigger] pools[i]).slot == i + 1 by {
        assert(settled_or_kept(before[i], pools[i]));
    }
    lemma_pool_of_slot_at(pools, bid.premium_slot);
    assert(saved[bid.premium_slot - 1] == Some(pools[bid.premium_slot - 1]));
    assert(index_of_slot(pools, bid.premium_slot) == slot_index(saved, bid.premium_slot));
    assert(received_per_token_of_slot(pools, bid.premium_slot) == slot_received_per_token(saved, bid.premium_slot));
    if forall|i: int| 0 <= i < stored_pools.len() ==> (#[trigger] before[i]).index_snapshot.atomics <= DECIMAL_FRACTIONAL {
        assert forall|s: u8| 1 <= s <= config.max_slot implies #[trigger] slot_index(saved, s) <= DECIMAL_FRACTIONAL by {
            assert(settled_or_kept(before[s - 1], pools[s - 1]));
            assert(saved[s - 1] == Some(pools[s - 1]));
        }
    }
}

proof fn lemma_deposits_from_replace(pools: Seq<BidPool>, k: int, p: BidPool, i: int)
    requires
        0 <= k < pools.len(),
        0 <= i,
    ensures
        deposits_from(pools.update(k, p), i) == deposits_from(pools, i) + (if i <= k {
            p.total_bid_amount - pools[k].total_bid_amount
        } else {
            0
        }),
    decreases pools.len() - i,
{
    if i < pools.len() {
        lemma_deposits_from_replace(pools, k, p, i + 1);
    }
}

/// A bid keeps a round's deposits equal to those of its pools: when the
/// round's total is the sum over the pools of all slots before the bid, the
/// round's total with the deposit added is the sum over the pools once the
/// pool of the bid's slot holds the deposit too.
pub proof fn law_bid_keeps_round_total(
    config: &Config,
    stored_pools: Seq<Option<BidPool>>,
    info: BiddingInfo,
    premium_slot: u8,
    amount: u128,
)
    requires
        stored_pools.len() == config.max_slot,
        1 <= premium_slot <= config.max_slot,
        info.total_bid_amount == deposits_from(pools_or_empty(config, stored_pools), 0),
        pool_for_bid(config, stored_pools[premium_slot - 1], premium_slot).total_bid_amount + amount <= u128::MAX,
    ensures
        ({
            let pool = pool_for_bid(config, stored_pools[premium_slot - 1], premium_slot);
            let after = stored_pools.update(
                premium_slot - 1,
                Some(BidPool { total_bid_amount: (pool.total_bid_amount + amount) as u128, ..pool }),
            );
            info.total_bid_amount + amount == deposits_from(pools_or_empty(config, after), 0)
        }),
{
    let k = premium_slot - 1;
    let before = pools_or_empty(config, stored_pools);
    let pool = pool_for_bid(config, stored_pools[k], premium_slot);
    let new_pool = BidPool { total_bid_amount: (pool.total_bid_amount + amount) as u128, ..pool };
    let after = stored_pools.update(k, Some(new_pool));
    assert(pool == before[k]);
    assert(pools_or_empty(config, after) =~= before.update(k, new_pool));
    lemma_deposits_from_replace(before, k, new_pool, 0);
}

/// Finalizing a round matches no more deposits than were bid: when the
/// round's total is the sum over its pools, the deposits matched are at most
/// that total.
pub proof fn law_matched_within_bids(config: &Config, stored_pools: Seq<Option<BidPool>>, info: BiddingInfo, reward: u128, rate: Decimal)
    requires
        info.total_bid_amount == deposits_from(pools_or_empty(config, stored_pools), 0),
        allocation_ok(pools_or_empty(config, stored_pools), 0, reward as int, 0, rate),
    ensures
        allocation(pools_or_empty(config, stored_pools), reward as int, rate).2 <= info.total_bid_amount,
{
    lemma_allocate_from(pools_or_empty(config, stored_pools), 0, reward as int, 0, rate);
}

/// A round is finalized once: with the reward side a finalization stores,
/// the owner's second request is refused as finalized already.
pub proof fn law_finalize_once(
    config: &Config,
    sender: &String,
    now: u64,
    round: u64,
    info: BiddingInfo,
    dist: DistributionInfo,
    exchange_rate: Decimal,
    actual_distributed: u128,
)
    requires
        finalize_precheck(config, sender, now, round, Some(info), Some(dist)) is None,
    ensures
        finalize_precheck(
            config,
            sender,
            now,
            round,
            Some(info),
            Some(DistributionInfo { exchange_rate, is_released: true, actual_distributed, ..dist }),
        ) == Some(generic(GenericReason::RoundFinalized { round })),
{
}

/// Two products rounded down add up to no more than their sum rounded down.
proof fn lemma_floor_add(x: int, y: int)
    requires
        0 <= x,
        0 <= y,
    ensures
        x / (DECIMAL_FRACTIONAL as int) + y / (DECIMAL_FRACTIONAL as int) <= (x + y) / (DECIMAL_FRACTIONAL as int),
{
    let f = DECIMAL_FRACTIONAL as int;
    vstd::arithmetic::div_mod::lemma_fundamental_div_mod(x, f);
    vstd::arithmetic::div_mod::lemma_fundamental_div_mod(y, f);
    let q = x / f + y / f;
    vstd::arithmetic::mul::lemma_mul_is_distributive_add(f, x / f, y / f);
    assert(f * q <= x + y);
    vstd::arithmetic::div_mod::lemma_div_is_ordered(f * q, x + y, f);
    vstd::arithmetic::div_mod::lemma_div_multiples_vanish(q, f);
}

/// Paying two deposits at one rate pays no more than paying their sum.
proof fn lemma_mul_floor_add(x: int, y: int, d: int)
    requires
        0 <= x,
        0 <= y,
        0 <= d,
    ensures
        mul_floor(x, d) + mul_floor(y, d) <= mul_floor(x + y, d),
{
    assert(0 <= x * d && 0 <= y * d) by (nonlinear_arith)
        requires 0 <= x, 0 <= y, 0 <= d;
    assert((x + y) * d == x * d + y * d) by (nonlinear_arith);
    lemma_floor_add(x * d, y * d);
}

/// The deposits of a pool at the reward per token it was given make at
/// most the reward it was given.
proof fn lemma_per_token_within(t: int, a: int)
    requires
        0 < t,
        0 <= a,
    ensures
        mul_floor(t, ratio_atomics(a, t)) <= a,
{
    let f = DECIMAL_FRACTIONAL as int;
    let r = ratio_atomics(a, t);
    assert(0 <= a * f) by (nonlinear_arith)
        requires 0 <= a, 0 < f;
    vstd::arithmetic::div_mod::lemma_fundamental_div_mod(a * f, t);
    assert(t * r <= a * f);
    vstd::arithmetic::div_mod::lemma_div_is_ordered(t * r, a * f, f);
    vstd::arithmetic::div_mod::lemma_div_by_multiple(a, f);
}

/// The matched part of a pool's deposits and the part given back make at
/// most its deposits.
proof fn lemma_matched_and_back(t: int, i: int)
    requires
        0 <= t,
        0 <= i <= DECIMAL_FRACTIONAL,
    ensures
        mul_floor(t, DECIMAL_FRACTIONAL - i) + mul_floor(t, i) <= t,
{
    let f = DECIMAL_FRACTIONAL as int;
    assert(0 <= t * (f - i) && 0 <= t * i) by (nonlinear_arith)
        requires 0 <= t, 0 <= i <= f;
    assert(t * (f - i) + t * i == t * f) by (nonlinear_arith);
    lemma_floor_add(t * (f - i), t * i);
    vstd::arithmetic::div_mod::lemma_div_by_multiple(t, f);
}

/// The deposits of a list of bids.
pub open spec fn amount_total(bids: Seq<Bid>) -> int
    decreases bids.len(),
{
    if bids.len() == 0 {
        0
    } else {
        amount_total(bids.drop_last()) + bids.last().amount
    }
}

/// The reward a list of bids receives from the stored pools.
pub open spec fn received_total(stored: Seq<Option<BidPool>>, bids: Seq<Bid>) -> int
    decreases bids.len(),
{
    if bids.len() == 0 {
        0
    } else {
        received_total(stored, bids.drop_last()) + bid_received(stored, bids.last())
    }
}

/// The deposits a list of bids gets back from the stored pools.
pub open spec fn residue_total(stored: Seq<Option<BidPool>>, bids: Seq<Bid>) -> int
    decreases bids.len(),
{
    if bids.len() == 0 {
        0
    } else {
        residue_total(stored, bids.drop_last()) + bid_residue(stored, bids.last())
    }
}

/// The reward received by the bids of the slots from position `i` on
/// (`groups[s]` holds the bids of slot `s + 1`).
pub open spec fn groups_received(stored: Seq<Option<BidPool>>, groups: Seq<Seq<Bid>>, i: int) -> int
    decreases groups.len() - i,
{
    if i < 0 || i >= groups.len() {
        0
    } else {
        received_total(stored, groups[i]) + groups_received(stored, groups, i + 1)
    }
}

/// The deposits given back to the bids of the slots from position `i` on.
pub open spec fn groups_residue(stored: Seq<Option<BidPool>>, groups: Seq<Seq<Bid>>, i: int) -> int
    decreases groups.len() - i,
{
    if i < 0 || i >= groups.len() {
        0
    } else {
        residue_total(stored, groups[i]) + groups_residue(stored, groups, i + 1)
    }
}

/// The bids of one slot receive at most their deposits at the slot's
/// reward per token, and get back at most their deposits at the slot's
/// unmatched share.
proof fn lemma_group_payout(stored: Seq<Option<BidPool>>, g: Seq<Bid>, s: int, p: BidPool)
    requires
        0 <= s < stored.len(),
        stored[s] == Some(p),
        p.index_snapshot.atomics <= DECIMAL_FRACTIONAL,
        forall|k: int| 0 <= k < g.len() ==> (#[trigger] g[k]).premium_slot == s + 1,
    ensures
        0 <= amount_total(g),
        received_total(stored, g) <= mul_floor(amount_total(g), p.received_per_token.atomics as int),
        residue_total(stored, g) <= mul_floor(amount_total(g), DECIMAL_FRACTIONAL - p.index_snapshot.atomics),
    decreases g.len(),
{
    if g.len() > 0 {
        let rest = g.drop_last();
        assert forall|k: int| 0 <= k < rest.len() implies (#[trigger] rest[k]).premium_slot == s + 1 by {
            assert(rest[k] == g[k]);
        }
        lemma_group_payout(stored, rest, s, p);
        let b = g.last();
        assert(b.premium_slot == s + 1);
        assert(slot_received_per_token(stored, b.premium_slot) == p.received_per_token.atomics);
        assert(slot_index(stored, b.premium_slot) == p.index_snapshot.atomics);
        lemma_mul_floor_add(amount_total(rest), b.amount as int, p.received_per_token.atomics as int);
        lemma_mul_floor_add(amount_total(rest), b.amount as int, DECIMAL_FRACTIONAL - p.index_snapshot.atomics);
    }
}

/// The pools of a round before it is finalized: no share matched, no reward per token.
pub open spec fn unsettled(pools: Seq<BidPool>, i: int) -> bool {
    forall|s: int|
        i <= s < pools.len() ==> (#[trigger] pools[s]).index_snapshot.atomics == 0
            && pools[s].received_per_token.atomics == 0
}

/// `groups[s]` holds bids of slot `s + 1` whose deposits are those of the
/// pool at position `s`, for the positions from `i` on.
pub open spec fn groups_match_pools(pools: Seq<BidPool>, groups: Seq<Seq<Bid>>, i: int) -> bool {
    &&& groups.len() == pools.len()
    &&& forall|s: int| i <= s < pools.len() ==> amount_total(#[trigger] groups[s]) == pools[s].total_bid_amount
    &&& forall|s: int, k: int|
        0 <= s < groups.len() && 0 <= k < groups[s].len() ==> (#[trigger] groups[s][k]).premium_slot == s + 1
}

/// Pools the allocation left unsettled pay no reward and give back all deposits.
proof fn lemma_unsettled_tail(stored: Seq<Option<BidPool>>, pools: Seq<BidPool>, groups: Seq<Seq<Bid>>, i: int)
    requires
        0 <= i,
        stored.len() == pools.len(),
        unsettled(pools, i),
        groups_match_pools(pools, groups, i),
        forall|s: int| i <= s < pools.len() ==> stored[s] == Some(#[trigger] pools[s]),
    ensures
        groups_received(stored, groups, i) <= 0,
        groups_residue(stored, groups, i) <= deposits_from(pools, i),
    decreases pools.len() - i,
{
    if i < pools.len() {
        lemma_unsettled_tail(stored, pools, groups, i + 1);
        let p = pools[i];
        assert(stored[i] == Some(p));
        assert forall|k: int| 0 <= k < groups[i].len() implies (#[trigger] groups[i][k]).premium_slot == i + 1 by {}
        lemma_group_payout(stored, groups[i], i, p);
        assert(amount_total(groups[i]) == p.total_bid_amount);
        let t = p.total_bid_amount as int;
        assert(mul_floor(t, 0) == 0) by {
            assert(t * 0 == 0) by (nonlinear_arith);
        }
        assert(mul_floor(t, DECIMAL_FRACTIONAL - 0) == t) by {
            vstd::arithmetic::div_mod::lemma_div_by_multiple(t, DECIMAL_FRACTIONAL as int);
        }
    }
}

/// The payout of the bids of the pools from position `i` on, at the pools the
/// allocation from `i` on leaves: the rewards add up to at most the reward
/// it hands out, and the deposits it matches and those given back add up to
/// at most the deposits of those pools.
proof fn lemma_payout_from(pools: Seq<BidPool>, i: int, remaining: int, matched: int, rate: Decimal, groups: Seq<Seq<Bid>>)
    requires
        0 <= i,
        0 <= remaining,
        allocation_ok(pools, i, remaining, matched, rate),
        unsettled(pools, i),
        groups_match_pools(pools, groups, i),
    ensures
        ({
            let (out, left, m) = allocate_from(pools, i, remaining, matched, rate);
            let saved = out.map_values(|p: BidPool| Some(p));
            &&& groups_received(saved, groups, i) <= remaining - left
            &&& (m - matched) + groups_residue(saved, groups, i) <= deposits_from(pools, i)
        }),
    decreases pools.len() - i,
{
    lemma_allocate_from(pools, i, remaining, matched, rate);
    let (out, left, m) = allocate_from(pools, i, remaining, matched, rate);
    let saved = out.map_values(|p: BidPool| Some(p));
    if i >= pools.len() {
    } else if pools[i].total_bid_amount == 0 {
        lemma_payout_from(pools, i + 1, remaining, matched, rate, groups);
        lemma_allocate_from(pools, i + 1, remaining, matched, rate);
        assert(out[i] == pools[i]);
        assert(saved[i] == Some(out[i]));
        lemma_group_payout(saved, groups[i], i, out[i]);
        assert(mul_floor(0, out[i].received_per_token.atomics as int) == 0);
        assert(mul_floor(0, DECIMAL_FRACTIONAL - out[i].index_snapshot.atomics) == 0);
    } else {
        let pool = pools[i];
        let t = pool.total_bid_amount as int;
        let desired = desired_amount(pool, rate);
        let actual = allocated_amount(pool, remaining, rate);
        let settled = matched_pool(pool, remaining, rate);
        let next = pools.update(i, settled);
        let left1 = remaining - actual;
        let m1 = matched + matched_amount(pool, remaining, rate);
        lemma_ratio_at_most_one(actual, desired);
        lemma_per_token_within(t, actual);
        lemma_matched_and_back(t, settled.index_snapshot.atomics as int);
        lemma_deposits_from_replace(pools, i, settled, i + 1);
        if left1 == 0 {
            assert(out == next);
            assert(saved[i] == Some(settled));
            lemma_group_payout(saved, groups[i], i, settled);
            assert forall|s: int| i + 1 <= s < next.len() implies saved[s] == Some(#[trigger] next[s]) by {}
            lemma_unsettled_tail(saved, next, groups, i + 1);
        } else {
            lemma_payout_from(next, i + 1, left1, m1, rate, groups);
            lemma_allocate_from(next, i + 1, left1, m1, rate);
            assert(out[i] == settled);
            assert(saved[i] == Some(settled));
            lemma_group_payout(saved, groups[i], i, settled);
        }
    }
}

/// The payout of one slot at the pools an allocation left.
proof fn lemma_slot_payout(pools: Seq<BidPool>, out: Seq<BidPool>, groups: Seq<Seq<Bid>>, s: int)
    requires
        0 <= s < pools.len(),
        out.len() == pools.len(),
        settled_or_kept(pools[s], out[s]),
        unsettled(pools, 0),
        groups_match_pools(pools, groups, 0),
    ensures
        ({
            let saved = out.map_values(|p: BidPool| Some(p));
            &&& received_total(saved, groups[s]) <= mul_floor(
                pools[s].total_bid_amount as int,
                out[s].received_per_token.atomics as int,
            )
            &&& residue_total(saved, groups[s]) + mul_floor(
                pools[s].total_bid_amount as int,
                out[s].index_snapshot.atomics as int,
            ) <= pools[s].total_bid_amount
        }),
{
    let saved = out.map_values(|p: BidPool| Some(p));
    assert(saved[s] == Some(out[s]));
    assert forall|k: int| 0 <= k < groups[s].len() implies (#[trigger] groups[s][k]).premium_slot == s + 1 by {}
    assert(amount_total(groups[s]) == pools[s].total_bid_amount);
    lemma_group_payout(saved, groups[s], s, out[s]);
    lemma_matched_and_back(pools[s].total_bid_amount as int, out[s].index_snapshot.atomics as int);
}

/// Finalizing a round and paying out its bids never moves more than the
/// round holds: for a round not finalized yet whose bids (`bids_by_slot[s]`
/// holds the bids of slot `s + 1`) make up the deposits of its pools, the
/// rewards the bids receive from the pools finalization stores add up to at
/// most the reward handed out, and the deposits burnt as matched and those
/// given back add up to at most the deposits. Slot by slot, the bids of a
/// slot receive at most its deposits at its reward per token, and the
/// deposits given back to them plus those burnt as its matched share make at
/// most its deposits.
pub proof fn law_payout_within_round(
    config: &Config,
    stored_pools: Seq<Option<BidPool>>,
    reward: u128,
    rate: Decimal,
    bids_by_slot: Seq<Seq<Bid>>,
)
    requires
        allocation_ok(pools_or_empty(config, stored_pools), 0, reward as int, 0, rate),
        unsettled(pools_or_empty(config, stored_pools), 0),
        groups_match_pools(pools_or_empty(config, stored_pools), bids_by_slot, 0),
    ensures
        ({
            let pools = pools_or_empty(config, stored_pools);
            let (out, left, matched) = allocation(pools, reward as int, rate);
            let saved = out.map_values(|p: BidPool| Some(p));
            &&& groups_received(saved, bids_by_slot, 0) <= reward - left
            &&& matched + groups_residue(saved, bids_by_slot, 0) <= deposits_from(pools, 0)
            &&& forall|s: int|
                0 <= s < pools.len() ==> #[trigger] received_total(saved, bids_by_slot[s]) <= mul_floor(
                    pools[s].total_bid_amount as int,
                    out[s].received_per_token.atomics as int,
                )
            &&& forall|s: int|
                0 <= s < pools.len() ==> #[trigger] residue_total(saved, bids_by_slot[s]) + mul_floor(
                    pools[s].total_bid_amount as int,
                    out[s].index_snapshot.atomics as int,
                ) <= pools[s].total_bid_amount
        }),
{
    let pools = pools_or_empty(config, stored_pools);
    lemma_payout_from(pools, 0, reward as int, 0, rate, bids_by_slot);
    lemma_allocate_from(pools, 0, reward as int, 0, rate);
    let (out, left, matched) = allocation(pools, reward as int, rate);
    let saved = out.map_values(|p: BidPool| Some(p));
    assert forall|s: int| 0 <= s < pools.len() implies #[trigger] received_total(saved, bids_by_slot[s]) <= mul_floor(
        pools[s].total_bid_amount as int,
        out[s].received_per_token.atomics as int,
    ) by {
        lemma_slot_payout(pools, out, bids_by_slot, s);
    }
    assert forall|s: int| 0 <= s < pools.len() implies #[trigger] residue_total(saved, bids_by_slot[s]) + mul_floor(
        pools[s].total_bid_amount as int,
        out[s].index_snapshot.atomics as int,
    ) <= pools[s].total_bid_amount by {
        lemma_slot_payout(pools, out, bids_by_slot, s);
    }
}

/// What `query_estimate_amount_receive` reports for a new deposit of
/// `bid_amount` in `slot` is what that deposit is paid: once
/// `execute_submit_bid` takes it (writing `bid_pool_written` for the slot
/// and the bid `bid_written`), `execute_finalize_bidding_round_result`
/// stores the pools it allocates at the same rate, and `execute_distribute`
/// pays the bid out (`paid_bid`), the bid has received and got back what the
/// estimate said.
pub proof fn law_deposit_estimate_matches_payout(
    config: &Config,
    stored_pools: Seq<Option<BidPool>>,
    reward: u128,
    rate: Decimal,
    now: u64,
    round: u64,
    slot: u8,
    bidder: String,
    bid_amount: u128,
    stored_bid_idx: Option<u64>,
)
    requires
        stored_pools.len() == config.max_slot,
        stored_slots_in_place(stored_pools),
        1 <= slot <= config.max_slot,
        allocation_ok(
            pools_or_empty(
                config,
                stored_pools.update(slot - 1, Some(bid_pool_written(config, stored_pools[slot - 1], slot, bid_amount))),
            ),
            0,
            reward as int,
            0,
            rate,
        ),
    ensures
        ({
            let bid = bid_written(now, round, slot, bidder, bid_amount, stored_bid_idx);
            let after = stored_pools.update(
                slot - 1,
                Some(bid_pool_written(config, stored_pools[slot - 1], slot, bid_amount)),
            );
            let saved = allocated_pools(config, after, reward, rate).map_values(|p: BidPool| Some(p));
            let paid = paid_bid(saved, bid);
            estimate(
                allocation(add_to_slot(pools_or_empty(config, stored_pools), slot, bid_amount), reward as int, rate).0,
                slot,
                bid_amount,
            ) == (EstimateAmountReceiveOfBidResponse { receive: paid.amount_received, residue_bid: paid.residue_bid })
        }),
{
    let bid = bid_written(now, round, slot, bidder, bid_amount, stored_bid_idx);
    let k = slot - 1;
    let pool = pool_for_bid(config, stored_pools[k], slot);
    let new_pool = bid_pool_written(config, stored_pools[k], slot, bid_amount);
    let after = stored_pools.update(k, Some(new_pool));
    let before = pools_or_empty(config, stored_pools);
    lemma_pools_in_place(config, stored_pools);
    assert forall|j: int| 0 <= j < k implies (#[trigger] before[j]).slot != slot by {}
    assert(before[k] == pool);
    lemma_add_to_slot(before, slot, bid_amount, k);
    assert(add_to_slot(before, slot, bid_amount) =~= pools_or_empty(config, after));
    law_bid_keeps_pool_slots(config, stored_pools, slot, bid_amount);
    law_estimate_matches_payout(config, after, reward, rate, bid);
}

/// The allocation's cut at position `c`: every pool with deposits from `i`
/// up to `c` is matched in full, every pool after `c` is left as it was, and
/// a cut before the end leaves no reward.
pub open spec fn greedy_cut(pools: Seq<BidPool>, out: Seq<BidPool>, i: int, c: int, left: int) -> bool {
    &&& i <= c <= pools.len()
    &&& forall|j: int|
        i <= j < c && pools[j].total_bid_amount > 0 ==> (#[trigger] out[j]).index_snapshot.atomics == DECIMAL_FRACTIONAL
    &&& forall|j: int| c < j < pools.len() ==> #[trigger] out[j] == pools[j]
    &&& c < pools.len() ==> left == 0
}

proof fn lemma_greedy_from(pools: Seq<BidPool>, i: int, remaining: int, matched: int, rate: Decimal)
    requires
        0 <= i <= pools.len(),
        0 <= remaining,
        allocation_ok(pools, i, remaining, matched, rate),
    ensures
        ({
            let (out, left, m) = allocate_from(pools, i, remaining, matched, rate);
            exists|c: int| #[trigger] greedy_cut(pools, out, i, c, left)
        }),
    decreases pools.len() - i,
{
    let (out, left, m) = allocate_from(pools, i, remaining, matched, rate);
    if i == pools.len() {
        assert(greedy_cut(pools, out, i, i, left));
    } else if pools[i].total_bid_amount == 0 {
        lemma_greedy_from(pools, i + 1, remaining, matched, rate);
        let c = choose|c: int| #[trigger] greedy_cut(pools, out, i + 1, c, left);
        assert(greedy_cut(pools, out, i, c, left));
    } else {
        let pool = pools[i];
        let settled = matched_pool(pool, remaining, rate);
        let next = pools.update(i, settled);
        let left1 = remaining - allocated_amount(pool, remaining, rate);
        let m1 = matched + matched_amount(pool, remaining, rate);
        if left1 == 0 {
            assert(out == next);
            assert(greedy_cut(pools, out, i, i, left));
        } else {
            lemma_greedy_from(next, i + 1, left1, m1, rate);
            lemma_allocate_from(next, i + 1, left1, m1, rate);
            let c = choose|c: int| #[trigger] greedy_cut(next, out, i + 1, c, left);
            lemma_ratio_whole(desired_amount(pool, rate));
            assert(out[i] == settled);
            assert forall|j: int| i <= j < c && pools[j].total_bid_amount > 0 implies (
            #[trigger] out[j]).index_snapshot.atomics == DECIMAL_FRACTIONAL by {
                if j > i {
                    assert(next[j] == pools[j]);
                }
            }
            assert forall|j: int| c < j < pools.len() implies #[trigger] out[j] == pools[j] by {
                assert(next[j] == pools[j]);
            }
            assert(greedy_cut(pools, out, i, c, left));
        }
    }
}

/// The allocation fills the pools in slot order: there is a cut such that
/// every pool with deposits before it is matched in full, every pool after
/// it is left as it was, and a cut before the last pool leaves no reward.
/// Only the pool at the cut can be matched in part.
pub proof fn law_allocation_is_greedy(pools: Seq<BidPool>, reward: u128, rate: Decimal)
    requires
        allocation_ok(pools, 0, reward as int, 0, rate),
    ensures
        ({
            let (out, left, matched) = allocation(pools, reward as int, rate);
            exists|c: int| #[trigger] greedy_cut(pools, out, 0, c, left)
        }),
{
    lemma_greedy_from(pools, 0, reward as int, 0, rate);
    let (out, left, matched) = allocation(pools, reward as int, rate);
    let c = choose|c: int| #[trigger] greedy_cut(pools, out, 0, c, left);
    assert(greedy_cut(pools, out, 0, c, left));
}

/// A bid keeps the deposits of each slot equal to those of its bids: when
/// `bids_by_slot[s]` holds the bids of slot `s + 1` and their deposits are
/// those of the slot's pool, then with the new bid added to its slot and its
/// deposit to the pool of that slot, they still are.
pub proof fn law_bid_keeps_slot_deposits(
    config: &Config,
    stored_pools: Seq<Option<BidPool>>,
    bids_by_slot: Seq<Seq<Bid>>,
    bid: Bid,
)
    requires
        stored_pools.len() == config.max_slot,
        1 <= bid.premium_slot <= config.max_slot,
        groups_match_pools(pools_or_empty(config, stored_pools), bids_by_slot, 0),
        pool_for_bid(config, stored_pools[bid.premium_slot - 1], bid.premium_slot).total_bid_amount + bid.amount
            <= u128::MAX,
    ensures
        ({
            let k = bid.premium_slot - 1;
            let pool = pool_for_bid(config, stored_pools[k], bid.premium_slot);
            let after = stored_pools.update(
                k,
                Some(BidPool { total_bid_amount: (pool.total_bid_amount + bid.amount) as u128, ..pool }),
            );
            groups_match_pools(pools_or_empty(config, after), bids_by_slot.update(k, bids_by_slot[k].push(bid)), 0)
        }),
{
    let k = bid.premium_slot - 1;
    let pool = pool_for_bid(config, stored_pools[k], bid.premium_slot);
    let new_pool = BidPool { total_bid_amount: (pool.total_bid_amount + bid.amount) as u128, ..pool };
    let after = stored_pools.update(k, Some(new_pool));
    let before = pools_or_empty(config, stored_pools);
    let pools = pools_or_empty(config, after);
    let groups = bids_by_slot.update(k, bids_by_slot[k].push(bid));
    assert(before[k] == pool);
    assert(groups[k].drop_last() =~= bids_by_slot[k]);
    assert forall|s: int| 0 <= s < pools.len() implies amount_total(#[trigger] groups[s]) == pools[s].total_bid_amount by {
        if s != k {
            assert(pools[s] == before[s]);
        }
    }
    assert forall|s: int, j: int| 0 <= s < groups.len() && 0 <= j < groups[s].len() implies (
    #[trigger] groups[s][j]).premium_slot == s + 1 by {
        if s == k && j < bids_by_slot[k].len() {
            assert(groups[s][j] == bids_by_slot[k][j]);
        }
    }
}

/// Round ids only grow: a round created, by the owner or by the treasury,
/// takes the id one past the last one.
pub proof fn law_round_ids_increase(
    config: &Config,
    last_round_id: u64,
    stored_last_round: Option<BiddingInfo>,
    now: u64,
    start_time: u64,
    end_time: u64,
    amount: u128,
)
    requires
        last_round_id < u64::MAX,
    ensures
        create_round_result(Some(last_round_id), now, start_time, end_time, amount) matches Ok(r) ==> r.round
            == last_round_id + 1 && r.bidding_info.round == r.round,
        treasury_round_result(config, amount, now, Some(last_round_id), stored_last_round) matches Ok(r) ==> r.round
            == last_round_id + 1 && r.bidding_info.round == r.round,
{
}

/// An update leaves a round's release alone: whether it was finalized, its
/// exchange rate, the reward handed out and the bids paid stay as they were.
pub proof fn law_update_keeps_release(
    info: BiddingInfo,
    dist: DistributionInfo,
    now: u64,
    start_time: Option<u64>,
    end_time: Option<u64>,
    total_distribution: Option<u128>,
)
    ensures
        update_round_result(info, dist, now, start_time, end_time, total_distribution) matches Ok(r) ==> {
            &&& r.1.is_released == dist.is_released
            &&& r.1.exchange_rate == dist.exchange_rate
            &&& r.1.actual_distributed == dist.actual_distributed
            &&& r.1.num_bids_distributed == dist.num_bids_distributed
            &&& r.0.round == info.round
            &&& r.0.total_bid_amount == info.total_bid_amount
            &&& r.0.total_bid_matched == info.total_bid_matched
        },
{
}

proof fn lemma_payout_keeps_transfer(
    config: &Config,
    stored: Seq<Option<BidPool>>,
    bids: Seq<(u64, Option<Bid>)>,
    i: int,
    m: TokenMsg,
)
    requires
        0 <= i < bids.len(),
        bids[i].1 matches Some(b) && !b.is_distributed && bid_transfers(config, stored, b).contains(m),
    ensures
        payout(config, stored, bids).1.contains(m),
    decreases bids.len(),
{
    let rest = bids.drop_last();
    let msgs = payout(config, stored, rest).1;
    let last = bids.last();
    if i < bids.len() - 1 {
        assert(rest[i] == bids[i]);
        lemma_payout_keeps_transfer(config, stored, rest, i, m);
        let k = choose|k: int| 0 <= k < msgs.len() && msgs[k] == m;
        match last.1 {
            Some(b) => if !b.is_distributed {
                let t = bid_transfers(config, stored, b);
                assert((msgs + t)[k] == m);
            },
            None => {},
        }
    } else {
        let b = last.1->Some_0;
        let t = bid_transfers(config, stored, b);
        let k = choose|k: int| 0 <= k < t.len() && t[k] == m;
        assert((msgs + t)[msgs.len() + k] == m);
    }
}

/// Paying out gives every bid not paid yet back the part of its deposit its
/// slot did not match: whenever that part (the deposit times one minus the
/// slot's matched share, rounded down) is positive, the payout sends exactly
/// that much of the underlying token to the bidder, whatever reward the bid
/// receives.
pub proof fn law_payout_refunds_unmatched(
    config: &Config,
    stored: Seq<Option<BidPool>>,
    bids: Seq<(u64, Option<Bid>)>,
    i: int,
)
    requires
        0 <= i < bids.len(),
        bids[i].1 matches Some(b) && !b.is_distributed
            && mul_floor(b.amount as int, DECIMAL_FRACTIONAL - slot_index(stored, b.premium_slot)) > 0,
    ensures
        ({
            let b = bids[i].1->Some_0;
            payout(config, stored, bids).1.contains(
                TokenMsg::Transfer {
                    asset: config.underlying_token,
                    recipient: b.bidder,
                    amount: mul_floor(b.amount as int, DECIMAL_FRACTIONAL - slot_index(stored, b.premium_slot)) as u128,
                },
            )
        }),
{
    let b = bids[i].1->Some_0;
    let t = bid_transfers(config, stored, b);
    assert(t[t.len() - 1] == TokenMsg::Transfer {
        asset: config.underlying_token,
        recipient: b.bidder,
        amount: mul_floor(b.amount as int, DECIMAL_FRACTIONAL - slot_index(stored, b.premium_slot)) as u128,
    });
    lemma_payout_keeps_transfer(
        config,
        stored,
        bids,
        i,
        TokenMsg::Transfer {
            asset: config.underlying_token,
            recipient: b.bidder,
            amount: mul_floor(b.amount as int, DECIMAL_FRACTIONAL - slot_index(stored, b.premium_slot)) as u128,
        },
    );
}

/// Paying out sends every bid not paid yet its reward: whenever its deposit
/// times its slot's reward per token, rounded down, is positive, the payout
/// sends exactly that much of the distribution token to the bidder.
pub proof fn law_payout_pays_reward(
    config: &Config,
    stored: Seq<Option<BidPool>>,
    bids: Seq<(u64, Option<Bid>)>,
    i: int,
)
    requires
        0 <= i < bids.len(),
        bids[i].1 matches Some(b) && !b.is_distributed
            && mul_floor(b.amount as int, slot_received_per_token(stored, b.premium_slot)) > 0,
    ensures
        ({
            let b = bids[i].1->Some_0;
            payout(config, stored, bids).1.contains(
                TokenMsg::Transfer {
                    asset: config.distribution_token,
                    recipient: b.bidder,
                    amount: mul_floor(b.amount as int, slot_received_per_token(stored, b.premium_slot)) as u128,
                },
            )
        }),
{
    let b = bids[i].1->Some_0;
    let m = TokenMsg::Transfer {
        asset: config.distribution_token,
        recipient: b.bidder,
        amount: mul_floor(b.amount as int, slot_received_per_token(stored, b.premium_slot)) as u128,
    };
    assert(bid_transfers(config, stored, b)[0] == m);
    lemma_payout_keeps_transfer(config, stored, bids, i, m);
}

/// Finalizing burns the matched deposits first and sends every unit of the
/// reward the allocation leaves back to the owner: the first message burns
/// exactly the matched deposits of the underlying token, a positive
/// leftover is sent in full in the distribution token to the owner whatever
/// was matched, and with nothing left nothing else is sent.
pub proof fn law_finalize_returns_unspent(config: &Config, matched: int, left: int)
    ensures
        finalize_messages(config, matched, left).len() >= 1,
        finalize_messages(config, matched, left)[0] == (TokenMsg::Burn {
            asset: config.underlying_token,
            amount: matched as u128,
        }),
        left > 0 ==> finalize_messages(config, matched, left).contains(
            TokenMsg::Transfer { asset: config.distribution_token, recipient: config.owner, amount: left as u128 },
        ),
        left == 0 ==> finalize_messages(config, matched, left).len() == 1,
{
    if left > 0 {
        assert(finalize_messages(config, matched, left)[1] == TokenMsg::Transfer {
            asset: config.distribution_token,
            recipient: config.owner,
            amount: left as u128,
        });
    }
}

/// Shortening or lengthening a round that has not started: when only a new
/// end time `e` is given, the round has not ended, `e` is not before `now`,
/// and the round still runs forward from a start not before `now`, the update
/// succeeds with the end time `e`, everything else of the round kept, and
/// the reward replaced only when one is given.
pub proof fn law_update_end_time(
    info: BiddingInfo,
    dist: DistributionInfo,
    now: u64,
    e: u64,
    total_distribution: Option<u128>,
)
    requires
        now <= info.end_time,
        now <= e,
        info.start_time < e,
        now <= info.start_time,
    ensures
        update_round_result(info, dist, now, None, Some(e), total_distribution) == Ok::<
            (BiddingInfo, DistributionInfo),
            ContractError,
        >(
            (
                BiddingInfo { end_time: e, ..info },
                match total_distribution {
                    Some(t) => DistributionInfo { total_distribution: t, ..dist },
                    None => dist,
                },
            ),
        ),
{
}

/// Moving the start of a round that has not opened: when only a new start
/// `s` is given, bids are not taken at `now`, and the round runs forward from
/// `s`, not before `now`, the update succeeds with the start `s`.
pub proof fn law_update_start_time(info: BiddingInfo, dist: DistributionInfo, now: u64, s: u64)
    requires
        now < info.start_time,
        s < info.end_time,
        now <= s,
    ensures
        update_round_result(info, dist, now, Some(s), None, None) == Ok::<(BiddingInfo, DistributionInfo), ContractError>(
            (BiddingInfo { start_time: s, ..info }, dist),
        ),
{
}

/// An update of a round that has ended is refused as such, whatever it asks;
/// a new end time before `now` is refused as a bad time range.
pub proof fn law_update_refusals(
    info: BiddingInfo,
    dist: DistributionInfo,
    now: u64,
    start_time: Option<u64>,
    end_time: Option<u64>,
    total_distribution: Option<u128>,
)
    ensures
        info.end_time < now ==> update_round_result(info, dist, now, start_time, end_time, total_distribution) == Err::<
            (BiddingInfo, DistributionInfo),
            ContractError,
        >(ContractError::RoundEnded),
        now <= info.end_time && (end_time matches Some(e) && e < now) ==> update_round_result(
            info,
            dist,
            now,
            start_time,
            end_time,
            total_distribution,
        ) == Err::<(BiddingInfo, DistributionInfo), ContractError>(ContractError::InvalidBiddingTimeRange),
{
}

/// The name a token goes by: a cw20 contract's address or a native denomination.
pub open spec fn token_name(a: AssetInfo) -> Seq<char> {
    match a {
        AssetInfo::Token { contract_addr } => contract_addr@,
        AssetInfo::NativeToken { denom } => denom@,
    }
}

/// Two tokens are the same exactly when they are of the same kind and go by
/// the same name; in particular two native denominations, or two cw20
/// contracts, with different names are different tokens.
pub proof fn law_same_token(a: AssetInfo, b: AssetInfo)
    ensures
        a.same_as(&b) <==> ((a is NativeToken <==> b is NativeToken) && token_name(a) == token_name(b)),
{
}

/// Funds in any token but the underlying one are refused before anything
/// else: a bid paid in another denomination, another cw20 contract or the
/// other kind of token is refused with `InvalidFunds`.
pub proof fn law_bid_in_other_token_refused(config: &Config, premium_slot: u8, funds: &Asset)
    requires
        !((config.underlying_token is NativeToken <==> funds.info is NativeToken) && token_name(config.underlying_token)
            == token_name(funds.info)),
    ensures
        bid_precheck(config, premium_slot, funds) == Some(ContractError::InvalidFunds),
{
}

/// A bid in the underlying token is refused for a deposit below the minimum,
/// then for a slot outside `1..=max_slot`, and otherwise passes the checks;
/// once taken, the round's deposits grow by exactly the deposit.
pub proof fn law_bid_checks(config: &Config, premium_slot: u8, funds: &Asset, info: BiddingInfo)
    requires
        config.underlying_token.same_as(&funds.info),
        info.total_bid_amount + funds.amount <= u128::MAX,
    ensures
        funds.amount < config.min_deposit_amount ==> bid_precheck(config, premium_slot, funds) == Some(
            generic(GenericReason::MinimumDeposit { min_deposit_amount: config.min_deposit_amount, amount: funds.amount }),
        ),
        funds.amount >= config.min_deposit_amount && (premium_slot == 0 || premium_slot > config.max_slot)
            ==> bid_precheck(config, premium_slot, funds) == Some(
            generic(GenericReason::PremiumSlotOutOfRange { max_slot: config.max_slot, premium_slot }),
        ),
        funds.amount >= config.min_deposit_amount && 1 <= premium_slot <= config.max_slot ==> bid_precheck(
            config,
            premium_slot,
            funds,
        ) is None,
        bid_info_written(info, funds.amount).total_bid_amount == info.total_bid_amount + funds.amount,
        bid_info_written(info, funds.amount).round == info.round,
        bid_info_written(info, funds.amount).start_time == info.start_time,
        bid_info_written(info, funds.amount).end_time == info.end_time,
{
}

/// The phases of a round follow one another: bids are taken from the start
/// to the end, both included, and the round is over only after its end; a
/// round that is over takes no bids, and a round that may still be created
/// or moved (forward, not started) takes bids at `now` only when it starts
/// at `now`.
pub proof fn law_round_phases(info: BiddingInfo, now: u64)
    ensures
        info.opening_at(now) ==> !info.finished_at(now),
        info.finished_at(now) ==> !info.opening_at(now) && now > info.end_time,
        info.valid_duration_at(now) ==> !info.finished_at(now) && (info.opening_at(now) <==> info.start_time == now),
        info.start_time <= now && !info.finished_at(now) ==> info.opening_at(now),
{
}

/// A treasury round starts at `now` when the last round has ended before
/// `now`, and right after the last round's end otherwise.
pub proof fn law_treasury_start(now: u64, last_end: u64)
    ensures
        last_end < now ==> treasury_start(now, last_end) == now,
        now <= last_end ==> treasury_start(now, last_end) == last_end + 1,
{
}

/// A pool with deposits asks for its deposits at the exchange rate, then
/// with its premium on top (each product rounded down), and gets that or
/// all the reward there is: the reward left drops by what it gets, its
/// matched share is what it gets over what it asked for, its reward per
/// token is what it gets over its deposits, and the deposits matched are its
/// deposits at that share.
pub proof fn law_single_pool_allocation(pool: BidPool, reward: u128, rate: Decimal)
    requires
        pool.total_bid_amount > 0,
        allocation_ok(seq![pool], 0, reward as int, 0, rate),
    ensures
        ({
            let asked = mul_floor(
                mul_floor(pool.total_bid_amount as int, rate.atomics as int),
                DECIMAL_FRACTIONAL + pool.premium_rate.atomics,
            );
            let got = if asked <= reward { asked } else { reward as int };
            let (out, left, matched) = allocation(seq![pool], reward as int, rate);
            &&& left == reward - got
            &&& out[0].index_snapshot.atomics == got * (DECIMAL_FRACTIONAL as int) / asked
            &&& out[0].received_per_token.atomics == got * (DECIMAL_FRACTIONAL as int) / (pool.total_bid_amount as int)
            &&& matched == (pool.total_bid_amount as int) * (out[0].index_snapshot.atomics as int) / (DECIMAL_FRACTIONAL as int)
            &&& out[0].slot == pool.slot && out[0].total_bid_amount == pool.total_bid_amount
            &&& out[0].premium_rate == pool.premium_rate
        }),
{
    let pools = seq![pool];
    let (out, left, matched) = allocation(pools, reward as int, rate);
    let settled = matched_pool(pool, reward as int, rate);
    let l = reward - allocated_amount(pool, reward as int, rate);
    let m = matched_amount(pool, reward as int, rate);
    assert(pools[0] == pool);
    assert(step_ok(pool, reward as int, 0, rate));
    lemma_ratio_at_most_one(allocated_amount(pool, reward as int, rate), desired_amount(pool, rate));
    assert(pools.update(0, settled) =~= seq![settled]);
    if l != 0 {
        assert(allocate_from(seq![settled], 1, l, m, rate) == (seq![settled], l, m));
    }
    assert(out == seq![settled] && left == l && matched == m);
}

} // verus!
