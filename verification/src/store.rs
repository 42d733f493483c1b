//! The contract's stored state, as the handlers read and write it, and what
//! every handler keeps of it: the deposits of a round, of its pools and of
//! its bids agree, each bidder's index list holds that bidder's bids, the
//! counters never go down, a finalized round keeps its rate and the reward
//! it handed out, and a paid bid is never written again.
use vstd::prelude::*;
use crate::asset::Asset;
use crate::bid::{
    bid_info_written, bid_pool_written, bid_precheck, bid_written, create_round_result, pool_for_bid,
    treasury_round_result, update_round_result, NewRound, allocation, finalize_precheck, lemma_allocate_from,
    settled_or_kept, paid_bid, payout, count_unpaid,
};
use crate::limits::{distribute_in_range, finalize_in_range, submit_bid_in_range};
use crate::state::pools_or_empty;
use crate::decimal::Decimal;
use crate::laws::{amount_total, stored_slots_in_place};
use crate::state::{next_bid_idx, Bid, BidPool, BiddingInfo, Config, DistributionInfo};

verus! {

/// Number of premium slots a round can store pools for (every `u8` slot but zero).
pub open spec fn slot_count() -> int {
    255
}

/// What is stored for one round: its bidding side, its reward side, the
/// pool of each slot (`pools[s]` for slot `s + 1`), its bids in the order
/// they were taken, and the index list of each bidder.
pub struct RoundStore {
    pub info: BiddingInfo,
    pub dist: DistributionInfo,
    pub pools: Seq<Option<BidPool>>,
    pub bids: Seq<Bid>,
    pub by_user: Map<Seq<char>, Seq<u64>>,
}

/// The contract's stored state: the settings, the last round id, the bid
/// counter and the rounds by id.
pub struct Store {
    pub config: Config,
    pub last_round_id: u64,
    pub bid_idx: Option<u64>,
    pub rounds: Map<u64, RoundStore>,
}

/// The deposits of a stored pool; none for a slot without one.
pub open spec fn pool_deposits(p: Option<BidPool>) -> int {
    match p {
        Some(pool) => pool.total_bid_amount as int,
        None => 0,
    }
}

/// The deposits of the stored pools from position `i` on.
pub open spec fn stored_deposits(pools: Seq<Option<BidPool>>, i: int) -> int
    decreases pools.len() - i,
{
    if i < 0 || i >= pools.len() {
        0
    } else {
        pool_deposits(pools[i]) + stored_deposits(pools, i + 1)
    }
}

/// The deposits of the bids of one slot.
pub open spec fn slot_deposits(bids: Seq<Bid>, slot: int) -> int
    decreases bids.len(),
{
    if bids.len() == 0 {
        0
    } else {
        slot_deposits(bids.drop_last(), slot) + if bids.last().premium_slot == slot {
            bids.last().amount as int
        } else {
            0
        }
    }
}

/// The indices of the bids of one bidder, in the order they were taken.
pub open spec fn user_idxs(bids: Seq<Bid>, user: Seq<char>) -> Seq<u64>
    decreases bids.len(),
{
    if bids.len() == 0 {
        Seq::empty()
    } else if bids.last().bidder@ == user {
        user_idxs(bids.drop_last(), user).push(bids.last().idx)
    } else {
        user_idxs(bids.drop_last(), user)
    }
}

/// The index list stored for a bidder; none before their first bid.
pub open spec fn user_list(by_user: Map<Seq<char>, Seq<u64>>, user: Seq<char>) -> Seq<u64> {
    if by_user.contains_key(user) {
        by_user[user]
    } else {
        Seq::empty()
    }
}

/// What holds of a stored round with id `key`, while the bid counter would
/// hand out `next` next.
pub open spec fn round_inv(r: RoundStore, key: u64, next: int) -> bool {
    &&& r.pools.len() == slot_count()
    &&& r.info.round == key
    &&& stored_slots_in_place(r.pools)
    &&& r.info.total_bid_amount == amount_total(r.bids)
    &&& r.info.total_bid_amount == stored_deposits(r.pools, 0)
    &&& forall|s: int| 0 <= s < slot_count() ==> pool_deposits(#[trigger] r.pools[s]) == slot_deposits(r.bids, s + 1)
    &&& forall|k: int|
        0 <= k < r.bids.len() ==> (#[trigger] r.bids[k]).round == key && 1 <= r.bids[k].premium_slot && r.bids[k].idx
            < next
    &&& forall|j: int, k: int| 0 <= j < k < r.bids.len() ==> (#[trigger] r.bids[j]).idx < (#[trigger] r.bids[k]).idx
    &&& forall|u: Seq<char>| #[trigger] user_list(r.by_user, u) == user_idxs(r.bids, u)
}

/// What holds of the whole stored state: every round stored under an id up
/// to the last one holds its round invariant.
pub open spec fn store_inv(st: Store) -> bool {
    forall|key: u64|
        #[trigger] st.rounds.contains_key(key) ==> 1 <= key <= st.last_round_id && round_inv(
            st.rounds[key],
            key,
            next_bid_idx(st.bid_idx),
        )
}

/// How one call changes the stored state, where it goes through: the last
/// round id and the bid counter never go down, no round is dropped, a
/// finalized round stays finalized with its rate and the reward it handed
/// out, no bid is dropped or moves, and a paid bid is never written again.
pub open spec fn store_step(st: Store, st2: Store) -> bool {
    &&& st2.last_round_id >= st.last_round_id
    &&& next_bid_idx(st2.bid_idx) >= next_bid_idx(st.bid_idx)
    &&& forall|key: u64| #[trigger] st.rounds.contains_key(key) ==> {
        let r = st.rounds[key];
        let r2 = st2.rounds[key];
        &&& st2.rounds.contains_key(key)
        &&& r.dist.is_released ==> r2.dist.is_released && r2.dist.exchange_rate == r.dist.exchange_rate
            && r2.dist.actual_distributed == r.dist.actual_distributed
        &&& r2.bids.len() >= r.bids.len()
        &&& forall|j: int| 0 <= j < r.bids.len() ==> (#[trigger] r2.bids[j]).idx == r.bids[j].idx
        &&& forall|j: int| 0 <= j < r.bids.len() && (#[trigger] r.bids[j]).is_distributed ==> r2.bids[j] == r.bids[j]
    }
}

/// The state the contract starts with.
pub open spec fn initial_store(config: Config) -> Store {
    Store { config, last_round_id: 0, bid_idx: None, rounds: Map::empty() }
}

/// The contract starts in a state that holds the invariant.
pub proof fn law_initial_store(config: Config)
    ensures
        store_inv(initial_store(config)),
{
}

/// The state once a new round is stored.
pub open spec fn with_new_round(st: Store, nr: NewRound) -> Store {
    Store {
        last_round_id: nr.round,
        rounds: st.rounds.insert(
            nr.round,
            RoundStore {
                info: nr.bidding_info,
                dist: nr.distribution_info,
                pools: Seq::new(slot_count() as nat, |i: int| None),
                bids: Seq::empty(),
                by_user: Map::empty(),
            },
        ),
        ..st
    }
}

/// Creating a round, by the owner or by the treasury, keeps the invariant
/// and is a step.
pub proof fn law_create_round_keeps_store(
    st: Store,
    now: u64,
    start_time: u64,
    end_time: u64,
    amount: u128,
    stored_last_round: Option<BiddingInfo>,
    nr: NewRound,
)
    requires
        store_inv(st),
        st.last_round_id < u64::MAX,
        create_round_result(Some(st.last_round_id), now, start_time, end_time, amount) == Ok::<NewRound, crate::error::ContractError>(nr)
            || treasury_round_result(&st.config, amount, now, Some(st.last_round_id), stored_last_round) == Ok::<
            NewRound,
            crate::error::ContractError,
        >(nr),
    ensures
        store_inv(with_new_round(st, nr)),
        store_step(st, with_new_round(st, nr)),
{
    let st2 = with_new_round(st, nr);
    assert(nr.round == st.last_round_id + 1);
    let r = st2.rounds[nr.round];
    assert(r.bids =~= Seq::<Bid>::empty());
    assert forall|u: Seq<char>| #[trigger] user_list(r.by_user, u) == user_idxs(r.bids, u) by {}
    assert(stored_deposits(r.pools, 0) == 0) by {
        lemma_no_deposits(r.pools, 0);
    }
    assert forall|key: u64| #[trigger] st2.rounds.contains_key(key) implies 1 <= key <= st2.last_round_id && round_inv(
        st2.rounds[key],
        key,
        next_bid_idx(st2.bid_idx),
    ) by {
        if key != nr.round {
            assert(st.rounds.contains_key(key));
        }
    }
    assert forall|key: u64| #[trigger] st.rounds.contains_key(key) implies st2.rounds.contains_key(key) && st2.rounds[key] == st.rounds[key] by {
        assert(key <= st.last_round_id);
    }
}

proof fn lemma_no_deposits(pools: Seq<Option<BidPool>>, i: int)
    requires
        forall|s: int| 0 <= s < pools.len() ==> #[trigger] pools[s] is None,
    ensures
        stored_deposits(pools, i) == 0,
    decreases pools.len() - i,
{
    if 0 <= i < pools.len() {
        lemma_no_deposits(pools, i + 1);
    }
}

/// A round's invariant holds for every later value of the bid counter.
proof fn lemma_round_inv_later(r: RoundStore, key: u64, next: int, later: int)
    requires
        round_inv(r, key, next),
        next <= later,
    ensures
        round_inv(r, key, later),
{
}

proof fn lemma_stored_deposits_update(pools: Seq<Option<BidPool>>, k: int, q: Option<BidPool>, i: int)
    requires
        0 <= k < pools.len(),
        0 <= i,
    ensures
        stored_deposits(pools.update(k, q), i) == stored_deposits(pools, i) + (if i <= k {
            pool_deposits(q) - pool_deposits(pools[k])
        } else {
            0
        }),
    decreases pools.len() - i,
{
    if i < pools.len() {
        lemma_stored_deposits_update(pools, k, q, i + 1);
    }
}

/// The state once a bid of `funds` by `bidder` in `premium_slot` of round
/// `key` is taken: the round, the pool of the slot and the bidder's list as
/// `execute_submit_bid` and `store_bid` write them, the bid appended, and
/// the counter one past the bid's index.
pub open spec fn after_bid(st: Store, key: u64, now: u64, premium_slot: u8, bidder: String, amount: u128) -> Store {
    let r = st.rounds[key];
    let bid = bid_written(now, key, premium_slot, bidder, amount, st.bid_idx);
    Store {
        bid_idx: Some((next_bid_idx(st.bid_idx) + 1) as u64),
        rounds: st.rounds.insert(
            key,
            RoundStore {
                info: bid_info_written(r.info, amount),
                pools: r.pools.update(
                    premium_slot - 1,
                    Some(bid_pool_written(&st.config, r.pools[premium_slot - 1], premium_slot, amount)),
                ),
                bids: r.bids.push(bid),
                by_user: r.by_user.insert(bidder@, user_list(r.by_user, bidder@).push(bid.idx)),
                dist: r.dist,
            },
        ),
        ..st
    }
}

/// A bid that `execute_submit_bid` takes keeps the invariant and is a step.
pub proof fn law_bid_keeps_store(st: Store, key: u64, now: u64, premium_slot: u8, bidder: String, funds: Asset)
    requires
        store_inv(st),
        st.rounds.contains_key(key),
        bid_precheck(&st.config, premium_slot, &funds) is None,
        st.rounds[key].info.opening_at(now),
        submit_bid_in_range(
            &st.config,
            now,
            premium_slot,
            &funds,
            Some(st.rounds[key].info),
            st.rounds[key].pools[premium_slot - 1],
            st.bid_idx,
        ),
    ensures
        store_inv(after_bid(st, key, now, premium_slot, bidder, funds.amount)),
        store_step(st, after_bid(st, key, now, premium_slot, bidder, funds.amount)),
{
    let amount = funds.amount;
    let st2 = after_bid(st, key, now, premium_slot, bidder, amount);
    let r = st.rounds[key];
    let r2 = st2.rounds[key];
    let next = next_bid_idx(st.bid_idx);
    let k = premium_slot - 1;
    let bid = bid_written(now, key, premium_slot, bidder, amount, st.bid_idx);
    let pool = pool_for_bid(&st.config, r.pools[k], premium_slot);
    assert(round_inv(r, key, next));
    assert(pool_deposits(r.pools[k]) == pool.total_bid_amount);
    assert(r.pools[k] matches Some(p) ==> p.slot == k + 1);
    // deposits
    assert(r2.bids.drop_last() =~= r.bids);
    lemma_stored_deposits_update(r.pools, k, r2.pools[k], 0);
    assert forall|s: int| 0 <= s < slot_count() implies pool_deposits(#[trigger] r2.pools[s]) == slot_deposits(r2.bids, s + 1) by {
        assert(pool_deposits(r.pools[s]) == slot_deposits(r.bids, s + 1));
    }
    assert(stored_slots_in_place(r2.pools)) by {
        assert forall|i: int| 0 <= i < r2.pools.len() implies (#[trigger] r2.pools[i] matches Some(p) ==> p.slot == i + 1) by {
            assert(r.pools[i] matches Some(p) ==> p.slot == i + 1);
        }
    }
    // bids
    assert forall|j: int| 0 <= j < r2.bids.len() implies (#[trigger] r2.bids[j]).round == key && 1 <= r2.bids[j].premium_slot
        && r2.bids[j].idx < next + 1 by {
        if j < r.bids.len() {
            assert(r2.bids[j] == r.bids[j]);
        }
    }
    assert forall|i: int, j: int| 0 <= i < j < r2.bids.len() implies (#[trigger] r2.bids[i]).idx < (#[trigger] r2.bids[j]).idx by {
        assert(r2.bids[i] == r.bids[i]);
        if j < r.bids.len() {
            assert(r2.bids[j] == r.bids[j]);
        }
    }
    assert forall|u: Seq<char>| #[trigger] user_list(r2.by_user, u) == user_idxs(r2.bids, u) by {
        assert(user_list(r.by_user, u) == user_idxs(r.bids, u));
    }
    assert(round_inv(r2, key, next + 1));
    assert forall|key2: u64| #[trigger] st2.rounds.contains_key(key2) implies 1 <= key2 <= st2.last_round_id && round_inv(
        st2.rounds[key2],
        key2,
        next_bid_idx(st2.bid_idx),
    ) by {
        if key2 != key {
            lemma_round_inv_later(st.rounds[key2], key2, next, next + 1);
        }
    }
    assert forall|key2: u64| #[trigger] st.rounds.contains_key(key2) implies {
        let a = st.rounds[key2];
        let b = st2.rounds[key2];
        &&& st2.rounds.contains_key(key2)
        &&& a.dist.is_released ==> b.dist.is_released && b.dist.exchange_rate == a.dist.exchange_rate
            && b.dist.actual_distributed == a.dist.actual_distributed
        &&& b.bids.len() >= a.bids.len()
        &&& forall|j: int| 0 <= j < a.bids.len() ==> (#[trigger] b.bids[j]).idx == a.bids[j].idx
        &&& forall|j: int| 0 <= j < a.bids.len() && (#[trigger] a.bids[j]).is_distributed ==> b.bids[j] == a.bids[j]
    } by {
        if key2 == key {
            assert forall|j: int| 0 <= j < r.bids.len() implies (#[trigger] r2.bids[j]) == r.bids[j] by {}
        }
    }
}

proof fn lemma_stored_deposits_same(a: Seq<Option<BidPool>>, b: Seq<Option<BidPool>>, i: int)
    requires
        a.len() == b.len(),
        forall|s: int| 0 <= s < a.len() ==> pool_deposits(#[trigger] a[s]) == pool_deposits(b[s]),
    ensures
        stored_deposits(a, i) == stored_deposits(b, i),
    decreases a.len() - i,
{
    if 0 <= i < a.len() {
        lemma_stored_deposits_same(a, b, i + 1);
    }
}

/// The pools of round `key` that finalization reads: those of slots `1..=max_slot`.
pub open spec fn read_pools(st: Store, key: u64) -> Seq<Option<BidPool>> {
    st.rounds[key].pools.take(st.config.max_slot as int)
}

/// The state once round `key` is finalized at `rate`: the round, its reward
/// side and the pools of slots `1..=max_slot` as
/// `execute_finalize_bidding_round_result` writes them.
pub open spec fn after_finalize(st: Store, key: u64, rate: Decimal) -> Store {
    let r = st.rounds[key];
    let max = st.config.max_slot as int;
    let (pools, left, matched) = allocation(
        pools_or_empty(&st.config, read_pools(st, key)),
        r.dist.total_distribution as int,
        rate,
    );
    Store {
        rounds: st.rounds.insert(
            key,
            RoundStore {
                info: BiddingInfo { total_bid_matched: matched as u128, ..r.info },
                dist: DistributionInfo {
                    exchange_rate: rate,
                    is_released: true,
                    actual_distributed: (r.dist.total_distribution - left) as u128,
                    ..r.dist
                },
                pools: Seq::new(slot_count() as nat, |i: int| if i < max { Some(pools[i]) } else { r.pools[i] }),
                ..r
            },
        ),
        ..st
    }
}

/// Finalizing a round with `execute_finalize_bidding_round_result` keeps the
/// invariant and is a step.
pub proof fn law_finalize_keeps_store(st: Store, key: u64, sender: String, now: u64, rate: Decimal)
    requires
        store_inv(st),
        st.rounds.contains_key(key),
        finalize_precheck(&st.config, &sender, now, key, Some(st.rounds[key].info), Some(st.rounds[key].dist)) is None,
        finalize_in_range(
            &st.config,
            &sender,
            now,
            key,
            Some(st.rounds[key].info),
            Some(st.rounds[key].dist),
            read_pools(st, key),
            rate,
        ),
    ensures
        store_inv(after_finalize(st, key, rate)),
        store_step(st, after_finalize(st, key, rate)),
{
    let st2 = after_finalize(st, key, rate);
    let r = st.rounds[key];
    let r2 = st2.rounds[key];
    let max = st.config.max_slot as int;
    let next = next_bid_idx(st.bid_idx);
    let before = pools_or_empty(&st.config, read_pools(st, key));
    assert(round_inv(r, key, next));
    lemma_allocate_from(before, 0, r.dist.total_distribution as int, 0, rate);
    let out = allocation(before, r.dist.total_distribution as int, rate).0;
    assert forall|s: int| 0 <= s < slot_count() implies pool_deposits(#[trigger] r2.pools[s]) == pool_deposits(r.pools[s])
        && (r2.pools[s] matches Some(p) ==> p.slot == s + 1) by {
        assert(r.pools[s] matches Some(p) ==> p.slot == s + 1);
        if s < max {
            assert(settled_or_kept(before[s], out[s]));
            assert(read_pools(st, key)[s] == r.pools[s]);
        }
    }
    lemma_stored_deposits_same(r2.pools, r.pools, 0);
    assert(round_inv(r2, key, next));
    assert forall|key2: u64| #[trigger] st2.rounds.contains_key(key2) implies 1 <= key2 <= st2.last_round_id && round_inv(
        st2.rounds[key2],
        key2,
        next_bid_idx(st2.bid_idx),
    ) by {
        if key2 != key {
            assert(st.rounds.contains_key(key2));
        }
    }
}

/// Two bids with the same index, round, slot, bidder and deposit.
pub open spec fn same_deposit(a: Bid, b: Bid) -> bool {
    a.idx == b.idx && a.round == b.round && a.premium_slot == b.premium_slot && a.bidder@ == b.bidder@ && a.amount
        == b.amount
}

proof fn lemma_same_deposits(a: Seq<Bid>, b: Seq<Bid>)
    requires
        a.len() == b.len(),
        forall|j: int| 0 <= j < a.len() ==> same_deposit(#[trigger] a[j], b[j]),
    ensures
        amount_total(a) == amount_total(b),
        forall|slot: int| #[trigger] slot_deposits(a, slot) == slot_deposits(b, slot),
        forall|u: Seq<char>| #[trigger] user_idxs(a, u) == user_idxs(b, u),
    decreases a.len(),
{
    if a.len() > 0 {
        let a1 = a.drop_last();
        let b1 = b.drop_last();
        assert forall|j: int| 0 <= j < a1.len() implies same_deposit(#[trigger] a1[j], b1[j]) by {
            assert(same_deposit(a[j], b[j]));
        }
        lemma_same_deposits(a1, b1);
        assert(same_deposit(a[a.len() - 1], b[b.len() - 1]));
        assert forall|slot: int| #[trigger] slot_deposits(a, slot) == slot_deposits(b, slot) by {
            assert(slot_deposits(a1, slot) == slot_deposits(b1, slot));
        }
        assert forall|u: Seq<char>| #[trigger] user_idxs(a, u) == user_idxs(b, u) by {
            assert(user_idxs(a1, u) == user_idxs(b1, u));
        }
    }
}

/// The keys and bids a payout reads for a round: each bid under its index.
pub open spec fn bid_entries(bids: Seq<Bid>) -> Seq<(u64, Option<Bid>)> {
    bids.map_values(|b: Bid| (b.idx, Some(b)))
}

/// A round's bids once paid out at the stored pools: each bid not paid yet is paid.
pub open spec fn bids_paid(stored: Seq<Option<BidPool>>, bids: Seq<Bid>) -> Seq<Bid> {
    bids.map_values(|b: Bid| if b.is_distributed { b } else { paid_bid(stored, b) })
}

/// The paid bids under their keys, in order: each bid not paid yet.
pub open spec fn paid_entries(stored: Seq<Option<BidPool>>, bids: Seq<Bid>) -> Seq<(u64, Bid)>
    decreases bids.len(),
{
    if bids.len() == 0 {
        Seq::empty()
    } else if bids.last().is_distributed {
        paid_entries(stored, bids.drop_last())
    } else {
        paid_entries(stored, bids.drop_last()).push((bids.last().idx, paid_bid(stored, bids.last())))
    }
}

proof fn lemma_payout_entries(config: &Config, stored: Seq<Option<BidPool>>, bids: Seq<Bid>)
    ensures
        payout(config, stored, bid_entries(bids)).0 == paid_entries(stored, bids),
    decreases bids.len(),
{
    if bids.len() > 0 {
        assert(bid_entries(bids).drop_last() =~= bid_entries(bids.drop_last()));
        lemma_payout_entries(config, stored, bids.drop_last());
    } else {
        assert(bid_entries(bids) =~= Seq::<(u64, Option<Bid>)>::empty());
    }
}

/// A round's bids once each bid in `entries` is written, in order, over the
/// bid stored under its key.
pub open spec fn write_by_key(bids: Seq<Bid>, entries: Seq<(u64, Bid)>) -> Seq<Bid>
    decreases entries.len(),
{
    if entries.len() == 0 {
        bids
    } else {
        let (k, b) = entries.last();
        write_by_key(bids, entries.drop_last()).map_values(|x: Bid| if x.idx == k { b } else { x })
    }
}

proof fn lemma_write_paid_prefix(stored: Seq<Option<BidPool>>, bids: Seq<Bid>, n: int)
    requires
        0 <= n <= bids.len(),
        forall|i: int, j: int| 0 <= i < j < bids.len() ==> (#[trigger] bids[i]).idx < (#[trigger] bids[j]).idx,
    ensures
        write_by_key(bids, paid_entries(stored, bids.take(n))).len() == bids.len(),
        forall|j: int|
            0 <= j < bids.len() ==> #[trigger] write_by_key(bids, paid_entries(stored, bids.take(n)))[j] == (if j < n
                && !bids[j].is_distributed {
                paid_bid(stored, bids[j])
            } else {
                bids[j]
            }),
    decreases n,
{
    if n == 0 {
        assert(bids.take(0) =~= Seq::<Bid>::empty());
    } else {
        lemma_write_paid_prefix(stored, bids, n - 1);
        assert(bids.take(n).drop_last() =~= bids.take(n - 1));
        assert(bids.take(n).last() == bids[n - 1]);
        let pe = paid_entries(stored, bids.take(n - 1));
        let w = write_by_key(bids, pe);
        if bids[n - 1].is_distributed {
            assert(paid_entries(stored, bids.take(n)) == pe);
        } else {
            let e = (bids[n - 1].idx, paid_bid(stored, bids[n - 1]));
            assert(paid_entries(stored, bids.take(n)) == pe.push(e));
            assert(pe.push(e).drop_last() =~= pe);
            assert(pe.push(e).last() == e);
            assert(write_by_key(bids, pe.push(e)) == w.map_values(|x: Bid| if x.idx == e.0 { e.1 } else { x }));
            assert forall|j: int| 0 <= j < bids.len() implies #[trigger] write_by_key(
                bids,
                paid_entries(stored, bids.take(n)),
            )[j] == (if j < n && !bids[j].is_distributed {
                paid_bid(stored, bids[j])
            } else {
                bids[j]
            }) by {
                assert(w[j].idx == bids[j].idx);
                if j != n - 1 {
                    assert(bids[j].idx != bids[n - 1].idx);
                }
            }
        }
    }
}

/// With distinct keys, writing the paid bids of a payout under their keys
/// gives the round's bids with each bid not paid yet paid.
pub proof fn law_payout_written_by_key(stored: Seq<Option<BidPool>>, bids: Seq<Bid>)
    requires
        forall|i: int, j: int| 0 <= i < j < bids.len() ==> (#[trigger] bids[i]).idx < (#[trigger] bids[j]).idx,
    ensures
        write_by_key(bids, paid_entries(stored, bids)) == bids_paid(stored, bids),
{
    lemma_write_paid_prefix(stored, bids, bids.len() as int);
    assert(bids.take(bids.len() as int) =~= bids);
    assert(write_by_key(bids, paid_entries(stored, bids)) =~= bids_paid(stored, bids));
}

/// The state once round `key` is paid out with `execute_distribute`: the
/// reward side counts the bids paid now, and each bid not paid yet is
/// paid (the paid bids are written under their indices, which are distinct).
pub open spec fn after_distribute(st: Store, key: u64) -> Store {
    let r = st.rounds[key];
    Store {
        rounds: st.rounds.insert(
            key,
            RoundStore {
                dist: DistributionInfo {
                    num_bids_distributed: (r.dist.num_bids_distributed + count_unpaid(bid_entries(r.bids))) as u64,
                    ..r.dist
                },
                bids: bids_paid(read_pools(st, key), r.bids),
                ..r
            },
        ),
        ..st
    }
}

/// Paying out a finalized round with `execute_distribute` keeps the
/// invariant and is a step; the bids it pays, under their keys, are exactly
/// the bids of the round not paid yet, each paid, and writing them under
/// their keys gives the round's bids as the model holds them.
pub proof fn law_distribute_keeps_store(st: Store, key: u64)
    requires
        store_inv(st),
        st.rounds.contains_key(key),
        st.rounds[key].dist.is_released,
        distribute_in_range(&st.config, Some(st.rounds[key].dist), read_pools(st, key), bid_entries(st.rounds[key].bids)),
    ensures
        store_inv(after_distribute(st, key)),
        store_step(st, after_distribute(st, key)),
        payout(&st.config, read_pools(st, key), bid_entries(st.rounds[key].bids)).0 == paid_entries(
            read_pools(st, key),
            st.rounds[key].bids,
        ),
        write_by_key(st.rounds[key].bids, paid_entries(read_pools(st, key), st.rounds[key].bids))
            == after_distribute(st, key).rounds[key].bids,
{
    let st2 = after_distribute(st, key);
    let r = st.rounds[key];
    let r2 = st2.rounds[key];
    let next = next_bid_idx(st.bid_idx);
    assert(round_inv(r, key, next));
    lemma_payout_entries(&st.config, read_pools(st, key), r.bids);
    law_payout_written_by_key(read_pools(st, key), r.bids);
    assert forall|j: int| 0 <= j < r.bids.len() implies same_deposit(#[trigger] r.bids[j], r2.bids[j]) by {}
    lemma_same_deposits(r.bids, r2.bids);
    assert forall|k: int| 0 <= k < r2.bids.len() implies (#[trigger] r2.bids[k]).round == key && 1 <= r2.bids[k].premium_slot
        && r2.bids[k].idx < next by {
        assert(same_deposit(r.bids[k], r2.bids[k]));
    }
    assert forall|i: int, j: int| 0 <= i < j < r2.bids.len() implies (#[trigger] r2.bids[i]).idx < (#[trigger] r2.bids[j]).idx by {
        assert(same_deposit(r.bids[i], r2.bids[i]));
        assert(same_deposit(r.bids[j], r2.bids[j]));
    }
    assert forall|s: int| 0 <= s < slot_count() implies pool_deposits(#[trigger] r2.pools[s]) == slot_deposits(r2.bids, s + 1) by {
        assert(pool_deposits(r.pools[s]) == slot_deposits(r.bids, s + 1));
    }
    assert forall|u: Seq<char>| #[trigger] user_list(r2.by_user, u) == user_idxs(r2.bids, u) by {
        assert(user_list(r.by_user, u) == user_idxs(r.bids, u));
    }
    assert(round_inv(r2, key, next));
    assert forall|key2: u64| #[trigger] st2.rounds.contains_key(key2) implies 1 <= key2 <= st2.last_round_id && round_inv(
        st2.rounds[key2],
        key2,
        next_bid_idx(st2.bid_idx),
    ) by {
        if key2 != key {
            assert(st.rounds.contains_key(key2));
        }
    }
    assert forall|key2: u64| #[trigger] st.rounds.contains_key(key2) implies {
        let a = st.rounds[key2];
        let b = st2.rounds[key2];
        &&& st2.rounds.contains_key(key2)
        &&& a.dist.is_released ==> b.dist.is_released && b.dist.exchange_rate == a.dist.exchange_rate
            && b.dist.actual_distributed == a.dist.actual_distributed
        &&& b.bids.len() >= a.bids.len()
        &&& forall|j: int| 0 <= j < a.bids.len() ==> (#[trigger] b.bids[j]).idx == a.bids[j].idx
        &&& forall|j: int| 0 <= j < a.bids.len() && (#[trigger] a.bids[j]).is_distributed ==> b.bids[j] == a.bids[j]
    } by {
        if key2 == key {
            assert forall|j: int| 0 <= j < r.bids.len() implies (#[trigger] r2.bids[j]).idx == r.bids[j].idx by {
                assert(same_deposit(r.bids[j], r2.bids[j]));
            }
        }
    }
}

/// The state once round `key` gets a new bidding side and reward side.
pub open spec fn with_round_update(st: Store, key: u64, info: BiddingInfo, dist: DistributionInfo) -> Store {
    Store { rounds: st.rounds.insert(key, RoundStore { info, dist, ..st.rounds[key] }), ..st }
}

/// Updating a round as `execute_update_round` does keeps the invariant and is a step.
pub proof fn law_update_round_keeps_store(
    st: Store,
    key: u64,
    now: u64,
    start_time: Option<u64>,
    end_time: Option<u64>,
    total_distribution: Option<u128>,
    info: BiddingInfo,
    dist: DistributionInfo,
)
    requires
        store_inv(st),
        st.rounds.contains_key(key),
        update_round_result(st.rounds[key].info, st.rounds[key].dist, now, start_time, end_time, total_distribution)
            == Ok::<(BiddingInfo, DistributionInfo), crate::error::ContractError>((info, dist)),
    ensures
        store_inv(with_round_update(st, key, info, dist)),
        store_step(st, with_round_update(st, key, info, dist)),
{
    let st2 = with_round_update(st, key, info, dist);
    assert(round_inv(st.rounds[key], key, next_bid_idx(st.bid_idx)));
    assert(round_inv(st2.rounds[key], key, next_bid_idx(st.bid_idx)));
    assert forall|key2: u64| #[trigger] st2.rounds.contains_key(key2) implies 1 <= key2 <= st2.last_round_id && round_inv(
        st2.rounds[key2],
        key2,
        next_bid_idx(st2.bid_idx),
    ) by {
        if key2 != key {
            assert(st.rounds.contains_key(key2));
        }
    }
}

/// New settings, as `execute_update_config` or a migration installs them,
/// keep the invariant and are a step: no round changes.
pub proof fn law_config_keeps_store(st: Store, config: Config)
    requires
        store_inv(st),
    ensures
        store_inv(Store { config, ..st }),
        store_step(st, Store { config, ..st }),
{
}

} // verus!
