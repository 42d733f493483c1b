use vstd::prelude::*;
use crate::asset::AssetInfo;
use crate::decimal::{mul_decimal, whole_decimal, Decimal, DECIMAL_FRACTIONAL};
use crate::error::StdError;

verus! {

/// Page size of a bid listing when the caller names none.
pub const DEFAULT_LIMIT: u64 = 30;

/// Largest page size of a bid listing.
pub const MAX_LIMIT: u64 = 1000;

/// The contract's settings.
#[derive(Debug)]
pub struct Config {
    /// owner address
    pub owner: String,
    /// token used to participate in bidding
    pub underlying_token: AssetInfo,
    /// token used to reward bidding
    pub distribution_token: AssetInfo,
    /// number of pools in a bidding round
    pub max_slot: u8,
    /// premium rate increase for each slot
    pub premium_rate_per_slot: Decimal,
    /// minimum number of tokens when participating in bidding
    pub min_deposit_amount: u128,
    /// treasury address
    pub treasury: String,
    /// how long a bidding round lasts
    pub bidding_duration: u64,
}

/// One bidding round.
#[derive(Clone, Copy, Debug, PartialEq, Eq, Structural)]
pub struct BiddingInfo {
    /// round id
    pub round: u64,
    /// start time of the bidding
    pub start_time: u64,
    /// end time of the bidding
    pub end_time: u64,
    /// amount of tokens participating in the bidding
    pub total_bid_amount: u128,
    /// amount of tokens matched in the bidding
    pub total_bid_matched: u128,
}

/// The reward side of a bidding round.
#[derive(Clone, Copy, Debug, PartialEq, Eq, Structural)]
pub struct DistributionInfo {
    /// the largest reward the round distributes
    pub total_distribution: u128,
    /// conversion ratio between underlying token and distribution token
    pub exchange_rate: Decimal,
    /// whether the round has been finalized
    pub is_released: bool,
    /// the reward actually allocated
    pub actual_distributed: u128,
    /// number of bids paid out
    pub num_bids_distributed: u64,
}

/// The pool of one premium slot in a round.
#[derive(Clone, Copy, Debug, PartialEq, Eq, Structural)]
pub struct BidPool {
    /// the premium slot
    pub slot: u8,
    /// tokens deposited into this pool
    pub total_bid_amount: u128,
    /// bonus of the pool
    pub premium_rate: Decimal,
    /// share of the pool's bids that was matched
    pub index_snapshot: Decimal,
    /// reward tokens received for each token deposited into the pool
    pub received_per_token: Decimal,
}

/// A bid of one bidder.
#[derive(Debug)]
pub struct Bid {
    /// bid id
    pub idx: u64,
    /// bidding round id
    pub round: u64,
    /// the premium slot
    pub premium_slot: u8,
    /// time the bid was submitted
    pub timestamp: u64,
    /// bidder address
    pub bidder: String,
    /// amount of underlying token put up in the bid
    pub amount: u128,
    /// amount of underlying token given back
    pub residue_bid: u128,
    /// amount of distribution token allocated
    pub amount_received: u128,
    /// whether the bid has been paid out
    pub is_distributed: bool,
}

impl Bid {
    pub fn copy(&self) -> (r: Bid)
        ensures
            r == *self,
    {
        Bid {
            idx: self.idx,
            round: self.round,
            premium_slot: self.premium_slot,
            timestamp: self.timestamp,
            bidder: self.bidder.clone(),
            amount: self.amount,
            residue_bid: self.residue_bid,
            amount_received: self.amount_received,
            is_distributed: self.is_distributed,
        }
    }
}

/// The index the next bid gets: the stored counter, or 1 before the first bid.
pub open spec fn next_bid_idx(stored: Option<u64>) -> int {
    match stored {
        Some(v) => v as int,
        None => 1,
    }
}

/// Takes the index for a new bid from the stored counter: returns the index
/// and the counter to store back, one past it.
pub fn pop_bid_idx(stored: Option<u64>) -> (r: (u64, u64))
    requires
        next_bid_idx(stored) < u64::MAX,
    ensures
        r.0 == next_bid_idx(stored),
        r.1 == r.0 + 1,
{
    let last_idx = match stored {
        Some(v) => v,
        None => 1,
    };
    (last_idx, last_idx + 1)
}

/// The bid indices of one bidder in one round once `bid_idx` is stored:
/// the stored list (or none) with `bid_idx` appended.
pub fn store_bid(stored: Option<Vec<u64>>, bid_idx: u64) -> (r: Vec<u64>)
    ensures
        r@ == match stored {
            Some(v) => v@,
            None => Seq::<u64>::empty(),
        }.push(bid_idx),
{
    let mut idxs = match stored {
        Some(v) => v,
        None => Vec::new(),
    };
    idxs.push(bid_idx);
    idxs
}

/// The premium rate of a slot: the rate per slot times the slot number.
pub open spec fn slot_premium(rate_per_slot: Decimal, slot: u8) -> Decimal {
    Decimal { atomics: (rate_per_slot.atomics * slot) as u128 }
}

/// The pool a slot has before its first bid.
pub open spec fn empty_pool(config: &Config, slot: u8) -> BidPool {
    BidPool {
        slot,
        total_bid_amount: 0,
        premium_rate: slot_premium(config.premium_rate_per_slot, slot),
        index_snapshot: Decimal { atomics: 0 },
        received_per_token: Decimal { atomics: 0 },
    }
}

/// `rate * slot` as the contract computes it: the rate times the slot as a
/// whole decimal.
fn premium_of_slot(rate_per_slot: Decimal, slot: u8) -> (r: Decimal)
    requires
        rate_per_slot.atomics * slot <= u128::MAX,
    ensures
        r == slot_premium(rate_per_slot, slot),
{
    proof {
        assert(slot * DECIMAL_FRACTIONAL <= u128::MAX) by (nonlinear_arith)
            requires slot <= 255, DECIMAL_FRACTIONAL == 1_000_000_000_000_000_000u128;
    }
    let whole = whole_decimal(slot as u128);
    let whole = match whole {
        Some(w) => w,
        None => { proof { assert(false); } Decimal::zero() },
    };
    proof {
        let a = rate_per_slot.atomics as int;
        let s = slot as int;
        let f = DECIMAL_FRACTIONAL as int;
        assert(a * (s * f) == (a * s) * f) by (nonlinear_arith);
        vstd::arithmetic::div_mod::lemma_div_by_multiple(a * s, f);
        assert(whole.atomics == s * f);
    }
    mul_decimal(rate_per_slot, whole)
}

/// The pool of a slot: the stored one, or a fresh one when none is stored.
pub fn read_or_create_bid_pool(config: &Config, stored: Option<BidPool>, premium_slot: u8) -> (r: Result<BidPool, StdError>)
    requires
        stored is None ==> config.premium_rate_per_slot.atomics * premium_slot <= u128::MAX,
    ensures
        r == Ok::<BidPool, StdError>(match stored {
            Some(p) => p,
            None => empty_pool(config, premium_slot),
        }),
{
    match stored {
        Some(p) => Ok(p),
        None => Ok(BidPool {
            slot: premium_slot,
            premium_rate: premium_of_slot(config.premium_rate_per_slot, premium_slot),
            total_bid_amount: 0,
            index_snapshot: Decimal::zero(),
            received_per_token: Decimal::zero(),
        }),
    }
}

/// The pools of slots `1..=stored.len()`: each stored pool, or the pool a
/// slot has before its first bid.
pub open spec fn pools_or_empty(config: &Config, stored: Seq<Option<BidPool>>) -> Seq<BidPool> {
    Seq::new(
        stored.len(),
        |i: int|
            match stored[i] {
                Some(p) => p,
                None => empty_pool(config, (i + 1) as u8),
            },
    )
}

impl BiddingInfo {
    /// The round runs forward in time and has not started yet at `now`.
    pub open spec fn valid_duration_at(&self, now: u64) -> bool {
        self.start_time < self.end_time && self.start_time >= now
    }

    /// Bids are taken at `now`.
    pub open spec fn opening_at(&self, now: u64) -> bool {
        self.start_time <= now && now <= self.end_time
    }

    /// The round is over at `now`.
    pub open spec fn finished_at(&self, now: u64) -> bool {
        self.end_time < now
    }

    pub fn is_valid_duration(&self, now: u64) -> (r: bool)
        ensures
            r == self.valid_duration_at(now),
    {
        self.start_time < self.end_time && self.start_time >= now
    }

    pub fn opening(&self, now: u64) -> (r: bool)
        ensures
            r == self.opening_at(now),
    {
        self.start_time <= now && now <= self.end_time
    }

    pub fn finished(&self, now: u64) -> (r: bool)
        ensures
            r == self.finished_at(now),
    {
        self.end_time < now
    }

    /// All pools of the round, slot 1 to `config.max_slot`, from the pools
    /// stored for those slots (`stored[i]` for slot `i + 1`): a slot without a
    /// stored pool gets an empty one. The premium of every slot is computed,
    /// stored pool or not.
    pub fn read_all_bid_pool(&self, config: &Config, stored: &Vec<Option<BidPool>>) -> (r: Result<Vec<BidPool>, StdError>)
        requires
            stored.len() == config.max_slot,
            config.premium_rate_per_slot.atomics * config.max_slot <= u128::MAX,
        ensures
            r matches Ok(v) && v@ == pools_or_empty(config, stored@),
    {
        let mut bid_pools: Vec<BidPool> = Vec::new();
        let max_slot = config.max_slot;
        let mut done: u8 = 0;
        while done < max_slot
            invariant
                done <= max_slot,
                max_slot == config.max_slot,
                stored.len() == max_slot,
                config.premium_rate_per_slot.atomics * max_slot <= u128::MAX,
                bid_pools.len() == done,
                forall|i: int| 0 <= i < bid_pools.len() ==> bid_pools@[i] == pools_or_empty(config, stored@)[i],
            decreases max_slot - done,
        {
            let slot: u8 = done + 1;
            proof {
                vstd::arithmetic::mul::lemma_mul_inequality(slot as int, max_slot as int, config.premium_rate_per_slot.atomics as int);
                assert(config.premium_rate_per_slot.atomics * slot == slot * config.premium_rate_per_slot.atomics) by (nonlinear_arith);
                assert(config.premium_rate_per_slot.atomics * max_slot == max_slot * config.premium_rate_per_slot.atomics) by (nonlinear_arith);
            }
            let premium_rate = premium_of_slot(config.premium_rate_per_slot, slot);
            let pool = match stored[done as usize] {
                Some(p) => p,
                None => BidPool {
                    slot,
                    total_bid_amount: 0,
                    premium_rate,
                    index_snapshot: Decimal::zero(),
                    received_per_token: Decimal::zero(),
                },
            };
            bid_pools.push(pool);
            done = slot;
        }
        assert(bid_pools@ =~= pools_or_empty(config, stored@));
        Ok(bid_pools)
    }
}

/// Bids are listed newest first for order 2, oldest first otherwise.
pub open spec fn is_descending(order_by: Option<i32>) -> bool {
    order_by == Some(2i32)
}

/// The page size of a listing: the limit asked for, 30 by default, at most 1000.
pub open spec fn page_limit(limit: Option<u64>) -> int {
    let l = match limit {
        Some(l) => l as int,
        None => DEFAULT_LIMIT as int,
    };
    if l < MAX_LIMIT { l } else { MAX_LIMIT as int }
}

/// Keys sorted in strictly increasing order, as storage lists them.
pub open spec fn strictly_ascending(keys: Seq<u64>) -> bool {
    forall|i: int, j: int| 0 <= i < j < keys.len() ==> keys[i] < keys[j]
}

/// The keys after `start_after`, in the order asked for.
pub open spec fn keys_after(keys: Seq<u64>, start_after: Option<u64>, order_by: Option<i32>) -> Seq<u64> {
    let after = match start_after {
        Some(s) => keys.filter(|k: u64| k > s),
        None => keys,
    };
    if is_descending(order_by) { after.reverse() } else { after }
}

/// One page of the bids of a round.
pub open spec fn bids_page(keys: Seq<u64>, start_after: Option<u64>, limit: Option<u64>, order_by: Option<i32>) -> Seq<u64> {
    let ks = keys_after(keys, start_after, order_by);
    let n = if ks.len() < page_limit(limit) { ks.len() as int } else { page_limit(limit) };
    ks.take(n)
}

/// In a sorted sequence, the keys above `s` are those from the first one above it.
proof fn lemma_filter_above(keys: Seq<u64>, s: u64, p: int, n: int)
    requires
        strictly_ascending(keys),
        0 <= p <= keys.len(),
        0 <= n <= keys.len(),
        forall|j: int| 0 <= j < p ==> keys[j] <= s,
        forall|j: int| p <= j < keys.len() ==> keys[j] > s,
    ensures
        keys.take(n).filter(|k: u64| k > s) =~= keys.subrange(if p < n { p } else { n }, n),
    decreases n,
{
    reveal(Seq::filter);
    if n > 0 {
        lemma_filter_above(keys, s, p, n - 1);
        assert(keys.take(n).drop_last() =~= keys.take(n - 1));
    } else {
        assert(keys.take(0) =~= Seq::<u64>::empty());
    }
}

/// In a sorted sequence, the position of the first key above `s`.
proof fn lemma_first_above(keys: Seq<u64>, s: u64) -> (p: int)
    requires
        strictly_ascending(keys),
    ensures
        0 <= p <= keys.len(),
        forall|j: int| 0 <= j < p ==> keys[j] <= s,
        forall|j: int| p <= j < keys.len() ==> keys[j] > s,
    decreases keys.len(),
{
    if keys.len() == 0 {
        0
    } else {
        let q = lemma_first_above(keys.drop_last(), s);
        if keys.last() > s {
            assert forall|j: int| q <= j < keys.len() implies keys[j] > s by {
                if j < keys.len() - 1 {
                    assert(keys[j] == keys.drop_last()[j]);
                }
            }
            assert forall|j: int| 0 <= j < q implies keys[j] <= s by {
                assert(keys[j] == keys.drop_last()[j]);
            }
            q
        } else {
            assert forall|j: int| 0 <= j < keys.len() implies keys[j] <= s by {
                if j < keys.len() - 1 {
                    assert(keys[j] < keys[keys.len() - 1]);
                }
            }
            keys.len() as int
        }
    }
}

/// The keys above `s` in a sorted sequence: those from the first one above it.
proof fn lemma_keys_above(keys: Seq<u64>, s: u64) -> (p: int)
    requires
        strictly_ascending(keys),
    ensures
        0 <= p <= keys.len(),
        forall|j: int| 0 <= j < p ==> keys[j] <= s,
        forall|j: int| p <= j < keys.len() ==> keys[j] > s,
        keys.filter(|k: u64| k > s) == keys.subrange(p, keys.len() as int),
{
    let p = lemma_first_above(keys, s);
    lemma_filter_above(keys, s, p, keys.len() as int);
    assert(keys.take(keys.len() as int) =~= keys);
    p
}

/// A page of bids lists stored keys, all after `start_after`, in the order
/// asked for (increasing, or decreasing for order 2), and at most as many as
/// the page size allows, never more than 1000.
pub proof fn law_page_in_order(keys: Seq<u64>, start_after: Option<u64>, limit: Option<u64>, order_by: Option<i32>)
    requires
        strictly_ascending(keys),
    ensures
        ({
            let page = bids_page(keys, start_after, limit, order_by);
            &&& page.len() <= page_limit(limit) <= MAX_LIMIT
            &&& forall|i: int| 0 <= i < page.len() ==> keys.contains(#[trigger] page[i])
            &&& forall|i: int| 0 <= i < page.len() ==> (start_after matches Some(s) ==> #[trigger] page[i] > s)
            &&& forall|i: int, j: int|
                0 <= i < j < page.len() ==> (if is_descending(order_by) {
                    page[i] > page[j]
                } else {
                    page[i] < page[j]
                })
        }),
{
    let p = match start_after {
        Some(s) => lemma_keys_above(keys, s),
        None => 0,
    };
    let after = keys.subrange(p, keys.len() as int);
    assert(match start_after {
        Some(s) => keys.filter(|k: u64| k > s),
        None => keys,
    } =~= after);
    let page = bids_page(keys, start_after, limit, order_by);
    assert forall|i: int| 0 <= i < page.len() implies keys.contains(#[trigger] page[i]) by {
        if is_descending(order_by) {
            assert(page[i] == keys[keys.len() - 1 - i]);
        } else {
            assert(page[i] == keys[p + i]);
        }
    }
}

/// Paging through the bids of a round in increasing order misses and
/// repeats nothing: after a page, the bids after its last key are those
/// after the page.
pub proof fn law_next_page_continues(keys: Seq<u64>, start_after: Option<u64>, limit: Option<u64>)
    requires
        strictly_ascending(keys),
        bids_page(keys, start_after, limit, None).len() > 0,
    ensures
        ({
            let page = bids_page(keys, start_after, limit, None);
            keys_after(keys, Some(page.last()), None) == keys_after(keys, start_after, None).skip(page.len() as int)
        }),
{
    let p = match start_after {
        Some(s) => lemma_keys_above(keys, s),
        None => 0,
    };
    assert(match start_after {
        Some(s) => keys.filter(|k: u64| k > s),
        None => keys,
    } =~= keys.subrange(p, keys.len() as int));
    let page = bids_page(keys, start_after, limit, None);
    let n = page.len() as int;
    let last = page.last();
    assert(last == keys[p + n - 1]);
    let q = lemma_keys_above(keys, last);
    if q < p + n {
        assert(keys[q] > last);
        assert(keys[q] <= keys[p + n - 1]);
    }
    if q > p + n {
        assert(keys[p + n] <= last);
        assert(keys[p + n - 1] < keys[p + n]);
    }
    assert(keys_after(keys, Some(last), None) =~= keys_after(keys, start_after, None).skip(n));
}

/// One page of the bid indices of a round, from all of them in increasing
/// order: those after `start_after`, newest first for `order_by == Some(2)`
/// and oldest first otherwise, at most `limit` (30 by default, 1000 at most).
pub fn read_bids_by_round(keys: &Vec<u64>, start_after: Option<u64>, limit: Option<u64>, order_by: Option<i32>) -> (r: Vec<u64>)
    requires
        strictly_ascending(keys@),
    ensures
        r@ == bids_page(keys@, start_after, limit, order_by),
{
    let lim: u64 = match limit {
        Some(l) => l,
        None => DEFAULT_LIMIT,
    };
    let lim: u64 = if lim < MAX_LIMIT { lim } else { MAX_LIMIT };
    let descending = match order_by {
        Some(v) => v == 2,
        None => false,
    };
    let len = keys.len();
    // the first key above `start_after`
    let mut p: usize = 0;
    if let Some(s) = start_after {
        while p < len && keys[p] <= s
            invariant
                p <= len,
                len == keys.len(),
                forall|j: int| 0 <= j < p ==> keys@[j] <= s,
            decreases len - p,
        {
            p = p + 1;
        }
        proof {
            assert forall|j: int| p <= j < len implies keys@[j] > s by {
                if p < len {
                    assert(keys@[p as int] > s);
                }
            }
            lemma_filter_above(keys@, s, p as int, len as int);
            assert(keys@.take(len as int) =~= keys@);
        }
    }
    let avail = len - p;
    let n: usize = if (avail as u64) < lim { avail } else { lim as usize };
    let ghost after = keys@.subrange(p as int, len as int);
    assert(match start_after {
        Some(s) => keys@.filter(|k: u64| k > s),
        None => keys@,
    } =~= after);
    let mut r: Vec<u64> = Vec::new();
    let mut i: usize = 0;
    while i < n
        invariant
            i <= n,
            n <= avail,
            avail == len - p,
            p <= len,
            len == keys.len(),
            after == keys@.subrange(p as int, len as int),
            r.len() == i,
            forall|j: int|
                0 <= j < i ==> r@[j] == (if descending { after.reverse() } else { after })[j],
        decreases n - i,
    {
        if descending {
            r.push(keys[len - 1 - i]);
        } else {
            r.push(keys[p + i]);
        }
        i = i + 1;
    }
    proof {
        let ks = keys_after(keys@, start_after, order_by);
        assert(descending == is_descending(order_by));
        assert(ks.len() == avail);
        assert(r@ =~= ks.take(n as int));
    }
    r
}

/// All bid indices of a round, from all of them in increasing order: newest
/// first for `order_by == Some(2)`, oldest first otherwise.
pub fn read_all_bids_in_round(keys: &Vec<u64>, order_by: Option<i32>) -> (r: Vec<u64>)
    ensures
        r@ == (if is_descending(order_by) { keys@.reverse() } else { keys@ }),
{
    let descending = match order_by {
        Some(v) => v == 2,
        None => false,
    };
    let len = keys.len();
    let mut r: Vec<u64> = Vec::new();
    let mut i: usize = 0;
    while i < len
        invariant
            i <= len,
            len == keys.len(),
            r.len() == i,
            forall|j: int| 0 <= j < i ==> r@[j] == (if descending { keys@.reverse() } else { keys@ })[j],
        decreases len - i,
    {
        if descending {
            r.push(keys[len - 1 - i]);
        } else {
            r.push(keys[i]);
        }
        i = i + 1;
    }
    assert(r@ =~= (if is_descending(order_by) { keys@.reverse() } else { keys@ }));
    r
}

/// Byte `i` of a key in big-endian order, the most significant first.
pub open spec fn key_byte(v: u64, i: int) -> u8 {
    (v >> ((56 - 8 * i) as u64)) as u8
}

/// The big-endian bytes of a key, as storage orders keys.
pub open spec fn be_bytes(v: u64) -> Seq<u8> {
    Seq::new(8, |i: int| key_byte(v, i))
}

/// Byte strings in storage order, from position `i` on: `a` sorts after `b`.
pub open spec fn sorts_after_from(a: Seq<u8>, b: Seq<u8>, i: int) -> bool
    decreases a.len() - i,
{
    if i < 0 || i >= a.len() {
        false
    } else if i >= b.len() {
        true
    } else if a[i] != b[i] {
        a[i] > b[i]
    } else {
        sorts_after_from(a, b, i + 1)
    }
}

/// Byte strings in storage (lexicographic) order: `a` sorts after `b`.
pub open spec fn sorts_after(a: Seq<u8>, b: Seq<u8>) -> bool {
    sorts_after_from(a, b, 0)
}

proof fn lemma_byte_step(k: u64, s: u64, sh: u64)
    by (bit_vector)
    requires
        sh <= 56,
        sh == 56 || (k >> (sh + 8)) == (s >> (sh + 8)),
    ensures
        ((k >> sh) as u8) > ((s >> sh) as u8) ==> k > s,
        ((k >> sh) as u8) < ((s >> sh) as u8) ==> k < s,
        ((k >> sh) as u8) == ((s >> sh) as u8) ==> (k >> sh) == (s >> sh),
{
}

proof fn lemma_sorts_after_bound(k: u64, s: u64, i: int)
    requires
        0 <= i <= 8,
        i == 0 || (k >> ((64 - 8 * i) as u64)) == (s >> ((64 - 8 * i) as u64)),
    ensures
        sorts_after_from(be_bytes(k), be_bytes(s).push(0u8), i) <==> k > s,
    decreases 8 - i,
{
    let a = be_bytes(k);
    let b = be_bytes(s).push(0u8);
    if i == 8 {
        assert((k >> 0u64) == k) by (bit_vector);
        assert((s >> 0u64) == s) by (bit_vector);
    } else {
        let sh = (56 - 8 * i) as u64;
        lemma_byte_step(k, s, sh);
        assert(a[i] == key_byte(k, i));
        assert(b[i] == key_byte(s, i));
        if a[i] == b[i] {
            lemma_sorts_after_bound(k, s, i + 1);
        }
    }
}

/// The bound a listing starts from sorts right after its key: a stored key
/// sorts after the bound exactly when it is greater than the key the
/// listing starts after.
pub proof fn law_range_start_after_key(key: u64, start_after: u64)
    ensures
        sorts_after(be_bytes(key), be_bytes(start_after).push(0u8)) <==> key > start_after,
{
    lemma_sorts_after_bound(key, start_after, 0);
}

/// The raw storage bound that starts a listing after `start_after`: the key's
/// big-endian bytes with a zero byte appended, which sorts after the key and
/// before every greater key.
pub fn calc_range_start(start_after: Option<u64>) -> (r: Option<Vec<u8>>)
    ensures
        start_after is None ==> r is None,
        start_after matches Some(s) ==> (r matches Some(v) && v@ == be_bytes(s).push(0u8)),
{
    match start_after {
        Some(start) => {
            let mut v: Vec<u8> = Vec::new();
            v.push((start >> 56u64) as u8);
            v.push((start >> 48u64) as u8);
            v.push((start >> 40u64) as u8);
            v.push((start >> 32u64) as u8);
            v.push((start >> 24u64) as u8);
            v.push((start >> 16u64) as u8);
            v.push((start >> 8u64) as u8);
            v.push(start as u8);
            v.push(0);
            proof {
                assert((start >> 0u64) == start) by (bit_vector);
            }
            assert(v@ =~= be_bytes(start).push(0u8));
            Some(v)
        },
        None => None,
    }
}

/// The number of bids in a round.
pub fn count_number_bids_in_round(keys: &Vec<u64>) -> (r: u64)
    ensures
        r == keys.len(),
{
    keys.len() as u64
}

} // verus!
