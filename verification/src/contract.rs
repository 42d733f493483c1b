use vstd::prelude::*;
use crate::asset::{Asset, AssetInfo};
use crate::bid::{allocation, process_calc_distribution_amount};
use crate::decimal::{mul_floor, mul_uint_decimal, Decimal, DECIMAL_FRACTIONAL};
use crate::error::{ContractError, StdError, StoredItem};
use crate::msg::{BiddingInfoResponse, Cw20HookMsg, EstimateAmountReceiveOfBidResponse, InstantiateMsg, MigrateMsg};
use crate::limits::{estimate_of_bid_in_range, estimate_receive_in_range, premium_in_range};
use crate::state::{pools_or_empty, Bid, BidPool, BiddingInfo, Config, DistributionInfo};

verus! {

/// The settings a contract starts with, and the last round id, zero.
pub fn instantiate(msg: InstantiateMsg) -> (r: (Config, u64))
    ensures
        r.0 == (Config {
            owner: msg.owner,
            underlying_token: msg.underlying_token,
            distribution_token: msg.distribution_token,
            max_slot: msg.max_slot,
            premium_rate_per_slot: msg.premium_rate_per_slot,
            min_deposit_amount: msg.min_deposit_amount,
            treasury: msg.treasury,
            bidding_duration: msg.bidding_duration,
        }),
        r.1 == 0,
{
    let config = Config {
        owner: msg.owner,
        underlying_token: msg.underlying_token,
        distribution_token: msg.distribution_token,
        max_slot: msg.max_slot,
        premium_rate_per_slot: msg.premium_rate_per_slot,
        min_deposit_amount: msg.min_deposit_amount,
        treasury: msg.treasury,
        bidding_duration: msg.bidding_duration,
    };
    (config, 0)
}

/// The settings a migration installs; the rounds are kept.
pub fn migrate(msg: MigrateMsg) -> (r: Config)
    ensures
        r == (Config {
            owner: msg.owner,
            underlying_token: msg.underlying_token,
            distribution_token: msg.distribution_token,
            max_slot: msg.max_slot,
            premium_rate_per_slot: msg.premium_rate_per_slot,
            min_deposit_amount: msg.min_deposit_amount,
            treasury: msg.treasury,
            bidding_duration: msg.bidding_duration,
        }),
{
    Config {
        owner: msg.owner,
        underlying_token: msg.underlying_token,
        distribution_token: msg.distribution_token,
        max_slot: msg.max_slot,
        premium_rate_per_slot: msg.premium_rate_per_slot,
        min_deposit_amount: msg.min_deposit_amount,
        treasury: msg.treasury,
        bidding_duration: msg.bidding_duration,
    }
}

pub open spec fn or_keep<T>(new: Option<T>, old: T) -> T {
    match new {
        Some(v) => v,
        None => old,
    }
}

/// The owner replaces any of the settings; a setting not given is kept.
pub fn execute_update_config(
    config: Config,
    sender: &String,
    owner: Option<String>,
    underlying_token: Option<AssetInfo>,
    distribution_token: Option<AssetInfo>,
    max_slot: Option<u8>,
    premium_rate_per_slot: Option<Decimal>,
    min_deposit_amount: Option<u128>,
    treasury: Option<String>,
    bidding_duration: Option<u64>,
) -> (r: Result<Config, ContractError>)
    ensures
        sender@ != config.owner@ ==> r == Err::<Config, ContractError>(ContractError::Unauthorized),
        sender@ == config.owner@ ==> r == Ok::<Config, ContractError>(
            Config {
                owner: or_keep(owner, config.owner),
                underlying_token: or_keep(underlying_token, config.underlying_token),
                distribution_token: or_keep(distribution_token, config.distribution_token),
                max_slot: or_keep(max_slot, config.max_slot),
                premium_rate_per_slot: or_keep(premium_rate_per_slot, config.premium_rate_per_slot),
                min_deposit_amount: or_keep(min_deposit_amount, config.min_deposit_amount),
                treasury: or_keep(treasury, config.treasury),
                bidding_duration: or_keep(bidding_duration, config.bidding_duration),
            },
        ),
{
    let mut config = config;
    if !sender.eq(&config.owner) {
        return Err(ContractError::Unauthorized);
    }
    if let Some(owner) = owner {
        config.owner = owner;
    }
    if let Some(underlying_token) = underlying_token {
        config.underlying_token = underlying_token;
    }
    if let Some(distribution_token) = distribution_token {
        config.distribution_token = distribution_token;
    }
    if let Some(max_slot) = max_slot {
        config.max_slot = max_slot;
    }
    if let Some(premium_rate_per_slot) = premium_rate_per_slot {
        config.premium_rate_per_slot = premium_rate_per_slot;
    }
    if let Some(min_deposit_amount) = min_deposit_amount {
        config.min_deposit_amount = min_deposit_amount;
    }
    if let Some(treasury) = treasury {
        config.treasury = treasury;
    }
    if let Some(bidding_duration) = bidding_duration {
        config.bidding_duration = bidding_duration;
    }
    Ok(config)
}

/// What tokens received from a cw20 contract are for.
#[derive(Debug)]
pub enum Cw20Request {
    /// A bid of `funds` by `bidder`.
    SubmitBid { round: u64, premium_slot: u8, bidder: String, funds: Asset },
    /// A new round with reward `funds`, asked for by `sender`.
    CreateNewRoundFromTreasury { sender: String, funds: Asset },
}

/// Reads a cw20 hook: `amount` tokens of the cw20 contract `token` were sent
/// by `sender`, who bids them or offers them as the reward of a new round.
pub fn receive_cw20(msg: Cw20HookMsg, token: String, sender: String, amount: u128) -> (r: Cw20Request)
    ensures
        r == match msg {
            Cw20HookMsg::SubmitBid { round, premium_slot } => Cw20Request::SubmitBid {
                round,
                premium_slot,
                bidder: sender,
                funds: Asset { info: AssetInfo::Token { contract_addr: token }, amount },
            },
            Cw20HookMsg::CreateNewRoundFromTreasury => Cw20Request::CreateNewRoundFromTreasury {
                sender,
                funds: Asset { info: AssetInfo::Token { contract_addr: token }, amount },
            },
        },
{
    match msg {
        Cw20HookMsg::SubmitBid { round, premium_slot } => Cw20Request::SubmitBid {
            round,
            premium_slot,
            bidder: sender,
            funds: Asset { info: AssetInfo::Token { contract_addr: token }, amount },
        },
        Cw20HookMsg::CreateNewRoundFromTreasury => Cw20Request::CreateNewRoundFromTreasury {
            sender,
            funds: Asset { info: AssetInfo::Token { contract_addr: token }, amount },
        },
    }
}

/// A stored round with its reward side.
pub fn query_bidding_info(
    stored_bidding_info: Option<BiddingInfo>,
    stored_distribution: Option<DistributionInfo>,
) -> (r: Result<BiddingInfoResponse, StdError>)
    ensures
        r == match (stored_bidding_info, stored_distribution) {
            (Some(bid_info), Some(distribution_info)) => Ok(BiddingInfoResponse { bid_info, distribution_info }),
            (None, _) => Err(StdError::NotFound { item: StoredItem::BiddingInfo }),
            (Some(_), None) => Err(StdError::NotFound { item: StoredItem::DistributionInfo }),
        },
{
    let bid_info = match stored_bidding_info {
        Some(info) => info,
        None => return Err(StdError::NotFound { item: StoredItem::BiddingInfo }),
    };
    let distribution_info = match stored_distribution {
        Some(dist) => dist,
        None => return Err(StdError::NotFound { item: StoredItem::DistributionInfo }),
    };
    Ok(BiddingInfoResponse { bid_info, distribution_info })
}

/// Every entry is stored.
pub open spec fn all_stored(bids: Seq<Option<Bid>>) -> bool {
    forall|i: int| 0 <= i < bids.len() ==> (#[trigger] bids[i]) is Some
}

/// The bids of a bidder in a round: `stored` is the bidder's index list,
/// when stored, with the bid stored under each index.
pub fn query_bids_by_user(stored: Option<&Vec<Option<Bid>>>) -> (r: Result<Vec<Bid>, StdError>)
    ensures
        stored is None ==> r == Err::<Vec<Bid>, StdError>(StdError::NotFound { item: StoredItem::BidsByUser }),
        stored matches Some(bids) ==> (!all_stored(bids@) ==> r == Err::<Vec<Bid>, StdError>(
            StdError::NotFound { item: StoredItem::Bid },
        )),
        stored matches Some(bids) ==> (all_stored(bids@) ==> (r matches Ok(v) && v@.len() == bids@.len() && forall|
            i: int,
        | 0 <= i < v@.len() ==> bids@[i] == Some(#[trigger] v@[i]))),
{
    let bids = match stored {
        Some(b) => b,
        None => return Err(StdError::NotFound { item: StoredItem::BidsByUser }),
    };
    let mut r: Vec<Bid> = Vec::new();
    let mut i: usize = 0;
    while i < bids.len()
        invariant
            i <= bids.len(),
            stored == Some(bids),
            r.len() == i,
            forall|j: int| 0 <= j < i ==> bids@[j] is Some,
            forall|j: int| 0 <= j < i ==> bids@[j] == Some(#[trigger] r@[j]),
        decreases bids.len() - i,
    {
        match &bids[i] {
            Some(b) => r.push(b.copy()),
            None => return Err(StdError::NotFound { item: StoredItem::Bid }),
        }
        i = i + 1;
    }
    Ok(r)
}

/// The pools of all slots of a stored round (`stored_pools[i]` is the pool
/// stored for slot `i + 1`), with an empty pool for a slot without bids.
pub fn query_all_bid_pool_in_round(
    config: &Config,
    stored_bidding_info: Option<BiddingInfo>,
    stored_pools: &Vec<Option<BidPool>>,
) -> (r: Result<Vec<BidPool>, StdError>)
    requires
        stored_pools.len() == config.max_slot,
        stored_bidding_info is Some ==> premium_in_range(config),
    ensures
        stored_bidding_info is None ==> r == Err::<Vec<BidPool>, StdError>(
            StdError::NotFound { item: StoredItem::BiddingInfo },
        ),
        stored_bidding_info is Some ==> (r matches Ok(v) && v@ == pools_or_empty(config, stored_pools@)),
{
    let bid_info = match stored_bidding_info {
        Some(info) => info,
        None => return Err(StdError::NotFound { item: StoredItem::BiddingInfo }),
    };
    bid_info.read_all_bid_pool(config, stored_pools)
}

/// The pool of a slot among `pools`: the last one with that slot number.
pub open spec fn pool_of_slot(pools: Seq<BidPool>, slot: u8) -> Option<BidPool>
    decreases pools.len(),
{
    if pools.len() == 0 {
        None
    } else if pools.last().slot == slot {
        Some(pools.last())
    } else {
        pool_of_slot(pools.drop_last(), slot)
    }
}

/// The matched share of a slot among `pools`; zero when no pool has that slot.
pub open spec fn index_of_slot(pools: Seq<BidPool>, slot: u8) -> int {
    match pool_of_slot(pools, slot) {
        Some(p) => p.index_snapshot.atomics as int,
        None => 0,
    }
}

/// The reward per token of a slot among `pools`; zero when no pool has that slot.
pub open spec fn received_per_token_of_slot(pools: Seq<BidPool>, slot: u8) -> int {
    match pool_of_slot(pools, slot) {
        Some(p) => p.received_per_token.atomics as int,
        None => 0,
    }
}

/// What a deposit of `amount` in `slot` receives, and gets back, from the
/// allocated pools.
pub open spec fn estimate(pools: Seq<BidPool>, slot: u8, amount: u128) -> EstimateAmountReceiveOfBidResponse {
    EstimateAmountReceiveOfBidResponse {
        receive: mul_floor(amount as int, received_per_token_of_slot(pools, slot)) as u128,
        residue_bid: mul_floor(amount as int, DECIMAL_FRACTIONAL - index_of_slot(pools, slot)) as u128,
    }
}

/// An estimate can be made without a slot out of range or an overflow.
pub open spec fn estimate_ok(pools: Seq<BidPool>, max_slot: u8, slot: u8, amount: u128) -> bool {
    &&& slot <= max_slot
    &&& forall|i: int| 0 <= i < pools.len() ==> (#[trigger] pools[i]).slot <= max_slot
    &&& index_of_slot(pools, slot) <= DECIMAL_FRACTIONAL
    &&& mul_floor(amount as int, received_per_token_of_slot(pools, slot)) <= u128::MAX
}

/// Reads the matched share and the reward per token of `slot` off the
/// allocated pools, by the slot number each pool holds, and applies them to
/// a deposit of `amount`.
fn estimate_from_pools(pools: &Vec<BidPool>, max_slot: u8, slot: u8, amount: u128) -> (r: EstimateAmountReceiveOfBidResponse)
    requires
        estimate_ok(pools@, max_slot, slot, amount),
    ensures
        r == estimate(pools@, slot, amount),
{
    let mut index_snapshot: Vec<Decimal> = Vec::new();
    let mut receiver_per_token: Vec<Decimal> = Vec::new();
    let mut s: usize = 0;
    while s <= max_slot as usize
        invariant
            s <= max_slot as usize + 1,
            index_snapshot.len() == s,
            receiver_per_token.len() == s,
            forall|j: int| 0 <= j < s ==> (#[trigger] index_snapshot@[j]).atomics == 0,
            forall|j: int| 0 <= j < s ==> (#[trigger] receiver_per_token@[j]).atomics == 0,
        decreases max_slot as usize + 1 - s,
    {
        index_snapshot.push(Decimal::zero());
        receiver_per_token.push(Decimal::zero());
        s = s + 1;
    }
    let mut i: usize = 0;
    while i < pools.len()
        invariant
            i <= pools.len(),
            estimate_ok(pools@, max_slot, slot, amount),
            index_snapshot.len() == max_slot as usize + 1,
            receiver_per_token.len() == max_slot as usize + 1,
            forall|t: int|
                0 <= t <= max_slot ==> index_snapshot@[t].atomics == index_of_slot(pools@.take(i as int), t as u8),
            forall|t: int|
                0 <= t <= max_slot ==> receiver_per_token@[t].atomics == received_per_token_of_slot(
                    pools@.take(i as int),
                    t as u8,
                ),
        decreases pools.len() - i,
    {
        let pool = pools[i];
        proof {
            assert(pools@[i as int].slot <= max_slot);
            assert(pools@.take(i + 1).drop_last() =~= pools@.take(i as int));
            assert(pools@.take(i + 1).last() == pool);
        }
        index_snapshot.set(pool.slot as usize, pool.index_snapshot);
        receiver_per_token.set(pool.slot as usize, pool.received_per_token);
        i = i + 1;
    }
    proof {
        assert(pools@.take(pools.len() as int) =~= pools@);
    }
    let receive = mul_uint_decimal(amount, receiver_per_token[slot as usize]);
    let unmatched = Decimal::one().sub(index_snapshot[slot as usize]);
    proof {
        crate::bid::lemma_mul_floor_at_most(amount as int, unmatched.atomics as int);
    }
    let residue_bid = mul_uint_decimal(amount, unmatched);
    EstimateAmountReceiveOfBidResponse { receive, residue_bid }
}

/// The pools of a round once the reward is allocated at `exchange_rate`.
pub open spec fn allocated_pools(config: &Config, stored_pools: Seq<Option<BidPool>>, reward: u128, exchange_rate: Decimal) -> Seq<BidPool> {
    allocation(pools_or_empty(config, stored_pools), reward as int, exchange_rate).0
}

/// What a stored bid would receive, and get back, were its round finalized
/// now at `exchange_rate`.
pub fn query_estimate_amount_receive_of_bid(
    config: &Config,
    stored_distribution: Option<DistributionInfo>,
    stored_bid: Option<Bid>,
    stored_bidding_info: Option<BiddingInfo>,
    stored_pools: &Vec<Option<BidPool>>,
    exchange_rate: Decimal,
) -> (r: Result<EstimateAmountReceiveOfBidResponse, StdError>)
    requires
        stored_pools.len() == config.max_slot,
        estimate_of_bid_in_range(config, stored_distribution, stored_bid, stored_bidding_info, stored_pools@, exchange_rate),
    ensures
        stored_distribution is None ==> r == Err::<EstimateAmountReceiveOfBidResponse, StdError>(
            StdError::NotFound { item: StoredItem::DistributionInfo },
        ),
        stored_distribution is Some && stored_bid is None ==> r == Err::<EstimateAmountReceiveOfBidResponse, StdError>(
            StdError::NotFound { item: StoredItem::Bid },
        ),
        stored_distribution is Some && stored_bid is Some && stored_bidding_info is None ==> r == Err::<
            EstimateAmountReceiveOfBidResponse,
            StdError,
        >(StdError::NotFound { item: StoredItem::BiddingInfo }),
        stored_distribution matches Some(dist) ==> (stored_bid matches Some(bid) ==> (stored_bidding_info is Some ==> r
            == Ok::<EstimateAmountReceiveOfBidResponse, StdError>(
            estimate(
                allocated_pools(config, stored_pools@, dist.total_distribution, exchange_rate),
                bid.premium_slot,
                bid.amount,
            ),
        ))),
{
    let distribution_info = match stored_distribution {
        Some(dist) => dist,
        None => return Err(StdError::NotFound { item: StoredItem::DistributionInfo }),
    };
    let bid = match stored_bid {
        Some(b) => b,
        None => return Err(StdError::NotFound { item: StoredItem::Bid }),
    };
    let bidding_info = match stored_bidding_info {
        Some(info) => info,
        None => return Err(StdError::NotFound { item: StoredItem::BiddingInfo }),
    };
    let mut bid_pools = bidding_info.read_all_bid_pool(config, stored_pools)?;
    let mut distribution_amount = distribution_info.total_distribution;
    process_calc_distribution_amount(&mut bid_pools, &mut distribution_amount, exchange_rate)?;
    Ok(estimate_from_pools(&bid_pools, config.max_slot, bid.premium_slot, bid.amount))
}

/// The pools with `amount` added to the first pool of `slot`, if any.
pub open spec fn add_to_slot(pools: Seq<BidPool>, slot: u8, amount: u128) -> Seq<BidPool>
    decreases pools.len(),
{
    if pools.len() == 0 {
        pools
    } else if pools[0].slot == slot {
        pools.update(0, BidPool { total_bid_amount: (pools[0].total_bid_amount + amount) as u128, ..pools[0] })
    } else {
        seq![pools[0]] + add_to_slot(pools.drop_first(), slot, amount)
    }
}

pub(crate) proof fn lemma_add_to_slot(pools: Seq<BidPool>, slot: u8, amount: u128, i: int)
    requires
        0 <= i <= pools.len(),
        forall|j: int| 0 <= j < i ==> (#[trigger] pools[j]).slot != slot,
        i == pools.len() || pools[i].slot == slot,
    ensures
        add_to_slot(pools, slot, amount) == (if i == pools.len() {
            pools
        } else {
            pools.update(i, BidPool { total_bid_amount: (pools[i].total_bid_amount + amount) as u128, ..pools[i] })
        }),
    decreases i,
{
    if i > 0 {
        assert(pools[0].slot != slot);
        let rest = pools.drop_first();
        assert forall|j: int| 0 <= j < i - 1 implies (#[trigger] rest[j]).slot != slot by {
            assert(rest[j] == pools[j + 1]);
        }
        lemma_add_to_slot(rest, slot, amount, i - 1);
        if i == pools.len() {
            assert(seq![pools[0]] + rest =~= pools);
        } else {
            assert(seq![pools[0]] + rest.update(
                i - 1,
                BidPool { total_bid_amount: (rest[i - 1].total_bid_amount + amount) as u128, ..rest[i - 1] },
            ) =~= pools.update(i, BidPool { total_bid_amount: (pools[i].total_bid_amount + amount) as u128, ..pools[i] }));
        }
    } else if pools.len() == 0 {
    }
}

/// What a new deposit of `bid_amount` in `slot` would receive, and get
/// back, were the round finalized now at `exchange_rate` with that deposit
/// added to the pool of `slot`.
pub fn query_estimate_amount_receive(
    config: &Config,
    stored_distribution: Option<DistributionInfo>,
    stored_bidding_info: Option<BiddingInfo>,
    stored_pools: &Vec<Option<BidPool>>,
    slot: u8,
    bid_amount: u128,
    exchange_rate: Decimal,
) -> (r: Result<EstimateAmountReceiveOfBidResponse, StdError>)
    requires
        stored_pools.len() == config.max_slot,
        estimate_receive_in_range(config, stored_distribution, stored_bidding_info, stored_pools@, slot, bid_amount, exchange_rate),
    ensures
        stored_distribution is None ==> r == Err::<EstimateAmountReceiveOfBidResponse, StdError>(
            StdError::NotFound { item: StoredItem::DistributionInfo },
        ),
        stored_distribution is Some && stored_bidding_info is None ==> r == Err::<
            EstimateAmountReceiveOfBidResponse,
            StdError,
        >(StdError::NotFound { item: StoredItem::BiddingInfo }),
        stored_distribution matches Some(dist) ==> (stored_bidding_info is Some ==> r == Ok::<
            EstimateAmountReceiveOfBidResponse,
            StdError,
        >(
            estimate(
                allocation(
                    add_to_slot(pools_or_empty(config, stored_pools@), slot, bid_amount),
                    dist.total_distribution as int,
                    exchange_rate,
                ).0,
                slot,
                bid_amount,
            ),
        )),
{
    let distribution_info = match stored_distribution {
        Some(dist) => dist,
        None => return Err(StdError::NotFound { item: StoredItem::DistributionInfo }),
    };
    let bidding_info = match stored_bidding_info {
        Some(info) => info,
        None => return Err(StdError::NotFound { item: StoredItem::BiddingInfo }),
    };
    let mut distribution_amount = distribution_info.total_distribution;
    let mut bid_pools = bidding_info.read_all_bid_pool(config, stored_pools)?;
    let ghost pools0 = bid_pools@;
    let mut id: usize = 0;
    while id < bid_pools.len() && bid_pools[id].slot != slot
        invariant
            id <= bid_pools.len(),
            bid_pools@ == pools0,
            forall|j: int| 0 <= j < id ==> (#[trigger] pools0[j]).slot != slot,
        decreases bid_pools.len() - id,
    {
        id = id + 1;
    }
    proof {
        lemma_add_to_slot(pools0, slot, bid_amount, id as int);
    }
    if id < bid_pools.len() {
        let pool = bid_pools[id];
        assert(pools0[id as int].slot == slot);
        bid_pools.set(id, BidPool { total_bid_amount: pool.total_bid_amount + bid_amount, ..pool });
    }
    proof {
        assert(bid_pools@ == add_to_slot(pools0, slot, bid_amount));
    }
    process_calc_distribution_amount(&mut bid_pools, &mut distribution_amount, exchange_rate)?;
    Ok(estimate_from_pools(&bid_pools, config.max_slot, slot, bid_amount))
}

} // verus!
