use vstd::prelude::*;

verus! {

/// The stored records whose absence a handler reports.
#[derive(Clone, Copy, Debug, PartialEq, Eq, Structural)]
pub enum StoredItem {
    Config,
    LastRoundId,
    BiddingInfo,
    DistributionInfo,
    BidPool,
    Bid,
    BidsByUser,
}

/// Why a request was refused with a generic error, and the values the
/// message reports.
#[derive(Clone, Copy, Debug, PartialEq, Eq, Structural)]
pub enum GenericReason {
    /// "Minimum deposit is {min_deposit_amount}, got {amount}"
    MinimumDeposit { min_deposit_amount: u128, amount: u128 },
    /// "premium slot must be within the range 1 and {max_slot}, reaching {premium_slot}"
    PremiumSlotOutOfRange { max_slot: u8, premium_slot: u8 },
    /// "round {round} has been finalized"
    RoundFinalized { round: u64 },
    /// "A new round cannot be created until the last round has started"
    LastRoundNotStarted,
    /// The bidder is not a valid address of the chain.
    InvalidAddress,
}

/// Errors of the storage and serialization layer.
#[derive(Clone, Copy, Debug, PartialEq, Eq, Structural)]
pub enum StdError {
    NotFound { item: StoredItem },
    GenericErr { reason: GenericReason },
}

/// Why the funds attached to a message were refused (`cw_utils::PaymentError`).
#[derive(Debug, PartialEq, Eq)]
pub enum PaymentError {
    MissingDenom(String),
    ExtraDenom(String),
    MultipleDenoms,
    NoFunds,
    NonPayable,
}

/// Every way a handler of the contract can refuse a request.
#[derive(Debug, PartialEq, Eq)]
pub enum ContractError {
    Std(StdError),
    Payment(PaymentError),
    Unauthorized,
    InvalidBiddingTimeRange,
    RoundEnded,
    BidNotOpen,
    BidNotEnded,
    InvalidFunds,
}

pub open spec fn not_found(item: StoredItem) -> ContractError {
    ContractError::Std(StdError::NotFound { item })
}

pub open spec fn generic(reason: GenericReason) -> ContractError {
    ContractError::Std(StdError::GenericErr { reason })
}

} // verus!
