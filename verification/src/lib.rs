//! Verified core of the CoHarvest bid pool: a CosmWasm contract in which
//! bidders deposit an underlying token into premium slots of a bidding round
//! and, once the round is finalized at an exchange rate, receive the
//! distribution token, lowest premium slot first, while the reward lasts.
//!
//! The contract's storage and the chain's messages stay outside this crate;
//! every handler here takes the values it reads and returns the values it
//! writes.
pub mod decimal;
pub mod error;
pub mod asset;
pub mod state;
pub mod bid;
pub mod msg;
pub mod contract;
pub mod laws;
pub mod limits;
pub mod store;
