# coharvest_bid_pool

A CosmWasm bid pool: bidders deposit an underlying token into the premium
slots of a bidding round; the owner finalizes an ended round at an exchange
rate, which spreads the round's reward over the pools, lowest slot first;
then every bid is paid its share of the reward and gets back the part of its
deposit that was not matched.

## Layout

- `src/` is the verified library (Verus).
  - `decimal.rs`: the 18-place fixed-point decimal and the cosmwasm_std
    arithmetic it rests on.
  - `asset.rs`, `error.rs`, `msg.rs`: tokens, token movements, errors, messages.
  - `state.rs`: the stored records, bid indices, bid listings and storage bounds.
  - `bid.rs`: the handlers that create, update, finalize and pay out rounds
    and take bids, with the allocation of a round's reward.
  - `contract.rs`: settings, cw20 hooks and the queries.
  - `limits.rs`: the inputs on which a handler would overflow, and checks
    that decide them.
  - `laws.rs`: properties that span several handlers.
  - `store.rs`: the stored state as the handlers read and write it, its
    invariant, and the laws that every handler keeps it and never moves the
    counters back.
- `app/` holds the contract's entry points: it reads storage, calls the
  library, writes back what the library returns and turns token movements
  into chain messages.
- `tests/` runs the library on concrete rounds.
