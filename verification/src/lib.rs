//! A binary-outcome prediction market engine.
//!
//! Participants register a market, stake a fixed fee to vote "yes" or "no"
//! before a deadline, and after the deadline the stake pool is settled: a
//! fixed percentage goes to the market creator and the remainder is split
//! evenly among voters on the winning side.
//!
//! The engine owns its stores (markets, vote records, balance ledger) and is
//! driven by an external caller that supplies the current clock value and
//! pre-authenticated account identities with each operation.

pub mod errors;
pub mod events;
pub mod ledger;
pub mod market;
pub mod pallet;
pub mod rewards;
