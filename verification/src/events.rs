use vstd::prelude::*;

verus! {

/// Notifications the engine appends to its event log, one per successful
/// operation, for external observers to consume.
#[verifier::ext_equal]
#[derive(Clone, Debug, PartialEq, Eq)]
pub enum Event {
    /// A market was registered.
    MarketCreated { market_id: u32, creator: u64, end_time: u64, metadata: Vec<u8> },
    /// A vote was accepted and its stake escrowed.
    VoteCast { market_id: u32, voter: u64, vote: bool },
    /// A market was settled and its stake pool paid out.
    RewardsDistributed { market_id: u32, creator: u64, creator_reward: u128 },
}

} // verus!
