use vstd::prelude::*;

verus! {

/// Every way an operation of the engine can fail.
///
/// All of these are non-retryable: the caller must change the request, not
/// retry it identically. A failed operation leaves no partial state behind.
#[derive(Clone, Copy, Debug, PartialEq, Eq, Structural)]
pub enum Error {
    /// No market is stored under the given identifier.
    MarketDoesNotExist,
    /// Voting was attempted on a market that has been settled, or whose
    /// deadline has passed.
    MarketNotActive,
    /// Settlement was attempted before the market's deadline.
    MarketStillActive,
    /// The same account attempted a second vote on the same market.
    AlreadyVoted,
    /// The metadata payload given at creation exceeds the length bound.
    MetadataTooLong,
    /// The paying account does not hold the amount to be transferred.
    InsufficientBalance,
    /// The transfer would leave the paying account below the minimum
    /// balance it must retain to stay alive.
    WouldKillAccount,
    /// A counter or balance would exceed its machine bound.
    Overflow,
}

} // verus!
