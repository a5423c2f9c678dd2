use vstd::prelude::*;

verus! {

/// The length bound on a market's metadata payload, in bytes.
pub const METADATA_MAX_BYTES: usize = 256;

/// A single binary-outcome proposition open for staking.
///
/// Markets are stored densely: the market with identifier `i` sits at index
/// `i` of the engine's market store, and identifiers are assigned
/// sequentially starting at 0 and never reused.
#[verifier::ext_equal]
#[derive(Clone, Debug, PartialEq, Eq)]
pub struct Market {
    /// Unique identifier, assigned sequentially starting at 0.
    pub id: u32,
    /// The account that created the market. Immutable after creation.
    pub creator: u64,
    /// Clock value after which voting closes and settlement becomes
    /// eligible.
    pub end_time: u64,
    /// Number of accepted "yes" votes.
    pub yes_votes: u32,
    /// Number of accepted "no" votes.
    pub no_votes: u32,
    /// Accumulated stake; one `vote_cost` per accepted vote.
    pub total_staked: u128,
    /// `true` from creation until settlement runs exactly once, then
    /// permanently `false`.
    pub is_active: bool,
    /// Opaque byte payload, immutable after creation.
    pub metadata: Vec<u8>,
}

impl Market {
    /// The stake pool matches the vote counters exactly.
    pub open spec fn stake_consistent(self, vote_cost: u128) -> bool {
        self.total_staked == vote_cost * (self.yes_votes + self.no_votes)
    }

    /// Everything that holds of a stored market at all times.
    pub open spec fn wf(self, vote_cost: u128) -> bool {
        &&& self.stake_consistent(vote_cost)
        &&& self.metadata@.len() <= METADATA_MAX_BYTES
    }

    /// The side with the strictly greater vote count wins; a tie favors
    /// "no", since the strict comparison is false on a tie.
    pub open spec fn winning_side(self) -> bool {
        self.yes_votes > self.no_votes
    }

    /// The vote count of the winning side.
    pub open spec fn winner_count(self) -> u32 {
        if self.winning_side() {
            self.yes_votes
        } else {
            self.no_votes
        }
    }
}

/// One accepted vote: who voted what on which market.
///
/// At most one record ever exists per `(market, voter)` pair; records are
/// never updated or deleted once written.
#[derive(Clone, Copy, Debug, PartialEq, Eq, Structural)]
pub struct VoteRecord {
    /// The market voted on.
    pub market_id: u32,
    /// The account that cast the vote.
    pub voter: u64,
    /// The choice: `true` is "yes", `false` is "no".
    pub vote: bool,
}

/// Whether a vote by `voter` on `market_id` is on record.
pub open spec fn spec_has_vote(votes: Seq<VoteRecord>, market_id: u32, voter: u64) -> bool {
    exists|i: int|
        0 <= i < votes.len() && (#[trigger] votes[i]).market_id == market_id && votes[i].voter
            == voter
}

/// No two records share a `(market, voter)` pair: the duplicate-vote guard.
pub open spec fn votes_unique(votes: Seq<VoteRecord>) -> bool {
    forall|i: int, j: int|
        0 <= i < j < votes.len() ==> !((#[trigger] votes[i]).market_id == (
        #[trigger] votes[j]).market_id && votes[i].voter == votes[j].voter)
}

/// How many records in `votes` are for `market_id` and carry `choice`.
pub open spec fn count_votes(votes: Seq<VoteRecord>, market_id: u32, choice: bool) -> nat
    decreases votes.len(),
{
    if votes.len() == 0 {
        0
    } else {
        count_votes(votes.drop_last(), market_id, choice) + (
        if votes.last().market_id == market_id && votes.last().vote == choice {
            1nat
        } else {
            0nat
        })
    }
}

/// A market no record mentions has no votes of either choice.
pub proof fn lemma_count_votes_absent(votes: Seq<VoteRecord>, market_id: u32, choice: bool)
    requires
        forall|i: int| 0 <= i < votes.len() ==> (#[trigger] votes[i]).market_id != market_id,
    ensures
        count_votes(votes, market_id, choice) == 0,
    decreases votes.len(),
{
    if votes.len() > 0 {
        lemma_count_votes_absent(votes.drop_last(), market_id, choice);
    }
}

} // verus!
