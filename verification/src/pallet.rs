use vstd::prelude::*;

use crate::errors::Error;
use crate::events::Event;
use crate::ledger::{
    apply_transfer, can_transfer, lemma_try_transfer_min_irrelevant, transfer_error, try_transfer,
    Ledger,
};
use crate::market::{
    count_votes, lemma_count_votes_absent, spec_has_vote, votes_unique, Market, VoteRecord,
    METADATA_MAX_BYTES,
};
use crate::rewards::{creator_reward_amount, spec_creator_reward};

verus! {

/// The deadline a market created at `now` receives; the addition saturates
/// at the clock type's maximum, so such a market simply never closes.
pub open spec fn spec_end_time(now: u64, duration: u64) -> u64 {
    if now + duration > u64::MAX {
        u64::MAX
    } else {
        (now + duration) as u64
    }
}

/// Whether accepting one more vote on `m` would push a counter or the
/// stake pool past its machine bound. The operation fails rather than
/// saturate, which would silently break the stake-counter invariant.
pub open spec fn vote_overflows(m: Market, vote_yes: bool, vote_cost: u128) -> bool {
    ||| vote_yes && m.yes_votes == u32::MAX
    ||| !vote_yes && m.no_votes == u32::MAX
    ||| m.total_staked + vote_cost > u128::MAX
}

/// The balances after the settlement payout scan: walking every vote
/// record in store order, each voter of `market_id` on the winning side is
/// paid `amount` from escrow, best-effort — a refused transfer is skipped.
pub open spec fn spec_payouts(
    b: Map<u64, u128>,
    votes: Seq<VoteRecord>,
    market_id: u32,
    winning: bool,
    escrow: u64,
    amount: u128,
) -> Map<u64, u128>
    decreases votes.len(),
{
    if votes.len() == 0 {
        b
    } else {
        let prev = spec_payouts(b, votes.drop_last(), market_id, winning, escrow, amount);
        let record = votes.last();
        if record.market_id == market_id && record.vote == winning {
            try_transfer(prev, escrow, record.voter, amount, false, 0)
        } else {
            prev
        }
    }
}

/// The balances after a whole settlement of `m`: the per-winner payouts
/// (when anyone won), then the creator's cut, every transfer best-effort
/// and allowed to drain the escrow to zero. Rounding remainders of both
/// divisions stay in escrow.
pub open spec fn spec_settle_balances(
    b: Map<u64, u128>,
    votes: Seq<VoteRecord>,
    market_id: u32,
    m: Market,
    config: Config,
) -> Map<u64, u128> {
    let creator_reward = spec_creator_reward(m.total_staked, config.creator_reward_percentage)
        as u128;
    let remaining = (m.total_staked - creator_reward) as u128;
    let b1 = if m.winner_count() > 0 {
        spec_payouts(
            b,
            votes,
            market_id,
            m.winning_side(),
            config.escrow_account,
            (remaining as int / m.winner_count() as int) as u128,
        )
    } else {
        b
    };
    try_transfer(b1, config.escrow_account, m.creator, creator_reward, false, 0)
}

/// The constants a deployment fixes once; none is runtime-mutable.
#[derive(Clone, Copy, Debug, PartialEq, Eq, Structural)]
pub struct Config {
    /// The fee one vote stakes.
    pub vote_cost: u128,
    /// The creator's cut of a settled pool, in whole percent.
    pub creator_reward_percentage: u32,
    /// How long a market stays open for voting, in clock units.
    pub market_duration: u64,
    /// The custody account holding all staked funds until settlement;
    /// derived from a fixed configuration identifier, stable for the
    /// system's lifetime.
    pub escrow_account: u64,
}

impl Config {
    /// The creator's cut is a percentage.
    pub open spec fn wf(self) -> bool {
        self.creator_reward_percentage <= 100
    }
}

/// The market lifecycle engine together with the stores it owns: the
/// market store, the vote store, the balance ledger, and the event log.
///
/// Each operation takes the caller's pre-authenticated account identity and
/// the current clock value from the host; the engine itself never reads a
/// clock and never checks a signature.
pub struct Pallet {
    /// Deployment constants.
    pub config: Config,
    /// The market store: the market with identifier `i` sits at index `i`,
    /// so the store's length is the next identifier to assign.
    pub markets: Vec<Market>,
    /// The vote store, append-only; at most one record per
    /// `(market, voter)` pair.
    pub votes: Vec<VoteRecord>,
    /// The balance ledger, holding every account's funds including the
    /// escrow account's.
    pub ledger: Ledger,
    /// The event log, appended to once per successful operation.
    pub events: Vec<Event>,
}

impl Pallet {
    /// Everything that holds of the engine's state after every operation.
    pub open spec fn wf(self) -> bool {
        &&& self.config.wf()
        &&& self.ledger.wf()
        &&& self.markets@.len() <= u32::MAX
        &&& forall|i: int|
            0 <= i < self.markets@.len() ==> (#[trigger] self.markets@[i]).id == i
        &&& forall|i: int|
            0 <= i < self.markets@.len() ==> (#[trigger] self.markets@[i]).wf(
                self.config.vote_cost,
            )
        &&& votes_unique(self.votes@)
        &&& forall|i: int|
            0 <= i < self.votes@.len() ==> (#[trigger] self.votes@[i]).market_id
                < self.markets@.len()
        &&& forall|i: int|
            0 <= i < self.markets@.len() ==> (#[trigger] self.markets@[i]).yes_votes
                == count_votes(self.votes@, i as u32, true)
        &&& forall|i: int|
            0 <= i < self.markets@.len() ==> (#[trigger] self.markets@[i]).no_votes == count_votes(
                self.votes@,
                i as u32,
                false,
            )
    }

    /// Whether a market is stored under `market_id`.
    pub open spec fn has_market(self, market_id: u32) -> bool {
        market_id < self.markets@.len()
    }

    /// A fresh engine with no markets, no votes, and no events, over the
    /// given ledger.
    pub fn new(config: Config, ledger: Ledger) -> (r: Pallet)
        requires
            config.wf(),
            ledger.wf(),
        ensures
            r.wf(),
            r.config == config,
            r.ledger == ledger,
            r.markets@ == Seq::<Market>::empty(),
            r.votes@ == Seq::<VoteRecord>::empty(),
            r.events@ == Seq::<Event>::empty(),
    {
        Pallet { config, markets: Vec::new(), votes: Vec::new(), ledger, events: Vec::new() }
    }

    /// The escrow account holding all staked funds.
    pub fn account_id(&self) -> (r: u64)
        ensures
            r == self.config.escrow_account,
    {
        self.config.escrow_account
    }

    /// The next market identifier to assign, equal to the number of markets
    /// created so far.
    pub fn market_count(&self) -> (r: u32)
        requires
            self.wf(),
        ensures
            r == self.markets@.len(),
    {
        self.markets.len() as u32
    }

    /// Whether `voter` has a vote on record for `market_id`.
    pub fn has_voted(&self, market_id: u32, voter: u64) -> (r: bool)
        ensures
            r == spec_has_vote(self.votes@, market_id, voter),
    {
        let n = self.votes.len();
        let mut i: usize = 0;
        while i < n
            invariant
                i <= n,
                n == self.votes@.len(),
                forall|j: int|
                    0 <= j < i ==> !((#[trigger] self.votes@[j]).market_id == market_id
                        && self.votes@[j].voter == voter),
            decreases n - i,
        {
            let record = self.votes[i];
            if record.market_id == market_id && record.voter == voter {
                return true;
            }
            i += 1;
        }
        false
    }

    /// The recorded choice of `voter` on `market_id`, if any.
    pub fn vote_of(&self, market_id: u32, voter: u64) -> (r: Option<bool>)
        ensures
            r is Some <==> spec_has_vote(self.votes@, market_id, voter),
            r matches Some(choice) ==> self.votes@.contains(
                VoteRecord { market_id, voter, vote: choice },
            ),
    {
        let n = self.votes.len();
        let mut i: usize = 0;
        while i < n
            invariant
                i <= n,
                n == self.votes@.len(),
                forall|j: int|
                    0 <= j < i ==> !((#[trigger] self.votes@[j]).market_id == market_id
                        && self.votes@[j].voter == voter),
            decreases n - i,
        {
            let record = self.votes[i];
            if record.market_id == market_id && record.voter == voter {
                return Some(record.vote);
            }
            i += 1;
        }
        None
    }

    /// What a creation request returns: the identifier the new market gets,
    /// or exactly which error refuses it.
    pub open spec fn create_outcome(self, metadata: Seq<u8>) -> Result<u32, Error> {
        if metadata.len() > METADATA_MAX_BYTES {
            Err(Error::MetadataTooLong)
        } else if self.markets@.len() == u32::MAX {
            Err(Error::Overflow)
        } else {
            Ok(self.markets@.len() as u32)
        }
    }

    /// Registers a new market for `creator`, open for voting until
    /// `now + market_duration`.
    ///
    /// The new market gets the next sequential identifier — the prior
    /// market count — and the count grows by exactly 1, so identifiers are
    /// dense, strictly increasing, and never reused. A payload over
    /// `METADATA_MAX_BYTES` bytes is refused with `MetadataTooLong` and
    /// nothing changes.
    pub fn create_market(&mut self, creator: u64, now: u64, metadata: Vec<u8>) -> (r: Result<
        u32,
        Error,
    >)
        requires
            old(self).wf(),
        ensures
            final(self).wf(),
            r == old(self).create_outcome(metadata@),
            final(self).config == old(self).config,
            final(self).votes@ == old(self).votes@,
            final(self).ledger == old(self).ledger,
            r is Err ==> *final(self) == *old(self),
            r is Ok ==> ({
                let id = old(self).markets@.len() as u32;
                let end_time = spec_end_time(now, old(self).config.market_duration);
                let m = final(self).markets@.last();
                &&& final(self).markets@.len() == old(self).markets@.len() + 1
                &&& forall|i: int|
                    0 <= i < old(self).markets@.len() ==> final(self).markets@[i] == old(
                        self,
                    ).markets@[i]
                &&& m.id == id
                &&& m.creator == creator
                &&& m.end_time == end_time
                &&& m.yes_votes == 0
                &&& m.no_votes == 0
                &&& m.total_staked == 0
                &&& m.is_active
                &&& m.metadata@ == metadata@
                &&& final(self).events@.len() == old(self).events@.len() + 1
                &&& forall|i: int|
                    0 <= i < old(self).events@.len() ==> final(self).events@[i] == old(
                        self,
                    ).events@[i]
                &&& (final(self).events@.last() matches Event::MarketCreated {
                    market_id: event_id,
                    creator: event_creator,
                    end_time: event_end,
                    metadata: event_metadata,
                } && event_id == id && event_creator == creator && event_end == end_time
                    && event_metadata@ == metadata@)
            }),
    {
        if metadata.len() > METADATA_MAX_BYTES {
            return Err(Error::MetadataTooLong);
        }
        let count = self.markets.len();
        if count >= u32::MAX as usize {
            return Err(Error::Overflow);
        }
        let market_id = count as u32;
        let duration = self.config.market_duration;
        let end_time = if now > u64::MAX - duration {
            u64::MAX
        } else {
            now + duration
        };
        let event_metadata = metadata.clone();
        proof {
            assert forall|i: int| 0 <= i < metadata@.len() implies event_metadata@[i]
                == metadata@[i] by {}
            assert(event_metadata@ =~= metadata@);
        }
        let market = Market {
            id: market_id,
            creator,
            end_time,
            yes_votes: 0,
            no_votes: 0,
            total_staked: 0,
            is_active: true,
            metadata,
        };
        self.markets.push(market);
        self.events.push(
            Event::MarketCreated { market_id, creator, end_time, metadata: event_metadata },
        );
        proof {
            // The new market satisfies every store invariant.
            assert forall|i: int| 0 <= i < self.markets@.len() implies (
            #[trigger] self.markets@[i]).id == i by {
                if i < count {
                    assert(self.markets@[i] == old(self).markets@[i]);
                }
            }
            assert forall|i: int| 0 <= i < self.markets@.len() implies (
            #[trigger] self.markets@[i]).wf(self.config.vote_cost) by {
                if i < count {
                    assert(self.markets@[i] == old(self).markets@[i]);
                } else {
                    assert(self.markets@[i].total_staked == 0);
                    vstd::arithmetic::mul::lemma_mul_basics(self.config.vote_cost as int);
                }
            }
            assert forall|i: int| 0 <= i < self.votes@.len() implies (
            #[trigger] self.votes@[i]).market_id < self.markets@.len() by {}
            // The new market has no vote on record, so its zeroed counters
            // agree with the vote store.
            assert forall|i: int| 0 <= i < self.markets@.len() implies (
            #[trigger] self.markets@[i]).yes_votes == count_votes(self.votes@, i as u32, true)
                && self.markets@[i].no_votes == count_votes(self.votes@, i as u32, false) by {
                if i < count {
                    assert(self.markets@[i] == old(self).markets@[i]);
                } else {
                    assert forall|j: int| 0 <= j < self.votes@.len() implies (
                    #[trigger] self.votes@[j]).market_id != i as u32 by {
                        assert(self.votes@[j].market_id < count);
                    }
                    lemma_count_votes_absent(self.votes@, i as u32, true);
                    lemma_count_votes_absent(self.votes@, i as u32, false);
                }
            }
        }
        Ok(market_id)
    }

    /// What a vote request returns: acceptance, or exactly which error
    /// refuses it, checked in order — unknown market, settled market,
    /// passed deadline (the same `MarketNotActive` as a settled market),
    /// duplicate vote, counter overflow, then the stake transfer itself.
    pub open spec fn vote_outcome(
        self,
        voter: u64,
        now: u64,
        market_id: u32,
        vote_yes: bool,
    ) -> Result<(), Error> {
        if !self.has_market(market_id) {
            Err(Error::MarketDoesNotExist)
        } else {
            let m = self.markets@[market_id as int];
            if !m.is_active {
                Err(Error::MarketNotActive)
            } else if now > m.end_time {
                Err(Error::MarketNotActive)
            } else if spec_has_vote(self.votes@, market_id, voter) {
                Err(Error::AlreadyVoted)
            } else if vote_overflows(m, vote_yes, self.config.vote_cost) {
                Err(Error::Overflow)
            } else if !can_transfer(
                self.ledger.balances(),
                voter,
                self.config.escrow_account,
                self.config.vote_cost,
                true,
                self.ledger.spec_min(),
            ) {
                Err(
                    transfer_error(
                        self.ledger.balances(),
                        voter,
                        self.config.escrow_account,
                        self.config.vote_cost,
                        true,
                        self.ledger.spec_min(),
                    ),
                )
            } else {
                Ok(())
            }
        }
    }

    /// Casts `voter`'s vote on `market_id`, staking one `vote_cost` into
    /// escrow.
    ///
    /// The operation is atomic: either the stake is transferred, the
    /// chosen counter and the stake pool grow by exactly one step, the
    /// vote record is written and the event emitted — or an error is
    /// returned and nothing at all changes. The stake transfer must leave
    /// the voter with at least the ledger's minimum balance.
    pub fn vote(&mut self, voter: u64, now: u64, market_id: u32, vote_yes: bool) -> (r: Result<
        (),
        Error,
    >)
        requires
            old(self).wf(),
        ensures
            final(self).wf(),
            r == old(self).vote_outcome(voter, now, market_id, vote_yes),
            final(self).config == old(self).config,
            final(self).ledger.spec_min() == old(self).ledger.spec_min(),
            r is Err ==> *final(self) == *old(self),
            r is Ok ==> ({
                let idx = market_id as int;
                let m0 = old(self).markets@[idx];
                let m1 = final(self).markets@[idx];
                &&& final(self).markets@.len() == old(self).markets@.len()
                &&& forall|i: int|
                    0 <= i < old(self).markets@.len() && i != idx ==> final(self).markets@[i]
                        == old(self).markets@[i]
                &&& m1.id == m0.id
                &&& m1.creator == m0.creator
                &&& m1.end_time == m0.end_time
                &&& m1.is_active == m0.is_active
                &&& m1.metadata == m0.metadata
                &&& (if vote_yes {
                    m1.yes_votes == m0.yes_votes + 1 && m1.no_votes == m0.no_votes
                } else {
                    m1.no_votes == m0.no_votes + 1 && m1.yes_votes == m0.yes_votes
                })
                &&& m1.total_staked == m0.total_staked + old(self).config.vote_cost
                &&& final(self).votes@ == old(self).votes@.push(
                    VoteRecord { market_id, voter, vote: vote_yes },
                )
                &&& final(self).ledger.balances() == apply_transfer(
                    old(self).ledger.balances(),
                    voter,
                    old(self).config.escrow_account,
                    old(self).config.vote_cost,
                )
                &&& final(self).events@ == old(self).events@.push(
                    Event::VoteCast { market_id, voter, vote: vote_yes },
                )
            }),
    {
        let idx = market_id as usize;
        if idx >= self.markets.len() {
            return Err(Error::MarketDoesNotExist);
        }
        if !self.markets[idx].is_active {
            return Err(Error::MarketNotActive);
        }
        if now > self.markets[idx].end_time {
            return Err(Error::MarketNotActive);
        }
        if self.has_voted(market_id, voter) {
            return Err(Error::AlreadyVoted);
        }
        let vote_cost = self.config.vote_cost;
        let yes = self.markets[idx].yes_votes;
        let no = self.markets[idx].no_votes;
        let staked = self.markets[idx].total_staked;
        if vote_yes && yes == u32::MAX {
            return Err(Error::Overflow);
        }
        if !vote_yes && no == u32::MAX {
            return Err(Error::Overflow);
        }
        if staked > u128::MAX - vote_cost {
            return Err(Error::Overflow);
        }
        let escrow = self.config.escrow_account;
        match self.ledger.transfer(voter, escrow, vote_cost, true) {
            Err(e) => {
                return Err(e);
            },
            Ok(()) => {},
        }
        if vote_yes {
            self.markets[idx].yes_votes = yes + 1;
        } else {
            self.markets[idx].no_votes = no + 1;
        }
        self.markets[idx].total_staked = staked + vote_cost;
        self.votes.push(VoteRecord { market_id, voter, vote: vote_yes });
        self.events.push(Event::VoteCast { market_id, voter, vote: vote_yes });
        proof {
            let m1 = self.markets@[idx as int];
            // One more vote keeps the stake pool consistent with the
            // counters.
            assert(vote_cost * ((m1.yes_votes + m1.no_votes) as int) == vote_cost * ((yes
                + no) as int) + vote_cost) by (nonlinear_arith)
                requires
                    (m1.yes_votes + m1.no_votes) as int == (yes + no) as int + 1,
            ;
            assert forall|i: int| 0 <= i < self.markets@.len() implies (
            #[trigger] self.markets@[i]).wf(self.config.vote_cost) by {
                if i != idx as int {
                    assert(self.markets@[i] == old(self).markets@[i]);
                }
            }
            // The new record's pair was absent, so uniqueness is kept.
            assert forall|i: int, j: int| 0 <= i < j < self.votes@.len() implies !((
            #[trigger] self.votes@[i]).market_id == (#[trigger] self.votes@[j]).market_id
                && self.votes@[i].voter == self.votes@[j].voter) by {
                if j == old(self).votes@.len() {
                    assert(!spec_has_vote(old(self).votes@, market_id, voter));
                    assert(self.votes@[i] == old(self).votes@[i]);
                }
            }
            // The appended record raises exactly one count of exactly one
            // market, matching the counter that was incremented.
            assert(self.votes@.drop_last() =~= old(self).votes@);
            assert forall|i: int| 0 <= i < self.markets@.len() implies (
            #[trigger] self.markets@[i]).yes_votes == count_votes(self.votes@, i as u32, true)
                && self.markets@[i].no_votes == count_votes(self.votes@, i as u32, false) by {
                assert(count_votes(self.votes@, i as u32, true) == count_votes(
                    old(self).votes@,
                    i as u32,
                    true,
                ) + (if market_id == i as u32 && vote_yes {
                    1nat
                } else {
                    0nat
                }));
                assert(count_votes(self.votes@, i as u32, false) == count_votes(
                    old(self).votes@,
                    i as u32,
                    false,
                ) + (if market_id == i as u32 && !vote_yes {
                    1nat
                } else {
                    0nat
                }));
                if i != idx as int {
                    assert(self.markets@[i] == old(self).markets@[i]);
                }
            }
        }
        Ok(())
    }

    /// What a settlement request returns: acceptance, or exactly which
    /// error refuses it — unknown market, already-settled market, or a
    /// deadline that has not yet passed.
    pub open spec fn settle_outcome(self, now: u64, market_id: u32) -> Result<(), Error> {
        if !self.has_market(market_id) {
            Err(Error::MarketDoesNotExist)
        } else if !self.markets@[market_id as int].is_active {
            Err(Error::MarketNotActive)
        } else if now <= self.markets@[market_id as int].end_time {
            Err(Error::MarketStillActive)
        } else {
            Ok(())
        }
    }

    /// Settles `market_id`: deactivates it permanently and distributes its
    /// stake pool.
    ///
    /// Settlement is permissionless — any authenticated caller may run it —
    /// and is accepted exactly once per market, only after the deadline.
    /// The creator receives `floor(total_staked * percentage / 100)`; the
    /// remainder is split evenly among the voters on the winning side,
    /// walking the vote store in order. The side with strictly more votes
    /// wins, so a tie favors "no". Every payout transfer is best-effort: a
    /// refused transfer is absorbed, never aborting settlement, and the
    /// rounding dust of both divisions stays in escrow.
    pub fn release_rewards(&mut self, _caller: u64, now: u64, market_id: u32) -> (r: Result<
        (),
        Error,
    >)
        requires
            old(self).wf(),
        ensures
            final(self).wf(),
            r == old(self).settle_outcome(now, market_id),
            final(self).config == old(self).config,
            final(self).votes@ == old(self).votes@,
            final(self).ledger.spec_min() == old(self).ledger.spec_min(),
            r is Err ==> *final(self) == *old(self),
            r is Ok ==> ({
                let idx = market_id as int;
                let m0 = old(self).markets@[idx];
                let creator_reward = spec_creator_reward(
                    m0.total_staked,
                    old(self).config.creator_reward_percentage,
                ) as u128;
                &&& final(self).markets@ == old(self).markets@.update(
                    idx,
                    (Market { is_active: false, ..m0 }),
                )
                &&& final(self).ledger.balances() == spec_settle_balances(
                    old(self).ledger.balances(),
                    old(self).votes@,
                    market_id,
                    m0,
                    old(self).config,
                )
                &&& final(self).events@ == old(self).events@.push(
                    Event::RewardsDistributed { market_id, creator: m0.creator, creator_reward },
                )
            }),
    {
        let idx = market_id as usize;
        if idx >= self.markets.len() {
            return Err(Error::MarketDoesNotExist);
        }
        if !self.markets[idx].is_active {
            return Err(Error::MarketNotActive);
        }
        if now <= self.markets[idx].end_time {
            return Err(Error::MarketStillActive);
        }
        let ghost b0 = self.ledger.balances();
        let ghost m0 = self.markets@[idx as int];
        let total = self.markets[idx].total_staked;
        let yes = self.markets[idx].yes_votes;
        let no = self.markets[idx].no_votes;
        let creator = self.markets[idx].creator;
        // Deactivate first: settlement must run exactly once even if every
        // payout below is refused.
        self.markets[idx].is_active = false;
        let ghost markets1 = self.markets@;
        let creator_reward = creator_reward_amount(total, self.config.creator_reward_percentage);
        let remaining = total - creator_reward;
        let yes_wins = yes > no;
        let winner_count = if yes_wins {
            yes
        } else {
            no
        };
        let escrow = self.config.escrow_account;
        if winner_count > 0 {
            let reward_per_winner = remaining / (winner_count as u128);
            let n = self.votes.len();
            let mut i: usize = 0;
            proof {
                assert(self.votes@.take(0) =~= Seq::<VoteRecord>::empty());
            }
            while i < n
                invariant
                    i <= n,
                    n == self.votes@.len(),
                    self.ledger.wf(),
                    self.ledger.spec_min() == old(self).ledger.spec_min(),
                    self.config == old(self).config,
                    self.votes@ == old(self).votes@,
                    self.events@ == old(self).events@,
                    self.markets@ == markets1,
                    self.ledger.balances() == spec_payouts(
                        b0,
                        self.votes@.take(i as int),
                        market_id,
                        yes_wins,
                        escrow,
                        reward_per_winner,
                    ),
                decreases n - i,
            {
                let record = self.votes[i];
                proof {
                    assert(self.votes@.take(i as int + 1).drop_last() =~= self.votes@.take(
                        i as int,
                    ));
                    assert(self.votes@.take(i as int + 1).last() == self.votes@[i as int]);
                }
                if record.market_id == market_id && record.vote == yes_wins {
                    let ghost before = self.ledger.balances();
                    let _ = self.ledger.transfer(escrow, record.voter, reward_per_winner, false);
                    proof {
                        lemma_try_transfer_min_irrelevant(
                            before,
                            escrow,
                            record.voter,
                            reward_per_winner,
                            old(self).ledger.spec_min(),
                            0,
                        );
                    }
                }
                i += 1;
            }
            proof {
                assert(self.votes@.take(n as int) =~= self.votes@);
            }
        }
        let ghost b1 = self.ledger.balances();
        let _ = self.ledger.transfer(escrow, creator, creator_reward, false);
        proof {
            lemma_try_transfer_min_irrelevant(
                b1,
                escrow,
                creator,
                creator_reward,
                old(self).ledger.spec_min(),
                0,
            );
        }
        self.events.push(
            Event::RewardsDistributed { market_id, creator, creator_reward },
        );
        proof {
            assert forall|i: int| 0 <= i < self.markets@.len() implies (
            #[trigger] self.markets@[i]).wf(self.config.vote_cost) by {
                if i != idx as int {
                    assert(self.markets@[i] == old(self).markets@[i]);
                }
            }
            assert forall|i: int| 0 <= i < self.markets@.len() implies (
            #[trigger] self.markets@[i]).id == i by {
                if i != idx as int {
                    assert(self.markets@[i] == old(self).markets@[i]);
                }
            }
            assert(self.markets@ =~= old(self).markets@.update(
                idx as int,
                (Market { is_active: false, ..m0 }),
            ));
        }
        Ok(())
    }
}

/// Law: every stored market's identifier equals its position in the store,
/// so identifiers are dense, strictly increasing from 0, and never reused.
pub proof fn lemma_identifiers_dense(p: Pallet, market_id: u32)
    requires
        p.wf(),
        p.has_market(market_id),
    ensures
        p.markets@[market_id as int].id == market_id,
{
}

/// Law: at all times, every market's stake pool equals the vote cost times
/// its total vote count.
pub proof fn lemma_stake_matches_votes(p: Pallet, market_id: u32)
    requires
        p.wf(),
        p.has_market(market_id),
    ensures
        p.markets@[market_id as int].total_staked == p.config.vote_cost * (p.markets@[market_id
            as int].yes_votes + p.markets@[market_id as int].no_votes),
{
}

/// Law: the counters never drift from the store. At all times a market's
/// "yes" and "no" counters equal the number of vote records of each choice
/// held for it, so the settlement scan pays exactly `winner_count` many
/// voters' records.
pub proof fn lemma_counters_match_records(p: Pallet, market_id: u32)
    requires
        p.wf(),
        p.has_market(market_id),
    ensures
        p.markets@[market_id as int].yes_votes == count_votes(p.votes@, market_id, true),
        p.markets@[market_id as int].no_votes == count_votes(p.votes@, market_id, false),
{
}

/// Law: one vote per account per market. Once a vote by `voter` on
/// `market_id` is on record — and every accepted vote puts one there that
/// no operation ever removes — a further vote by the same account on the
/// same market is never accepted, and is refused with `AlreadyVoted`
/// whenever the market is otherwise open to it, whatever choice the
/// attempt carries.
pub proof fn lemma_no_double_vote(p: Pallet, voter: u64, now: u64, market_id: u32, choice: bool)
    requires
        spec_has_vote(p.votes@, market_id, voter),
    ensures
        p.vote_outcome(voter, now, market_id, choice) is Err,
        p.has_market(market_id) && p.markets@[market_id as int].is_active && now <= p.markets@[
            market_id as int].end_time ==> p.vote_outcome(voter, now, market_id, choice) == Err::<
            (),
            Error,
        >(Error::AlreadyVoted),
{
}

/// Law: the deadline alone closes a market to voting. After `end_time` a
/// vote is refused with `MarketNotActive`, whether or not the market is
/// still marked active.
pub proof fn lemma_vote_after_deadline_refused(
    p: Pallet,
    voter: u64,
    now: u64,
    market_id: u32,
    choice: bool,
)
    requires
        p.has_market(market_id),
        now > p.markets@[market_id as int].end_time,
    ensures
        p.vote_outcome(voter, now, market_id, choice) == Err::<(), Error>(Error::MarketNotActive),
{
}

/// Law: settlement never runs early. Up to and including `end_time` it is
/// refused with `MarketStillActive`.
pub proof fn lemma_settlement_before_deadline_refused(p: Pallet, now: u64, market_id: u32)
    requires
        p.has_market(market_id),
        p.markets@[market_id as int].is_active,
        now <= p.markets@[market_id as int].end_time,
    ensures
        p.settle_outcome(now, market_id) == Err::<(), Error>(Error::MarketStillActive),
{
}

/// Law: settlement runs at most once. A market that is no longer active —
/// as every settled market permanently is — refuses any further settlement
/// with `MarketNotActive`, at any clock value; so of two settlement
/// attempts on the same market, at most the first succeeds.
pub proof fn lemma_settlement_final(p: Pallet, now: u64, market_id: u32)
    requires
        p.has_market(market_id),
        !p.markets@[market_id as int].is_active,
    ensures
        p.settle_outcome(now, market_id) == Err::<(), Error>(Error::MarketNotActive),
{
}

/// Law: a tie resolves to "no". With equal vote counts the strict
/// comparison favors the "no" side, which is then the side that gets paid.
pub proof fn lemma_tie_favors_no(m: Market)
    requires
        m.yes_votes == m.no_votes,
    ensures
        !m.winning_side(),
        m.winner_count() == m.no_votes,
{
}

/// The payout scan can only move balance away from the escrow account and
/// toward accounts with a vote on record for the market being settled.
proof fn lemma_payouts_spare_bystanders(
    b: Map<u64, u128>,
    votes: Seq<VoteRecord>,
    market_id: u32,
    winning: bool,
    escrow: u64,
    amount: u128,
    a: u64,
)
    requires
        a != escrow,
        !spec_has_vote(votes, market_id, a),
    ensures
        spec_payouts(b, votes, market_id, winning, escrow, amount)[a] == b[a],
    decreases votes.len(),
{
    if votes.len() > 0 {
        assert(!spec_has_vote(votes.drop_last(), market_id, a)) by {
            assert forall|i: int|
                0 <= i < votes.drop_last().len() implies !((#[trigger] votes.drop_last()[i]).market_id
                == market_id && votes.drop_last()[i].voter == a) by {
                assert(votes.drop_last()[i] == votes[i]);
            }
        }
        lemma_payouts_spare_bystanders(b, votes.drop_last(), market_id, winning, escrow, amount, a);
        let record = votes.last();
        if record.market_id == market_id && record.vote == winning {
            assert(record.voter != a);
        }
    }
}

/// Law: settlement moves value only among the escrow account, the market's
/// creator, and the accounts with a vote on record for that market. Every
/// other account's balance is exactly what it was.
pub proof fn lemma_settlement_spares_bystanders(
    b: Map<u64, u128>,
    votes: Seq<VoteRecord>,
    market_id: u32,
    m: Market,
    config: Config,
    a: u64,
)
    requires
        a != config.escrow_account,
        a != m.creator,
        !spec_has_vote(votes, market_id, a),
    ensures
        spec_settle_balances(b, votes, market_id, m, config)[a] == b[a],
{
    if m.winner_count() > 0 {
        let creator_reward = spec_creator_reward(m.total_staked, config.creator_reward_percentage)
            as u128;
        let remaining = (m.total_staked - creator_reward) as u128;
        lemma_payouts_spare_bystanders(
            b,
            votes,
            market_id,
            m.winning_side(),
            config.escrow_account,
            (remaining as int / m.winner_count() as int) as u128,
            a,
        );
    }
}

} // verus!
