use prediction_market::errors::Error;
use prediction_market::events::Event;
use prediction_market::ledger::Ledger;
use prediction_market::market::METADATA_MAX_BYTES;
use prediction_market::pallet::{Config, Pallet};
use prediction_market::rewards::creator_reward_amount;

// The escrow custody account used throughout these tests.
const ESCROW: u64 = 999;

fn engine(vote_cost: u128, percentage: u32, duration: u64, min_balance: u128) -> Pallet {
    let config = Config {
        vote_cost,
        creator_reward_percentage: percentage,
        market_duration: duration,
        escrow_account: ESCROW,
    };
    Pallet::new(config, Ledger::new(min_balance))
}

fn fund(pallet: &mut Pallet, accounts: &[u64], amount: u128) {
    for &account in accounts {
        pallet.ledger.mint(account, amount).unwrap();
    }
}

#[test]
fn create_assigns_sequential_identifiers() {
    let mut p = engine(10, 5, 100, 0);
    assert_eq!(p.market_count(), 0);
    let first = p.create_market(1, 50, b"alpha".to_vec()).unwrap();
    let second = p.create_market(2, 60, b"beta".to_vec()).unwrap();
    assert_eq!(first, 0);
    assert_eq!(second, 1);
    assert_eq!(p.market_count(), 2);
    assert_eq!(p.markets[0].id, 0);
    assert_eq!(p.markets[1].id, 1);
    assert_eq!(p.markets[0].creator, 1);
    assert_eq!(p.markets[0].end_time, 150);
    assert_eq!(p.markets[0].yes_votes, 0);
    assert_eq!(p.markets[0].no_votes, 0);
    assert_eq!(p.markets[0].total_staked, 0);
    assert!(p.markets[0].is_active);
    assert_eq!(p.markets[0].metadata, b"alpha".to_vec());
}

#[test]
fn metadata_bound_is_exact() {
    let mut p = engine(10, 5, 100, 0);
    let exactly_max = vec![7u8; METADATA_MAX_BYTES];
    assert_eq!(p.create_market(1, 0, exactly_max.clone()), Ok(0));
    assert_eq!(p.markets[0].metadata, exactly_max);
    let one_over = vec![7u8; METADATA_MAX_BYTES + 1];
    assert_eq!(p.create_market(1, 0, one_over), Err(Error::MetadataTooLong));
    assert_eq!(p.market_count(), 1);
}

#[test]
fn end_time_saturates_at_clock_maximum() {
    let mut p = engine(10, 5, 100, 0);
    p.create_market(1, u64::MAX - 10, b"m".to_vec()).unwrap();
    assert_eq!(p.markets[0].end_time, u64::MAX);
}

#[test]
fn vote_moves_stake_and_updates_counters() {
    let mut p = engine(10, 5, 100, 0);
    fund(&mut p, &[2, 3, 4], 100);
    p.create_market(1, 0, b"m".to_vec()).unwrap();
    assert_eq!(p.vote(2, 1, 0, true), Ok(()));
    assert_eq!(p.vote(3, 2, 0, true), Ok(()));
    assert_eq!(p.vote(4, 3, 0, false), Ok(()));
    assert_eq!(p.markets[0].yes_votes, 2);
    assert_eq!(p.markets[0].no_votes, 1);
    assert_eq!(p.markets[0].total_staked, 30);
    // The stake pool always equals vote_cost times the vote count.
    assert_eq!(
        p.markets[0].total_staked,
        10 * (p.markets[0].yes_votes + p.markets[0].no_votes) as u128
    );
    assert_eq!(p.ledger.balance_of(2), 90);
    assert_eq!(p.ledger.balance_of(ESCROW), 30);
}

#[test]
fn second_vote_is_rejected_regardless_of_choice() {
    let mut p = engine(10, 5, 100, 0);
    fund(&mut p, &[2], 100);
    p.create_market(1, 0, b"m".to_vec()).unwrap();
    assert_eq!(p.vote(2, 1, 0, true), Ok(()));
    assert_eq!(p.vote(2, 1, 0, true), Err(Error::AlreadyVoted));
    assert_eq!(p.vote(2, 1, 0, false), Err(Error::AlreadyVoted));
    assert_eq!(p.markets[0].yes_votes, 1);
    assert_eq!(p.markets[0].no_votes, 0);
    assert_eq!(p.markets[0].total_staked, 10);
    assert_eq!(p.ledger.balance_of(2), 90);
}

#[test]
fn vote_after_deadline_fails_even_while_marked_active() {
    let mut p = engine(10, 5, 100, 0);
    fund(&mut p, &[2], 100);
    p.create_market(1, 0, b"m".to_vec()).unwrap();
    assert_eq!(p.markets[0].end_time, 100);
    // Exactly at the deadline voting is still open.
    assert_eq!(p.vote(2, 100, 0, true), Ok(()));
    fund(&mut p, &[3], 100);
    assert!(p.markets[0].is_active);
    assert_eq!(p.vote(3, 101, 0, true), Err(Error::MarketNotActive));
    assert!(p.markets[0].is_active);
}

#[test]
fn operations_on_unknown_market_fail() {
    let mut p = engine(10, 5, 100, 0);
    fund(&mut p, &[2], 100);
    assert_eq!(p.vote(2, 0, 0, true), Err(Error::MarketDoesNotExist));
    assert_eq!(p.release_rewards(2, 0, 7), Err(Error::MarketDoesNotExist));
}

#[test]
fn failed_stake_transfer_records_nothing() {
    let mut p = engine(10, 5, 100, 0);
    fund(&mut p, &[2], 5);
    p.create_market(1, 0, b"m".to_vec()).unwrap();
    assert_eq!(p.vote(2, 1, 0, true), Err(Error::InsufficientBalance));
    assert!(!p.has_voted(0, 2));
    assert_eq!(p.markets[0].yes_votes, 0);
    assert_eq!(p.markets[0].total_staked, 0);
    assert_eq!(p.ledger.balance_of(2), 5);
    assert_eq!(p.ledger.balance_of(ESCROW), 0);
}

#[test]
fn stake_transfer_must_keep_the_voter_alive() {
    let mut p = engine(10, 5, 100, 5);
    fund(&mut p, &[2, 3], 0);
    p.ledger.mint(2, 12).unwrap();
    p.ledger.mint(3, 15).unwrap();
    p.create_market(1, 0, b"m".to_vec()).unwrap();
    // Paying 10 would leave 2 below the minimum retained balance of 5.
    assert_eq!(p.vote(2, 1, 0, true), Err(Error::WouldKillAccount));
    assert!(!p.has_voted(0, 2));
    // 15 - 10 meets the minimum exactly.
    assert_eq!(p.vote(3, 1, 0, true), Ok(()));
    assert_eq!(p.ledger.balance_of(3), 5);
}

#[test]
fn settlement_respects_the_deadline() {
    let mut p = engine(10, 5, 100, 0);
    p.create_market(1, 0, b"m".to_vec()).unwrap();
    assert_eq!(p.release_rewards(9, 50, 0), Err(Error::MarketStillActive));
    // The deadline itself is still too early.
    assert_eq!(p.release_rewards(9, 100, 0), Err(Error::MarketStillActive));
    assert!(p.markets[0].is_active);
    assert_eq!(p.release_rewards(9, 101, 0), Ok(()));
    assert!(!p.markets[0].is_active);
}

#[test]
fn settlement_succeeds_once_and_then_refuses() {
    let mut p = engine(10, 5, 100, 0);
    p.create_market(1, 0, b"m".to_vec()).unwrap();
    assert_eq!(p.release_rewards(9, 101, 0), Ok(()));
    assert_eq!(p.release_rewards(9, 101, 0), Err(Error::MarketNotActive));
    assert_eq!(p.release_rewards(9, 9_999, 0), Err(Error::MarketNotActive));
}

#[test]
fn majority_settlement_pays_creator_and_winners() {
    let mut p = engine(10, 5, 10, 0);
    fund(&mut p, &[2, 3, 4, 5], 100);
    // A bystander who never votes is untouched by settlement.
    fund(&mut p, &[42], 77);
    p.create_market(1, 0, b"M1".to_vec()).unwrap();
    p.vote(2, 1, 0, true).unwrap();
    p.vote(3, 1, 0, true).unwrap();
    p.vote(4, 1, 0, true).unwrap();
    p.vote(5, 1, 0, false).unwrap();
    assert_eq!(p.markets[0].total_staked, 40);
    assert_eq!(p.release_rewards(9, 11, 0), Ok(()));
    // creator_reward = floor(40 * 5 / 100) = 2; the remaining pool of 38
    // splits as floor(38 / 3) = 12 per "yes" voter.
    assert_eq!(p.ledger.balance_of(1), 2);
    assert_eq!(p.ledger.balance_of(2), 102);
    assert_eq!(p.ledger.balance_of(3), 102);
    assert_eq!(p.ledger.balance_of(4), 102);
    assert_eq!(p.ledger.balance_of(5), 90);
    // 2 units of rounding dust stay in escrow.
    assert_eq!(p.ledger.balance_of(ESCROW), 2);
    assert_eq!(p.ledger.balance_of(42), 77);
    assert!(!p.markets[0].is_active);
}

#[test]
fn settlement_with_no_votes_pays_nothing() {
    let mut p = engine(10, 5, 10, 0);
    p.create_market(1, 0, b"m".to_vec()).unwrap();
    assert_eq!(p.release_rewards(9, 11, 0), Ok(()));
    assert!(!p.markets[0].is_active);
    assert_eq!(p.ledger.balance_of(1), 0);
    assert_eq!(p.ledger.balance_of(ESCROW), 0);
    assert_eq!(
        p.events[1],
        Event::RewardsDistributed { market_id: 0, creator: 1, creator_reward: 0 }
    );
}

#[test]
fn tie_resolves_to_the_no_side() {
    let mut p = engine(10, 5, 10, 0);
    fund(&mut p, &[2, 3, 4, 5], 100);
    p.create_market(1, 0, b"m".to_vec()).unwrap();
    p.vote(2, 1, 0, true).unwrap();
    p.vote(3, 1, 0, true).unwrap();
    p.vote(4, 1, 0, false).unwrap();
    p.vote(5, 1, 0, false).unwrap();
    assert_eq!(p.release_rewards(9, 11, 0), Ok(()));
    // Pool 40, creator takes 2, and the two "no" voters split 38: 19 each.
    assert_eq!(p.ledger.balance_of(4), 109);
    assert_eq!(p.ledger.balance_of(5), 109);
    // The "yes" voters keep only what they did not stake.
    assert_eq!(p.ledger.balance_of(2), 90);
    assert_eq!(p.ledger.balance_of(3), 90);
    assert_eq!(p.ledger.balance_of(ESCROW), 0);
}

#[test]
fn operations_append_their_events() {
    let mut p = engine(10, 5, 10, 0);
    fund(&mut p, &[2], 100);
    p.create_market(1, 0, b"meta".to_vec()).unwrap();
    p.vote(2, 1, 0, true).unwrap();
    p.release_rewards(9, 11, 0).unwrap();
    assert_eq!(p.events.len(), 3);
    assert_eq!(
        p.events[0],
        Event::MarketCreated { market_id: 0, creator: 1, end_time: 10, metadata: b"meta".to_vec() }
    );
    assert_eq!(p.events[1], Event::VoteCast { market_id: 0, voter: 2, vote: true });
    assert_eq!(
        p.events[2],
        Event::RewardsDistributed { market_id: 0, creator: 1, creator_reward: 0 }
    );
}

#[test]
fn failed_operations_append_no_event() {
    let mut p = engine(10, 5, 10, 0);
    p.create_market(1, 0, vec![0u8; METADATA_MAX_BYTES + 1]).unwrap_err();
    p.vote(2, 0, 0, true).unwrap_err();
    p.release_rewards(2, 0, 0).unwrap_err();
    assert!(p.events.is_empty());
}

#[test]
fn vote_of_reports_the_recorded_choice() {
    let mut p = engine(10, 5, 100, 0);
    fund(&mut p, &[2, 3], 100);
    p.create_market(1, 0, b"m".to_vec()).unwrap();
    p.vote(2, 1, 0, true).unwrap();
    p.vote(3, 1, 0, false).unwrap();
    assert_eq!(p.vote_of(0, 2), Some(true));
    assert_eq!(p.vote_of(0, 3), Some(false));
    assert_eq!(p.vote_of(0, 4), None);
    assert!(p.has_voted(0, 2));
    assert!(!p.has_voted(0, 4));
}

#[test]
fn escrow_account_is_the_configured_identity() {
    let p = engine(10, 5, 100, 0);
    assert_eq!(p.account_id(), ESCROW);
}

#[test]
fn creator_reward_is_the_exact_floor() {
    assert_eq!(creator_reward_amount(40, 5), 2);
    assert_eq!(creator_reward_amount(39, 5), 1);
    assert_eq!(creator_reward_amount(0, 100), 0);
    assert_eq!(creator_reward_amount(100, 100), 100);
    assert_eq!(creator_reward_amount(12_345, 0), 0);
    assert_eq!(creator_reward_amount(u128::MAX, 100), u128::MAX);
    assert_eq!(creator_reward_amount(u128::MAX, 50), u128::MAX / 2);
}

#[test]
fn ledger_transfers_follow_the_existence_policy() {
    let mut ledger = Ledger::new(3);
    assert_eq!(ledger.min_balance(), 3);
    ledger.mint(1, 10).unwrap();
    // Keep-alive refuses dropping the sender below the minimum.
    assert_eq!(ledger.transfer(1, 2, 8, true), Err(Error::WouldKillAccount));
    // Allow-death lets the sender drain to zero.
    assert_eq!(ledger.transfer(1, 2, 10, false), Ok(()));
    assert_eq!(ledger.balance_of(1), 0);
    assert_eq!(ledger.balance_of(2), 10);
    assert_eq!(ledger.transfer(1, 2, 1, false), Err(Error::InsufficientBalance));
    // A self-transfer of an affordable amount changes nothing.
    assert_eq!(ledger.transfer(2, 2, 10, false), Ok(()));
    assert_eq!(ledger.balance_of(2), 10);
    // A transfer that would overflow the recipient is refused.
    ledger.mint(3, u128::MAX - 5).unwrap();
    assert_eq!(ledger.transfer(2, 3, 10, false), Err(Error::Overflow));
    assert_eq!(ledger.mint(3, 10), Err(Error::Overflow));
    assert_eq!(ledger.balance_of(3), u128::MAX - 5);
}

#[test]
fn stake_pool_never_overflows_silently() {
    // A vote whose stake would overflow the pool is refused whole rather
    // than saturating, which would break the stake-counter invariant.
    let mut rich = engine(u128::MAX, 0, 100, 0);
    rich.ledger.mint(2, u128::MAX).unwrap();
    rich.ledger.mint(3, u128::MAX).unwrap();
    rich.create_market(1, 0, b"m".to_vec()).unwrap();
    assert_eq!(rich.vote(2, 1, 0, true), Ok(()));
    assert_eq!(rich.markets[0].total_staked, u128::MAX);
    assert_eq!(rich.vote(3, 1, 0, true), Err(Error::Overflow));
    assert_eq!(rich.markets[0].yes_votes, 1);
    assert_eq!(rich.ledger.balance_of(3), u128::MAX);
}
