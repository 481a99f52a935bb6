use wager_ledger::BetError;
use wager_ledger::BetEvent;
use wager_ledger::BetStatus;
use wager_ledger::BettingContract;
use wager_ledger::Payout;

const ARBITER: u64 = 999;
const ALICE: u64 = 1;
const BOB: u64 = 2;
const CAROL: u64 = 3;

#[test]
fn init_starts_empty() {
    let ledger = BettingContract::init(ARBITER);
    assert_eq!(ledger.owner, ARBITER);
    assert_eq!(ledger.get_total_bet_count(), 0);
    assert!(ledger.bets.is_empty());
    assert!(ledger.active_bets.is_empty());
    assert!(ledger.matched_bets.is_empty());
    assert!(ledger.user_bets.is_empty());
    assert!(ledger.payouts.is_empty());
    assert!(ledger.events.is_empty());
}

#[test]
fn upgrade_changes_nothing() {
    let mut ledger = BettingContract::init(ARBITER);
    assert_eq!(ledger.create_bet(ALICE, 100, 1000, b"terms1".to_vec()), Ok(1));
    let bets_before = ledger.bets.clone();
    let active_before = ledger.active_bets.clone();
    ledger.upgrade();
    assert_eq!(ledger.bets, bets_before);
    assert_eq!(ledger.active_bets, active_before);
    assert_eq!(ledger.get_total_bet_count(), 1);
}

#[test]
fn create_wager_opens_and_indexes() {
    let mut ledger = BettingContract::init(ARBITER);
    let r = ledger.create_bet(ALICE, 100, 1000, b"terms1".to_vec());
    assert_eq!(r, Ok(1));
    assert_eq!(ledger.get_total_bet_count(), 1);
    let bet = &ledger.bets[0];
    assert_eq!(bet.id, 1);
    assert_eq!(bet.creator, ALICE);
    assert_eq!(bet.status, BetStatus::Open);
    assert_eq!(bet.creator_stake, 100);
    assert_eq!(bet.challenger, None);
    assert_eq!(bet.challenger_stake, 0);
    assert_eq!(bet.winner, None);
    assert_eq!(bet.result, None);
    assert_eq!(bet.creation_timestamp, 1000);
    assert_eq!(ledger.active_bets, vec![1]);
    assert!(ledger.matched_bets.is_empty());
    assert_eq!(ledger.user_bets, vec![(ALICE, 1)]);
    assert!(ledger.payouts.is_empty());
    assert_eq!(
        ledger.events,
        vec![BetEvent::BetCreated {
            bet_id: 1,
            creator: ALICE,
            description: b"terms1".to_vec(),
            stake: 100,
        }]
    );
}

#[test]
fn create_with_zero_stake_is_rejected() {
    let mut ledger = BettingContract::init(ARBITER);
    assert_eq!(
        ledger.create_bet(ALICE, 0, 1000, b"terms1".to_vec()),
        Err(BetError::InvalidStake)
    );
    assert_eq!(ledger.get_total_bet_count(), 0);
    assert!(ledger.bets.is_empty());
    assert!(ledger.active_bets.is_empty());
    assert!(ledger.events.is_empty());
}

#[test]
fn accept_matches_and_moves_index() {
    let mut ledger = BettingContract::init(ARBITER);
    assert_eq!(ledger.create_bet(ALICE, 100, 1000, b"terms1".to_vec()), Ok(1));
    let r = ledger.accept_bet(BOB, 100, 1);
    assert_eq!(r, Ok(()));
    let bet = &ledger.bets[0];
    assert_eq!(bet.status, BetStatus::Matched);
    assert_eq!(bet.challenger, Some(BOB));
    assert_eq!(bet.challenger_stake, 100);
    assert!(ledger.active_bets.is_empty());
    assert_eq!(ledger.matched_bets, vec![1]);
    assert_eq!(ledger.user_bets, vec![(ALICE, 1), (BOB, 1)]);
    assert!(ledger.payouts.is_empty());
    assert_eq!(
        ledger.events[1],
        BetEvent::BetAccepted { bet_id: 1, challenger: BOB, stake: 100 }
    );
}

#[test]
fn accept_with_wrong_stake_changes_nothing() {
    let mut ledger = BettingContract::init(ARBITER);
    assert_eq!(ledger.create_bet(ALICE, 100, 1000, b"terms1".to_vec()), Ok(1));
    let bets_before = ledger.bets.clone();
    let active_before = ledger.active_bets.clone();
    let matched_before = ledger.matched_bets.clone();
    let users_before = ledger.user_bets.clone();
    let payouts_before = ledger.payouts.clone();
    let events_before = ledger.events.clone();
    assert_eq!(ledger.accept_bet(BOB, 50, 1), Err(BetError::StakeMismatch));
    assert_eq!(ledger.bets, bets_before);
    assert_eq!(ledger.active_bets, active_before);
    assert_eq!(ledger.matched_bets, matched_before);
    assert_eq!(ledger.user_bets, users_before);
    assert_eq!(ledger.payouts, payouts_before);
    assert_eq!(ledger.events, events_before);
}

#[test]
fn accept_missing_wager_is_not_found() {
    let mut ledger = BettingContract::init(ARBITER);
    assert_eq!(ledger.accept_bet(BOB, 100, 1), Err(BetError::NotFound));
    assert_eq!(ledger.accept_bet(BOB, 100, 0), Err(BetError::NotFound));
}

#[test]
fn accept_own_wager_is_self_match() {
    let mut ledger = BettingContract::init(ARBITER);
    assert_eq!(ledger.create_bet(ALICE, 100, 1000, b"terms1".to_vec()), Ok(1));
    assert_eq!(ledger.accept_bet(ALICE, 100, 1), Err(BetError::SelfMatch));
    assert_eq!(ledger.bets[0].status, BetStatus::Open);
}

#[test]
fn accept_matched_wager_is_not_open() {
    let mut ledger = BettingContract::init(ARBITER);
    assert_eq!(ledger.create_bet(ALICE, 100, 1000, b"terms1".to_vec()), Ok(1));
    assert_eq!(ledger.accept_bet(BOB, 100, 1), Ok(()));
    assert_eq!(ledger.accept_bet(CAROL, 100, 1), Err(BetError::NotOpen));
    assert_eq!(ledger.bets[0].challenger, Some(BOB));
}

#[test]
fn accept_reports_existing_challenger() {
    // Drives the defensive check behind the status test: a record that is
    // still Open yet already carries a challenger is rejected as
    // AlreadyMatched. Such a record cannot arise through the operations;
    // the state is built by hand here.
    let mut ledger = BettingContract::init(ARBITER);
    assert_eq!(ledger.create_bet(ALICE, 100, 1000, b"terms1".to_vec()), Ok(1));
    ledger.bets[0].challenger = Some(CAROL);
    assert_eq!(ledger.accept_bet(BOB, 100, 1), Err(BetError::AlreadyMatched));
}

#[test]
fn resolve_pays_pool_to_creator_on_true() {
    let mut ledger = BettingContract::init(ARBITER);
    assert_eq!(ledger.create_bet(ALICE, 100, 1000, b"terms1".to_vec()), Ok(1));
    assert_eq!(ledger.accept_bet(BOB, 100, 1), Ok(()));
    let r = ledger.resolve_bet(ARBITER, 1, true);
    assert_eq!(r, Ok(()));
    let bet = &ledger.bets[0];
    assert_eq!(bet.status, BetStatus::Resolved);
    assert_eq!(bet.winner, Some(ALICE));
    assert_eq!(bet.result, Some(true));
    assert!(ledger.matched_bets.is_empty());
    assert_eq!(ledger.payouts, vec![Payout { bet_id: 1, to: ALICE, amount: 200 }]);
    assert_eq!(
        ledger.events[2],
        BetEvent::BetResolved { bet_id: 1, winner: ALICE, total_pool: 200, result: true }
    );
}

#[test]
fn resolve_pays_pool_to_challenger_on_false() {
    let mut ledger = BettingContract::init(ARBITER);
    assert_eq!(ledger.create_bet(ALICE, 70, 1000, b"t".to_vec()), Ok(1));
    assert_eq!(ledger.accept_bet(BOB, 70, 1), Ok(()));
    assert_eq!(ledger.resolve_bet(ARBITER, 1, false), Ok(()));
    let bet = &ledger.bets[0];
    assert_eq!(bet.winner, Some(BOB));
    assert_eq!(bet.result, Some(false));
    assert_eq!(ledger.payouts, vec![Payout { bet_id: 1, to: BOB, amount: 140 }]);
}

#[test]
fn resolve_by_non_arbiter_is_unauthorized() {
    let mut ledger = BettingContract::init(ARBITER);
    assert_eq!(ledger.create_bet(ALICE, 100, 1000, b"terms1".to_vec()), Ok(1));
    assert_eq!(ledger.accept_bet(BOB, 100, 1), Ok(()));
    assert_eq!(ledger.resolve_bet(ALICE, 1, true), Err(BetError::Unauthorized));
    assert_eq!(ledger.bets[0].status, BetStatus::Matched);
    assert!(ledger.payouts.is_empty());
}

#[test]
fn resolve_unmatched_wager_is_not_matched() {
    let mut ledger = BettingContract::init(ARBITER);
    assert_eq!(ledger.create_bet(ALICE, 100, 1000, b"terms1".to_vec()), Ok(1));
    assert_eq!(ledger.resolve_bet(ARBITER, 1, true), Err(BetError::NotMatched));
    assert_eq!(ledger.resolve_bet(ARBITER, 2, true), Err(BetError::NotFound));
}

#[test]
fn cancel_refunds_creator() {
    let mut ledger = BettingContract::init(ARBITER);
    assert_eq!(ledger.create_bet(ALICE, 10, 2000, b"t".to_vec()), Ok(1));
    let r = ledger.cancel_bet(ALICE, 1);
    assert_eq!(r, Ok(()));
    let bet = &ledger.bets[0];
    assert_eq!(bet.status, BetStatus::Cancelled);
    assert_eq!(bet.challenger, None);
    assert_eq!(bet.winner, None);
    assert!(ledger.active_bets.is_empty());
    assert_eq!(ledger.payouts, vec![Payout { bet_id: 1, to: ALICE, amount: 10 }]);
    assert_eq!(ledger.events[1], BetEvent::BetCancelled { bet_id: 1, creator: ALICE });
}

#[test]
fn cancel_by_non_creator_is_unauthorized() {
    let mut ledger = BettingContract::init(ARBITER);
    assert_eq!(ledger.create_bet(ALICE, 10, 2000, b"t".to_vec()), Ok(1));
    assert_eq!(ledger.cancel_bet(CAROL, 1), Err(BetError::Unauthorized));
    assert_eq!(ledger.bets[0].status, BetStatus::Open);
    assert_eq!(ledger.active_bets, vec![1]);
    assert!(ledger.payouts.is_empty());
}

#[test]
fn cancel_matched_wager_is_not_open() {
    let mut ledger = BettingContract::init(ARBITER);
    assert_eq!(ledger.create_bet(ALICE, 100, 1000, b"terms1".to_vec()), Ok(1));
    assert_eq!(ledger.accept_bet(BOB, 100, 1), Ok(()));
    assert_eq!(ledger.cancel_bet(ALICE, 1), Err(BetError::NotOpen));
    assert_eq!(ledger.bets[0].status, BetStatus::Matched);
    assert_eq!(ledger.cancel_bet(ALICE, 9), Err(BetError::NotFound));
}
