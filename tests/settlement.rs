use potrero_olimpcs::entry::EntryLocks;
use potrero_olimpcs::error::PotreroError;
use potrero_olimpcs::identity::IdentityKey;
use potrero_olimpcs::leaderboard::{insert_ranked, upsert_ranked, Player};
use potrero_olimpcs::market::{
    close_event_pdas, close_leaderboard_pdas, close_prediction_pda, initialize, make_prediction,
    pay, pay_global, process_results, resolve,
};
use potrero_olimpcs::payout::{prize_shares, split_event_balance};
use potrero_olimpcs::records::{Leaderboard, OracleEvent, PlayerPoints};
use potrero_olimpcs::scoring::score_podium;

fn key(n: u8) -> IdentityKey {
    IdentityKey::new([n; 32])
}

fn same(a: &IdentityKey, b: &IdentityKey) -> bool {
    a.bytes == b.bytes
}

const RESOLVER: u8 = 200;
const RECEIVER: u8 = 201;
const TREASURY: u8 = 202;
const EVENT: u8 = 203;

fn new_event(global: &mut Leaderboard) -> OracleEvent {
    initialize(global, "final".to_string(), 500, 100, key(RESOLVER), 100, key(RECEIVER), 250).unwrap()
}

#[test]
fn scoring_weights_each_place() {
    assert_eq!(score_podium((1, 2, 3), (1, 2, 3)), 6);
    assert_eq!(score_podium((1, 9, 9), (1, 2, 3)), 3);
    assert_eq!(score_podium((9, 2, 9), (1, 2, 3)), 2);
    assert_eq!(score_podium((9, 9, 3), (1, 2, 3)), 1);
    assert_eq!(score_podium((2, 3, 1), (1, 2, 3)), 0);
    assert_eq!(score_podium((1, 9, 3), (1, 2, 3)), 4);
}

#[test]
fn event_split_of_a_million() {
    // 100 basis points of 1_000_000, each amount floored as it is computed.
    let p = split_event_balance(1_000_000, 100).unwrap();
    assert_eq!(p.fee_amount, 10_000);
    assert_eq!(p.global_amount, 10_000);
    assert_eq!(p.remainder, 980_000);
    assert_eq!(p.prizes, vec![343_000, 245_000, 147_000, 78_400, 49_000, 39_200, 29_400, 19_600, 19_600, 9_800]);
}

#[test]
fn event_split_with_a_fee_of_one_hundred_units() {
    let p = split_event_balance(1_000_000, 1).unwrap();
    assert_eq!(p.fee_amount, 100);
    assert_eq!(p.global_amount, 10_000);
    assert_eq!(p.remainder, 989_900);
    // 989_900 / 100 * 35, floored to whole percents first.
    assert_eq!(p.prizes[0], 346_465);
    assert_eq!(p.prizes, vec![346_465, 247_475, 148_485, 79_192, 49_495, 39_596, 29_697, 19_798, 19_798, 9_899]);
}

#[test]
fn event_split_refuses_fee_above_balance() {
    assert!(split_event_balance(1_000_000, 9_900).is_some());
    assert!(split_event_balance(1_000_000, 9_901).is_none());
    assert!(split_event_balance(u64::MAX, u64::MAX).is_none());
}

#[test]
fn prizes_never_exceed_the_pool() {
    let shares = prize_shares(999);
    assert_eq!(shares, vec![315, 225, 135, 72, 45, 36, 27, 18, 18, 9]);
    let total: u64 = shares.iter().sum();
    assert_eq!(total, 900);
    assert!(total <= 999);
    assert_eq!(prize_shares(99), vec![0; 10]);
    let big: u64 = prize_shares(u64::MAX).iter().sum();
    assert!(big <= u64::MAX);
}

#[test]
fn equal_scores_rank_earlier_timestamp_first() {
    let mut board: Vec<Player> = Vec::new();
    insert_ranked(&mut board, Player { pubkey: key(1), score: 3, timestamp: 20 });
    insert_ranked(&mut board, Player { pubkey: key(2), score: 3, timestamp: 10 });
    assert_eq!(board.len(), 2);
    assert!(same(&board[0].pubkey, &key(2)));
    assert!(same(&board[1].pubkey, &key(1)));
}

#[test]
fn full_board_evicts_only_for_a_better_entry() {
    let mut board: Vec<Player> = Vec::new();
    for i in 0..10u8 {
        insert_ranked(&mut board, Player { pubkey: key(i), score: (10 - i) as u128, timestamp: 5 });
    }
    assert_eq!(board.len(), 10);
    // Same score as the last entry but later: not admitted.
    insert_ranked(&mut board, Player { pubkey: key(50), score: 1, timestamp: 6 });
    assert_eq!(board.len(), 10);
    assert!(same(&board[9].pubkey, &key(9)));
    // Same score, earlier timestamp: evicts the last entry.
    insert_ranked(&mut board, Player { pubkey: key(51), score: 1, timestamp: 4 });
    assert_eq!(board.len(), 10);
    assert!(same(&board[9].pubkey, &key(51)));
    // A top score goes first.
    insert_ranked(&mut board, Player { pubkey: key(52), score: 99, timestamp: 9 });
    assert!(same(&board[0].pubkey, &key(52)));
    assert_eq!(board.len(), 10);
    for w in board.windows(2) {
        assert!(w[0].score >= w[1].score);
    }
}

#[test]
fn global_board_updates_an_existing_entry_in_place() {
    let mut board: Vec<Player> = Vec::new();
    upsert_ranked(&mut board, key(1), 5, 10);
    upsert_ranked(&mut board, key(2), 4, 11);
    upsert_ranked(&mut board, key(2), 9, 30);
    assert_eq!(board.len(), 2);
    assert!(same(&board[0].pubkey, &key(2)));
    assert_eq!(board[0].score, 9);
    assert_eq!(board[0].timestamp, 11);
    assert_eq!(board[1].score, 5);
}

#[test]
fn second_entry_is_a_duplicate() {
    let mut global = Leaderboard::new();
    let mut event = new_event(&mut global);
    let mut locks = EntryLocks::new();
    let mut points = PlayerPoints::new(key(1));
    let p = make_prediction(&mut event, &key(EVENT), &mut locks, &mut points, &key(1), &key(RECEIVER), 1, 2, 3, 50).unwrap();
    assert_eq!((p.gold, p.silver, p.bronze, p.timestamp), (1, 2, 3, 50));
    assert_eq!(event.plays, 1);
    assert_eq!(points.events, 1);
    assert_eq!(points.timestamp, 50);
    let again = make_prediction(&mut event, &key(EVENT), &mut locks, &mut points, &key(1), &key(RECEIVER), 4, 5, 6, 500);
    assert_eq!(again.unwrap_err(), PotreroError::UniquenessViolation);
    assert_eq!(event.plays, 1);
    assert_eq!(points.events, 1);
}

#[test]
fn late_entry_is_refused() {
    let mut global = Leaderboard::new();
    let mut event = new_event(&mut global);
    let mut locks = EntryLocks::new();
    let mut points = PlayerPoints::new(key(1));
    let r = make_prediction(&mut event, &key(EVENT), &mut locks, &mut points, &key(1), &key(RECEIVER), 1, 2, 3, 101);
    assert_eq!(r.unwrap_err(), PotreroError::EventClosed);
    assert!(make_prediction(&mut event, &key(EVENT), &mut locks, &mut points, &key(1), &key(RECEIVER), 1, 2, 3, 100).is_ok());
    let mut event2 = new_event(&mut global);
    resolve(&mut event2, &key(RESOLVER), 1, 2, 3, 600).unwrap();
    let mut points2 = PlayerPoints::new(key(2));
    let r = make_prediction(&mut event2, &key(EVENT), &mut locks, &mut points2, &key(2), &key(RECEIVER), 1, 2, 3, 0);
    assert_eq!(r.unwrap_err(), PotreroError::EventClosed);
    assert_eq!(event2.plays, 0);
}

#[test]
fn entry_with_wrong_fee_receiver_is_refused() {
    let mut global = Leaderboard::new();
    let mut event = new_event(&mut global);
    let mut locks = EntryLocks::new();
    let mut points = PlayerPoints::new(key(1));
    let r = make_prediction(&mut event, &key(EVENT), &mut locks, &mut points, &key(1), &key(9), 1, 2, 3, 50);
    assert_eq!(r.unwrap_err(), PotreroError::AuthorizationMismatch);
    assert!(!locks.contains(&key(EVENT), &key(1)));
}

#[test]
fn resolution_waits_for_its_time_and_resolver() {
    let mut global = Leaderboard::new();
    let mut event = new_event(&mut global);
    assert_eq!(resolve(&mut event, &key(RESOLVER), 1, 2, 3, 499).unwrap_err(), PotreroError::EventStillOpen);
    assert_eq!(resolve(&mut event, &key(7), 1, 2, 3, 499).unwrap_err(), PotreroError::EventStillOpen);
    assert_eq!(resolve(&mut event, &key(7), 1, 2, 3, 500).unwrap_err(), PotreroError::AuthorizationMismatch);
    assert_eq!(event.solved_at, 0);
    resolve(&mut event, &key(RESOLVER), 1, 2, 3, 500).unwrap();
    assert_eq!((event.gold, event.silver, event.bronze, event.solved_at), (1, 2, 3, 500));
    resolve(&mut event, &key(RESOLVER), 1, 2, 3, 700).unwrap();
    assert_eq!((event.gold, event.silver, event.bronze, event.solved_at), (1, 2, 3, 700));
}

#[test]
fn initialize_counts_events() {
    let mut global = Leaderboard::new();
    let event = new_event(&mut global);
    assert_eq!(global.events, 1);
    assert_eq!(event.plays, 0);
    assert_eq!(event.solved_at, 0);
    assert!(!event.paid);
    assert_eq!(event.creator_basis_points, 250);
    global.events = u128::MAX;
    let r = initialize(&mut global, "x".to_string(), 1, 1, key(1), 1, key(1), 1);
    assert_eq!(r.err(), Some(PotreroError::Overflow));
}

struct Market {
    global: Leaderboard,
    event: OracleEvent,
    locks: EntryLocks,
    points: Vec<PlayerPoints>,
    predictions: Vec<potrero_olimpcs::records::PodiumPrediction>,
}

/// Twelve players enter; player i guesses gold i % 4 and the true podium otherwise.
fn market_with_entries() -> Market {
    let mut global = Leaderboard::new();
    let mut event = new_event(&mut global);
    let mut locks = EntryLocks::new();
    let mut points = Vec::new();
    let mut predictions = Vec::new();
    for i in 0..12u8 {
        let mut pp = PlayerPoints::new(key(i));
        let p = make_prediction(&mut event, &key(EVENT), &mut locks, &mut pp, &key(i), &key(RECEIVER), i % 4, 2, 3, 10 + i as i64).unwrap();
        points.push(pp);
        predictions.push(p);
    }
    Market { global, event, locks, points, predictions }
}

fn settle_all(m: &mut Market) {
    for i in 0..12usize {
        process_results(&mut m.event, &key(EVENT), &m.predictions[i], &mut m.points[i], &mut m.global, &mut m.locks, &key(TREASURY), &key(TREASURY)).unwrap();
    }
}

#[test]
fn processing_before_resolution_is_refused() {
    let mut m = market_with_entries();
    let r = process_results(&mut m.event, &key(EVENT), &m.predictions[0], &mut m.points[0], &mut m.global, &mut m.locks, &key(TREASURY), &key(TREASURY));
    assert_eq!(r.unwrap_err(), PotreroError::EventNotResolved);
    let r = process_results(&mut m.event, &key(EVENT), &m.predictions[0], &mut m.points[0], &mut m.global, &mut m.locks, &key(1), &key(TREASURY));
    assert_eq!(r.unwrap_err(), PotreroError::AuthorizationMismatch);
    assert_eq!(m.event.settled, 0);
}

#[test]
fn processing_scores_and_ranks() {
    let mut m = market_with_entries();
    resolve(&mut m.event, &key(RESOLVER), 1, 2, 3, 600).unwrap();
    let earned = process_results(&mut m.event, &key(EVENT), &m.predictions[1], &mut m.points[1], &mut m.global, &mut m.locks, &key(TREASURY), &key(TREASURY)).unwrap();
    assert_eq!(earned, 6);
    assert_eq!(m.points[1].score, 6);
    assert_eq!(m.points[1].settled, 1);
    assert_eq!(m.event.settled, 1);
    assert!(!m.locks.contains(&key(EVENT), &key(1)));
    assert_eq!(m.global.leaderboard.len(), 1);
    assert_eq!(m.global.leaderboard[0].score, 6);
    let again = process_results(&mut m.event, &key(EVENT), &m.predictions[1], &mut m.points[1], &mut m.global, &mut m.locks, &key(TREASURY), &key(TREASURY));
    assert_eq!(again.unwrap_err(), PotreroError::MissingEntry);
    assert_eq!(m.points[1].score, 6);
    settle_all_but(&mut m, 1);
    assert_eq!(m.event.settled, 12);
    assert_eq!(m.event.plays, 12);
    assert_eq!(m.event.leaderboard.len(), 10);
    // Winners (gold 1) first, by entry time; then the 3-point players by entry time.
    let order: Vec<u8> = m.event.leaderboard.iter().map(|p| p.pubkey.bytes[0]).collect();
    assert_eq!(order, vec![1, 5, 9, 0, 2, 3, 4, 6, 7, 8]);
}

fn settle_all_but(m: &mut Market, skip: usize) {
    for i in 0..12usize {
        if i != skip {
            process_results(&mut m.event, &key(EVENT), &m.predictions[i], &mut m.points[i], &mut m.global, &mut m.locks, &key(TREASURY), &key(TREASURY)).unwrap();
        }
    }
}

fn leaders(board: &Vec<Player>) -> Vec<IdentityKey> {
    board.iter().take(10).map(|p| p.pubkey).collect()
}

#[test]
fn pay_once_after_full_settlement() {
    let mut m = market_with_entries();
    resolve(&mut m.event, &key(RESOLVER), 1, 2, 3, 600).unwrap();
    process_results(&mut m.event, &key(EVENT), &m.predictions[0], &mut m.points[0], &mut m.global, &mut m.locks, &key(TREASURY), &key(TREASURY)).unwrap();
    let w = leaders(&m.event.leaderboard);
    let r = pay(&mut m.event, &mut m.global, &w, &key(RECEIVER), 1_000_000);
    assert_eq!(r.err(), Some(PotreroError::CompletenessViolation));
    settle_all_but(&mut m, 0);
    let w = leaders(&m.event.leaderboard);
    assert_eq!(pay(&mut m.event, &mut m.global, &w, &key(9), 1_000_000).err(), Some(PotreroError::AuthorizationMismatch));
    let mut swapped = w.clone();
    swapped.swap(0, 1);
    assert_eq!(pay(&mut m.event, &mut m.global, &swapped, &key(RECEIVER), 1_000_000).err(), Some(PotreroError::AuthorizationMismatch));
    let short: Vec<IdentityKey> = w.iter().take(9).cloned().collect();
    assert_eq!(pay(&mut m.event, &mut m.global, &short, &key(RECEIVER), 1_000_000).err(), Some(PotreroError::AuthorizationMismatch));
    assert!(!m.event.paid);
    let payout = pay(&mut m.event, &mut m.global, &w, &key(RECEIVER), 1_000_000).unwrap();
    assert_eq!(payout.fee_amount, 10_000);
    assert_eq!(payout.global_amount, 10_000);
    assert_eq!(payout.remainder, 980_000);
    assert_eq!(payout.prizes[0], 343_000);
    assert!(m.event.paid);
    assert_eq!(m.global.settled, 1);
    let again = pay(&mut m.event, &mut m.global, &w, &key(RECEIVER), 1_000_000);
    assert_eq!(again.err(), Some(PotreroError::AlreadyPaid));
    assert_eq!(m.global.settled, 1);
}

#[test]
fn pay_needs_ten_leaders() {
    let mut global = Leaderboard::new();
    let mut event = new_event(&mut global);
    let w: Vec<IdentityKey> = (0..10u8).map(key).collect();
    let r = pay(&mut event, &mut global, &w, &key(RECEIVER), 1_000);
    assert_eq!(r.err(), Some(PotreroError::LeaderboardIncomplete));
    assert!(!event.paid);
}

#[test]
fn pay_refuses_a_fee_above_the_balance() {
    let mut m = market_with_entries();
    m.event.fee = 20_000;
    resolve(&mut m.event, &key(RESOLVER), 1, 2, 3, 600).unwrap();
    settle_all(&mut m);
    let w = leaders(&m.event.leaderboard);
    assert_eq!(pay(&mut m.event, &mut m.global, &w, &key(RECEIVER), 1_000_000).err(), Some(PotreroError::Overflow));
    assert!(!m.event.paid);
}

#[test]
fn global_pool_pays_after_every_event() {
    let mut m = market_with_entries();
    resolve(&mut m.event, &key(RESOLVER), 1, 2, 3, 600).unwrap();
    settle_all(&mut m);
    let gw = leaders(&m.global.leaderboard);
    let r = pay_global(&m.global, &gw, &key(TREASURY), &key(TREASURY), 10_000);
    assert_eq!(r.err(), Some(PotreroError::CompletenessViolation));
    assert_eq!(close_leaderboard_pdas(&m.global, &key(TREASURY), &key(TREASURY)), Err(PotreroError::CompletenessViolation));
    let w = leaders(&m.event.leaderboard);
    pay(&mut m.event, &mut m.global, &w, &key(RECEIVER), 1_000_000).unwrap();
    assert_eq!(pay_global(&m.global, &gw, &key(1), &key(TREASURY), 10_000).err(), Some(PotreroError::AuthorizationMismatch));
    let prizes = pay_global(&m.global, &gw, &key(TREASURY), &key(TREASURY), 10_000).unwrap();
    assert_eq!(prizes, vec![3_500, 2_500, 1_500, 800, 500, 400, 300, 200, 200, 100]);
    assert_eq!(close_leaderboard_pdas(&m.global, &key(1), &key(TREASURY)), Err(PotreroError::AuthorizationMismatch));
    assert_eq!(close_leaderboard_pdas(&m.global, &key(TREASURY), &key(TREASURY)), Ok(()));
}

#[test]
fn global_pool_needs_ten_leaders() {
    let global = Leaderboard::new();
    let w: Vec<IdentityKey> = (0..10u8).map(key).collect();
    let r = pay_global(&global, &w, &key(TREASURY), &key(TREASURY), 100);
    assert_eq!(r.err(), Some(PotreroError::LeaderboardIncomplete));
}

#[test]
fn closing_waits_for_payment() {
    let mut m = market_with_entries();
    resolve(&mut m.event, &key(RESOLVER), 1, 2, 3, 600).unwrap();
    settle_all(&mut m);
    let p = m.predictions[0];
    assert_eq!(close_prediction_pda(&m.event, &key(EVENT), &p, &key(TREASURY), &key(TREASURY)), Err(PotreroError::EventNotPaid));
    assert_eq!(close_event_pdas(&m.event, &m.global, &key(TREASURY), &key(TREASURY)), Err(PotreroError::CompletenessViolation));
    let w = leaders(&m.event.leaderboard);
    pay(&mut m.event, &mut m.global, &w, &key(RECEIVER), 1_000_000).unwrap();
    assert_eq!(close_prediction_pda(&m.event, &key(EVENT), &p, &key(1), &key(TREASURY)), Err(PotreroError::AuthorizationMismatch));
    assert_eq!(close_prediction_pda(&m.event, &key(77), &p, &key(TREASURY), &key(TREASURY)), Err(PotreroError::AuthorizationMismatch));
    assert_eq!(close_prediction_pda(&m.event, &key(EVENT), &p, &key(TREASURY), &key(TREASURY)), Ok(()));
    assert_eq!(close_event_pdas(&m.event, &m.global, &key(1), &key(TREASURY)), Err(PotreroError::AuthorizationMismatch));
    assert_eq!(close_event_pdas(&m.event, &m.global, &key(TREASURY), &key(TREASURY)), Ok(()));
    // A second event, created but not paid, holds the global counters apart.
    let second = new_event(&mut m.global);
    assert_eq!(close_event_pdas(&m.event, &m.global, &key(TREASURY), &key(TREASURY)), Err(PotreroError::CompletenessViolation));
    m.global.settled = m.global.events;
    assert_eq!(close_event_pdas(&second, &m.global, &key(TREASURY), &key(TREASURY)), Err(PotreroError::EventNotPaid));
}

#[test]
fn settlement_overflow_is_refused() {
    let mut m = market_with_entries();
    resolve(&mut m.event, &key(RESOLVER), 1, 2, 3, 600).unwrap();
    m.points[1].score = u128::MAX - 5;
    let r = process_results(&mut m.event, &key(EVENT), &m.predictions[1], &mut m.points[1], &mut m.global, &mut m.locks, &key(TREASURY), &key(TREASURY));
    assert_eq!(r.unwrap_err(), PotreroError::Overflow);
    assert_eq!(m.event.settled, 0);
    assert!(m.locks.contains(&key(EVENT), &key(1)));
}

#[test]
fn settling_more_than_played_is_refused() {
    let mut m = market_with_entries();
    resolve(&mut m.event, &key(RESOLVER), 1, 2, 3, 600).unwrap();
    m.event.settled = m.event.plays;
    let r = process_results(&mut m.event, &key(EVENT), &m.predictions[0], &mut m.points[0], &mut m.global, &mut m.locks, &key(TREASURY), &key(TREASURY));
    assert_eq!(r.unwrap_err(), PotreroError::CompletenessViolation);
}

#[test]
fn resolution_at_time_zero_is_refused() {
    let mut global = Leaderboard::new();
    let mut event = initialize(&mut global, "early".to_string(), -100, -60, key(RESOLVER), 0, key(RECEIVER), 0).unwrap();
    assert_eq!(resolve(&mut event, &key(RESOLVER), 1, 2, 3, 0).unwrap_err(), PotreroError::EventStillOpen);
    assert_eq!(event.solved_at, 0);
    resolve(&mut event, &key(RESOLVER), 1, 2, 3, -40).unwrap();
    assert_eq!(event.solved_at, -40);
}

#[test]
fn settled_player_cannot_enter_again() {
    let mut global = Leaderboard::new();
    let mut event = initialize(&mut global, "early".to_string(), -100, -60, key(RESOLVER), 0, key(RECEIVER), 0).unwrap();
    let mut locks = EntryLocks::new();
    let mut points = PlayerPoints::new(key(1));
    let p = make_prediction(&mut event, &key(EVENT), &mut locks, &mut points, &key(1), &key(RECEIVER), 1, 2, 3, -70).unwrap();
    resolve(&mut event, &key(RESOLVER), 1, 2, 3, -40).unwrap();
    process_results(&mut event, &key(EVENT), &p, &mut points, &mut global, &mut locks, &key(TREASURY), &key(TREASURY)).unwrap();
    assert!(!locks.contains(&key(EVENT), &key(1)));
    assert_eq!(resolve(&mut event, &key(RESOLVER), 1, 2, 3, 0).unwrap_err(), PotreroError::EventStillOpen);
    let again = make_prediction(&mut event, &key(EVENT), &mut locks, &mut points, &key(1), &key(RECEIVER), 1, 2, 3, 0);
    assert_eq!(again.unwrap_err(), PotreroError::EventClosed);
    assert_eq!(event.plays, 1);
}

#[test]
fn owner_already_on_the_board_is_refused() {
    let mut m = market_with_entries();
    resolve(&mut m.event, &key(RESOLVER), 1, 2, 3, 600).unwrap();
    m.event.settled = 1;
    m.event.leaderboard = vec![Player { pubkey: key(0), score: 3, timestamp: 10 }];
    assert!(m.event.check_wf());
    let r = process_results(&mut m.event, &key(EVENT), &m.predictions[0], &mut m.points[0], &mut m.global, &mut m.locks, &key(TREASURY), &key(TREASURY));
    assert_eq!(r.unwrap_err(), PotreroError::UniquenessViolation);
    assert_eq!(m.event.leaderboard.len(), 1);
    assert_eq!(m.event.settled, 1);
}
