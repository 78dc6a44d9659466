use vstd::prelude::*;

use crate::entry::EntryLocks;
use crate::error::PotreroError;
use crate::identity::IdentityKey;
use crate::leaderboard::{
    find_key, insert_ranked, key_index, ranked_insert, ranked_upsert, upsert_ranked, Player,
};
use crate::payout::{
    fee_share, is_event_split, pool_share, prize_share, prize_shares, split_event_balance,
    EventPayout, PRIZE_RANKS,
};
use crate::records::{Leaderboard, OracleEvent, PlayerPoints, PodiumPrediction};
use crate::scoring::{podium_points, score_podium};

verus! {

/// The supplied winners are the first ten entries of `board`, in rank
/// order, and no identity appears twice among them.
pub open spec fn winners_match(winners: Seq<IdentityKey>, board: Seq<Player>) -> bool {
    &&& winners.len() == PRIZE_RANKS
    &&& board.len() >= PRIZE_RANKS
    &&& forall|i: int| 0 <= i < PRIZE_RANKS ==> (#[trigger] winners[i])@ == board[i].pubkey@
    &&& forall|i: int, j: int|
        0 <= i < j < PRIZE_RANKS ==> (#[trigger] winners[i])@ != (#[trigger] winners[j])@
}

/// Checks the supplied winners against the first ten entries of a board.
pub fn check_winners(winners: &Vec<IdentityKey>, board: &Vec<Player>) -> (r: bool)
    requires
        board@.len() >= PRIZE_RANKS,
    ensures
        r == winners_match(winners@, board@),
{
    if winners.len() != PRIZE_RANKS {
        return false;
    }
    let mut i: usize = 0;
    while i < PRIZE_RANKS
        invariant
            i <= PRIZE_RANKS,
            winners@.len() == PRIZE_RANKS,
            board@.len() >= PRIZE_RANKS,
            forall|a: int| 0 <= a < i ==> (#[trigger] winners@[a])@ == board@[a].pubkey@,
            forall|a: int, b: int|
                0 <= a < b < i ==> (#[trigger] winners@[a])@ != (#[trigger] winners@[b])@,
        decreases PRIZE_RANKS - i,
    {
        if !winners[i].same_as(&board[i].pubkey) {
            return false;
        }
        let mut j: usize = 0;
        while j < i
            invariant
                j <= i < PRIZE_RANKS,
                winners@.len() == PRIZE_RANKS,
                forall|a: int| 0 <= a < j ==> (#[trigger] winners@[a])@ != winners@[i as int]@,
            decreases i - j,
        {
            if winners[j].same_as(&winners[i]) {
                return false;
            }
            j = j + 1;
        }
        i = i + 1;
    }
    true
}

/// Why an event may not pay out, in the order the conditions are checked.
/// The last one keeps the global record from counting more paid events
/// than it has created.
pub open spec fn pay_error(
    event: OracleEvent,
    global: Leaderboard,
    winners: Seq<IdentityKey>,
    fee_receiver: Seq<u8>,
    balance: u64,
) -> Option<PotreroError> {
    if event.paid {
        Some(PotreroError::AlreadyPaid)
    } else if event.settled != event.plays {
        Some(PotreroError::CompletenessViolation)
    } else if fee_receiver != event.fee_receiver@ {
        Some(PotreroError::AuthorizationMismatch)
    } else if event.leaderboard@.len() < PRIZE_RANKS {
        Some(PotreroError::LeaderboardIncomplete)
    } else if !winners_match(winners, event.leaderboard@) {
        Some(PotreroError::AuthorizationMismatch)
    } else if fee_share(balance as int, event.fee as int) + pool_share(balance as int) > balance {
        Some(PotreroError::Overflow)
    } else if global.settled >= global.events {
        Some(PotreroError::CompletenessViolation)
    } else {
        None
    }
}

/// Pays out a fully settled event holding `balance`: marks it paid, counts
/// it as paid on the global record, and returns the split to transfer (the
/// fee to `fee_receiver`, the pool part to the global record, prize `i` to
/// `winners[i]`).
pub fn pay(
    event: &mut OracleEvent,
    global: &mut Leaderboard,
    winners: &Vec<IdentityKey>,
    fee_receiver: &IdentityKey,
    balance: u64,
) -> (r: Result<EventPayout, PotreroError>)
    requires
        old(event).wf(),
        old(global).wf(),
    ensures
        final(event).wf(),
        final(global).wf(),
        r is Ok <==> pay_error(*old(event), *old(global), winners@, fee_receiver@, balance) is None,
        pay_error(*old(event), *old(global), winners@, fee_receiver@, balance) matches Some(e) ==> {
            &&& r == Err::<EventPayout, PotreroError>(e)
            &&& *final(event) == *old(event)
            &&& *final(global) == *old(global)
        },
        r matches Ok(p) ==> {
            &&& is_event_split(p, balance as int, old(event).fee as int)
            &&& *final(event) == (OracleEvent { paid: true, ..*old(event) })
            &&& *final(global) == (Leaderboard { settled: (old(global).settled + 1) as u128, ..*old(global) })
        },
{
    if event.paid {
        return Err(PotreroError::AlreadyPaid);
    }
    if event.settled != event.plays {
        return Err(PotreroError::CompletenessViolation);
    }
    if !fee_receiver.same_as(&event.fee_receiver) {
        return Err(PotreroError::AuthorizationMismatch);
    }
    if event.leaderboard.len() < PRIZE_RANKS {
        return Err(PotreroError::LeaderboardIncomplete);
    }
    if !check_winners(winners, &event.leaderboard) {
        return Err(PotreroError::AuthorizationMismatch);
    }
    let payout = match split_event_balance(balance, event.fee) {
        None => {
            return Err(PotreroError::Overflow);
        },
        Some(p) => p,
    };
    if global.settled >= global.events {
        return Err(PotreroError::CompletenessViolation);
    }
    event.paid = true;
    global.settled = global.settled + 1;
    Ok(payout)
}

/// Why the global pool may not pay out, in the order the conditions are checked.
pub open spec fn pay_global_error(
    global: Leaderboard,
    winners: Seq<IdentityKey>,
    caller: Seq<u8>,
    treasury: Seq<u8>,
) -> Option<PotreroError> {
    if global.settled != global.events {
        Some(PotreroError::CompletenessViolation)
    } else if caller != treasury {
        Some(PotreroError::AuthorizationMismatch)
    } else if global.leaderboard@.len() < PRIZE_RANKS {
        Some(PotreroError::LeaderboardIncomplete)
    } else if !winners_match(winners, global.leaderboard@) {
        Some(PotreroError::AuthorizationMismatch)
    } else {
        None
    }
}

/// Pays out the global pool holding `balance` once every event has paid:
/// returns prize `i` of `winners[i]`, the pool split by the percentage table.
pub fn pay_global(
    global: &Leaderboard,
    winners: &Vec<IdentityKey>,
    caller: &IdentityKey,
    treasury: &IdentityKey,
    balance: u64,
) -> (r: Result<Vec<u64>, PotreroError>)
    ensures
        r is Ok <==> pay_global_error(*global, winners@, caller@, treasury@) is None,
        pay_global_error(*global, winners@, caller@, treasury@) matches Some(e) ==> r
            == Err::<Vec<u64>, PotreroError>(e),
        r matches Ok(prizes) ==> {
            &&& prizes@.len() == PRIZE_RANKS
            &&& forall|i: int| 0 <= i < PRIZE_RANKS ==> prizes@[i] == prize_share(balance as int, i)
        },
{
    if global.settled != global.events {
        return Err(PotreroError::CompletenessViolation);
    }
    if !caller.same_as(treasury) {
        return Err(PotreroError::AuthorizationMismatch);
    }
    if global.leaderboard.len() < PRIZE_RANKS {
        return Err(PotreroError::LeaderboardIncomplete);
    }
    if !check_winners(winners, &global.leaderboard) {
        return Err(PotreroError::AuthorizationMismatch);
    }
    Ok(prize_shares(balance))
}

/// Why a prediction may not be settled, in the order the conditions are checked.
pub open spec fn settle_error(
    event: OracleEvent,
    event_key: Seq<u8>,
    prediction: PodiumPrediction,
    points: PlayerPoints,
    locks: Set<(Seq<u8>, Seq<u8>)>,
    caller: Seq<u8>,
    treasury: Seq<u8>,
) -> Option<PotreroError> {
    if caller != treasury {
        Some(PotreroError::AuthorizationMismatch)
    } else if prediction.event@ != event_key || points.pubkey@ != prediction.owner@ {
        Some(PotreroError::AuthorizationMismatch)
    } else if event.solved_at == 0 {
        Some(PotreroError::EventNotResolved)
    } else if !locks.contains((event_key, prediction.owner@)) {
        Some(PotreroError::MissingEntry)
    } else if key_index(event.leaderboard@, prediction.owner@) < event.leaderboard@.len() {
        Some(PotreroError::UniquenessViolation)
    } else if event.settled >= event.plays {
        Some(PotreroError::CompletenessViolation)
    } else if points.score + podium_points(prediction.guess(), event.outcome()) > u128::MAX
        || points.settled == u16::MAX {
        Some(PotreroError::Overflow)
    } else {
        None
    }
}

/// Settles one prediction of the event at `event_key` against its published
/// outcome: adds its points to the player's ledger, counts it settled,
/// offers it to the event's leaderboard, records the player's new total on
/// the global leaderboard, and reclaims its entry guard. Returns the points.
pub fn process_results(
    event: &mut OracleEvent,
    event_key: &IdentityKey,
    prediction: &PodiumPrediction,
    points: &mut PlayerPoints,
    global: &mut Leaderboard,
    locks: &mut EntryLocks,
    caller: &IdentityKey,
    treasury: &IdentityKey,
) -> (r: Result<u8, PotreroError>)
    requires
        old(event).wf(),
        old(global).wf(),
        old(locks).wf(),
    ensures
        final(event).wf(),
        final(global).wf(),
        final(locks).wf(),
        r is Ok <==> settle_error(
            *old(event),
            event_key@,
            *prediction,
            *old(points),
            old(locks)@,
            caller@,
            treasury@,
        ) is None,
        settle_error(*old(event), event_key@, *prediction, *old(points), old(locks)@, caller@, treasury@)
            matches Some(e) ==> {
            &&& r == Err::<u8, PotreroError>(e)
            &&& *final(event) == *old(event)
            &&& *final(points) == *old(points)
            &&& *final(global) == *old(global)
            &&& final(locks)@ == old(locks)@
        },
        r matches Ok(earned) ==> {
            &&& earned == podium_points(prediction.guess(), old(event).outcome())
            &&& *final(points) == (PlayerPoints {
                score: (old(points).score + earned) as u128,
                settled: (old(points).settled + 1) as u16,
                ..*old(points)
            })
            &&& *final(event) == (OracleEvent {
                settled: (old(event).settled + 1) as u128,
                leaderboard: final(event).leaderboard,
                ..*old(event)
            })
            &&& final(event).leaderboard@ == ranked_insert(
                old(event).leaderboard@,
                Player { pubkey: prediction.owner, score: earned as u128, timestamp: prediction.timestamp },
            )
            &&& *final(global) == (Leaderboard { leaderboard: final(global).leaderboard, ..*old(global) })
            &&& final(global).leaderboard@ == ranked_upsert(
                old(global).leaderboard@,
                prediction.owner,
                final(points).score,
                old(points).timestamp,
            )
            &&& final(locks)@ == old(locks)@.remove((event_key@, prediction.owner@))
        },
{
    if !caller.same_as(treasury) {
        return Err(PotreroError::AuthorizationMismatch);
    }
    if !prediction.event.same_as(event_key) || !points.pubkey.same_as(&prediction.owner) {
        return Err(PotreroError::AuthorizationMismatch);
    }
    if event.solved_at == 0 {
        return Err(PotreroError::EventNotResolved);
    }
    if !locks.contains(event_key, &prediction.owner) {
        return Err(PotreroError::MissingEntry);
    }
    if find_key(&event.leaderboard, &prediction.owner).is_some() {
        return Err(PotreroError::UniquenessViolation);
    }
    if event.settled >= event.plays {
        return Err(PotreroError::CompletenessViolation);
    }
    let earned = score_podium(
        (prediction.gold, prediction.silver, prediction.bronze),
        (event.gold, event.silver, event.bronze),
    );
    let score = match points.score.checked_add(earned as u128) {
        None => {
            return Err(PotreroError::Overflow);
        },
        Some(s) => s,
    };
    if points.settled == u16::MAX {
        return Err(PotreroError::Overflow);
    }
    let _ = locks.release(event_key, &prediction.owner);
    points.score = score;
    points.settled = points.settled + 1;
    event.settled = event.settled + 1;
    insert_ranked(
        &mut event.leaderboard,
        Player { pubkey: prediction.owner, score: earned as u128, timestamp: prediction.timestamp },
    );
    upsert_ranked(&mut global.leaderboard, prediction.owner, score, points.timestamp);
    Ok(earned)
}

/// Why a player may not enter an event, in the order the conditions are checked.
pub open spec fn entry_error(
    event: OracleEvent,
    event_key: Seq<u8>,
    locks: Set<(Seq<u8>, Seq<u8>)>,
    points: PlayerPoints,
    player: Seq<u8>,
    fee_receiver: Seq<u8>,
    now: i64,
) -> Option<PotreroError> {
    if locks.contains((event_key, player)) {
        Some(PotreroError::UniquenessViolation)
    } else if fee_receiver != event.fee_receiver@ || points.pubkey@ != player {
        Some(PotreroError::AuthorizationMismatch)
    } else if now > event.open_until_time || event.solved_at != 0 {
        Some(PotreroError::EventClosed)
    } else if event.plays == u128::MAX || points.events == u16::MAX {
        Some(PotreroError::Overflow)
    } else {
        None
    }
}

/// Enters `player`'s guessed podium in the event at `event_key` at time
/// `now`: guards the (event, player) pair, counts the play and the
/// player's participation. The caller then moves the event's entry fee
/// from the player to the event.
pub fn make_prediction(
    event: &mut OracleEvent,
    event_key: &IdentityKey,
    locks: &mut EntryLocks,
    points: &mut PlayerPoints,
    player: &IdentityKey,
    fee_receiver: &IdentityKey,
    gold: u8,
    silver: u8,
    bronze: u8,
    now: i64,
) -> (r: Result<PodiumPrediction, PotreroError>)
    requires
        old(event).wf(),
        old(locks).wf(),
    ensures
        final(event).wf(),
        final(locks).wf(),
        r is Ok <==> entry_error(
            *old(event),
            event_key@,
            old(locks)@,
            *old(points),
            player@,
            fee_receiver@,
            now,
        ) is None,
        entry_error(*old(event), event_key@, old(locks)@, *old(points), player@, fee_receiver@, now)
            matches Some(e) ==> {
            &&& r == Err::<PodiumPrediction, PotreroError>(e)
            &&& *final(event) == *old(event)
            &&& *final(points) == *old(points)
            &&& final(locks)@ == old(locks)@
        },
        r matches Ok(prediction) ==> {
            &&& prediction == (PodiumPrediction {
                gold,
                silver,
                bronze,
                event: *event_key,
                timestamp: now,
                owner: *player,
            })
            &&& *final(event) == (OracleEvent { plays: (old(event).plays + 1) as u128, ..*old(event) })
            &&& *final(points) == (PlayerPoints {
                timestamp: now,
                events: (old(points).events + 1) as u16,
                ..*old(points)
            })
            &&& final(locks)@ == old(locks)@.insert((event_key@, player@))
        },
{
    if locks.contains(event_key, player) {
        return Err(PotreroError::UniquenessViolation);
    }
    if !fee_receiver.same_as(&event.fee_receiver) || !points.pubkey.same_as(player) {
        return Err(PotreroError::AuthorizationMismatch);
    }
    if now > event.open_until_time || event.solved_at != 0 {
        return Err(PotreroError::EventClosed);
    }
    if event.plays == u128::MAX || points.events == u16::MAX {
        return Err(PotreroError::Overflow);
    }
    let _ = locks.acquire(*event_key, *player);
    event.plays = event.plays + 1;
    points.timestamp = now;
    points.events = points.events + 1;
    Ok(PodiumPrediction { gold, silver, bronze, event: *event_key, timestamp: now, owner: *player })
}

/// Creates an event named `name`, open to entries until `open_until_time`
/// and resolvable by `resolver` from `resolution_time`, and counts it on
/// the global record.
pub fn initialize(
    global: &mut Leaderboard,
    name: String,
    resolution_time: i64,
    open_until_time: i64,
    resolver: IdentityKey,
    fee: u64,
    fee_receiver: IdentityKey,
    creator_basis_points: u16,
) -> (r: Result<OracleEvent, PotreroError>)
    requires
        old(global).wf(),
    ensures
        final(global).wf(),
        r is Err <==> old(global).events == u128::MAX,
        r is Err ==> r == Err::<OracleEvent, PotreroError>(PotreroError::Overflow) && *final(global)
            == *old(global),
        r matches Ok(e) ==> {
            &&& e.wf()
            &&& e.name@ == name@
            &&& e.open_until_time == open_until_time
            &&& e.resolution_time == resolution_time
            &&& e.solved_at == 0
            &&& e.resolver == resolver
            &&& e.fee == fee
            &&& e.creator_basis_points == creator_basis_points
            &&& e.fee_receiver == fee_receiver
            &&& e.plays == 0
            &&& e.settled == 0
            &&& !e.paid
            &&& e.outcome() == (0u8, 0u8, 0u8)
            &&& e.leaderboard@.len() == 0
            &&& *final(global) == (Leaderboard { events: (old(global).events + 1) as u128, ..*old(global) })
        },
{
    if global.events == u128::MAX {
        return Err(PotreroError::Overflow);
    }
    global.events = global.events + 1;
    Ok(
        OracleEvent {
            name,
            open_until_time,
            resolution_time,
            solved_at: 0,
            resolver,
            fee,
            creator_basis_points,
            fee_receiver,
            plays: 0,
            settled: 0,
            paid: false,
            gold: 0,
            silver: 0,
            bronze: 0,
            leaderboard: Vec::new(),
        },
    )
}

/// Why an outcome may not be published, in the order the conditions are checked.
pub open spec fn resolve_error(event: OracleEvent, caller: Seq<u8>, now: i64) -> Option<PotreroError> {
    if now < event.resolution_time || now == 0 {
        Some(PotreroError::EventStillOpen)
    } else if caller != event.resolver@ {
        Some(PotreroError::AuthorizationMismatch)
    } else {
        None
    }
}

/// Publishes the outcome (gold, silver, bronze) of an event at `now`. A
/// later call by the resolver publishes again and overwrites the outcome.
/// Time 0 is refused: `solved_at` 0 marks an unresolved event.
pub fn resolve(event: &mut OracleEvent, caller: &IdentityKey, gold: u8, silver: u8, bronze: u8, now: i64) -> (r:
    Result<(), PotreroError>)
    requires
        old(event).wf(),
    ensures
        final(event).wf(),
        r is Ok <==> resolve_error(*old(event), caller@, now) is None,
        resolve_error(*old(event), caller@, now) matches Some(e) ==> r == Err::<(), PotreroError>(e)
            && *final(event) == *old(event),
        r is Ok ==> *final(event) == old(event).with_outcome(gold, silver, bronze, now),
        r is Ok ==> final(event).solved_at != 0,
{
    if now < event.resolution_time || now == 0 {
        return Err(PotreroError::EventStillOpen);
    }
    if !caller.same_as(&event.resolver) {
        return Err(PotreroError::AuthorizationMismatch);
    }
    event.gold = gold;
    event.silver = silver;
    event.bronze = bronze;
    event.solved_at = now;
    Ok(())
}

/// Allows reclaiming a settled prediction of the event at `event_key`: the
/// treasury asks, and the event has paid out.
pub fn close_prediction_pda(
    event: &OracleEvent,
    event_key: &IdentityKey,
    prediction: &PodiumPrediction,
    caller: &IdentityKey,
    treasury: &IdentityKey,
) -> (r: Result<(), PotreroError>)
    ensures
        r == if caller@ != treasury@ {
            Err::<(), PotreroError>(PotreroError::AuthorizationMismatch)
        } else if !event.paid {
            Err(PotreroError::EventNotPaid)
        } else if prediction.event@ != event_key@ {
            Err(PotreroError::AuthorizationMismatch)
        } else {
            Ok(())
        },
{
    if !caller.same_as(treasury) {
        return Err(PotreroError::AuthorizationMismatch);
    }
    if !event.paid {
        return Err(PotreroError::EventNotPaid);
    }
    if !prediction.event.same_as(event_key) {
        return Err(PotreroError::AuthorizationMismatch);
    }
    Ok(())
}

/// Allows reclaiming an event record: the treasury asks, every event
/// created has paid out on the global record, and this event has paid out.
pub fn close_event_pdas(
    event: &OracleEvent,
    global: &Leaderboard,
    caller: &IdentityKey,
    treasury: &IdentityKey,
) -> (r: Result<(), PotreroError>)
    ensures
        r == if caller@ != treasury@ {
            Err::<(), PotreroError>(PotreroError::AuthorizationMismatch)
        } else if global.events != global.settled {
            Err(PotreroError::CompletenessViolation)
        } else if !event.paid {
            Err(PotreroError::EventNotPaid)
        } else {
            Ok(())
        },
{
    if !caller.same_as(treasury) {
        return Err(PotreroError::AuthorizationMismatch);
    }
    if global.events != global.settled {
        return Err(PotreroError::CompletenessViolation);
    }
    if !event.paid {
        return Err(PotreroError::EventNotPaid);
    }
    Ok(())
}

/// Allows reclaiming the global record: the treasury asks, and every event
/// created has paid out.
pub fn close_leaderboard_pdas(global: &Leaderboard, caller: &IdentityKey, treasury: &IdentityKey) -> (r:
    Result<(), PotreroError>)
    ensures
        r == if caller@ != treasury@ {
            Err::<(), PotreroError>(PotreroError::AuthorizationMismatch)
        } else if global.events != global.settled {
            Err(PotreroError::CompletenessViolation)
        } else {
            Ok(())
        },
{
    if !caller.same_as(treasury) {
        return Err(PotreroError::AuthorizationMismatch);
    }
    if global.events != global.settled {
        return Err(PotreroError::CompletenessViolation);
    }
    Ok(())
}

} // verus!
