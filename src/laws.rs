use vstd::prelude::*;

use crate::error::PotreroError;
use crate::identity::IdentityKey;
use crate::leaderboard::key_index;
use crate::market::{entry_error, pay_error, resolve_error, settle_error, winners_match};
use crate::payout::{fee_share, pool_share};
use crate::scoring::podium_points;
use crate::records::{Leaderboard, OracleEvent, PlayerPoints, PodiumPrediction};

verus! {

/// A prediction can only be settled while some play of the event is still
/// unsettled, so settling never takes `settled` past `plays`.
pub proof fn lemma_settle_only_open_plays(
    event: OracleEvent,
    event_key: Seq<u8>,
    prediction: PodiumPrediction,
    points: PlayerPoints,
    locks: Set<(Seq<u8>, Seq<u8>)>,
    caller: Seq<u8>,
    treasury: Seq<u8>,
)
    requires
        event.wf(),
        settle_error(event, event_key, prediction, points, locks, caller, treasury) is None,
    ensures
        event.settled + 1 <= event.plays,
{
}

/// Right after a player entered an event, any further entry of that player
/// in that event is refused as a duplicate, whatever the event's state, the
/// time, the ledger or the fee receiver presented.
pub proof fn lemma_second_entry_refused(
    event: OracleEvent,
    event_key: Seq<u8>,
    locks: Set<(Seq<u8>, Seq<u8>)>,
    points: PlayerPoints,
    player: Seq<u8>,
    fee_receiver: Seq<u8>,
    now: i64,
    later_event: OracleEvent,
    later_points: PlayerPoints,
    later_fee_receiver: Seq<u8>,
    later: i64,
)
    requires
        entry_error(event, event_key, locks, points, player, fee_receiver, now) is None,
    ensures
        entry_error(
            later_event,
            event_key,
            locks.insert((event_key, player)),
            later_points,
            player,
            later_fee_receiver,
            later,
        ) == Some(PotreroError::UniquenessViolation),
{
}

/// Once any prediction of a well-formed event is settled, its outcome is
/// published, so no entry is accepted any more: a player whose guard was
/// reclaimed by settlement cannot enter the event again.
pub proof fn lemma_no_entry_after_settlement(
    event: OracleEvent,
    event_key: Seq<u8>,
    locks: Set<(Seq<u8>, Seq<u8>)>,
    points: PlayerPoints,
    player: Seq<u8>,
    fee_receiver: Seq<u8>,
    now: i64,
)
    requires
        event.wf(),
        event.settled > 0,
    ensures
        entry_error(event, event_key, locks, points, player, fee_receiver, now) is Some,
{
}

/// An event past its entry window, or already resolved, accepts no entry;
/// a first entry with the right identities is refused as closed.
pub proof fn lemma_closed_event_refuses_entries(
    event: OracleEvent,
    event_key: Seq<u8>,
    locks: Set<(Seq<u8>, Seq<u8>)>,
    points: PlayerPoints,
    player: Seq<u8>,
    fee_receiver: Seq<u8>,
    now: i64,
)
    requires
        now > event.open_until_time || event.solved_at != 0,
    ensures
        entry_error(event, event_key, locks, points, player, fee_receiver, now) is Some,
        !locks.contains((event_key, player)) && fee_receiver == event.fee_receiver@ && points.pubkey@
            == player ==> entry_error(event, event_key, locks, points, player, fee_receiver, now)
            == Some(PotreroError::EventClosed),
{
}

/// Before the resolution time every resolution is refused as premature;
/// from then on the resolver's resolution is accepted (at any time but 0,
/// which marks an unresolved event), and it leaves the event resolved.
pub proof fn lemma_resolution_window(event: OracleEvent, caller: Seq<u8>, now: i64)
    ensures
        now < event.resolution_time ==> resolve_error(event, caller, now) == Some(
            PotreroError::EventStillOpen,
        ),
        now >= event.resolution_time && now != 0 && caller == event.resolver@ ==> resolve_error(
            event,
            caller,
            now,
        ) is None,
        resolve_error(event, caller, now) is None ==> now != 0,
{
}

/// Publishing the same outcome again is accepted whenever the first
/// publication was, and leaves the same event as publishing it once at the
/// later time (time 0 is refused, as it is for any resolution).
pub proof fn lemma_repeated_resolution(
    event: OracleEvent,
    caller: Seq<u8>,
    gold: u8,
    silver: u8,
    bronze: u8,
    first: i64,
    second: i64,
)
    requires
        resolve_error(event, caller, first) is None,
        first <= second,
        second != 0,
    ensures
        resolve_error(event.with_outcome(gold, silver, bronze, first), caller, second) is None,
        event.with_outcome(gold, silver, bronze, first).with_outcome(gold, silver, bronze, second)
            == event.with_outcome(gold, silver, bronze, second),
        event.with_outcome(gold, silver, bronze, second).outcome() == (gold, silver, bronze),
{
}

/// An event pays out only unpaid, fully settled, and to exactly the ten
/// distinct leaders of its board in rank order; once paid, every further
/// payout is refused.
pub proof fn lemma_pay_once(
    event: OracleEvent,
    global: Leaderboard,
    winners: Seq<IdentityKey>,
    fee_receiver: Seq<u8>,
    balance: u64,
    later_global: Leaderboard,
    later_winners: Seq<IdentityKey>,
    later_fee_receiver: Seq<u8>,
    later_balance: u64,
)
    requires
        pay_error(event, global, winners, fee_receiver, balance) is None,
    ensures
        !event.paid,
        event.settled == event.plays,
        winners_match(winners, event.leaderboard@),
        pay_error(
            OracleEvent { paid: true, ..event },
            later_global,
            later_winners,
            later_fee_receiver,
            later_balance,
        ) == Some(PotreroError::AlreadyPaid),
{
}

/// A guarded, not yet settled prediction of a resolved event, presented by
/// the treasury with its owner's ledger, is settled whenever the counters
/// have room; it then earns exactly its podium points.
pub proof fn lemma_settlement_accepted(
    event: OracleEvent,
    event_key: Seq<u8>,
    prediction: PodiumPrediction,
    points: PlayerPoints,
    locks: Set<(Seq<u8>, Seq<u8>)>,
    caller: Seq<u8>,
    treasury: Seq<u8>,
)
    requires
        caller == treasury,
        prediction.event@ == event_key,
        points.pubkey@ == prediction.owner@,
        event.solved_at != 0,
        locks.contains((event_key, prediction.owner@)),
        key_index(event.leaderboard@, prediction.owner@) == event.leaderboard@.len(),
        event.settled < event.plays,
        points.score + podium_points(prediction.guess(), event.outcome()) <= u128::MAX,
        points.settled < u16::MAX,
    ensures
        settle_error(event, event_key, prediction, points, locks, caller, treasury) is None,
        0 <= podium_points(prediction.guess(), event.outcome()) <= 6,
{
}

/// An unpaid, fully settled event pays out to the ten distinct leaders of
/// its board presented in rank order, with the right fee receiver, when the
/// fee and pool parts fit in the balance and the global record has room;
/// an unpaid event that is not fully settled is refused as incomplete.
pub proof fn lemma_pay_accepted(
    event: OracleEvent,
    global: Leaderboard,
    winners: Seq<IdentityKey>,
    fee_receiver: Seq<u8>,
    balance: u64,
)
    ensures
        !event.paid && event.settled == event.plays && fee_receiver == event.fee_receiver@
            && winners_match(winners, event.leaderboard@) && fee_share(balance as int, event.fee as int)
            + pool_share(balance as int) <= balance && global.settled < global.events ==> pay_error(
            event,
            global,
            winners,
            fee_receiver,
            balance,
        ) is None,
        !event.paid && event.settled != event.plays ==> pay_error(
            event,
            global,
            winners,
            fee_receiver,
            balance,
        ) == Some(PotreroError::CompletenessViolation),
{
}

} // verus!
