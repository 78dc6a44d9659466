use vstd::prelude::*;

use crate::identity::IdentityKey;
use crate::leaderboard::{board_is_valid, board_wf, keys_are_distinct, keys_distinct, Player};

verus! {

/// One prediction market: its configuration, published outcome, counters
/// and local leaderboard.
pub struct OracleEvent {
    pub name: String,
    pub open_until_time: i64,
    pub resolution_time: i64,
    /// Time of resolution; 0 while unresolved.
    pub solved_at: i64,
    pub resolver: IdentityKey,
    /// Entry fee, and the fee share in basis points at payout.
    pub fee: u64,
    /// Kept on record; no payout step reads it.
    pub creator_basis_points: u16,
    pub fee_receiver: IdentityKey,
    pub plays: u128,
    pub settled: u128,
    pub paid: bool,
    pub gold: u8,
    pub silver: u8,
    pub bronze: u8,
    pub leaderboard: Vec<Player>,
}

impl OracleEvent {
    /// No more predictions settled than made; each leaderboard entry comes
    /// from a settlement, and settling or paying needs a published outcome;
    /// a paid event is fully settled; the leaderboard is bounded, in rank
    /// order, and holds each player at most once.
    pub open spec fn wf(&self) -> bool {
        &&& self.settled <= self.plays
        &&& self.leaderboard@.len() <= self.settled
        &&& self.settled > 0 ==> self.solved_at != 0
        &&& self.paid ==> self.solved_at != 0 && self.settled == self.plays
        &&& board_wf(self.leaderboard@)
        &&& keys_distinct(self.leaderboard@)
    }

    /// Whether the event, such as one read back from storage, is well formed.
    pub fn check_wf(&self) -> (r: bool)
        ensures
            r == self.wf(),
    {
        self.settled <= self.plays && self.leaderboard.len() as u128 <= self.settled && (
        self.settled == 0 || self.solved_at != 0) && (!self.paid || (self.solved_at != 0
            && self.settled == self.plays)) && board_is_valid(&self.leaderboard)
            && keys_are_distinct(&self.leaderboard)
    }

    pub open spec fn outcome(&self) -> (u8, u8, u8) {
        (self.gold, self.silver, self.bronze)
    }

    /// The event with outcome (gold, silver, bronze) published at `now`.
    pub open spec fn with_outcome(self, gold: u8, silver: u8, bronze: u8, now: i64) -> OracleEvent {
        OracleEvent { gold, silver, bronze, solved_at: now, ..self }
    }
}

/// One player's guessed podium for one event.
#[derive(Clone, Copy, Debug)]
pub struct PodiumPrediction {
    pub gold: u8,
    pub silver: u8,
    pub bronze: u8,
    /// Address of the event record.
    pub event: IdentityKey,
    pub timestamp: i64,
    pub owner: IdentityKey,
}

impl PodiumPrediction {
    pub open spec fn guess(&self) -> (u8, u8, u8) {
        (self.gold, self.silver, self.bronze)
    }
}

/// A player's score and participation across all events.
#[derive(Clone, Copy, Debug)]
pub struct PlayerPoints {
    pub pubkey: IdentityKey,
    pub score: u128,
    /// Time of the player's latest prediction.
    pub timestamp: i64,
    pub events: u16,
    pub settled: u16,
}

impl PlayerPoints {
    /// The ledger of a player who has not predicted yet.
    pub fn new(pubkey: IdentityKey) -> (r: PlayerPoints)
        ensures
            r == (PlayerPoints { pubkey, score: 0, timestamp: 0, events: 0, settled: 0 }),
    {
        PlayerPoints { pubkey, score: 0, timestamp: 0, events: 0, settled: 0 }
    }
}

/// The ranking across all events, with counters of events created and
/// events paid.
pub struct Leaderboard {
    pub leaderboard: Vec<Player>,
    pub settled: u128,
    pub events: u128,
}

impl Leaderboard {
    /// No more events paid than created; the ranking is bounded, in rank
    /// order, and holds each player at most once.
    pub open spec fn wf(&self) -> bool {
        &&& self.settled <= self.events
        &&& board_wf(self.leaderboard@)
        &&& keys_distinct(self.leaderboard@)
    }

    /// Whether the record, such as one read back from storage, is well formed.
    pub fn check_wf(&self) -> (r: bool)
        ensures
            r == self.wf(),
    {
        self.settled <= self.events && board_is_valid(&self.leaderboard) && keys_are_distinct(
            &self.leaderboard,
        )
    }

    /// The ranking before any event exists.
    pub fn new() -> (r: Leaderboard)
        ensures
            r.wf(),
            r.leaderboard@.len() == 0,
            r.settled == 0,
            r.events == 0,
    {
        Leaderboard { leaderboard: Vec::new(), settled: 0, events: 0 }
    }
}

} // verus!
