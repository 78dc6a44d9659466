//! Settlement core of a podium prediction market: events, entries,
//! scoring, bounded leaderboards and payout arithmetic.
pub mod entry;
pub mod error;
pub mod identity;
pub mod laws;
pub mod leaderboard;
pub mod market;
pub mod payout;
pub mod records;
pub mod scoring;
