use vstd::prelude::*;

verus! {

/// Why an operation was refused. A refused operation changes nothing.
#[derive(Clone, Copy, Debug, PartialEq, Eq, Structural)]
pub enum PotreroError {
    /// An entry came after the entry window closed or after resolution.
    EventClosed,
    /// A resolution came before the resolution time.
    EventStillOpen,
    /// Results were processed before the outcome was published.
    EventNotResolved,
    /// Event records were reclaimed before the event paid out.
    EventNotPaid,
    /// The event has already paid out.
    AlreadyPaid,
    /// A presented identity differs from the one on record.
    AuthorizationMismatch,
    /// The player already holds an entry, or a leaderboard place, in this event.
    UniquenessViolation,
    /// Settlement counters do not allow the operation yet.
    CompletenessViolation,
    /// The leaderboard holds fewer entries than there are prizes.
    LeaderboardIncomplete,
    /// No open entry guard exists for the prediction: it was already settled.
    MissingEntry,
    /// A counter or an amount would leave its integer range.
    Overflow,
}

} // verus!
