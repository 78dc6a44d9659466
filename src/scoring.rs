use vstd::prelude::*;

verus! {

/// Points of a guessed podium against the published one: 3 for gold,
/// 2 for silver, 1 for bronze, each for an exact match of its place.
pub open spec fn podium_points(guess: (u8, u8, u8), outcome: (u8, u8, u8)) -> int {
    (if guess.0 == outcome.0 { 3int } else { 0int }) + (if guess.1 == outcome.1 { 2int } else { 0int })
        + (if guess.2 == outcome.2 { 1int } else { 0int })
}

/// Scores a guessed podium against the published one.
pub fn score_podium(guess: (u8, u8, u8), outcome: (u8, u8, u8)) -> (r: u8)
    ensures
        r == podium_points(guess, outcome),
        r <= 6,
{
    let mut points: u8 = 0;
    if guess.0 == outcome.0 {
        points = points + 3;
    }
    if guess.1 == outcome.1 {
        points = points + 2;
    }
    if guess.2 == outcome.2 {
        points = points + 1;
    }
    points
}

/// A prediction scores between 0 and 6, and 6 only for the exact podium.
pub proof fn lemma_points_range(guess: (u8, u8, u8), outcome: (u8, u8, u8))
    ensures
        0 <= podium_points(guess, outcome) <= 6,
        podium_points(guess, outcome) == 6 <==> guess == outcome,
{
}

} // verus!
