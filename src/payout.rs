use vstd::prelude::*;

verus! {

/// Number of ranked winners paid by an event or by the global pool.
pub const PRIZE_RANKS: usize = 10;

/// Percentage of the prize pool paid to each rank; the ten values sum to 100.
pub open spec fn prize_percent(rank: int) -> int {
    if rank == 0 {
        35
    } else if rank == 1 {
        25
    } else if rank == 2 {
        15
    } else if rank == 3 {
        8
    } else if rank == 4 {
        5
    } else if rank == 5 {
        4
    } else if rank == 6 {
        3
    } else if rank == 7 || rank == 8 {
        2
    } else if rank == 9 {
        1
    } else {
        0
    }
}

/// Prize of one rank: the pool is floored to whole percents first.
pub open spec fn prize_share(amount: int, rank: int) -> int {
    (amount / 100) * prize_percent(rank)
}

/// Sum of the prizes of ranks `0 .. n`.
pub open spec fn prizes_total(amount: int, n: int) -> int
    decreases n,
{
    if n <= 0 {
        0
    } else {
        prizes_total(amount, n - 1) + prize_share(amount, n - 1)
    }
}

/// Sum of a sequence of amounts.
pub open spec fn sum_amounts(s: Seq<u64>) -> int
    decreases s.len(),
{
    if s.len() == 0 {
        0
    } else {
        sum_amounts(s.drop_last()) + s.last()
    }
}

/// Fee taken from an event balance: `fee` basis points of the balance,
/// floored to whole basis points first.
pub open spec fn fee_share(balance: int, fee: int) -> int {
    (balance / 10000) * fee
}

/// Part of an event balance sent to the global pool: one percent, floored.
pub open spec fn pool_share(balance: int) -> int {
    balance / 100
}

/// How an event balance is split when the event pays out.
pub struct EventPayout {
    pub fee_amount: u64,
    pub global_amount: u64,
    pub remainder: u64,
    /// Prize of each rank, best rank first.
    pub prizes: Vec<u64>,
}

/// `p` is how `balance` splits under a fee of `fee` basis points.
pub open spec fn is_event_split(p: EventPayout, balance: int, fee: int) -> bool {
    &&& p.fee_amount == fee_share(balance, fee)
    &&& p.global_amount == pool_share(balance)
    &&& p.remainder == balance - p.fee_amount - p.global_amount
    &&& p.prizes@.len() == PRIZE_RANKS
    &&& forall|i: int| 0 <= i < PRIZE_RANKS ==> p.prizes@[i] == prize_share(p.remainder as int, i)
    &&& sum_amounts(p.prizes@) <= p.remainder
}

/// The percentage of rank `rank`.
pub fn prize_percent_of(rank: usize) -> (r: u64)
    requires
        rank < PRIZE_RANKS,
    ensures
        r == prize_percent(rank as int),
{
    if rank == 0 {
        35
    } else if rank == 1 {
        25
    } else if rank == 2 {
        15
    } else if rank == 3 {
        8
    } else if rank == 4 {
        5
    } else if rank == 5 {
        4
    } else if rank == 6 {
        3
    } else if rank == 7 || rank == 8 {
        2
    } else {
        1
    }
}

/// Splits `amount` over the ten ranks by the fixed percentage table.
pub fn prize_shares(amount: u64) -> (r: Vec<u64>)
    ensures
        r@.len() == PRIZE_RANKS,
        forall|i: int| 0 <= i < PRIZE_RANKS ==> r@[i] == prize_share(amount as int, i),
        sum_amounts(r@) == prizes_total(amount as int, PRIZE_RANKS as int),
{
    let unit: u64 = amount / 100;
    let mut shares: Vec<u64> = Vec::new();
    let mut rank: usize = 0;
    while rank < PRIZE_RANKS
        invariant
            rank <= PRIZE_RANKS,
            unit == amount / 100,
            shares@.len() == rank,
            forall|i: int| 0 <= i < rank ==> shares@[i] == prize_share(amount as int, i),
            sum_amounts(shares@) == prizes_total(amount as int, rank as int),
        decreases PRIZE_RANKS - rank,
    {
        let pct = prize_percent_of(rank);
        assert(unit * pct <= unit * 100) by (nonlinear_arith)
            requires
                pct <= 35,
        ;
        assert(unit * 100 <= amount) by (nonlinear_arith)
            requires
                unit == amount / 100,
        ;
        let share: u64 = unit * pct;
        let ghost before = shares@;
        shares.push(share);
        assert(shares@.drop_last() =~= before);
        rank = rank + 1;
    }
    shares
}

/// Splits an event balance into the fee, the global pool's part, the
/// remainder and the ten prizes of the remainder. `None` exactly when the
/// fee and the pool part together exceed the balance.
pub fn split_event_balance(balance: u64, fee: u64) -> (r: Option<EventPayout>)
    ensures
        r is Some <==> fee_share(balance as int, fee as int) + pool_share(balance as int)
            <= balance,
        r matches Some(p) ==> is_event_split(p, balance as int, fee as int),
{
    let global_amount: u64 = balance / 100;
    match (balance / 10000).checked_mul(fee) {
        None => {
            assert(fee_share(balance as int, fee as int) > u64::MAX);
            None
        },
        Some(fee_amount) => {
            match (balance - global_amount).checked_sub(fee_amount) {
                None => None,
                Some(remainder) => {
                    let prizes = prize_shares(remainder);
                    proof {
                        lemma_prizes_within_amount(remainder as int);
                    }
                    Some(EventPayout { fee_amount, global_amount, remainder, prizes })
                },
            }
        },
    }
}

/// The ten prizes never pay out more than the pool: the total is the pool
/// floored to a multiple of 100, so what stays unspent is below 100 units.
pub proof fn lemma_prizes_within_amount(amount: int)
    requires
        0 <= amount,
    ensures
        prizes_total(amount, PRIZE_RANKS as int) == (amount / 100) * 100,
        prizes_total(amount, PRIZE_RANKS as int) <= amount,
        amount - prizes_total(amount, PRIZE_RANKS as int) < 100,
{
    reveal_with_fuel(prizes_total, 11);
    assert((amount / 100) * 100 <= amount) by (nonlinear_arith)
        requires
            0 <= amount,
    ;
    assert(amount - (amount / 100) * 100 < 100) by (nonlinear_arith)
        requires
            0 <= amount,
    ;
}

} // verus!
