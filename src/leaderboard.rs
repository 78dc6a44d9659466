use vstd::prelude::*;

use crate::identity::IdentityKey;

verus! {

/// Most entries a leaderboard holds.
pub const LEADERBOARD_CAPACITY: usize = 10;

/// One ranked entry of a leaderboard.
#[derive(Clone, Copy, Debug)]
pub struct Player {
    pub pubkey: IdentityKey,
    pub score: u128,
    pub timestamp: i64,
}

/// The single comparator of both leaderboards: a higher score ranks first,
/// and of two equal scores the earlier timestamp ranks first.
pub open spec fn ranks_before(a: Player, b: Player) -> bool {
    a.score > b.score || (a.score == b.score && a.timestamp < b.timestamp)
}

/// No entry ranks before an entry that precedes it.
pub open spec fn is_ranked(s: Seq<Player>) -> bool {
    forall|i: int, j: int| 0 <= i < j < s.len() ==> !ranks_before(#[trigger] s[j], #[trigger] s[i])
}

/// No identity holds two entries.
pub open spec fn keys_distinct(s: Seq<Player>) -> bool {
    forall|i: int, j: int| 0 <= i < j < s.len() ==> (#[trigger] s[i]).pubkey@ != (#[trigger] s[j]).pubkey@
}

/// A bounded board that is in rank order.
pub open spec fn board_wf(s: Seq<Player>) -> bool {
    s.len() <= LEADERBOARD_CAPACITY && is_ranked(s)
}

/// First index at or after `i` whose entry `p` ranks before (or the length).
pub open spec fn slot_from(board: Seq<Player>, p: Player, i: int) -> int
    decreases board.len() - i,
{
    if i < 0 || i >= board.len() || ranks_before(p, board[i]) {
        i
    } else {
        slot_from(board, p, i + 1)
    }
}

/// Where `p` goes in a ranked board: after every entry it does not rank before.
pub open spec fn slot(board: Seq<Player>, p: Player) -> int {
    slot_from(board, p, 0)
}

/// Whether `p` gets a place: the board has room, or `p` ranks before its last entry.
pub open spec fn admits(board: Seq<Player>, p: Player) -> bool {
    board.len() < LEADERBOARD_CAPACITY || ranks_before(p, board.last())
}

/// The board after offering it `p`: if admitted, `p` is placed in rank order
/// and, when that overfills the board, the last entry is evicted.
pub open spec fn ranked_insert(board: Seq<Player>, p: Player) -> Seq<Player> {
    if admits(board, p) {
        let s = board.insert(slot(board, p), p);
        if s.len() > LEADERBOARD_CAPACITY {
            s.drop_last()
        } else {
            s
        }
    } else {
        board
    }
}

/// First index of an entry held by `key` (or the length).
pub open spec fn key_index_from(board: Seq<Player>, key: Seq<u8>, i: int) -> int
    decreases board.len() - i,
{
    if i < 0 || i >= board.len() || board[i].pubkey@ == key {
        i
    } else {
        key_index_from(board, key, i + 1)
    }
}

pub open spec fn key_index(board: Seq<Player>, key: Seq<u8>) -> int {
    key_index_from(board, key, 0)
}

/// The board after `key` reaches cumulative `score`: an entry it already
/// holds takes the new score (keeping its timestamp) and moves to its rank;
/// otherwise a new entry with `timestamp` is offered to the board.
pub open spec fn ranked_upsert(board: Seq<Player>, key: IdentityKey, score: u128, timestamp: i64) -> Seq<
    Player,
> {
    let k = key_index(board, key@);
    if k < board.len() {
        ranked_insert(board.remove(k), Player { score, ..board[k] })
    } else {
        ranked_insert(board, Player { pubkey: key, score, timestamp })
    }
}

proof fn lemma_slot_from(board: Seq<Player>, p: Player, i: int)
    requires
        0 <= i <= board.len(),
        forall|j: int| 0 <= j < i ==> !ranks_before(p, #[trigger] board[j]),
    ensures
        i <= slot_from(board, p, i) <= board.len(),
        forall|j: int| 0 <= j < slot_from(board, p, i) ==> !ranks_before(p, #[trigger] board[j]),
        slot_from(board, p, i) < board.len() ==> ranks_before(p, board[slot_from(board, p, i)]),
    decreases board.len() - i,
{
    if i < board.len() && !ranks_before(p, board[i]) {
        lemma_slot_from(board, p, i + 1);
    }
}

/// Where `p` goes in a board: every entry before the slot ranks no later
/// than `p`, and `p` ranks before the entry at the slot.
pub proof fn lemma_slot(board: Seq<Player>, p: Player)
    ensures
        0 <= slot(board, p) <= board.len(),
        forall|j: int| 0 <= j < slot(board, p) ==> !ranks_before(p, #[trigger] board[j]),
        slot(board, p) < board.len() ==> ranks_before(p, board[slot(board, p)]),
{
    lemma_slot_from(board, p, 0);
}

proof fn lemma_key_index_from(board: Seq<Player>, key: Seq<u8>, i: int)
    requires
        0 <= i <= board.len(),
        forall|j: int| 0 <= j < i ==> (#[trigger] board[j]).pubkey@ != key,
    ensures
        i <= key_index_from(board, key, i) <= board.len(),
        forall|j: int| 0 <= j < key_index_from(board, key, i) ==> (#[trigger] board[j]).pubkey@ != key,
        key_index_from(board, key, i) < board.len() ==> board[key_index_from(board, key, i)].pubkey@
            == key,
    decreases board.len() - i,
{
    if i < board.len() && board[i].pubkey@ != key {
        lemma_key_index_from(board, key, i + 1);
    }
}

/// The entry found for `key` is its first, and none precedes it.
pub proof fn lemma_key_index(board: Seq<Player>, key: Seq<u8>)
    ensures
        0 <= key_index(board, key) <= board.len(),
        forall|j: int| 0 <= j < key_index(board, key) ==> (#[trigger] board[j]).pubkey@ != key,
        key_index(board, key) < board.len() ==> board[key_index(board, key)].pubkey@ == key,
{
    lemma_key_index_from(board, key, 0);
}

/// In a ranked board, entries with equal scores stand in timestamp order.
pub proof fn lemma_ties_by_timestamp(board: Seq<Player>, i: int, j: int)
    requires
        is_ranked(board),
        0 <= i < j < board.len(),
        board[i].score == board[j].score,
    ensures
        board[i].timestamp <= board[j].timestamp,
{
}

/// Offering an entry keeps a board bounded and in rank order.
pub proof fn lemma_ranked_insert_wf(board: Seq<Player>, p: Player)
    requires
        board_wf(board),
    ensures
        board_wf(ranked_insert(board, p)),
        ranked_insert(board, p).len() == if admits(board, p) {
            if board.len() < LEADERBOARD_CAPACITY {
                board.len() + 1int
            } else {
                board.len() as int
            }
        } else {
            board.len() as int
        },
{
    if admits(board, p) {
        lemma_slot(board, p);
        let k = slot(board, p);
        let s = board.insert(k, p);
        assert forall|i: int, j: int| 0 <= i < j < s.len() implies !ranks_before(
            #[trigger] s[j],
            #[trigger] s[i],
        ) by {
            if j < k {
            } else if j == k {
            } else if i < k {
                assert(s[j] == board[j - 1]);
                if k < board.len() {
                    assert(!ranks_before(board[j - 1], board[k]) || j - 1 == k);
                }
            } else if i == k {
                assert(s[j] == board[j - 1]);
                assert(ranks_before(p, board[k]));
                assert(!ranks_before(board[j - 1], board[k]) || j - 1 == k);
            } else {
                assert(s[j] == board[j - 1]);
                assert(s[i] == board[i - 1]);
            }
        }
        if s.len() > LEADERBOARD_CAPACITY {
            assert forall|i: int, j: int| 0 <= i < j < s.drop_last().len() implies !ranks_before(
                #[trigger] s.drop_last()[j],
                #[trigger] s.drop_last()[i],
            ) by {
                assert(s.drop_last()[j] == s[j]);
                assert(s.drop_last()[i] == s[i]);
            }
        }
    }
}

/// Upserting keeps a board bounded, in rank order, and free of repeated identities.
pub proof fn lemma_ranked_upsert_wf(board: Seq<Player>, key: IdentityKey, score: u128, timestamp: i64)
    requires
        board_wf(board),
        keys_distinct(board),
    ensures
        board_wf(ranked_upsert(board, key, score, timestamp)),
        keys_distinct(ranked_upsert(board, key, score, timestamp)),
{
    lemma_key_index(board, key@);
    let k = key_index(board, key@);
    if k < board.len() {
        let rest = board.remove(k);
        let p = Player { score, ..board[k] };
        assert forall|i: int, j: int| 0 <= i < j < rest.len() implies !ranks_before(
            #[trigger] rest[j],
            #[trigger] rest[i],
        ) by {
            if i >= k {
                assert(rest[i] == board[i + 1]);
            }
            if j >= k {
                assert(rest[j] == board[j + 1]);
            }
        }
        assert forall|i: int| 0 <= i < rest.len() implies (#[trigger] rest[i]).pubkey@ != p.pubkey@ by {
            if i >= k {
                assert(rest[i] == board[i + 1]);
            }
        }
        lemma_ranked_insert_wf(rest, p);
        lemma_insert_keeps_keys_distinct(rest, p);
    } else {
        lemma_ranked_insert_wf(board, Player { pubkey: key, score, timestamp });
        lemma_insert_keeps_keys_distinct(board, Player { pubkey: key, score, timestamp });
    }
}

proof fn lemma_insert_keeps_keys_distinct(board: Seq<Player>, p: Player)
    requires
        keys_distinct(board),
        forall|i: int| 0 <= i < board.len() ==> (#[trigger] board[i]).pubkey@ != p.pubkey@,
    ensures
        keys_distinct(ranked_insert(board, p)),
{
    if admits(board, p) {
        lemma_slot(board, p);
        let k = slot(board, p);
        let s = board.insert(k, p);
        assert forall|i: int, j: int| 0 <= i < j < s.len() implies (#[trigger] s[i]).pubkey@ != (
        #[trigger] s[j]).pubkey@ by {
            if j > k {
                assert(s[j] == board[j - 1]);
            }
            if i > k {
                assert(s[i] == board[i - 1]);
            }
            if i < k {
                assert(s[i] == board[i]);
            }
        }
        if s.len() > LEADERBOARD_CAPACITY {
            assert forall|i: int, j: int| 0 <= i < j < s.drop_last().len() implies (
            #[trigger] s.drop_last()[i]).pubkey@ != (#[trigger] s.drop_last()[j]).pubkey@ by {
                assert(s.drop_last()[j] == s[j]);
                assert(s.drop_last()[i] == s[i]);
            }
        }
    }
}

/// Executable form of the ranking comparator.
pub fn ranks_ahead(a: &Player, b: &Player) -> (r: bool)
    ensures
        r == ranks_before(*a, *b),
{
    a.score > b.score || (a.score == b.score && a.timestamp < b.timestamp)
}

/// Offers `p` to a bounded ranked board (see `ranked_insert`).
pub fn insert_ranked(board: &mut Vec<Player>, p: Player)
    requires
        board_wf(old(board)@),
    ensures
        final(board)@ == ranked_insert(old(board)@, p),
        board_wf(final(board)@),
        final(board)@.len() <= old(board)@.len() + 1,
        keys_distinct(old(board)@) && key_index(old(board)@, p.pubkey@) == old(board)@.len()
            ==> keys_distinct(final(board)@),
{
    proof {
        lemma_ranked_insert_wf(board@, p);
        lemma_key_index(board@, p.pubkey@);
        if keys_distinct(board@) && key_index(board@, p.pubkey@) == board@.len() {
            lemma_insert_keeps_keys_distinct(board@, p);
        }
    }
    let n = board.len();
    if n < LEADERBOARD_CAPACITY || ranks_ahead(&p, &board[n - 1]) {
        let mut i: usize = 0;
        while i < n && !ranks_ahead(&p, &board[i])
            invariant
                i <= n,
                n == board@.len(),
                board@ == old(board)@,
                slot_from(board@, p, 0) == slot_from(board@, p, i as int),
            decreases n - i,
        {
            i = i + 1;
        }
        board.insert(i, p);
        if board.len() > LEADERBOARD_CAPACITY {
            board.pop();
        }
    }
}

/// Whether a board, such as one read back from storage, is bounded and in rank order.
pub fn board_is_valid(board: &Vec<Player>) -> (r: bool)
    ensures
        r == board_wf(board@),
{
    let n = board.len();
    if n > LEADERBOARD_CAPACITY {
        return false;
    }
    let mut j: usize = 0;
    while j < n
        invariant
            j <= n,
            n == board@.len(),
            forall|a: int, b: int| 0 <= a < b < j ==> !ranks_before(#[trigger] board@[b], #[trigger] board@[a]),
        decreases n - j,
    {
        let mut i: usize = 0;
        while i < j
            invariant
                i <= j < n,
                n == board@.len(),
                forall|a: int, b: int| 0 <= a < b < j ==> !ranks_before(#[trigger] board@[b], #[trigger] board@[a]),
                forall|a: int| 0 <= a < i ==> !ranks_before(board@[j as int], #[trigger] board@[a]),
            decreases j - i,
        {
            if ranks_ahead(&board[j], &board[i]) {
                assert(!is_ranked(board@)) by {
                    assert(ranks_before(board@[j as int], board@[i as int]));
                }
                return false;
            }
            i = i + 1;
        }
        j = j + 1;
    }
    true
}

/// Whether no identity holds two entries of a board.
pub fn keys_are_distinct(board: &Vec<Player>) -> (r: bool)
    ensures
        r == keys_distinct(board@),
{
    let n = board.len();
    let mut j: usize = 0;
    while j < n
        invariant
            j <= n,
            n == board@.len(),
            forall|a: int, b: int| 0 <= a < b < j ==> (#[trigger] board@[a]).pubkey@ != (#[trigger] board@[b]).pubkey@,
        decreases n - j,
    {
        let mut i: usize = 0;
        while i < j
            invariant
                i <= j < n,
                n == board@.len(),
                forall|a: int, b: int| 0 <= a < b < j ==> (#[trigger] board@[a]).pubkey@ != (#[trigger] board@[b]).pubkey@,
                forall|a: int| 0 <= a < i ==> (#[trigger] board@[a]).pubkey@ != board@[j as int].pubkey@,
            decreases j - i,
        {
            if board[i].pubkey.same_as(&board[j].pubkey) {
                assert(!keys_distinct(board@)) by {
                    assert(board@[i as int].pubkey@ == board@[j as int].pubkey@);
                }
                return false;
            }
            i = i + 1;
        }
        j = j + 1;
    }
    true
}

/// Position of the entry held by `key`, if the board holds one.
pub fn find_key(board: &Vec<Player>, key: &IdentityKey) -> (r: Option<usize>)
    ensures
        r is None ==> key_index(board@, key@) == board@.len(),
        r matches Some(k) ==> k == key_index(board@, key@) && k < board@.len(),
{
    let mut i: usize = 0;
    while i < board.len()
        invariant
            i <= board@.len(),
            key_index(board@, key@) == key_index_from(board@, key@, i as int),
        decreases board@.len() - i,
    {
        if board[i].pubkey.same_as(key) {
            return Some(i);
        }
        i = i + 1;
    }
    None
}

/// Records that `key` reached cumulative `score` (see `ranked_upsert`).
pub fn upsert_ranked(board: &mut Vec<Player>, key: IdentityKey, score: u128, timestamp: i64)
    requires
        board_wf(old(board)@),
        keys_distinct(old(board)@),
    ensures
        final(board)@ == ranked_upsert(old(board)@, key, score, timestamp),
        board_wf(final(board)@),
        keys_distinct(final(board)@),
{
    proof {
        lemma_ranked_upsert_wf(board@, key, score, timestamp);
        lemma_key_index(board@, key@);
    }
    match find_key(board, &key) {
        Some(k) => {
            let held = board.remove(k);
            proof {
                lemma_ranked_insert_wf(board@, Player { score, ..held });
            }
            insert_ranked(board, Player { score, ..held });
        },
        None => {
            insert_ranked(board, Player { pubkey: key, score, timestamp });
        },
    }
}

} // verus!
