use vstd::prelude::*;

use crate::error::PotreroError;
use crate::identity::IdentityKey;

verus! {

/// Proof that `player` holds an unsettled entry in the event at `event`.
#[derive(Clone, Copy, Debug)]
pub struct Lock {
    pub event: IdentityKey,
    pub player: IdentityKey,
}

/// The guards of all open entries, at most one per (event, player).
pub struct EntryLocks {
    pub locks: Vec<Lock>,
}

impl View for EntryLocks {
    type V = Set<(Seq<u8>, Seq<u8>)>;

    open spec fn view(&self) -> Set<(Seq<u8>, Seq<u8>)> {
        Set::new(
            |k: (Seq<u8>, Seq<u8>)|
                exists|i: int|
                    0 <= i < self.locks@.len() && #[trigger] self.locks@[i].event@ == k.0
                        && self.locks@[i].player@ == k.1,
        )
    }
}

impl EntryLocks {
    /// No (event, player) pair is guarded twice.
    pub open spec fn wf(&self) -> bool {
        forall|i: int, j: int|
            0 <= i < j < self.locks@.len() ==> !((#[trigger] self.locks@[i]).event@
                == (#[trigger] self.locks@[j]).event@ && self.locks@[i].player@
                == self.locks@[j].player@)
    }

    pub fn new() -> (r: EntryLocks)
        ensures
            r.wf(),
            r@ == Set::<(Seq<u8>, Seq<u8>)>::empty(),
    {
        let r = EntryLocks { locks: Vec::new() };
        assert(r@ =~= Set::<(Seq<u8>, Seq<u8>)>::empty());
        r
    }

    /// Position of the guard of (event, player), if there is one.
    fn position(&self, event: &IdentityKey, player: &IdentityKey) -> (r: Option<usize>)
        ensures
            r is None ==> !self@.contains((event@, player@)),
            r matches Some(i) ==> i < self.locks@.len() && self.locks@[i as int].event@ == event@
                && self.locks@[i as int].player@ == player@,
    {
        let mut i: usize = 0;
        while i < self.locks.len()
            invariant
                i <= self.locks@.len(),
                forall|j: int|
                    0 <= j < i ==> !((#[trigger] self.locks@[j]).event@ == event@
                        && self.locks@[j].player@ == player@),
            decreases self.locks@.len() - i,
        {
            let l = &self.locks[i];
            if l.event.same_as(event) && l.player.same_as(player) {
                return Some(i);
            }
            i = i + 1;
        }
        None
    }

    /// Whether (event, player) is guarded.
    pub fn contains(&self, event: &IdentityKey, player: &IdentityKey) -> (r: bool)
        ensures
            r == self@.contains((event@, player@)),
    {
        self.position(event, player).is_some()
    }

    /// Creates the guard of (event, player); fails if it already exists.
    pub fn acquire(&mut self, event: IdentityKey, player: IdentityKey) -> (r: Result<(), PotreroError>)
        requires
            old(self).wf(),
        ensures
            final(self).wf(),
            r is Err <==> old(self)@.contains((event@, player@)),
            r is Err ==> r == Err::<(), PotreroError>(PotreroError::UniquenessViolation) && final(self)@ == old(self)@,
            r is Ok ==> final(self)@ == old(self)@.insert((event@, player@)),
    {
        if self.contains(&event, &player) {
            return Err(PotreroError::UniquenessViolation);
        }
        let ghost before = self.locks@;
        self.locks.push(Lock { event, player });
        assert(self.locks@[before.len() as int].event@ == event@);
        assert(self@ =~= old(self)@.insert((event@, player@))) by {
            assert forall|k: (Seq<u8>, Seq<u8>)| #[trigger] self@.contains(k) implies old(self)@.insert(
                (event@, player@),
            ).contains(k) by {
                let i = choose|i: int|
                    0 <= i < self.locks@.len() && #[trigger] self.locks@[i].event@ == k.0
                        && self.locks@[i].player@ == k.1;
                if i < before.len() {
                    assert(before[i] == self.locks@[i]);
                }
            }
            assert forall|k: (Seq<u8>, Seq<u8>)| #[trigger] old(self)@.contains(k) implies self@.contains(k) by {
                let i = choose|i: int|
                    0 <= i < before.len() && #[trigger] before[i].event@ == k.0
                        && before[i].player@ == k.1;
                assert(self.locks@[i] == before[i]);
            }
        }
        Ok(())
    }

    /// Reclaims the guard of (event, player); fails if there is none.
    pub fn release(&mut self, event: &IdentityKey, player: &IdentityKey) -> (r: Result<(), PotreroError>)
        requires
            old(self).wf(),
        ensures
            final(self).wf(),
            r is Err <==> !old(self)@.contains((event@, player@)),
            r is Err ==> r == Err::<(), PotreroError>(PotreroError::MissingEntry) && final(self)@ == old(self)@,
            r is Ok ==> final(self)@ == old(self)@.remove((event@, player@)),
    {
        match self.position(event, player) {
            None => Err(PotreroError::MissingEntry),
            Some(i) => {
                let ghost before = self.locks@;
                self.locks.remove(i);
                assert forall|a: int, b: int|
                    0 <= a < b < self.locks@.len() implies !((#[trigger] self.locks@[a]).event@
                    == (#[trigger] self.locks@[b]).event@ && self.locks@[a].player@
                    == self.locks@[b].player@) by {
                    let a0 = if a < i { a } else { a + 1 };
                    let b0 = if b < i { b } else { b + 1 };
                    assert(self.locks@[a] == before[a0]);
                    assert(self.locks@[b] == before[b0]);
                }
                assert(self@ =~= old(self)@.remove((event@, player@))) by {
                    assert forall|k: (Seq<u8>, Seq<u8>)| #[trigger] self@.contains(k) implies old(self)@.remove(
                        (event@, player@),
                    ).contains(k) by {
                        let j = choose|j: int|
                            0 <= j < self.locks@.len() && #[trigger] self.locks@[j].event@ == k.0
                                && self.locks@[j].player@ == k.1;
                        let j0 = if j < i { j } else { j + 1 };
                        assert(self.locks@[j] == before[j0]);
                        if k == (event@, player@) {
                            if j0 < i {
                                assert(before[j0].event@ == before[i as int].event@);
                            } else {
                                assert(before[i as int].event@ == before[j0].event@);
                            }
                        }
                    }
                    assert forall|k: (Seq<u8>, Seq<u8>)| #[trigger] old(self)@.remove((event@, player@)).contains(k) implies self@.contains(k) by {
                        let j0 = choose|j: int|
                            0 <= j < before.len() && #[trigger] before[j].event@ == k.0
                                && before[j].player@ == k.1;
                        assert(j0 != i);
                        let j = if j0 < i { j0 } else { j0 - 1 };
                        assert(self.locks@[j] == before[j0]);
                    }
                }
                Ok(())
            },
        }
    }
}

} // verus!
