use vstd::prelude::*;

verus! {

/// An opaque 32-byte identity (player, resolver, fee receiver, treasury,
/// or the address of a stored record). Only ever compared for equality.
#[derive(Clone, Copy, Debug)]
pub struct IdentityKey {
    pub bytes: [u8; 32],
}

impl View for IdentityKey {
    type V = Seq<u8>;

    open spec fn view(&self) -> Seq<u8> {
        self.bytes@
    }
}

impl IdentityKey {
    pub fn new(bytes: [u8; 32]) -> (r: IdentityKey)
        ensures
            r@ == bytes@,
    {
        IdentityKey { bytes }
    }

    /// Byte-wise equality of two identities.
    pub fn same_as(&self, other: &IdentityKey) -> (r: bool)
        ensures
            r == (self@ == other@),
    {
        let mut i: usize = 0;
        while i < 32
            invariant
                0 <= i <= 32,
                self@.len() == 32,
                other@.len() == 32,
                forall|j: int| 0 <= j < i ==> self@[j] == other@[j],
            decreases 32 - i,
        {
            if self.bytes[i] != other.bytes[i] {
                assert(self@[i as int] != other@[i as int]);
                return false;
            }
            i = i + 1;
        }
        assert(self@ =~= other@);
        true
    }
}

} // verus!
