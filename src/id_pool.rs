use vstd::prelude::*;

verus! {

/// Allocator of 64-bit identifiers.
///
/// Identifiers are handed out in strictly increasing order starting at 1, so that no identifier
/// is ever handed out twice. Zero is never returned and can serve as an "invalid" marker.
pub struct IdPool {
    next: u64,
}

impl IdPool {
    /// The identifier that the next call to `assign` hands out.
    pub closed spec fn next_id(&self) -> nat {
        self.next as nat
    }

    /// The pool can still hand out an identifier.
    pub open spec fn can_assign(&self) -> bool {
        self.next_id() < u64::MAX
    }

    pub closed spec fn wf(&self) -> bool {
        self.next >= 1
    }

    /// A well-formed pool never hands out zero.
    pub proof fn lemma_positive(&self)
        requires
            self.wf(),
        ensures
            self.next_id() >= 1,
    {
    }

    /// Creates a pool whose first identifier is 1.
    pub fn new() -> (r: IdPool)
        ensures
            r.wf(),
            r.next_id() == 1,
    {
        IdPool { next: 1 }
    }

    /// Returns true if `assign` may be called.
    pub fn has_available(&self) -> (r: bool)
        ensures
            r == self.can_assign(),
    {
        self.next < u64::MAX
    }

    /// Hands out a fresh identifier.
    pub fn assign(&mut self) -> (id: u64)
        requires
            old(self).wf(),
            old(self).can_assign(),
        ensures
            final(self).wf(),
            id as nat == old(self).next_id(),
            id >= 1,
            final(self).next_id() == old(self).next_id() + 1,
    {
        let id = self.next;
        self.next = self.next + 1;
        id
    }
}

} // verus!
