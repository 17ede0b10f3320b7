//! Identifiers for new records.

use vstd::prelude::*;

verus! {

/// Hands out identifiers 1, 2, 3, ... in this order, each once.
#[derive(Debug)]
pub struct IdAllocator {
    next: u64,
}

impl IdAllocator {
    #[verifier::type_invariant]
    spec fn starts_at_one(&self) -> bool {
        self.next >= 1
    }

    /// The identifier that the next allocation returns.
    pub closed spec fn upcoming(&self) -> u64 {
        self.next
    }

    /// An allocator that has handed out nothing yet.
    pub fn new() -> (fresh: IdAllocator)
        ensures
            fresh.upcoming() == 1,
    {
        IdAllocator { next: 1 }
    }

    /// The identifier that the next allocation returns, which is at least 1.
    pub fn peek(&self) -> (id: u64)
        ensures
            id == self.upcoming(),
            id >= 1,
    {
        proof {
            use_type_invariant(self);
        }
        self.next
    }

    /// Hands out the next identifier.
    pub fn allocate(&mut self) -> (id: u64)
        requires
            old(self).upcoming() < u64::MAX,
        ensures
            id == old(self).upcoming(),
            id >= 1,
            final(self).upcoming() == id + 1,
    {
        proof {
            use_type_invariant(&*self);
        }
        let id: u64 = self.next;
        self.next = id + 1;
        id
    }
}

} // verus!
