//! Allocation of entry identifiers.
//!
//! Every cached entry carries an identifier that is unique for the life of
//! the process and never reused; zero is reserved as a sentinel, so the
//! first identifier handed out is one.  An allocator value hands out strictly
//! increasing identifiers; a host that runs several caches shares one
//! allocator between them.

use vstd::prelude::*;

verus! {

/// Hands out strictly increasing, never-repeating entry identifiers.
pub struct FrameCacheIdAllocator {
    next_id: usize,
}

impl FrameCacheIdAllocator {
    /// The identifier the next allocation will return.
    pub closed spec fn upcoming(self) -> int {
        self.next_id as int
    }

    /// Identifiers start above zero, so zero stays free as a sentinel.
    pub open spec fn wf(self) -> bool {
        self.upcoming() >= 1
    }

    /// A fresh allocator whose first identifier is one.
    pub fn new() -> (r: FrameCacheIdAllocator)
        ensures
            r.wf(),
            r.upcoming() == 1,
    {
        FrameCacheIdAllocator { next_id: 1 }
    }
}

/// Draw the next entry identifier from the allocator.
pub fn get_frame_cache_id(allocator: &mut FrameCacheIdAllocator) -> (id: usize)
    requires
        old(allocator).wf(),
        old(allocator).upcoming() < usize::MAX as int,
    ensures
        id as int == old(allocator).upcoming(),
        final(allocator).upcoming() == old(allocator).upcoming() + 1,
        final(allocator).wf(),
        id >= 1,
{
    let id = allocator.next_id;
    allocator.next_id = allocator.next_id + 1;
    id
}

} // verus!
