//! Bump-style dynamic-object allocator.
//!
//! A fixed arena taken from the page allocator at boot, handed out one
//! object at a time by advancing a head pointer. Nothing is ever given
//! back: freeing is a no-op in this design.

use crate::page_allocator::{first_fit_index, has_fit, is_first_fit, mark_allocated, PageAllocator, PAGE_SIZE};
use vstd::prelude::*;

verus! {

/// How many pages the arena occupies.
pub const ALLOC_SPACE: usize = 256;

/// The bump allocator's state: the next free byte and the arena's end.
#[derive(Clone, Copy, PartialEq, Eq, Structural, Debug)]
pub struct KernelHeap {
    head: usize,
    end: usize,
}

impl KernelHeap {
    /// The next byte that will be handed out.
    pub closed spec fn spec_head(&self) -> int {
        self.head as int
    }

    /// The first byte past the arena.
    pub closed spec fn spec_end(&self) -> int {
        self.end as int
    }

    /// The head never passes the end.
    pub open spec fn wf(&self) -> bool {
        self.spec_head() <= self.spec_end()
    }

    /// Reserve the arena from the page allocator: the first-fit run of
    /// `ALLOC_SPACE` pages becomes the arena. Fails exactly when no
    /// arena-sized run of free pages is left.
    pub fn init(allocator: &mut PageAllocator) -> (r: Option<KernelHeap>)
        requires
            old(allocator).wf(),
        ensures
            final(allocator).wf(),
            final(allocator)@.len() == old(allocator)@.len(),
            final(allocator).spec_region_base() == old(allocator).spec_region_base(),
            final(allocator).spec_alloc_start() == old(allocator).spec_alloc_start(),
            r is Some <==> has_fit(old(allocator)@, ALLOC_SPACE as int),
            match r {
                Some(h) => {
                    &&& h.wf()
                    &&& h.spec_end() == h.spec_head() + ALLOC_SPACE * PAGE_SIZE
                    &&& ({
                        let i = first_fit_index(old(allocator)@, ALLOC_SPACE as int);
                        &&& is_first_fit(old(allocator)@, i, ALLOC_SPACE as int)
                        &&& h.spec_head() == old(allocator).page_addr(i)
                        &&& final(allocator)@ == mark_allocated(
                            old(allocator)@,
                            i,
                            ALLOC_SPACE as int,
                        )
                    })
                },
                None => final(allocator)@ == old(allocator)@,
            },
    {
        let head = match allocator.alloc_pages(ALLOC_SPACE) {
            Some(p) => p,
            None => {
                return None;
            },
        };
        Some(KernelHeap { head, end: head + ALLOC_SPACE * PAGE_SIZE })
    }

    /// Hand out `size` bytes by advancing the head, or nothing when the
    /// arena has no `size` bytes left. Nothing is ever reclaimed.
    pub fn alloc_bytes(&mut self, size: usize) -> (r: Option<usize>)
        requires
            old(self).wf(),
        ensures
            final(self).wf(),
            final(self).spec_end() == old(self).spec_end(),
            match r {
                Some(p) => {
                    &&& old(self).spec_head() + size <= old(self).spec_end()
                    &&& p == old(self).spec_head()
                    &&& final(self).spec_head() == old(self).spec_head() + size
                },
                None => {
                    &&& old(self).spec_head() + size > old(self).spec_end()
                    &&& *final(self) == *old(self)
                },
            },
    {
        if size > self.end - self.head {
            return None;
        }
        let p = self.head;
        self.head = self.head + size;
        Some(p)
    }

    /// Boot-time self check: one small allocation must succeed on a
    /// fresh arena.
    pub fn init_sanity_check(&mut self) -> (ok: bool)
        requires
            old(self).wf(),
            old(self).spec_head() + 1 <= old(self).spec_end(),
        ensures
            ok,
            final(self).wf(),
    {
        match self.alloc_bytes(1) {
            Some(_) => true,
            None => false,
        }
    }
}

} // verus!
