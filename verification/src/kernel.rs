//! The kernel's mutable core state, threaded explicitly through boot and
//! into every trap dispatch: the physical page allocator, the virtual
//! memory translator, and the scheduler.

use crate::page_allocator::PageAllocator;
use crate::paging::PagingState;
use crate::scheduler::Scheduler;
use vstd::prelude::*;

verus! {

/// Everything the trap dispatcher may consult or mutate.
pub struct KernelContext {
    pub allocator: PageAllocator,
    pub paging: PagingState,
    pub scheduler: Scheduler,
}

impl KernelContext {
    /// The context is well formed when the allocator's descriptors and
    /// the page-table arena are.
    pub open spec fn wf(&self) -> bool {
        &&& self.allocator.wf()
        &&& self.paging.wf()
    }
}

} // verus!
