//! Strict round-robin scheduler.
//!
//! A fixed set of three execution contexts — the initial kernel context
//! and two worker processes — is cycled through by a monotonically
//! incrementing selection counter. Every context is always considered
//! runnable: there is no blocked or waiting state, so selection is
//! starvation-free by construction.

use crate::page_allocator::{
    first_fit_index, has_fit, is_first_fit, lemma_allocated_run_exclusive, lemma_fits_after_mark,
    mark_allocated, PageAllocator, PAGE_SIZE,
};
use crate::process::{Process, STACK_PAGES};
use vstd::prelude::*;

verus! {

/// The number of contexts the scheduler cycles through.
pub const SCHEDULED_PROCESSES: u32 = 3;

/// The fixed collection of contexts plus the selection counter.
pub struct Scheduler {
    pub init: Process,
    proc1: Process,
    proc2: Process,
    counter: u32,
}

/// Which context the counter value `c` selects: the two workers first,
/// then the initial context, cyclically.
pub open spec fn spec_selection(c: int) -> int {
    c % 3
}

impl Scheduler {
    /// The selection counter.
    pub closed spec fn spec_counter(&self) -> int {
        self.counter as int
    }

    /// The initial kernel context.
    pub closed spec fn spec_init(&self) -> Process {
        self.init
    }

    /// The first worker context.
    pub closed spec fn spec_proc1(&self) -> Process {
        self.proc1
    }

    /// The second worker context.
    pub closed spec fn spec_proc2(&self) -> Process {
        self.proc2
    }

    /// The context that the counter value `c` selects.
    pub open spec fn spec_selected(&self, c: int) -> Process {
        if spec_selection(c) == 0 {
            self.spec_proc1()
        } else if spec_selection(c) == 1 {
            self.spec_proc2()
        } else {
            self.spec_init()
        }
    }

    /// The saved program counter of the context that the counter value
    /// `c` selects.
    pub open spec fn spec_selected_pc(&self, c: int) -> int {
        self.spec_selected(c).spec_pc()
    }

    /// The selection counter, read out.
    pub fn get_counter(&self) -> (r: u32)
        ensures
            r == self.spec_counter(),
    {
        self.counter
    }

    /// Build the scheduler's fixed set of contexts: the initial kernel
    /// context and two workers, each with a freshly allocated private
    /// stack, and the selection counter at zero. Fails exactly when one
    /// of the three stack allocations finds no free run, which the
    /// kernel treats as fatal.
    pub fn new_scheduler(
        init_pc: usize,
        proc1_pc: usize,
        proc2_pc: usize,
        allocator: &mut PageAllocator,
    ) -> (r: Option<Scheduler>)
        requires
            old(allocator).wf(),
        ensures
            final(allocator).wf(),
            final(allocator)@.len() == old(allocator)@.len(),
            final(allocator).spec_region_base() == old(allocator).spec_region_base(),
            final(allocator).spec_alloc_start() == old(allocator).spec_alloc_start(),
            ({
                let s0 = old(allocator)@;
                let s1 = mark_allocated(s0, first_fit_index(s0, STACK_PAGES as int), STACK_PAGES as int);
                let s2 = mark_allocated(s1, first_fit_index(s1, STACK_PAGES as int), STACK_PAGES as int);
                r is Some <==> has_fit(s0, STACK_PAGES as int) && has_fit(s1, STACK_PAGES as int)
                    && has_fit(s2, STACK_PAGES as int)
            }),
            match r {
                Some(sch) => {
                    &&& sch.spec_counter() == 0
                    &&& sch.spec_init().spec_pc() == init_pc
                    &&& sch.spec_proc1().spec_pc() == proc1_pc
                    &&& sch.spec_proc2().spec_pc() == proc2_pc
                    &&& ({
                        let s0 = old(allocator)@;
                        let i0 = first_fit_index(s0, STACK_PAGES as int);
                        let s1 = mark_allocated(s0, i0, STACK_PAGES as int);
                        let i1 = first_fit_index(s1, STACK_PAGES as int);
                        let s2 = mark_allocated(s1, i1, STACK_PAGES as int);
                        let i2 = first_fit_index(s2, STACK_PAGES as int);
                        &&& is_first_fit(s0, i0, STACK_PAGES as int)
                        &&& is_first_fit(s1, i1, STACK_PAGES as int)
                        &&& is_first_fit(s2, i2, STACK_PAGES as int)
                        &&& sch.spec_init().spec_stack() == old(allocator).page_addr(i0)
                        &&& sch.spec_proc1().spec_stack() == old(allocator).page_addr(i1)
                        &&& sch.spec_proc2().spec_stack() == old(allocator).page_addr(i2)
                        &&& final(allocator)@ == mark_allocated(s2, i2, STACK_PAGES as int)
                    })
                    &&& sch.spec_init().spec_stack() + STACK_PAGES * PAGE_SIZE
                        <= sch.spec_proc1().spec_stack()
                    &&& sch.spec_proc1().spec_stack() + STACK_PAGES * PAGE_SIZE
                        <= sch.spec_proc2().spec_stack()
                    &&& forall|j: int|
                        0 <= j < 32 && j != 1 ==> #[trigger] sch.spec_init().spec_frame().registers[j]
                            == 0 && sch.spec_proc1().spec_frame().registers[j] == 0
                            && sch.spec_proc2().spec_frame().registers[j] == 0
                    &&& sch.spec_init().spec_frame().registers[1] == sch.spec_init().spec_stack()
                        + STACK_PAGES * PAGE_SIZE
                    &&& sch.spec_proc1().spec_frame().registers[1] == sch.spec_proc1().spec_stack()
                        + STACK_PAGES * PAGE_SIZE
                    &&& sch.spec_proc2().spec_frame().registers[1] == sch.spec_proc2().spec_stack()
                        + STACK_PAGES * PAGE_SIZE
                },
                None => true,
            },
    {
        let init = match Process::new_process(init_pc, allocator) {
            Some(p) => p,
            None => {
                return None;
            },
        };
        let proc1 = match Process::new_process(proc1_pc, allocator) {
            Some(p) => p,
            None => {
                return None;
            },
        };
        let proc2 = match Process::new_process(proc2_pc, allocator) {
            Some(p) => p,
            None => {
                return None;
            },
        };
        proof {
            let sp = STACK_PAGES as int;
            let s0 = old(allocator)@;
            let i0 = first_fit_index(s0, sp);
            let s1 = mark_allocated(s0, i0, sp);
            let i1 = first_fit_index(s1, sp);
            let s2 = mark_allocated(s1, i1, sp);
            let i2 = first_fit_index(s2, sp);
            // The three runs come out in order and never overlap: a run
            // free after a mark was free before it, so an earlier index
            // would contradict the first fit.
            if i1 < i0 {
                lemma_fits_after_mark(s0, i0, sp, i1, sp);
                assert(false);
            }
            lemma_allocated_run_exclusive(s0, i0, sp, i1, sp);
            assert(i0 + sp <= i1);
            if i2 < i1 {
                lemma_fits_after_mark(s1, i1, sp, i2, sp);
                assert(false);
            }
            lemma_allocated_run_exclusive(s1, i1, sp, i2, sp);
            assert(i1 + sp <= i2);
        }
        Some(Scheduler { init, proc1, proc2, counter: 0 })
    }

    /// Select the context to run next, strictly round robin: the counter
    /// value picks the context, then the counter advances by one. The
    /// chosen context itself is returned: its saved register frame and
    /// program counter are what the trap exit path restores, and the
    /// dispatcher publishes it as the current process.
    pub fn next(&mut self) -> (r: Process)
        requires
            old(self).spec_counter() < u32::MAX,
        ensures
            final(self).spec_counter() == old(self).spec_counter() + 1,
            final(self).spec_init() == old(self).spec_init(),
            final(self).spec_proc1() == old(self).spec_proc1(),
            final(self).spec_proc2() == old(self).spec_proc2(),
            r == old(self).spec_selected(old(self).spec_counter()),
            r.spec_pc() == old(self).spec_selected_pc(old(self).spec_counter()),
    {
        let r = match self.counter % 3 {
            0 => self.proc1,
            1 => self.proc2,
            _ => self.init,
        };
        self.counter += 1;
        r
    }
}

/// A scheduler's selection counter is a machine word: every value it
/// can hold is a valid, nonnegative starting point for a round.
pub proof fn lemma_counter_bounds(s: &Scheduler)
    ensures
        0 <= s.spec_counter() <= u32::MAX,
{
}

/// Strict round robin is cyclic with period exactly the number of
/// contexts, from any starting counter value: the three consecutive
/// selections starting at any `c` are pairwise distinct, every context
/// is among them, and the selection repeats after exactly one full
/// round.
pub proof fn lemma_round_robin_cycle(c: int)
    requires
        c >= 0,
    ensures
        spec_selection(c) != spec_selection(c + 1),
        spec_selection(c) != spec_selection(c + 2),
        spec_selection(c + 1) != spec_selection(c + 2),
        forall|s: int|
            0 <= s < 3 ==> #[trigger] spec_selection(s) == spec_selection(c) || spec_selection(s)
                == spec_selection(c + 1) || spec_selection(s) == spec_selection(c + 2),
        spec_selection(c + 3) == spec_selection(c),
{
    assert(c % 3 == (c + 3) % 3) by (nonlinear_arith)
        requires
            c >= 0,
    ;
    assert((c % 3 == 0 || c % 3 == 1 || c % 3 == 2) && (c + 1) % 3 == (c % 3 + 1) % 3 && (c + 2) % 3
        == (c % 3 + 2) % 3) by (nonlinear_arith)
        requires
            c >= 0,
    ;
}

/// There is nothing to check after scheduler initialization beyond what
/// its construction already guarantees.
pub fn init_sanity_check() {
}

} // verus!
