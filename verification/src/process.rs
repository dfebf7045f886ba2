//! Execution contexts.
//!
//! A process owns a private stack taken from the page allocator, a saved
//! general-purpose register frame, and a saved program counter. Processes
//! are created once at scheduler initialization and never destroyed; the
//! trap entry and exit sequence is the only thing that mutates them.

use crate::page_allocator::{
    first_fit_index, has_fit, is_first_fit, mark_allocated, PageAllocator, PAGE_SIZE,
};
use vstd::prelude::*;

verus! {

/// How many pages each process stack occupies.
pub const STACK_PAGES: usize = 10;

/// The register slot of the stack pointer in a saved frame.
pub const STACK_POINTER_SLOT: usize = 1;

/// The saved general-purpose registers of a context, in the layout the
/// trap entry sequence stores them.
#[derive(Clone, Copy, PartialEq, Eq, Debug)]
pub struct ProcessFrame {
    pub registers: [usize; 32],
}

/// One execution context: its saved frame, the base address of its
/// private stack (zero for the null placeholder), and its saved program
/// counter.
#[derive(Clone, Copy, PartialEq, Eq, Debug)]
pub struct Process {
    frame: ProcessFrame,
    stack: usize,
    pc: usize,
}

impl Process {
    /// The saved program counter: where the context resumes.
    pub closed spec fn spec_pc(&self) -> int {
        self.pc as int
    }

    /// The base address of the private stack.
    pub closed spec fn spec_stack(&self) -> int {
        self.stack as int
    }

    /// The saved register frame.
    pub closed spec fn spec_frame(&self) -> ProcessFrame {
        self.frame
    }

    /// The saved program counter, read out for the trap exit path.
    pub fn get_pc(&self) -> (r: usize)
        ensures
            r == self.spec_pc(),
    {
        self.pc
    }

    /// The saved register frame, read out for the trap exit path, which
    /// restores it into the hardware registers.
    pub fn get_frame(&self) -> (r: ProcessFrame)
        ensures
            r == self.spec_frame(),
    {
        self.frame
    }

    /// The base address of the private stack, read out for boot code.
    pub fn get_stack(&self) -> (r: usize)
        ensures
            r == self.spec_stack(),
    {
        self.stack
    }

    /// Create a context that will start at `start_pc`: allocate a
    /// `STACK_PAGES`-page private stack, point the saved stack-pointer
    /// slot at its top, zero every other register, and save the entry
    /// point. Fails exactly when no stack-sized run of free pages is
    /// left, which the kernel treats as fatal.
    pub fn new_process(start_pc: usize, allocator: &mut PageAllocator) -> (r: Option<Process>)
        requires
            old(allocator).wf(),
        ensures
            final(allocator).wf(),
            final(allocator)@.len() == old(allocator)@.len(),
            final(allocator).spec_region_base() == old(allocator).spec_region_base(),
            final(allocator).spec_alloc_start() == old(allocator).spec_alloc_start(),
            match r {
                Some(p) => {
                    &&& p.spec_pc() == start_pc
                    &&& ({
                        let i = first_fit_index(old(allocator)@, STACK_PAGES as int);
                        &&& is_first_fit(old(allocator)@, i, STACK_PAGES as int)
                        &&& p.spec_stack() == old(allocator).page_addr(i)
                        &&& final(allocator)@ == mark_allocated(
                            old(allocator)@,
                            i,
                            STACK_PAGES as int,
                        )
                    })
                    &&& p.spec_frame().registers[STACK_POINTER_SLOT as int] == p.spec_stack()
                        + STACK_PAGES * PAGE_SIZE
                    &&& forall|j: int|
                        0 <= j < 32 && j != STACK_POINTER_SLOT ==> p.spec_frame().registers[j] == 0
                },
                None => {
                    &&& !has_fit(old(allocator)@, STACK_PAGES as int)
                    &&& final(allocator)@ == old(allocator)@
                },
            },
    {
        let stack = match allocator.alloc_pages(STACK_PAGES) {
            Some(s) => s,
            None => {
                return None;
            },
        };
        let mut process = Process { stack, pc: start_pc, frame: ProcessFrame { registers: [0; 32] } };
        // The stack grows downward from the top of its run.
        process.frame.registers[STACK_POINTER_SLOT] = stack + STACK_PAGES * PAGE_SIZE;
        Some(process)
    }

    /// The sentinel context used before the scheduler is initialized:
    /// no backing stack, entry point zero. It must never be selected to
    /// run.
    pub fn null_proc() -> (r: Process)
        ensures
            r.spec_pc() == 0,
            r.spec_stack() == 0,
            forall|j: int| 0 <= j < 32 ==> r.spec_frame().registers[j] == 0,
    {
        Process { stack: 0, pc: 0, frame: ProcessFrame { registers: [0; 32] } }
    }
}

} // verus!
