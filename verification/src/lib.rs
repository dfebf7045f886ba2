//! Core of a small single-core RISC-V kernel: a first-fit physical page
//! allocator, a three-level virtual-memory translator, a round-robin
//! scheduler over a fixed set of processes, and the trap dispatcher that
//! ties them together.
//!
//! Hardware access (memory-mapped registers, CSRs, the UART console) is
//! left to the surrounding program; this crate holds the decisions and the
//! data structures, with their contracts.

use vstd::prelude::*;

pub mod block;
pub mod kernel;
pub mod kmalloc;
pub mod lock;
pub mod page_allocator;
pub mod paging;
pub mod process;
pub mod scheduler;
pub mod trap;
pub mod uart;
pub mod virtio;

verus! {

/// A fatal kernel condition. The kernel has no recovery path for any of
/// these: the caller is expected to print a diagnostic and halt.
#[derive(Clone, Copy, PartialEq, Eq, Structural, Debug)]
pub enum KernelError {
    /// No sufficiently long run of contiguous free pages exists.
    OutOfMemory,
    /// A page was freed twice, or a pointer not produced by the allocator
    /// was handed to `dealloc`.
    DoubleFree,
    /// A pointer outside the allocator's managed region was handed to
    /// `dealloc`.
    InvalidPointer,
    /// A trap or interrupt cause outside the recognized enumeration.
    UnknownCause,
}

} // verus!
