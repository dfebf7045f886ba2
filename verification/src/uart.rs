//! The console device, as the kernel addresses it.
//!
//! The registers themselves are a memory-mapped peripheral window that
//! only the hardware-facing layer can touch; this module holds the
//! device's identity: where its window lives.

use vstd::prelude::*;

verus! {

/// The physical base address of the console's register window.
pub const UART_BASE_ADDRESS: usize = 0x1000_0000;

/// A handle on the console device.
#[derive(Clone, Copy, PartialEq, Eq, Structural, Debug)]
pub struct Uart {
    base_address: usize,
}

impl Uart {
    /// The base address this handle points at.
    pub closed spec fn spec_base_address(&self) -> int {
        self.base_address as int
    }

    /// The console at its well-known window.
    pub fn get() -> (r: Uart)
        ensures
            r.spec_base_address() == UART_BASE_ADDRESS,
    {
        Uart { base_address: UART_BASE_ADDRESS }
    }

    /// The base address, read out for the hardware-facing layer.
    pub fn base_address(&self) -> (r: usize)
        ensures
            r == self.spec_base_address(),
    {
        self.base_address
    }
}

} // verus!
