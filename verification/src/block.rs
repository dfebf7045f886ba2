//! Block-storage collaborator.
//!
//! The device itself is a memory-mapped peripheral reachable only
//! through the hardware-facing layer; the core treats it as opaque and
//! has nothing of its own to set up here.

use vstd::prelude::*;

verus! {

/// Nothing to prepare for the block layer before the device probe runs.
pub fn init() {
}

/// Nothing to check for the block layer at boot yet.
pub fn init_sanity_check() {
}

} // verus!
