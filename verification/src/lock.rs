//! A basic mutual-exclusion primitive.
//!
//! On this single-core kernel the trap dispatcher already runs as an
//! implicit critical section, so the lock is a building block for a
//! future multi-core extension rather than load-bearing: a plain flag
//! that is set while the lock is held.

use vstd::prelude::*;

verus! {

/// A simple test-and-set lock.
#[derive(Clone, Copy, PartialEq, Eq, Structural, Debug)]
pub struct SpinLock {
    locked: bool,
}

impl SpinLock {
    /// Whether the lock is currently held.
    pub closed spec fn spec_locked(&self) -> bool {
        self.locked
    }

    /// A fresh, unheld lock.
    pub fn new() -> (r: SpinLock)
        ensures
            !r.spec_locked(),
    {
        SpinLock { locked: false }
    }

    /// Take the lock. On a single core nothing can hold it across this
    /// call, so taking it cannot block.
    pub fn lock(&mut self)
        requires
            !old(self).spec_locked(),
        ensures
            final(self).spec_locked(),
    {
        self.locked = true;
    }

    /// Whether the lock is held, read out.
    pub fn is_locked(&self) -> (r: bool)
        ensures
            r == self.spec_locked(),
    {
        self.locked
    }

    /// Release the lock.
    pub fn unlock(&mut self)
        ensures
            !final(self).spec_locked(),
    {
        self.locked = false;
    }
}

} // verus!
