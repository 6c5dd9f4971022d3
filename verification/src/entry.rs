//! A single named lock's state: a counter of outstanding holds.
//!
//! The counter is only ever mutated through `try_acquire` and `try_release`,
//! which reject the transitions the protocol forbids, so a count that starts
//! at zero or one never leaves {0, 1}.

use vstd::prelude::*;

use crate::error::LockError;

verus! {

/// The state of one named lock: how many times it is currently acquired
/// without a matching release.
pub struct LockEntry {
    pub hold_count: u64,
}

impl LockEntry {
    /// A lock is Free when no hold is outstanding.
    pub open spec fn is_free(&self) -> bool {
        self.hold_count == 0
    }

    /// A lock is Held when at least one hold is outstanding.
    pub open spec fn is_held(&self) -> bool {
        self.hold_count > 0
    }

    /// A fresh entry, created by the first acquire of its name: that acquire
    /// doubles as creation, so the entry starts Held with one hold.
    pub fn new_held() -> (e: LockEntry)
        ensures
            e.hold_count == 1,
    {
        LockEntry { hold_count: 1 }
    }

    /// Take the lock: succeeds exactly when the lock is Free, moving it to
    /// one hold; on a Held lock it fails with `AlreadyHeld` and changes
    /// nothing.
    pub fn try_acquire(&mut self) -> (r: Result<(), LockError>)
        ensures
            match r {
                Ok(()) => old(self).is_free() && final(self).hold_count == 1,
                Err(e) => e == LockError::AlreadyHeld && old(self).is_held() && *final(self)
                    == *old(self),
            },
    {
        if self.hold_count > 0 {
            return Err(LockError::AlreadyHeld);
        }
        self.hold_count = 1;
        Ok(())
    }

    /// Give the lock back: succeeds exactly when the lock is Held, taking
    /// one hold off the count; on a Free lock it fails with `NotHeld` and
    /// changes nothing.
    pub fn try_release(&mut self) -> (r: Result<(), LockError>)
        ensures
            match r {
                Ok(()) => old(self).is_held() && final(self).hold_count == old(self).hold_count
                    - 1,
                Err(e) => e == LockError::NotHeld && old(self).is_free() && *final(self) == *old(
                    self,
                ),
            },
    {
        if self.hold_count == 0 {
            return Err(LockError::NotHeld);
        }
        self.hold_count = self.hold_count - 1;
        Ok(())
    }
}

} // verus!
