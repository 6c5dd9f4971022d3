//! The errors that the lock service reports to a caller.

use vstd::prelude::*;

verus! {

/// Why an acquire or release request was declined.
#[derive(Clone, Copy, Debug, PartialEq, Eq, Structural)]
pub enum LockError {
    /// Acquire was requested on a lock whose hold count is already positive.
    AlreadyHeld,
    /// Release was requested on a lock whose hold count is zero.
    NotHeld,
    /// Release was requested on a name that was never acquired.
    UnknownName,
}

impl LockError {
    /// The human-readable reason reported to a client, exactly as the wire
    /// format carries it.
    pub fn message(&self) -> (m: &'static str)
        ensures
            m@ == self.spec_message(),
    {
        match self {
            LockError::AlreadyHeld => "Unable to get lock",
            LockError::NotHeld => "Unable to get lock",
            LockError::UnknownName => "Lock name does not exist",
        }
    }

    /// What `message` returns for each variant.
    pub open spec fn spec_message(&self) -> Seq<char> {
        match self {
            LockError::AlreadyHeld => "Unable to get lock"@,
            LockError::NotHeld => "Unable to get lock"@,
            LockError::UnknownName => "Lock name does not exist"@,
        }
    }
}

} // verus!
