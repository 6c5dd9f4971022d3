//! The acquire/release protocol as a mathematical state machine.
//!
//! A registry state is a map from lock name to hold count. The functions
//! here say, for each request, whether it succeeds and what the next state
//! is; the executable registry's contracts are stated in terms of them, and
//! the laws of the protocol are proved of them in `laws`.

use vstd::prelude::*;

use crate::error::LockError;

verus! {

/// An acquire of `name` succeeds exactly when the name is unseen or its
/// lock is Free.
pub open spec fn acquire_allowed(m: Map<Seq<char>, nat>, name: Seq<char>) -> bool {
    !m.contains_key(name) || m[name] == 0
}

/// What an acquire of `name` reports: success, or `AlreadyHeld` when the
/// lock's hold count is already positive.
pub open spec fn acquire_outcome(m: Map<Seq<char>, nat>, name: Seq<char>) -> Result<
    (),
    LockError,
> {
    if acquire_allowed(m, name) {
        Ok(())
    } else {
        Err(LockError::AlreadyHeld)
    }
}

/// The registry state after an acquire of `name`: a successful acquire puts
/// the name at one hold (creating the entry if the name was never seen); a
/// declined acquire changes nothing.
pub open spec fn acquire_next(m: Map<Seq<char>, nat>, name: Seq<char>) -> Map<Seq<char>, nat> {
    if acquire_allowed(m, name) {
        m.insert(name, 1)
    } else {
        m
    }
}

/// What a release of `name` reports: `UnknownName` when the name was never
/// acquired, `NotHeld` when its lock is Free, success otherwise.
pub open spec fn release_outcome(m: Map<Seq<char>, nat>, name: Seq<char>) -> Result<
    (),
    LockError,
> {
    if !m.contains_key(name) {
        Err(LockError::UnknownName)
    } else if m[name] == 0 {
        Err(LockError::NotHeld)
    } else {
        Ok(())
    }
}

/// The registry state after a release of `name`: a successful release takes
/// one hold off the count; a declined release changes nothing. A release
/// never creates an entry.
pub open spec fn release_next(m: Map<Seq<char>, nat>, name: Seq<char>) -> Map<Seq<char>, nat> {
    if m.contains_key(name) && m[name] > 0 {
        m.insert(name, (m[name] - 1) as nat)
    } else {
        m
    }
}

} // verus!
