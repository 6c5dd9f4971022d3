//! Laws of the acquire/release protocol, proved of the transition functions
//! in `protocol`. Since `LockRegistry::acquire` and `LockRegistry::release`
//! are proved to step the registry's view exactly by those functions, each
//! law holds of the executable registry as well.
//!
//! Operations on one name are serialized by that name's guard, so a race of
//! concurrent requests on a name is observed as some sequence of these
//! transitions; the laws over repeated transitions are the serialized form
//! of the protocol's concurrency claims.

use vstd::prelude::*;

use crate::error::LockError;
use crate::protocol::{
    acquire_allowed,
    acquire_next,
    acquire_outcome,
    release_next,
    release_outcome,
};

verus! {

/// An acquire of a name the registry has never seen succeeds and leaves the
/// name Held, with exactly one hold outstanding.
pub proof fn lemma_acquire_unseen_succeeds(m: Map<Seq<char>, nat>, name: Seq<char>)
    requires
        !m.contains_key(name),
    ensures
        acquire_outcome(m, name) == Ok::<(), LockError>(()),
        acquire_next(m, name).contains_key(name),
        acquire_next(m, name)[name] == 1,
{
}

/// An acquire of a name whose lock is Held is declined with `AlreadyHeld`
/// and changes nothing: in particular the hold count stays as it was.
pub proof fn lemma_acquire_held_declined(m: Map<Seq<char>, nat>, name: Seq<char>)
    requires
        m.contains_key(name),
        m[name] > 0,
    ensures
        acquire_outcome(m, name) == Err::<(), LockError>(LockError::AlreadyHeld),
        acquire_next(m, name) == m,
{
}

/// A release of a name whose lock is Free (as after a prior acquire and
/// release) is declined with `NotHeld` and changes nothing.
pub proof fn lemma_release_free_declined(m: Map<Seq<char>, nat>, name: Seq<char>)
    requires
        m.contains_key(name),
        m[name] == 0,
    ensures
        release_outcome(m, name) == Err::<(), LockError>(LockError::NotHeld),
        release_next(m, name) == m,
{
}

/// A release of a name the registry has never seen is declined with
/// `UnknownName` and changes nothing: a release never creates an entry.
pub proof fn lemma_release_unseen_declined(m: Map<Seq<char>, nat>, name: Seq<char>)
    requires
        !m.contains_key(name),
    ensures
        release_outcome(m, name) == Err::<(), LockError>(LockError::UnknownName),
        release_next(m, name) == m,
{
}

/// An acquire of a Free or unseen name followed at once by a release of it
/// succeeds twice and returns the registry to a state indistinguishable
/// from never having acquired the name — except that the name now exists in
/// the registry, Free: the cycle is idempotent, not a full reset.
pub proof fn lemma_acquire_release_cycle(m: Map<Seq<char>, nat>, name: Seq<char>)
    requires
        acquire_allowed(m, name),
    ensures
        acquire_outcome(m, name) == Ok::<(), LockError>(()),
        release_outcome(acquire_next(m, name), name) == Ok::<(), LockError>(()),
        release_next(acquire_next(m, name), name) == m.insert(name, 0),
        m.contains_key(name) ==> release_next(acquire_next(m, name), name) == m,
{
    assert(release_next(acquire_next(m, name), name) =~= m.insert(name, 0));
    if m.contains_key(name) {
        assert(m.insert(name, 0) =~= m);
    }
}

/// Exclusion: once an acquire of a Free or unseen name has succeeded, every
/// further acquire of it is declined with `AlreadyHeld` and changes nothing,
/// until a release intervenes — no second acquire can also succeed.
pub proof fn lemma_acquire_excludes(m: Map<Seq<char>, nat>, name: Seq<char>)
    requires
        acquire_allowed(m, name),
    ensures
        acquire_outcome(m, name) == Ok::<(), LockError>(()),
        acquire_outcome(acquire_next(m, name), name) == Err::<(), LockError>(
            LockError::AlreadyHeld,
        ),
        acquire_next(acquire_next(m, name), name) == acquire_next(m, name),
{
}

/// How many of `n` back-to-back acquires of `name`, starting from state
/// `m`, succeed.
pub open spec fn successful_acquires(m: Map<Seq<char>, nat>, name: Seq<char>, n: nat) -> nat
    decreases n,
{
    if n == 0 {
        0
    } else {
        (if acquire_allowed(m, name) {
            1nat
        } else {
            0nat
        }) + successful_acquires(acquire_next(m, name), name, (n - 1) as nat)
    }
}

/// The registry state after `n` back-to-back acquires of `name`, starting
/// from state `m`.
pub open spec fn acquire_n_next(m: Map<Seq<char>, nat>, name: Seq<char>, n: nat) -> Map<
    Seq<char>,
    nat,
>
    decreases n,
{
    if n == 0 {
        m
    } else {
        acquire_n_next(acquire_next(m, name), name, (n - 1) as nat)
    }
}

/// Of `n >= 1` acquires of a Free or unseen name racing one another —
/// serialized, as the entry's guard serializes them, in whatever order the
/// race resolves to — exactly one succeeds and the other `n - 1` are
/// declined; the name is left Held with exactly one hold outstanding.
pub proof fn lemma_race_one_winner(m: Map<Seq<char>, nat>, name: Seq<char>, n: nat)
    requires
        acquire_allowed(m, name),
        n >= 1,
    ensures
        successful_acquires(m, name, n) == 1,
        acquire_n_next(m, name, n).contains_key(name),
        acquire_n_next(m, name, n)[name] == 1,
    decreases n,
{
    let m1 = acquire_next(m, name);
    assert(acquire_n_next(m, name, n) == acquire_n_next(m1, name, (n - 1) as nat));
    assert(successful_acquires(m, name, n) == 1 + successful_acquires(m1, name, (n - 1) as nat));
    if n == 1 {
        assert(successful_acquires(m1, name, 0) == 0);
        assert(acquire_n_next(m1, name, 0) == m1);
    } else {
        lemma_held_acquires_all_fail(m1, name, (n - 1) as nat);
    }
}

/// From a state where `name` is Held, any number of further acquires of it
/// all fail and leave the state unchanged.
pub proof fn lemma_held_acquires_all_fail(m: Map<Seq<char>, nat>, name: Seq<char>, n: nat)
    requires
        m.contains_key(name),
        m[name] > 0,
    ensures
        successful_acquires(m, name, n) == 0,
        acquire_n_next(m, name, n) == m,
    decreases n,
{
    if n > 0 {
        lemma_held_acquires_all_fail(acquire_next(m, name), name, (n - 1) as nat);
    }
}

/// The hold-count cap: in a registry where every hold count is at most one
/// (as in every registry the protocol alone can produce, starting empty),
/// an acquire or a release keeps every hold count at most one — the lock is
/// a two-state machine, Free or Held, and counts above one are never
/// reached.
pub proof fn lemma_hold_count_capped(m: Map<Seq<char>, nat>, name: Seq<char>)
    requires
        forall|k: Seq<char>| m.contains_key(k) ==> m[k] <= 1,
    ensures
        forall|k: Seq<char>| #[trigger] acquire_next(m, name).contains_key(k)
            ==> acquire_next(m, name)[k] <= 1,
        forall|k: Seq<char>| #[trigger] release_next(m, name).contains_key(k)
            ==> release_next(m, name)[k] <= 1,
{
}

} // verus!
