//! The lock registry: a mapping from lock name to lock entry, with lazy
//! creation of entries on first acquire.
//!
//! The registry is modelled as the map from each name it has seen to that
//! name's hold count (the registry's view); `acquire` and `release` are
//! proved to step that map exactly as the protocol's transition functions
//! in `protocol` say.

use vstd::prelude::*;

use crate::entry::LockEntry;
use crate::error::LockError;
use crate::protocol::{acquire_allowed, acquire_next, acquire_outcome, release_next, release_outcome};

verus! {

/// One registry slot: a lock entry together with the name that owns it.
struct NamedEntry {
    name: String,
    entry: LockEntry,
}

/// The map that a sequence of slots denotes: each slot's name maps to its
/// hold count, a later slot winning over an earlier one with the same name
/// (the registry never holds two slots with one name, so nothing rests on
/// that choice).
spec fn map_of(s: Seq<NamedEntry>) -> Map<Seq<char>, nat>
    decreases s.len(),
{
    if s.len() == 0 {
        Map::empty()
    } else {
        map_of(s.drop_last()).insert(s.last().name@, s.last().entry.hold_count as nat)
    }
}

/// No two slots carry the same name.
spec fn distinct_names(s: Seq<NamedEntry>) -> bool {
    forall|i: int, j: int| 0 <= i < j < s.len() ==> s[i].name@ != s[j].name@
}

/// A name is in the denoted map exactly when some slot carries it.
proof fn lemma_map_of_contains(s: Seq<NamedEntry>, k: Seq<char>)
    ensures
        map_of(s).contains_key(k) <==> exists|i: int| 0 <= i < s.len() && s[i].name@ == k,
    decreases s.len(),
{
    if s.len() > 0 {
        lemma_map_of_contains(s.drop_last(), k);
        if s.last().name@ == k {
            assert(s[s.len() - 1].name@ == k);
        } else if map_of(s).contains_key(k) {
            let i = choose|i: int| 0 <= i < s.drop_last().len() && s.drop_last()[i].name@ == k;
            assert(s[i].name@ == k);
        } else if exists|i: int| 0 <= i < s.len() && s[i].name@ == k {
            let i = choose|i: int| 0 <= i < s.len() && s[i].name@ == k;
            assert(s.drop_last()[i].name@ == k);
        }
    }
}

/// Under distinct names, the denoted map sends a slot's name to that slot's
/// hold count.
proof fn lemma_map_of_get(s: Seq<NamedEntry>, i: int)
    requires
        distinct_names(s),
        0 <= i < s.len(),
    ensures
        map_of(s).contains_key(s[i].name@),
        map_of(s)[s[i].name@] == s[i].entry.hold_count as nat,
    decreases s.len(),
{
    if i == s.len() - 1 {
    } else {
        assert(distinct_names(s.drop_last())) by {
            assert(forall|p: int, q: int|
                0 <= p < q < s.drop_last().len()
                    ==> s.drop_last()[p].name@ != s.drop_last()[q].name@);
        }
        lemma_map_of_get(s.drop_last(), i);
        assert(s.drop_last()[i] == s[i]);
        assert(s[i].name@ != s.last().name@);
    }
}

/// Appending a slot denotes the map with that slot's binding added.
proof fn lemma_map_of_push(s: Seq<NamedEntry>, e: NamedEntry)
    ensures
        map_of(s.push(e)) == map_of(s).insert(e.name@, e.entry.hold_count as nat),
{
    assert(s.push(e).drop_last() =~= s);
    assert(s.push(e).last() == e);
}

/// Under distinct names, replacing slot `i` by one with the same name
/// denotes the map with that name's binding updated.
proof fn lemma_map_of_update(s: Seq<NamedEntry>, i: int, e: NamedEntry)
    requires
        distinct_names(s),
        0 <= i < s.len(),
        e.name@ == s[i].name@,
    ensures
        map_of(s.update(i, e)) == map_of(s).insert(e.name@, e.entry.hold_count as nat),
    decreases s.len(),
{
    let t = s.update(i, e);
    if i == s.len() - 1 {
        assert(t.drop_last() =~= s.drop_last());
        assert(t.last() == e);
        assert(map_of(t) == map_of(s.drop_last()).insert(e.name@, e.entry.hold_count as nat));
        assert(map_of(s.drop_last()).insert(e.name@, e.entry.hold_count as nat) =~= map_of(
            s,
        ).insert(e.name@, e.entry.hold_count as nat));
    } else {
        assert(distinct_names(s.drop_last())) by {
            assert(forall|p: int, q: int|
                0 <= p < q < s.drop_last().len()
                    ==> s.drop_last()[p].name@ != s.drop_last()[q].name@);
        }
        assert(t.drop_last() =~= s.drop_last().update(i, e));
        assert(t.last() == s.last());
        lemma_map_of_update(s.drop_last(), i, e);
        // The two inserts commute because the last slot's name differs from
        // slot i's name.
        assert(s[i].name@ != s.last().name@);
        assert(map_of(s.drop_last()).insert(e.name@, e.entry.hold_count as nat).insert(
            s.last().name@,
            s.last().entry.hold_count as nat,
        ) =~= map_of(s.drop_last()).insert(s.last().name@, s.last().entry.hold_count as nat).insert(
            e.name@,
            e.entry.hold_count as nat,
        ));
    }
}

/// The concurrent mapping from lock name to lock entry. Entries are created
/// lazily by the first acquire of a name and are never removed: a name once
/// seen stays in the registry for the registry's lifetime.
pub struct LockRegistry {
    entries: Vec<NamedEntry>,
}

impl View for LockRegistry {
    type V = Map<Seq<char>, nat>;

    /// The hold count of each name the registry has seen.
    closed spec fn view(&self) -> Map<Seq<char>, nat> {
        map_of(self.entries@)
    }
}

impl LockRegistry {
    /// The registry's invariant: at most one entry exists per distinct name.
    pub closed spec fn wf(&self) -> bool {
        distinct_names(self.entries@)
    }

    /// An empty registry, as created once at process start.
    pub fn new() -> (r: LockRegistry)
        ensures
            r.wf(),
            r@ == Map::<Seq<char>, nat>::empty(),
    {
        LockRegistry { entries: Vec::new() }
    }

    /// The slot that carries `name`, if any.
    fn find_index(&self, name: &String) -> (r: Option<usize>)
        ensures
            match r {
                Some(i) => i < self.entries@.len() && self.entries@[i as int].name@ == name@,
                None => forall|i: int|
                    0 <= i < self.entries@.len() ==> self.entries@[i].name@ != name@,
            },
    {
        let mut i: usize = 0;
        while i < self.entries.len()
            invariant
                i <= self.entries@.len(),
                forall|j: int| 0 <= j < i ==> self.entries@[j].name@ != name@,
            decreases self.entries@.len() - i,
        {
            if self.entries[i].name == *name {
                return Some(i);
            }
            i = i + 1;
        }
        None
    }

    /// Look a name up: returns the name's entry if the registry has seen it.
    pub fn lookup(&self, name: &String) -> (r: Option<&LockEntry>)
        requires
            self.wf(),
        ensures
            match r {
                Some(e) => self@.contains_key(name@) && e.hold_count as nat == self@[name@],
                None => !self@.contains_key(name@),
            },
    {
        proof {
            lemma_map_of_contains(self.entries@, name@);
        }
        match self.find_index(name) {
            Some(i) => {
                proof {
                    lemma_map_of_get(self.entries@, i as int);
                }
                Some(&self.entries[i].entry)
            },
            None => None,
        }
    }

    /// Insert an entry for `name` unless one exists: an entry inserted by an
    /// earlier caller is kept unchanged, never overwritten.
    pub fn insert_if_absent(&mut self, name: String, initial: LockEntry)
        requires
            old(self).wf(),
        ensures
            final(self).wf(),
            old(self)@.contains_key(name@) ==> final(self)@ == old(self)@,
            !old(self)@.contains_key(name@) ==> final(self)@ == old(self)@.insert(
                name@,
                initial.hold_count as nat,
            ),
    {
        proof {
            lemma_map_of_contains(self.entries@, name@);
        }
        match self.find_index(&name) {
            Some(_) => {},
            None => {
                let ghost s = self.entries@;
                let ghost e = NamedEntry { name: name, entry: initial };
                proof {
                    lemma_map_of_push(s, e);
                    assert(forall|p: int, q: int|
                        0 <= p < q < s.push(e).len() ==> s.push(e)[p].name@ != s.push(e)[q].name@);
                }
                self.entries.push(NamedEntry { name, entry: initial });
            },
        }
    }

    /// Acquire the named lock. An unseen name is created Held and the call
    /// succeeds; a Free lock moves to Held; a Held lock is declined with
    /// `AlreadyHeld` and nothing changes.
    pub fn acquire(&mut self, name: &String) -> (r: Result<(), LockError>)
        requires
            old(self).wf(),
        ensures
            final(self).wf(),
            r == acquire_outcome(old(self)@, name@),
            final(self)@ == acquire_next(old(self)@, name@),
    {
        proof {
            lemma_map_of_contains(self.entries@, name@);
        }
        match self.find_index(name) {
            Some(i) => {
                proof {
                    lemma_map_of_get(self.entries@, i as int);
                }
                let ghost s = self.entries@;
                let slot = &mut self.entries[i];
                let r = slot.entry.try_acquire();
                proof {
                    lemma_map_of_update(s, i as int, self.entries@[i as int]);
                    assert(self.entries@ =~= s.update(i as int, self.entries@[i as int]));
                    assert(forall|p: int, q: int|
                        0 <= p < q < self.entries@.len() ==> self.entries@[p].name@
                            != self.entries@[q].name@);
                    assert(s[i as int].name@ == name@);
                    assert(old(self)@[name@] == s[i as int].entry.hold_count as nat);
                }
                match r {
                    Ok(()) => {
                        proof {
                            assert(acquire_allowed(old(self)@, name@));
                        }
                        Ok(())
                    },
                    Err(e) => {
                        proof {
                            assert(!acquire_allowed(old(self)@, name@));
                        }
                        Err(e)
                    },
                }
            },
            None => {
                // The first acquire of a name doubles as creation: inserting
                // the entry is itself the success path.
                self.insert_if_absent(name.clone(), LockEntry::new_held());
                Ok(())
            },
        }
    }

    /// Release the named lock. A Held lock moves one hold towards Free; a
    /// Free lock is declined with `NotHeld`; a name never acquired is
    /// declined with `UnknownName`. A release never creates an entry.
    pub fn release(&mut self, name: &String) -> (r: Result<(), LockError>)
        requires
            old(self).wf(),
        ensures
            final(self).wf(),
            r == release_outcome(old(self)@, name@),
            final(self)@ == release_next(old(self)@, name@),
    {
        proof {
            lemma_map_of_contains(self.entries@, name@);
        }
        match self.find_index(name) {
            Some(i) => {
                proof {
                    lemma_map_of_get(self.entries@, i as int);
                }
                let ghost s = self.entries@;
                let slot = &mut self.entries[i];
                let r = slot.entry.try_release();
                proof {
                    lemma_map_of_update(s, i as int, self.entries@[i as int]);
                    assert(self.entries@ =~= s.update(i as int, self.entries@[i as int]));
                    assert(forall|p: int, q: int|
                        0 <= p < q < self.entries@.len() ==> self.entries@[p].name@
                            != self.entries@[q].name@);
                    assert(s[i as int].name@ == name@);
                    assert(old(self)@[name@] == s[i as int].entry.hold_count as nat);
                }
                match r {
                    Ok(()) => {
                        proof {
                            assert(old(self)@[name@] > 0);
                        }
                        Ok(())
                    },
                    Err(e) => {
                        proof {
                            assert(old(self)@[name@] == 0);
                        }
                        Err(e)
                    },
                }
            },
            None => Err(LockError::UnknownName),
        }
    }

    /// The named lock's hold count, if the registry has seen the name.
    pub fn hold_count(&self, name: &String) -> (r: Option<u64>)
        requires
            self.wf(),
        ensures
            match r {
                Some(c) => self@.contains_key(name@) && c as nat == self@[name@],
                None => !self@.contains_key(name@),
            },
    {
        match self.lookup(name) {
            Some(e) => Some(e.hold_count),
            None => None,
        }
    }
}

} // verus!
