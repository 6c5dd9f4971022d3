use named_locks::entry::LockEntry;
use named_locks::error::LockError;
use named_locks::registry::LockRegistry;

#[test]
fn acquire_twice_same_name() {
    let mut reg = LockRegistry::new();
    let name = String::from("alpha");
    assert_eq!(reg.acquire(&name), Ok(()));
    assert_eq!(reg.acquire(&name), Err(LockError::AlreadyHeld));
    assert_eq!(reg.hold_count(&name), Some(1));
}

#[test]
fn release_unknown_name() {
    let mut reg = LockRegistry::new();
    let name = String::from("beta");
    assert_eq!(reg.release(&name), Err(LockError::UnknownName));
    assert_eq!(reg.hold_count(&name), None);
}

#[test]
fn release_twice_same_name() {
    let mut reg = LockRegistry::new();
    let name = String::from("gamma");
    assert_eq!(reg.acquire(&name), Ok(()));
    assert_eq!(reg.release(&name), Ok(()));
    assert_eq!(reg.release(&name), Err(LockError::NotHeld));
    assert_eq!(reg.hold_count(&name), Some(0));
}

#[test]
fn fifty_acquires_one_winner() {
    // Fifty racing acquires of one fresh name are serialized by the entry's
    // guard; in any serialization exactly the first succeeds.
    let mut reg = LockRegistry::new();
    let name = String::from("delta");
    let mut successes: usize = 0;
    let mut already_held: usize = 0;
    for _ in 0..50 {
        match reg.acquire(&name) {
            Ok(()) => successes += 1,
            Err(LockError::AlreadyHeld) => already_held += 1,
            Err(e) => panic!("unexpected error: {:?}", e),
        }
    }
    assert_eq!(successes, 1);
    assert_eq!(already_held, 49);
    assert_eq!(reg.hold_count(&name), Some(1));
}

#[test]
fn acquire_unseen_name_succeeds() {
    let mut reg = LockRegistry::new();
    let name = String::from("job-a");
    assert_eq!(reg.hold_count(&name), None);
    assert_eq!(reg.acquire(&name), Ok(()));
    assert_eq!(reg.hold_count(&name), Some(1));
}

#[test]
fn acquire_after_release_succeeds() {
    let mut reg = LockRegistry::new();
    let name = String::from("job-b");
    assert_eq!(reg.acquire(&name), Ok(()));
    assert_eq!(reg.release(&name), Ok(()));
    assert_eq!(reg.acquire(&name), Ok(()));
    assert_eq!(reg.hold_count(&name), Some(1));
}

#[test]
fn cycle_leaves_name_known_and_free() {
    let mut reg = LockRegistry::new();
    let name = String::from("job-c");
    assert_eq!(reg.acquire(&name), Ok(()));
    assert_eq!(reg.release(&name), Ok(()));
    // The name now exists in the registry, Free: not a full reset.
    assert_eq!(reg.hold_count(&name), Some(0));
}

#[test]
fn names_are_independent() {
    let mut reg = LockRegistry::new();
    let a = String::from("first");
    let b = String::from("second");
    assert_eq!(reg.acquire(&a), Ok(()));
    assert_eq!(reg.acquire(&b), Ok(()));
    assert_eq!(reg.release(&a), Ok(()));
    assert_eq!(reg.hold_count(&a), Some(0));
    assert_eq!(reg.hold_count(&b), Some(1));
    assert_eq!(reg.acquire(&b), Err(LockError::AlreadyHeld));
}

#[test]
fn empty_name_is_a_name() {
    let mut reg = LockRegistry::new();
    let name = String::new();
    assert_eq!(reg.acquire(&name), Ok(()));
    assert_eq!(reg.acquire(&name), Err(LockError::AlreadyHeld));
    assert_eq!(reg.release(&name), Ok(()));
}

#[test]
fn lookup_unseen_name() {
    let reg = LockRegistry::new();
    assert!(reg.lookup(&String::from("nobody")).is_none());
}

#[test]
fn lookup_seen_name() {
    let mut reg = LockRegistry::new();
    let name = String::from("seen");
    assert_eq!(reg.acquire(&name), Ok(()));
    let entry = reg.lookup(&name).expect("entry must exist after acquire");
    assert_eq!(entry.hold_count, 1);
}

#[test]
fn insert_if_absent_keeps_existing_entry() {
    let mut reg = LockRegistry::new();
    let name = String::from("epsilon");
    assert_eq!(reg.acquire(&name), Ok(()));
    assert_eq!(reg.release(&name), Ok(()));
    assert_eq!(reg.hold_count(&name), Some(0));
    // A racing creator finds the entry already present and must not
    // overwrite it.
    reg.insert_if_absent(name.clone(), LockEntry::new_held());
    assert_eq!(reg.hold_count(&name), Some(0));
}

#[test]
fn insert_if_absent_creates_missing_entry() {
    let mut reg = LockRegistry::new();
    let name = String::from("zeta");
    reg.insert_if_absent(name.clone(), LockEntry::new_held());
    assert_eq!(reg.hold_count(&name), Some(1));
}

#[test]
fn entry_state_machine() {
    let mut e = LockEntry::new_held();
    assert_eq!(e.hold_count, 1);
    assert_eq!(e.try_acquire(), Err(LockError::AlreadyHeld));
    assert_eq!(e.hold_count, 1);
    assert_eq!(e.try_release(), Ok(()));
    assert_eq!(e.hold_count, 0);
    assert_eq!(e.try_release(), Err(LockError::NotHeld));
    assert_eq!(e.hold_count, 0);
    assert_eq!(e.try_acquire(), Ok(()));
    assert_eq!(e.hold_count, 1);
}

#[test]
fn error_messages() {
    assert_eq!(LockError::AlreadyHeld.message(), "Unable to get lock");
    assert_eq!(LockError::NotHeld.message(), "Unable to get lock");
    assert_eq!(LockError::UnknownName.message(), "Lock name does not exist");
}
