use zenoh_shm::common::ZError;
use zenoh_shm::header::{HeaderStorage, OwnedHeaderDescriptor};
use zenoh_shm::watchdog::confirmator::Confirmator;
use zenoh_shm::watchdog::descriptor::{OwnedDescriptor, MAX_WORD_INDEX};
use zenoh_shm::watchdog::storage::{AllocatedWatchdog, Storage};
use zenoh_shm::watchdog::validator::Validator;

#[test]
fn storage_without_segments_is_exhausted() {
    let mut storage = Storage::new();
    assert!(!storage.has_free());
    assert_eq!(storage.allocate_watchdog().unwrap_err(), ZError::Exhausted);
}

#[test]
fn bits_are_allocated_word_by_word() {
    let mut storage = Storage::new();
    assert!(storage.add_segment(40, 2));
    for bit in 0..64u32 {
        let watchdog = storage.allocate_watchdog().unwrap();
        assert_eq!(watchdog.descriptor, OwnedDescriptor::new(40, 0, 1 << bit));
    }
    let next = storage.allocate_watchdog().unwrap();
    assert_eq!(next.descriptor, OwnedDescriptor::new(40, 1, 1));
    for _ in 1..64 {
        storage.allocate_watchdog().unwrap();
    }
    assert!(!storage.has_free());
    assert_eq!(storage.allocate_watchdog().unwrap_err(), ZError::Exhausted);
}

#[test]
fn storage_grows_by_segments() {
    let mut storage = Storage::new();
    assert!(storage.add_segment(1, 1));
    assert!(!storage.add_segment(1, 1));
    assert!(!storage.add_segment(2, MAX_WORD_INDEX + 1));
    for _ in 0..64 {
        storage.allocate_watchdog().unwrap();
    }
    assert!(storage.allocate_watchdog().is_err());
    assert!(storage.add_segment(2, 1));
    let grown = storage.allocate_watchdog().unwrap();
    assert_eq!(grown.descriptor, OwnedDescriptor::new(2, 0, 1));
}

#[test]
fn a_freed_bit_is_the_next_to_be_allocated() {
    let mut storage = Storage::new();
    storage.add_segment(1, 1);
    let a = storage.allocate_watchdog().unwrap();
    let b = storage.allocate_watchdog().unwrap();
    let freed = a.descriptor;
    assert!(storage.free_watchdog(a));
    assert!(!storage.free_watchdog(AllocatedWatchdog { descriptor: freed }));
    assert!(!storage.free_watchdog(AllocatedWatchdog {
        descriptor: OwnedDescriptor::new(9, 0, 1)
    }));
    let again = storage.allocate_watchdog().unwrap();
    assert_eq!(again.descriptor, freed);
    assert_eq!(b.descriptor, OwnedDescriptor::new(1, 0, 2));
}

#[test]
fn confirm_sets_and_validate_clears_the_bit() {
    let mut storage = Storage::new();
    storage.add_segment(1, 1);
    let a = storage.allocate_watchdog().unwrap().descriptor;
    let b = storage.allocate_watchdog().unwrap().descriptor;
    assert_eq!(a.validate(&mut storage), 0);
    a.confirm(&mut storage);
    b.confirm(&mut storage);
    assert_eq!(a.validate(&mut storage), a.mask);
    assert_eq!(a.validate(&mut storage), 0);
    assert_eq!(b.validate(&mut storage), b.mask);
    let nowhere = OwnedDescriptor::new(1, 5, 1);
    nowhere.confirm(&mut storage);
    assert_eq!(nowhere.validate(&mut storage), 0);
    let elsewhere = OwnedDescriptor::new(3, 0, 1);
    elsewhere.confirm(&mut storage);
    assert_eq!(elsewhere.validate(&mut storage), 0);
}

#[test]
fn allocation_clears_the_bit() {
    let mut storage = Storage::new();
    storage.add_segment(1, 1);
    let a = storage.allocate_watchdog().unwrap();
    let descriptor = a.descriptor;
    descriptor.confirm(&mut storage);
    storage.free_watchdog(a);
    let again = storage.allocate_watchdog().unwrap();
    assert_eq!(again.descriptor, descriptor);
    assert_eq!(descriptor.validate(&mut storage), 0);
}

#[test]
fn confirmator_keeps_registered_bits_alive() {
    let mut storage = Storage::new();
    storage.add_segment(1, 1);
    let a = storage.allocate_watchdog().unwrap().descriptor;
    let b = storage.allocate_watchdog().unwrap().descriptor;
    let mut confirmator = Confirmator::new();
    let handle = confirmator.add_owned(&mut storage, &a);
    assert_eq!(handle.owned, a);
    assert_eq!(a.validate(&mut storage), a.mask);
    confirmator.confirm_all(&mut storage);
    assert_eq!(a.validate(&mut storage), a.mask);
    assert_eq!(b.validate(&mut storage), 0);
    confirmator.remove(handle);
    confirmator.confirm_all(&mut storage);
    assert_eq!(a.validate(&mut storage), 0);
}

#[test]
fn validator_flags_the_header_of_a_bit_that_was_not_confirmed() {
    let mut storage = Storage::new();
    storage.add_segment(1, 1);
    let mut headers = HeaderStorage::new(2, 2);
    let alive_header: OwnedHeaderDescriptor = headers.allocate_header().unwrap().descriptor;
    let dead_header: OwnedHeaderDescriptor = headers.allocate_header().unwrap().descriptor;
    let alive = storage.allocate_watchdog().unwrap().descriptor;
    let dead = storage.allocate_watchdog().unwrap().descriptor;
    let mut confirmator = Confirmator::new();
    let _alive_handle = confirmator.add_owned(&mut storage, &alive);
    let dead_handle = confirmator.add_owned(&mut storage, &dead);
    let mut validator = Validator::new();
    validator.add(alive, alive_header);
    validator.add(dead, dead_header);

    // the owner of `dead` stops confirming
    confirmator.remove(dead_handle);

    // first round: both bits were set when the round began
    validator.validate_all(&mut storage, &mut headers);
    assert!(!headers.header(&alive_header).unwrap().watchdog_invalidated);
    assert!(!headers.header(&dead_header).unwrap().watchdog_invalidated);

    // second round: only `alive` was confirmed in between
    confirmator.confirm_all(&mut storage);
    validator.validate_all(&mut storage, &mut headers);
    assert!(!headers.header(&alive_header).unwrap().watchdog_invalidated);
    assert!(headers.header(&dead_header).unwrap().watchdog_invalidated);

    // the flag is raised once: clearing it by hand shows that later rounds leave it alone
    let mut later = HeaderStorage::new(2, 2);
    let _ = later.allocate_header();
    let _ = later.allocate_header();
    confirmator.confirm_all(&mut storage);
    validator.validate_all(&mut storage, &mut later);
    confirmator.confirm_all(&mut storage);
    validator.validate_all(&mut storage, &mut later);
    assert!(!later.header(&dead_header).unwrap().watchdog_invalidated);
    assert!(!later.header(&alive_header).unwrap().watchdog_invalidated);
}

#[test]
fn validator_forgets_a_removed_bit() {
    let mut storage = Storage::new();
    storage.add_segment(1, 1);
    let mut headers = HeaderStorage::new(2, 1);
    let header = headers.allocate_header().unwrap().descriptor;
    let bit = storage.allocate_watchdog().unwrap().descriptor;
    let mut validator = Validator::new();
    validator.add(bit, header);
    validator.remove(&bit);
    validator.validate_all(&mut storage, &mut headers);
    validator.validate_all(&mut storage, &mut headers);
    assert!(!headers.header(&header).unwrap().watchdog_invalidated);
}
