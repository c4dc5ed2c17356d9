use zenoh_shm::common::ZError;
use zenoh_shm::header::{
    AllocatedHeaderDescriptor, Header, HeaderDescriptor, HeaderStorage, OwnedHeaderDescriptor,
};
use zenoh_shm::pool::SlotPool;

#[test]
fn slot_pool_takes_in_increasing_order_and_reuses_the_last_given_back() {
    let mut pool = SlotPool::new(3);
    assert_eq!(pool.free_count(), 3);
    assert_eq!(pool.take(), Some(0));
    assert_eq!(pool.take(), Some(1));
    assert!(pool.check_taken(0));
    assert!(!pool.check_taken(2));
    assert!(!pool.check_taken(3));
    assert!(pool.give_back(0));
    assert!(!pool.give_back(0));
    assert!(!pool.give_back(7));
    assert_eq!(pool.take(), Some(0));
    assert_eq!(pool.take(), Some(2));
    assert_eq!(pool.take(), None);
    assert_eq!(pool.free_count(), 0);
}

#[test]
fn allocation_sets_refcount_and_advances_generation() {
    let mut headers = HeaderStorage::new(9, 2);
    assert!(headers.has_free());
    let first = headers.allocate_header().unwrap();
    assert_eq!(first.descriptor, OwnedHeaderDescriptor { segment: 9, index: 0 });
    assert_eq!(
        headers.header(&first.descriptor),
        Some(Header { refcount: 1, generation: 1, watchdog_invalidated: false })
    );
    let second = headers.allocate_header().unwrap();
    assert_eq!(second.descriptor.index, 1);
    assert!(!headers.has_free());
    assert_eq!(headers.allocate_header().unwrap_err(), ZError::Exhausted);
}

#[test]
fn generations_of_a_record_are_strictly_increasing() {
    let mut headers = HeaderStorage::new(1, 1);
    let mut seen = vec![];
    for _ in 0..5 {
        let header = headers.allocate_header().unwrap();
        let generation = headers.header(&header.descriptor).unwrap().generation;
        seen.push(generation);
        assert!(headers.invalidate(&header.descriptor));
        assert!(headers.reclaim_header(header));
    }
    assert_eq!(seen, vec![1, 2, 3, 4, 5]);
}

#[test]
fn reclaiming_keeps_the_record_and_frees_the_slot_once() {
    let mut headers = HeaderStorage::new(1, 2);
    let header = headers.allocate_header().unwrap();
    let descriptor = header.descriptor;
    assert_eq!(headers.release(&descriptor), Some(0));
    assert!(headers.reclaim_header(header));
    assert_eq!(
        headers.header(&descriptor),
        Some(Header { refcount: 0, generation: 1, watchdog_invalidated: false })
    );
    assert!(!headers.reclaim_header(AllocatedHeaderDescriptor { descriptor }));
    let foreign = OwnedHeaderDescriptor { segment: 2, index: 0 };
    assert!(!headers.reclaim_header(AllocatedHeaderDescriptor { descriptor: foreign }));
    assert_eq!(headers.header(&foreign), None);
    assert_eq!(headers.header(&OwnedHeaderDescriptor { segment: 1, index: 2 }), None);
}

#[test]
fn references_are_counted_between_zero_and_the_maximum() {
    let mut headers = HeaderStorage::new(1, 1);
    let header = headers.allocate_header().unwrap();
    let descriptor = header.descriptor;
    assert!(headers.retain(&descriptor));
    assert!(headers.retain(&descriptor));
    assert_eq!(headers.header(&descriptor).unwrap().refcount, 3);
    assert_eq!(headers.release(&descriptor), Some(2));
    assert_eq!(headers.release(&descriptor), Some(1));
    assert_eq!(headers.release(&descriptor), Some(0));
    assert_eq!(headers.release(&descriptor), Some(0));
    let nowhere = OwnedHeaderDescriptor { segment: 1, index: 5 };
    assert!(!headers.retain(&nowhere));
    assert_eq!(headers.release(&nowhere), None);
    assert!(!headers.invalidate(&nowhere));
}

#[test]
fn stale_descriptors_are_refused() {
    let mut headers = HeaderStorage::new(4, 1);
    let header = headers.allocate_header().unwrap();
    let wire = HeaderDescriptor::from(&header.descriptor);
    assert_eq!(headers.check_generation(&wire, 1), Ok(()));
    assert_eq!(headers.check_generation(&wire, 0), Err(ZError::StaleDescriptor));
    headers.reclaim_header(header);
    let _next = headers.allocate_header().unwrap();
    assert_eq!(headers.check_generation(&wire, 1), Err(ZError::StaleDescriptor));
    assert_eq!(headers.check_generation(&wire, 2), Ok(()));
    let elsewhere = HeaderDescriptor { id: 5, index: 0 };
    assert_eq!(headers.check_generation(&elsewhere, 2), Err(ZError::SegmentNotFound));
    let beyond = HeaderDescriptor { id: 4, index: 1 };
    assert_eq!(headers.check_generation(&beyond, 2), Err(ZError::SegmentNotFound));
}
