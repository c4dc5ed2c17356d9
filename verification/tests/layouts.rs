use zenoh_shm::common::ZError;
use zenoh_shm::posix::backend::PosixSharedMemoryProviderBackend;
use zenoh_shm::types::{AllocAlignment, AllocLayout, MemoryLayout, ZAllocError};

#[test]
fn alignment_value_is_two_to_the_exponent() {
    assert_eq!(AllocAlignment::new(0).get_alignment_value(), 1);
    assert_eq!(AllocAlignment::new(1).get_alignment_value(), 2);
    assert_eq!(AllocAlignment::new(3).get_alignment_value(), 8);
    assert_eq!(AllocAlignment::new(12).get_alignment_value(), 4096);
    assert_eq!(AllocAlignment::new(5).get_exponent(), 5);
}

#[test]
fn default_alignment_is_one_byte() {
    let alignment = AllocAlignment::default();
    assert_eq!(alignment, AllocAlignment::new(0));
    assert_eq!(alignment.get_alignment_value(), 1);
}

#[test]
fn align_size_rounds_up_to_the_next_multiple() {
    let eight = AllocAlignment::new(3);
    assert_eq!(eight.align_size(0), 0);
    assert_eq!(eight.align_size(1), 8);
    assert_eq!(eight.align_size(8), 8);
    assert_eq!(eight.align_size(100), 104);
    assert_eq!(AllocAlignment::new(0).align_size(13), 13);
}

#[test]
fn alignments_are_ordered_by_exponent() {
    assert!(AllocAlignment::new(2) < AllocAlignment::new(3));
    assert!(AllocAlignment::new(3) >= AllocAlignment::new(3));
}

#[test]
fn memory_layout_accepts_multiples_only() {
    let four = AllocAlignment::new(2);
    let layout = MemoryLayout::new(100, four).unwrap();
    assert_eq!(layout.size(), 100);
    assert_eq!(layout.alignment(), four);
    assert_eq!(MemoryLayout::new(101, four), Err(ZError::BadLayout));
    assert_eq!(MemoryLayout::new(102, four), Err(ZError::BadLayout));
    assert!(MemoryLayout::new(0, four).is_ok());
    assert!(MemoryLayout::new(104, four).is_ok());
    for size in 0..64usize {
        for pow in 0..6u32 {
            let accepted = MemoryLayout::new(size, AllocAlignment::new(pow)).is_ok();
            assert_eq!(accepted, size % (1usize << pow) == 0);
        }
    }
}

#[test]
fn memory_layout_with_an_alignment_beyond_the_word() {
    let huge = AllocAlignment::new(200);
    assert!(!huge.is_representable());
    assert!(MemoryLayout::new(0, huge).is_ok());
    assert_eq!(MemoryLayout::new(1024, huge), Err(ZError::BadLayout));
}

#[test]
fn memory_layout_extends_to_a_larger_alignment() {
    let layout = MemoryLayout::new(100, AllocAlignment::new(2)).unwrap();
    let extended = layout.extend(AllocAlignment::new(4)).unwrap();
    assert_eq!(extended.size(), 112);
    assert_eq!(extended.alignment(), AllocAlignment::new(4));
    assert_eq!(layout.extend(AllocAlignment::new(1)), Err(ZError::BadAlignment));
    assert_eq!(layout.extend(AllocAlignment::new(200)), Err(ZError::BadLayout));
    let same = layout.extend(AllocAlignment::new(2)).unwrap();
    assert_eq!(same, layout);
    let near_max = MemoryLayout::new(usize::MAX, AllocAlignment::new(0)).unwrap();
    assert_eq!(near_max.extend(AllocAlignment::new(4)), Err(ZError::BadLayout));
}

#[test]
fn alloc_layout_checks_alignment_then_size() {
    let wide = MemoryLayout::new(4096, AllocAlignment::new(3)).unwrap();
    let backend = PosixSharedMemoryProviderBackend::builder()
        .with_layout(&wide)
        .unwrap()
        .res()
        .unwrap();
    let layout = AllocLayout::new(96, AllocAlignment::new(3), &backend).unwrap();
    assert_eq!(layout.layout.size(), 96);
    assert_eq!(layout.size(), 96);
    assert_eq!(layout.alignment(), AllocAlignment::new(3));
    assert_eq!(
        AllocLayout::new(96, AllocAlignment::new(4), &backend),
        Err(ZError::BadAlignment)
    );
    assert_eq!(
        AllocLayout::new(97, AllocAlignment::new(4), &backend),
        Err(ZError::BadAlignment)
    );
    assert_eq!(
        AllocLayout::new(97, AllocAlignment::new(3), &backend),
        Err(ZError::BadLayout)
    );
}

#[test]
fn other_errors_become_allocation_errors() {
    assert_eq!(
        ZAllocError::from(ZError::Exhausted),
        ZAllocError::Other(ZError::Exhausted)
    );
    assert_eq!(
        ZAllocError::from(ZError::Other(String::from("os"))),
        ZAllocError::Other(ZError::Other(String::from("os")))
    );
}

#[test]
fn layouts_as_text() {
    assert_eq!(AllocAlignment::new(0).to_text(), "[1]");
    assert_eq!(AllocAlignment::new(3).to_text(), "[8]");
    assert_eq!(AllocAlignment::new(10).to_text(), "[1024]");
    let layout = MemoryLayout::new(96, AllocAlignment::new(3)).unwrap();
    assert_eq!(layout.to_text(), "[size=96,alignment=[8]]");
    let nothing = MemoryLayout::new(0, AllocAlignment::new(0)).unwrap();
    assert_eq!(nothing.to_text(), "[size=0,alignment=[1]]");
}
