use zenoh_shm::chunk::{AllocatedChunk, ChunkDescriptor};
use zenoh_shm::header::{HeaderDescriptor, OwnedHeaderDescriptor};
use zenoh_shm::watchdog::descriptor::{bit_position, Descriptor, OwnedDescriptor, MAX_WORD_INDEX};

#[test]
fn chunk_descriptor_holds_its_parts() {
    let descriptor = ChunkDescriptor::new(7, 4096, 1024);
    assert_eq!(descriptor.segment, 7);
    assert_eq!(descriptor.chunk, 4096);
    assert_eq!(descriptor.len, 1024);
    let chunk = AllocatedChunk::new(descriptor, 0x1000);
    assert_eq!(chunk.descriptor, descriptor);
    assert_eq!(chunk.data, 0x1000);
}

#[test]
fn bit_position_is_the_highest_set_bit() {
    assert_eq!(bit_position(0), 0);
    assert_eq!(bit_position(1), 0);
    assert_eq!(bit_position(2), 1);
    assert_eq!(bit_position(3), 1);
    assert_eq!(bit_position(1 << 9), 9);
    assert_eq!(bit_position(1 << 63), 63);
    assert_eq!(bit_position(u64::MAX), 63);
    for bitpos in 0..64u32 {
        assert_eq!(bit_position(1u64 << bitpos), bitpos);
    }
}

#[test]
fn descriptor_packs_index_and_bit_position() {
    let owned = OwnedDescriptor::new(7, 5, 1 << 9);
    let descriptor = Descriptor::from(&owned);
    assert_eq!(descriptor.id, 7);
    assert_eq!(descriptor.index_and_bitpos, (5 << 6) | 9);
    assert_eq!(descriptor.index_and_bitpos, 329);
    assert_eq!(descriptor.index(), 5);
    assert_eq!(descriptor.bitpos(), 9);
    assert_eq!(descriptor.to_owned(), owned);
}

#[test]
fn packing_round_trips_over_the_whole_range() {
    for &index in &[0u32, 1, 63, 64, 65_535, MAX_WORD_INDEX - 1, MAX_WORD_INDEX] {
        for bitpos in 0..64u32 {
            let owned = OwnedDescriptor::new(3, index, 1u64 << bitpos);
            let descriptor = Descriptor::from(&owned);
            assert_eq!(descriptor.index(), index);
            assert_eq!(descriptor.bitpos(), bitpos);
            assert_eq!(descriptor.to_owned(), owned);
        }
    }
    let last = Descriptor { id: 0, index_and_bitpos: u32::MAX };
    assert_eq!(last.index(), MAX_WORD_INDEX);
    assert_eq!(last.bitpos(), 63);
    assert_eq!(Descriptor::from(&last.to_owned()), last);
}

#[test]
fn header_descriptor_of_an_owned_handle() {
    let owned = OwnedHeaderDescriptor { segment: 11, index: 42 };
    assert_eq!(HeaderDescriptor::from(&owned), HeaderDescriptor { id: 11, index: 42 });
}
