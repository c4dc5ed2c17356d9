use zenoh_shm::buffer::SharedMemoryBufInfo;
use zenoh_shm::chunk::ChunkDescriptor;
use zenoh_shm::codec::shm::{RCodec, Reader, WCodec, Zenoh080};
use zenoh_shm::codec::zint::{read_u32_at, read_u64_at, write_u32, write_u64, DidntRead};
use zenoh_shm::header::HeaderDescriptor;
use zenoh_shm::watchdog::descriptor::Descriptor;

fn encode_u64(x: u64) -> Vec<u8> {
    let mut bytes = vec![];
    write_u64(&mut bytes, x);
    bytes
}

#[test]
fn integers_are_written_in_groups_of_seven_bits() {
    assert_eq!(encode_u64(0), vec![0x00]);
    assert_eq!(encode_u64(1), vec![0x01]);
    assert_eq!(encode_u64(127), vec![0x7f]);
    assert_eq!(encode_u64(128), vec![0x80, 0x01]);
    assert_eq!(encode_u64(300), vec![0xac, 0x02]);
    assert_eq!(encode_u64(16_383), vec![0xff, 0x7f]);
    assert_eq!(encode_u64(16_384), vec![0x80, 0x80, 0x01]);
    assert_eq!(encode_u64(u32::MAX as u64), vec![0xff, 0xff, 0xff, 0xff, 0x0f]);
}

#[test]
fn the_ninth_byte_carries_eight_bits() {
    assert_eq!(encode_u64(u64::MAX), vec![0xff; 9]);
    assert_eq!(
        encode_u64(1 << 56),
        vec![0x80, 0x80, 0x80, 0x80, 0x80, 0x80, 0x80, 0x80, 0x01]
    );
    assert_eq!(
        encode_u64(1 << 63),
        vec![0x80, 0x80, 0x80, 0x80, 0x80, 0x80, 0x80, 0x80, 0x80]
    );
    assert_eq!(read_u64_at(&[0xff; 9], 0), Some((u64::MAX, 9)));
    assert_eq!(read_u64_at(&[0xff; 12], 1), Some((u64::MAX, 10)));
}

#[test]
fn integers_round_trip() {
    let samples = [
        0u64,
        1,
        127,
        128,
        255,
        256,
        300,
        65_535,
        1 << 21,
        (1 << 28) - 1,
        1 << 35,
        u32::MAX as u64,
        (u32::MAX as u64) + 1,
        1 << 49,
        (1 << 56) - 1,
        1 << 56,
        1 << 63,
        u64::MAX - 1,
        u64::MAX,
        0x1234_5678_9abc_def0,
    ];
    for &x in &samples {
        let mut bytes = vec![0xee];
        write_u64(&mut bytes, x);
        let end = bytes.len();
        bytes.push(0x55);
        assert_eq!(read_u64_at(&bytes, 1), Some((x, end)));
        assert!(end - 1 >= 1 && end - 1 <= 9);
    }
    for &x in &[0u32, 1, 127, 128, 1 << 14, u32::MAX - 1, u32::MAX] {
        let mut bytes = vec![];
        write_u32(&mut bytes, x);
        assert_eq!(read_u32_at(&bytes, 0), Some((x, bytes.len())));
    }
}

#[test]
fn truncated_integers_are_not_read() {
    assert_eq!(read_u64_at(&[], 0), None);
    assert_eq!(read_u64_at(&[0x80], 0), None);
    assert_eq!(read_u64_at(&[0xff, 0xff], 0), None);
    assert_eq!(read_u64_at(&[0x01], 1), None);
    let full = encode_u64(u64::MAX);
    for cut in 0..full.len() {
        assert_eq!(read_u64_at(&full[..cut], 0), None);
    }
}

#[test]
fn an_integer_beyond_32_bits_is_no_u32() {
    let bytes = encode_u64((u32::MAX as u64) + 1);
    assert_eq!(read_u32_at(&bytes, 0), None);
    let bytes = encode_u64(u32::MAX as u64);
    assert_eq!(read_u32_at(&bytes, 0), Some((u32::MAX, 5)));
}

fn sample_info() -> SharedMemoryBufInfo {
    SharedMemoryBufInfo::new(
        ChunkDescriptor::new(5, 6, 7),
        8,
        9,
        Descriptor { id: 1, index_and_bitpos: 2 },
        HeaderDescriptor { id: 3, index: 4 },
        300,
    )
}

#[test]
fn buf_info_fields_are_written_in_order() {
    let codec = Zenoh080::new();
    let info = sample_info();
    assert_eq!(info.watchdog_descriptor, Descriptor { id: 1, index_and_bitpos: 2 });
    assert_eq!(info.header_descriptor, HeaderDescriptor { id: 3, index: 4 });
    assert_eq!(info.generation, 300);
    assert_eq!(info.data_descriptor, ChunkDescriptor::new(5, 6, 7));
    assert_eq!(info.shm_protocol, 8);
    assert_eq!(info.data_len, 9);
    let mut bytes = vec![];
    codec.write(&mut bytes, &info);
    assert_eq!(bytes, vec![1, 2, 3, 4, 0xac, 0x02, 5, 6, 7, 8, 9]);
}

#[test]
fn descriptors_are_written_in_order() {
    let codec = Zenoh080::new();
    let mut bytes = vec![];
    codec.write(&mut bytes, &Descriptor { id: 200, index_and_bitpos: 1 });
    assert_eq!(bytes, vec![0xc8, 0x01, 0x01]);
    let mut bytes = vec![];
    codec.write(&mut bytes, &HeaderDescriptor { id: 1, index: 200 });
    assert_eq!(bytes, vec![0x01, 0xc8, 0x01]);
    let mut bytes = vec![];
    codec.write(&mut bytes, &ChunkDescriptor::new(1, 2, 200));
    assert_eq!(bytes, vec![0x01, 0x02, 0xc8, 0x01]);
}

#[test]
fn descriptors_round_trip() {
    let codec = Zenoh080::new();
    let watchdog = Descriptor { id: u32::MAX, index_and_bitpos: 0xdead_beef };
    let header = HeaderDescriptor { id: 77, index: u32::MAX };
    let chunk = ChunkDescriptor::new(0, u32::MAX, 1 << 20);
    let info = SharedMemoryBufInfo::new(chunk, u32::MAX, u64::MAX, watchdog, header, 1 << 31);

    let mut bytes = vec![];
    codec.write(&mut bytes, &watchdog);
    codec.write(&mut bytes, &header);
    codec.write(&mut bytes, &chunk);
    codec.write(&mut bytes, &info);
    codec.write(&mut bytes, 0xabu8);

    let mut reader = Reader::new(&bytes);
    let read_watchdog: Descriptor = codec.read(&mut reader).unwrap();
    assert_eq!(read_watchdog, watchdog);
    let read_header: HeaderDescriptor = codec.read(&mut reader).unwrap();
    assert_eq!(read_header, header);
    let read_chunk: ChunkDescriptor = codec.read(&mut reader).unwrap();
    assert_eq!(read_chunk, chunk);
    let read_info: SharedMemoryBufInfo = codec.read(&mut reader).unwrap();
    assert_eq!(read_info, info);
    assert_eq!(reader.len(), 1);
    let last: u8 = codec.read(&mut reader).unwrap();
    assert_eq!(last, 0xab);
    assert_eq!(reader.len(), 0);
    let nothing: Result<u8, DidntRead> = codec.read(&mut reader);
    assert_eq!(nothing, Err(DidntRead));
}

#[test]
fn truncated_descriptors_fail_and_leave_the_reader() {
    let codec = Zenoh080::new();
    let mut bytes = vec![];
    codec.write(&mut bytes, &sample_info());
    for cut in 0..bytes.len() {
        let mut reader = Reader::new(&bytes[..cut]);
        let result: Result<SharedMemoryBufInfo, DidntRead> = codec.read(&mut reader);
        assert_eq!(result, Err(DidntRead));
        assert_eq!(reader.len(), cut);
    }
    let mut reader = Reader::new(&bytes);
    let result: Result<SharedMemoryBufInfo, DidntRead> = codec.read(&mut reader);
    assert_eq!(result, Ok(sample_info()));

    let mut short = vec![];
    codec.write(&mut short, 5u32);
    let mut reader = Reader::new(&short);
    let result: Result<ChunkDescriptor, DidntRead> = codec.read(&mut reader);
    assert!(result.is_err());
    assert_eq!(reader.len(), 1);
    let result: Result<Descriptor, DidntRead> = codec.read(&mut reader);
    assert!(result.is_err());
    let result: Result<HeaderDescriptor, DidntRead> = codec.read(&mut reader);
    assert!(result.is_err());
    assert_eq!(reader.len(), 1);
    let first: u32 = codec.read(&mut reader).unwrap();
    assert_eq!(first, 5);
}

#[test]
fn reader_marks_and_rewinds() {
    let codec = Zenoh080::new();
    let bytes = vec![1u8, 2, 3];
    let mut reader = Reader::new(&bytes);
    let mark = reader.mark();
    let a: u8 = codec.read(&mut reader).unwrap();
    let b: u64 = codec.read(&mut reader).unwrap();
    assert_eq!((a, b), (1, 2));
    reader.rewind(mark);
    assert_eq!(reader.len(), 3);
    let again: u32 = codec.read(&mut reader).unwrap();
    assert_eq!(again, 1);
}
