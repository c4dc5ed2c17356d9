use zenoh_shm::backend::SharedMemoryProviderBackend;
use zenoh_shm::posix::backend::PosixSharedMemoryProviderBackend;
use zenoh_shm::posix::client::{
    PosixSharedMemoryClient, SharedMemoryClient, SharedMemorySegment,
};
use zenoh_shm::types::{AllocAlignment, AllocLayout, MemoryLayout, ZAllocError};

const BUFFER_NUM: usize = 100;
const BUFFER_SIZE: usize = 1024;

#[test]
fn posix_shm_provider_create() {
    let _backend = PosixSharedMemoryProviderBackend::builder()
        .with_size(1024)
        .expect("Error creating Layout!")
        .res()
        .expect("Error creating PosixSharedMemoryProviderBackend!");
}

#[test]
fn posix_shm_provider_alloc() {
    let mut backend = PosixSharedMemoryProviderBackend::builder()
        .with_size(1024)
        .expect("Error creating Layout!")
        .res()
        .expect("Error creating PosixSharedMemoryProviderBackend!");

    let layout = AllocLayout::new(100, AllocAlignment::default(), &backend).unwrap();

    let _buf = backend
        .allocate(&layout)
        .expect("PosixSharedMemoryProviderBackend: error allocating buffer");
}

#[test]
fn posix_shm_provider_open() {
    let mut backend = PosixSharedMemoryProviderBackend::builder()
        .with_size(1024)
        .expect("Error creating Layout!")
        .res()
        .expect("Error creating PosixSharedMemoryProviderBackend!");

    let layout = AllocLayout::new(100, AllocAlignment::default(), &backend).unwrap();

    let buf = backend
        .allocate(&layout)
        .expect("PosixSharedMemoryProviderBackend: error allocating buffer");

    let client = PosixSharedMemoryClient {};

    let _segment = client
        .attach(buf.descriptor.segment)
        .expect("Error attaching to segment");
}

#[test]
fn posix_shm_provider_allocator() {
    let mut backend = PosixSharedMemoryProviderBackend::builder()
        .with_size(BUFFER_SIZE * BUFFER_NUM)
        .expect("Error creating Layout!")
        .res()
        .expect("Error creating PosixSharedMemoryProviderBackend!");

    let layout = AllocLayout::new(BUFFER_SIZE, AllocAlignment::default(), &backend).unwrap();

    // exaust memory by allocating it all
    let mut buffers = vec![];
    for _ in 0..BUFFER_NUM {
        let buf = backend
            .allocate(&layout)
            .expect("PosixSharedMemoryProviderBackend: error allocating buffer");
        buffers.push(buf);
    }

    for _ in 0..BUFFER_NUM {
        // there is nothing to allocate at this point
        assert_eq!(backend.available(), 0);
        assert!(backend.allocate(&layout).is_err());

        // free buffer
        let to_free = buffers.pop().unwrap().descriptor;
        backend.free(&to_free);

        // allocate new one
        let buf = backend
            .allocate(&layout)
            .expect("PosixSharedMemoryProviderBackend: error allocating buffer");
        buffers.push(buf);
    }

    // free everything
    while let Some(buffer) = buffers.pop() {
        backend.free(&buffer.descriptor);
    }

    // confirm that allocator is free
    assert_eq!(backend.available(), BUFFER_NUM * BUFFER_SIZE);
}

fn backend_of(size: usize) -> PosixSharedMemoryProviderBackend {
    PosixSharedMemoryProviderBackend::builder()
        .with_size(size)
        .expect("size")
        .res()
        .expect("segment")
}

#[test]
fn posix_basic_alloc_free() {
    let mut backend = backend_of(1024);
    assert_eq!(backend.available(), 1024);
    let layout = MemoryLayout::new(100, AllocAlignment::new(2)).unwrap();
    let chunk = backend.allocate(&layout).unwrap();
    assert_eq!(chunk.descriptor.len, 100);
    assert_eq!(chunk.descriptor.chunk, 0);
    assert_eq!(chunk.descriptor.segment, backend.segment_id());
    assert_eq!(backend.available(), 924);
    backend.free(&chunk.descriptor);
    assert_eq!(backend.available(), 1024);
}

#[test]
fn posix_exhaust_and_reuse() {
    let mut backend = backend_of(102_400);
    let layout = MemoryLayout::new(1024, AllocAlignment::new(0)).unwrap();
    let mut chunks = vec![];
    for i in 0..100u32 {
        let chunk = backend.allocate(&layout).unwrap();
        assert_eq!(chunk.descriptor.chunk, i * 1024);
        chunks.push(chunk);
    }
    assert_eq!(backend.available(), 0);
    assert_eq!(backend.allocate(&layout), Err(ZAllocError::OutOfMemory));
    let freed = chunks.pop().unwrap();
    backend.free(&freed.descriptor);
    let again = backend.allocate(&layout).unwrap();
    assert_eq!(again.descriptor, freed.descriptor);
    chunks.push(again);
    for chunk in chunks {
        backend.free(&chunk.descriptor);
    }
    assert_eq!(backend.available(), 102_400);
}

#[test]
fn posix_takes_from_the_largest_run() {
    let mut backend = backend_of(1000);
    let small = MemoryLayout::new(100, AllocAlignment::new(0)).unwrap();
    let a = backend.allocate(&small).unwrap();
    let b = backend.allocate(&small).unwrap();
    let c = backend.allocate(&small).unwrap();
    assert_eq!((a.descriptor.chunk, b.descriptor.chunk, c.descriptor.chunk), (0, 100, 200));
    // runs: [0,100) after freeing a, and [300,1000)
    backend.free(&a.descriptor);
    let d = backend.allocate(&small).unwrap();
    assert_eq!(d.descriptor.chunk, 300);
    assert_eq!(backend.available(), 700);
    backend.free(&b.descriptor);
    backend.free(&c.descriptor);
    backend.free(&d.descriptor);
    assert_eq!(backend.available(), 1000);
}

#[test]
fn posix_need_defragment_then_defragment() {
    let mut backend = backend_of(300);
    let third = MemoryLayout::new(100, AllocAlignment::new(0)).unwrap();
    let a = backend.allocate(&third).unwrap();
    let b = backend.allocate(&third).unwrap();
    let c = backend.allocate(&third).unwrap();
    assert_eq!(backend.available(), 0);
    backend.free(&a.descriptor);
    backend.free(&b.descriptor);
    assert_eq!(backend.available(), 200);
    let two_thirds = MemoryLayout::new(200, AllocAlignment::new(0)).unwrap();
    assert_eq!(backend.allocate(&two_thirds), Err(ZAllocError::NeedDefragment));
    let all = MemoryLayout::new(300, AllocAlignment::new(0)).unwrap();
    assert_eq!(backend.allocate(&all), Err(ZAllocError::OutOfMemory));
    assert_eq!(backend.defragment(), 200);
    assert_eq!(backend.available(), 200);
    let joined = backend.allocate(&two_thirds).unwrap();
    assert_eq!(joined.descriptor.chunk, 0);
    assert_eq!(joined.descriptor.len, 200);
    backend.free(&joined.descriptor);
    backend.free(&c.descriptor);
    assert_eq!(backend.defragment(), 300);
    assert_eq!(backend.available(), 300);
}

#[test]
fn posix_defragment_keeps_runs_that_do_not_touch() {
    let mut backend = backend_of(300);
    let third = MemoryLayout::new(100, AllocAlignment::new(0)).unwrap();
    let a = backend.allocate(&third).unwrap();
    let _b = backend.allocate(&third).unwrap();
    let c = backend.allocate(&third).unwrap();
    backend.free(&a.descriptor);
    backend.free(&c.descriptor);
    assert_eq!(backend.defragment(), 100);
    let two_thirds = MemoryLayout::new(200, AllocAlignment::new(0)).unwrap();
    assert_eq!(backend.allocate(&two_thirds), Err(ZAllocError::NeedDefragment));
}

#[test]
fn posix_zero_size_chunk() {
    let mut backend = backend_of(64);
    let nothing = MemoryLayout::new(0, AllocAlignment::new(0)).unwrap();
    let chunk = backend.allocate(&nothing).unwrap();
    assert_eq!(chunk.descriptor.len, 0);
    assert_eq!(backend.available(), 64);
    backend.free(&chunk.descriptor);
    assert_eq!(backend.available(), 64);
}

#[test]
fn posix_builder_refuses_a_size_beyond_chunk_offsets() {
    if usize::BITS > 32 {
        let size = (u32::MAX as usize) + 1;
        assert!(PosixSharedMemoryProviderBackend::builder().with_size(size).is_err());
    }
    assert!(PosixSharedMemoryProviderBackend::builder().with_size(0).unwrap().res().is_err());
}

#[test]
fn posix_attach_maps_chunks_inside_the_segment() {
    let mut backend = backend_of(256);
    let layout = MemoryLayout::new(16, AllocAlignment::new(0)).unwrap();
    let first = backend.allocate(&layout).unwrap();
    let second = backend.allocate(&layout).unwrap();
    assert_eq!(second.data, first.data + 16);
    let client = PosixSharedMemoryClient {};
    let segment = client.attach(backend.segment_id()).unwrap();
    assert_eq!(segment.id(), backend.segment_id());
    let base = segment.map(0).unwrap();
    assert_eq!(segment.map(16).unwrap(), base + 16);
    assert!(segment.map(256).is_err());
}

#[test]
fn posix_layout_for_rounds_up_to_the_backend_alignment() {
    let layout = MemoryLayout::new(1024, AllocAlignment::new(3)).unwrap();
    let backend = PosixSharedMemoryProviderBackend::builder()
        .with_layout(&layout)
        .unwrap()
        .res()
        .unwrap();
    let asked = MemoryLayout::new(100, AllocAlignment::new(2)).unwrap();
    let used = backend.layout_for(asked).unwrap();
    assert_eq!(used.size(), 104);
    assert_eq!(used.alignment(), AllocAlignment::new(3));
    let too_strict = MemoryLayout::new(16, AllocAlignment::new(4)).unwrap();
    assert!(backend.layout_for(too_strict).is_err());
}

#[test]
fn posix_chunks_begin_at_multiples_of_the_backend_alignment() {
    let layout = MemoryLayout::new(1024, AllocAlignment::new(3)).unwrap();
    let mut backend = PosixSharedMemoryProviderBackend::builder()
        .with_layout(&layout)
        .unwrap()
        .res()
        .unwrap();
    let asked = MemoryLayout::new(100, AllocAlignment::new(2)).unwrap();
    let first = backend.allocate(&asked).unwrap();
    assert_eq!(first.descriptor.chunk, 0);
    assert_eq!(first.descriptor.len, 104);
    let one = MemoryLayout::new(1, AllocAlignment::new(0)).unwrap();
    let second = backend.allocate(&one).unwrap();
    assert_eq!(second.descriptor.chunk, 104);
    assert_eq!(second.descriptor.len, 8);
    assert_eq!(backend.available(), 1024 - 112);
    let rest = MemoryLayout::new(1024 - 112 - 7, AllocAlignment::new(0)).unwrap();
    let third = backend.allocate(&rest).unwrap();
    assert_eq!(third.descriptor.chunk, 112);
    assert_eq!(third.descriptor.len, 1024 - 112);
    assert_eq!(backend.available(), 0);
    assert_eq!(backend.allocate(&one), Err(ZAllocError::OutOfMemory));
    backend.free(&second.descriptor);
    assert_eq!(backend.available(), 8);
    let nine = MemoryLayout::new(9, AllocAlignment::new(0)).unwrap();
    assert_eq!(backend.allocate(&nine), Err(ZAllocError::OutOfMemory));
    let again = backend.allocate(&one).unwrap();
    assert_eq!(again.descriptor, second.descriptor);
    backend.free(&first.descriptor);
    backend.free(&again.descriptor);
    backend.free(&third.descriptor);
    assert_eq!(backend.available(), 1024);
    assert_eq!(backend.defragment(), 1024);
}

#[test]
fn posix_free_is_idempotent() {
    let mut backend = backend_of(1024);
    let layout = MemoryLayout::new(100, AllocAlignment::new(0)).unwrap();
    let first = backend.allocate(&layout).unwrap();
    let second = backend.allocate(&layout).unwrap();
    assert_eq!(backend.available(), 824);
    backend.free(&first.descriptor);
    assert_eq!(backend.available(), 924);
    // a second time, nothing happens
    backend.free(&first.descriptor);
    assert_eq!(backend.available(), 924);
    // a chunk that was never handed out changes nothing either
    let mut foreign = second.descriptor;
    foreign.len = 50;
    backend.free(&foreign);
    let mut elsewhere = second.descriptor;
    elsewhere.segment = elsewhere.segment.wrapping_add(1);
    backend.free(&elsewhere);
    assert_eq!(backend.available(), 924);
    // the bytes of the first chunk are handed out once
    let again = backend.allocate(&layout).unwrap();
    assert_eq!(again.descriptor.chunk, 200);
    let third = backend.allocate(&layout).unwrap();
    assert_eq!(third.descriptor.chunk, 300);
    backend.free(&second.descriptor);
    backend.free(&again.descriptor);
    backend.free(&third.descriptor);
    assert_eq!(backend.available(), 1024);
    assert_eq!(backend.defragment(), 1024);
}

#[test]
fn posix_free_of_an_empty_chunk_twice() {
    let mut backend = backend_of(64);
    let nothing = MemoryLayout::new(0, AllocAlignment::new(0)).unwrap();
    let a = backend.allocate(&nothing).unwrap();
    let b = backend.allocate(&nothing).unwrap();
    assert_eq!(a.descriptor, b.descriptor);
    backend.free(&a.descriptor);
    backend.free(&b.descriptor);
    backend.free(&b.descriptor);
    assert_eq!(backend.available(), 64);
    let all = MemoryLayout::new(64, AllocAlignment::new(0)).unwrap();
    assert!(backend.allocate(&all).is_ok());
}
