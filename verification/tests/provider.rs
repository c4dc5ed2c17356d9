use zenoh_shm::buffer::{BufAllocResult, SharedMemoryBuf, SharedMemoryBufInfo};
use zenoh_shm::codec::shm::{RCodec, Reader, WCodec, Zenoh080};
use zenoh_shm::posix::client::PosixSharedMemoryClient;
use zenoh_shm::reader::{attach, attach_mapped, check_refusal};
use zenoh_shm::builder::SharedMemoryProviderBuilder;
use zenoh_shm::common::ZError;
use zenoh_shm::policy::{
    AllocPolicy, BlockOn, BlockOnStep, Deallocate, DeallocEldest, DeallocOptimal,
    DeallocYoungest, Defragment, ForceDeallocPolicy, GarbageCollect, JustAlloc, BACKOFF_MS,
};
use zenoh_shm::posix::backend::{PosixSharedMemoryProviderBackend, POSIX_PROTOCOL_ID};
use zenoh_shm::provider::SharedMemoryProvider;
use zenoh_shm::resources::SharedResources;
use zenoh_shm::types::{AllocAlignment, MemoryLayout, ZAllocError};
use zenoh_shm::watchdog::descriptor::Descriptor;

type Provider = SharedMemoryProvider<POSIX_PROTOCOL_ID, PosixSharedMemoryProviderBackend>;

fn provider_of(size: usize) -> Provider {
    let backend = PosixSharedMemoryProviderBackend::builder()
        .with_size(size)
        .expect("size")
        .res()
        .expect("segment");
    SharedMemoryProviderBuilder::builder()
        .protocol_id::<POSIX_PROTOCOL_ID>()
        .backend(backend)
        .res()
}

fn resources_of(headers: u32, watchdog_words: u32) -> SharedResources {
    let mut resources = SharedResources::new(1000, headers);
    assert!(resources.watchdogs.add_segment(2000, watchdog_words));
    resources
}

fn alloc_with<Policy: AllocPolicy<PosixSharedMemoryProviderBackend>>(
    provider: &mut Provider,
    resources: &mut SharedResources,
    size: usize,
) -> BufAllocResult {
    let layout = provider
        .alloc_layout()
        .size(size)
        .alignment(AllocAlignment::new(0))
        .res()
        .unwrap();
    layout
        .allocate()
        .with_policy::<Policy>()
        .res(provider, resources)
}

fn alloc_just(provider: &mut Provider, resources: &mut SharedResources, size: usize) -> SharedMemoryBuf {
    alloc_with::<JustAlloc>(provider, resources, size).unwrap()
}

#[test]
fn buffer_carries_what_another_process_needs() {
    let mut provider = provider_of(4096);
    let mut resources = resources_of(8, 1);
    let first = alloc_just(&mut provider, &mut resources, 100);
    assert_eq!(first.info.shm_protocol, POSIX_PROTOCOL_ID);
    assert_eq!(first.info.data_len, 100);
    assert_eq!(first.info.data_descriptor.len, 100);
    assert_eq!(first.info.data_descriptor.chunk, 0);
    assert_eq!(first.info.header_descriptor.id, 1000);
    assert_eq!(first.info.header_descriptor.index, 0);
    assert_eq!(first.info.generation, 1);
    assert_eq!(first.info.watchdog_descriptor, Descriptor { id: 2000, index_and_bitpos: 0 });
    assert!(first.is_valid(&resources.headers));
    assert_eq!(first.ref_count(&resources.headers), Some(1));

    let second = alloc_just(&mut provider, &mut resources, 200);
    assert_eq!(second.info.data_descriptor.chunk, 100);
    assert_eq!(second.buf, first.buf + 100);
    assert_eq!(second.info.header_descriptor.index, 1);
    assert_eq!(second.info.watchdog_descriptor, Descriptor { id: 2000, index_and_bitpos: 1 });
    assert_eq!(provider.busy_count(), 2);
    assert_eq!(provider.available(), 4096 - 300);
}

#[test]
fn layout_builder_checks_size_and_alignment() {
    let provider = provider_of(4096);
    let layout = provider.alloc_layout().size(24).res().unwrap();
    assert_eq!(layout.size, 24);
    assert_eq!(layout.provider_layout.size(), 24);
    assert!(matches!(
        provider
            .alloc_layout()
            .size(24)
            .alignment(AllocAlignment::new(4))
            .res(),
        Err(ZError::BadLayout)
    ));
    assert!(matches!(
        provider
            .alloc_layout()
            .size(32)
            .alignment(AllocAlignment::new(4))
            .res(),
        Err(ZError::BadAlignment)
    ));
    assert_eq!(provider.max_align(), AllocAlignment::new(0));
}

#[test]
fn gc_reclaims_dropped_buffer() {
    let mut provider = provider_of(4096);
    let mut resources = resources_of(8, 1);
    let before = provider.available();
    let kept = alloc_just(&mut provider, &mut resources, 512);
    let dropped = alloc_just(&mut provider, &mut resources, 1024);
    let clone = dropped;
    assert!(clone.retain(&mut resources));
    assert_eq!(dropped.ref_count(&resources.headers), Some(2));

    // one reference is left: nothing to collect
    dropped.release(&mut resources);
    assert_eq!(provider.garbage_collect(&mut resources), 0);
    assert_eq!(provider.busy_count(), 2);

    // the last clone is dropped
    let free = provider.available();
    clone.release(&mut resources);
    assert_eq!(clone.ref_count(&resources.headers), Some(0));
    assert_eq!(provider.garbage_collect(&mut resources), 1024);
    assert_eq!(provider.available(), free + 1024);
    assert_eq!(provider.busy_count(), 1);
    assert!(kept.is_valid(&resources.headers));

    kept.release(&mut resources);
    assert_eq!(provider.garbage_collect(&mut resources), 512);
    assert_eq!(provider.available(), before);
    assert_eq!(provider.busy_count(), 0);
    assert_eq!(provider.garbage_collect(&mut resources), 0);
}

#[test]
fn gc_returns_the_largest_chunk_collected() {
    let mut provider = provider_of(4096);
    let mut resources = resources_of(8, 1);
    let a = alloc_just(&mut provider, &mut resources, 100);
    let b = alloc_just(&mut provider, &mut resources, 700);
    let c = alloc_just(&mut provider, &mut resources, 300);
    let d = alloc_just(&mut provider, &mut resources, 50);
    a.release(&mut resources);
    b.release(&mut resources);
    d.release(&mut resources);
    assert_eq!(provider.garbage_collect(&mut resources), 700);
    assert_eq!(provider.busy_count(), 1);
    assert_eq!(provider.available(), 4096 - 300);
    assert!(c.is_valid(&resources.headers));
}

#[test]
fn watchdog_invalidation_reclaims_abandoned_buffer() {
    let mut provider = provider_of(4096);
    let mut resources = resources_of(8, 1);
    let alive = alloc_just(&mut provider, &mut resources, 256);
    let abandoned = alloc_just(&mut provider, &mut resources, 1024);

    // both owners confirm: validation finds nothing
    resources.confirm_round();
    resources.validate_round();
    resources.confirm_round();
    resources.validate_round();
    assert!(alive.is_valid(&resources.headers));
    assert!(abandoned.is_valid(&resources.headers));
    assert_eq!(provider.garbage_collect(&mut resources), 0);

    // the owner of the second buffer confirms once more and dies
    resources.confirm_round();
    resources.unconfirm(abandoned.watchdog);
    resources.validate_round();
    assert!(abandoned.is_valid(&resources.headers));
    resources.confirm_round();
    resources.validate_round();
    assert!(!abandoned.is_valid(&resources.headers));
    assert!(alive.is_valid(&resources.headers));
    assert_eq!(abandoned.ref_count(&resources.headers), Some(1));

    // it is collected although a reference is left
    assert_eq!(provider.garbage_collect(&mut resources), 1024);
    assert_eq!(provider.busy_count(), 1);
    assert_eq!(provider.available(), 4096 - 256);

    // the record is used again with the next generation: the old buffer stays invalid
    let next = alloc_just(&mut provider, &mut resources, 1024);
    assert_eq!(next.info.header_descriptor, abandoned.info.header_descriptor);
    assert_eq!(next.info.generation, abandoned.info.generation + 1);
    assert!(next.is_valid(&resources.headers));
    assert!(!abandoned.is_valid(&resources.headers));
    assert!(!abandoned.retain(&mut resources));
    abandoned.release(&mut resources);
    assert_eq!(next.ref_count(&resources.headers), Some(1));
}

#[test]
fn policy_composition() {
    let mut provider = provider_of(1024);
    let mut resources = resources_of(8, 1);
    let first = alloc_with::<JustAlloc>(&mut provider, &mut resources, 1024).unwrap();
    assert_eq!(first.info.data_descriptor.len, 1024);
    assert_eq!(
        alloc_with::<JustAlloc>(&mut provider, &mut resources, 1024),
        Err(ZAllocError::OutOfMemory)
    );
    assert_eq!(provider.busy_count(), 1);
    let second =
        alloc_with::<Deallocate<1, JustAlloc, JustAlloc, DeallocEldest>>(
            &mut provider,
            &mut resources,
            1024,
        )
        .unwrap();
    assert_eq!(second.info.data_descriptor, first.info.data_descriptor);
    assert_eq!(provider.busy_count(), 1);
    assert_eq!(provider.available(), 0);
}

#[test]
fn failed_allocation_gives_header_and_watchdog_back() {
    let mut provider = provider_of(1024);
    let mut resources = resources_of(2, 1);
    let _first = alloc_just(&mut provider, &mut resources, 1024);
    for _ in 0..5 {
        assert_eq!(
            alloc_with::<JustAlloc>(&mut provider, &mut resources, 8),
            Err(ZAllocError::OutOfMemory)
        );
    }
    // the one header that is left is still there to be had
    let mut other = provider_of(64);
    let buffer = alloc_just(&mut other, &mut resources, 8);
    assert_eq!(buffer.info.header_descriptor.index, 1);
    assert_eq!(buffer.info.watchdog_descriptor.index_and_bitpos, 1);
}

#[test]
fn exhausted_headers_surface_as_other_and_leak_nothing() {
    let mut provider = provider_of(1024);
    let mut resources = resources_of(1, 1);
    let _only = alloc_just(&mut provider, &mut resources, 100);
    let available = provider.available();
    assert_eq!(
        alloc_with::<JustAlloc>(&mut provider, &mut resources, 100),
        Err(ZAllocError::Other(ZError::Exhausted))
    );
    assert_eq!(provider.available(), available);
    assert_eq!(provider.busy_count(), 1);

    let mut no_watchdogs = SharedResources::new(1, 4);
    assert_eq!(
        alloc_with::<JustAlloc>(&mut provider, &mut no_watchdogs, 100),
        Err(ZAllocError::Other(ZError::Exhausted))
    );
    assert_eq!(provider.available(), available);
}

#[test]
fn garbage_collect_policy_retries_after_a_large_enough_collection() {
    let mut provider = provider_of(1024);
    let mut resources = resources_of(8, 1);
    let first = alloc_just(&mut provider, &mut resources, 512);
    let second = alloc_just(&mut provider, &mut resources, 512);
    assert_eq!(
        alloc_with::<GarbageCollect>(&mut provider, &mut resources, 512),
        Err(ZAllocError::OutOfMemory)
    );
    first.release(&mut resources);
    // what is collected is too small for what is asked: no second attempt
    second.retain(&mut resources);
    assert_eq!(
        alloc_with::<GarbageCollect>(&mut provider, &mut resources, 1024),
        Err(ZAllocError::OutOfMemory)
    );
    assert_eq!(provider.busy_count(), 1);
    assert_eq!(provider.available(), 512);
    // now the other half goes too
    second.release(&mut resources);
    second.release(&mut resources);
    let third = alloc_with::<GarbageCollect<JustAlloc, JustAlloc>>(&mut provider, &mut resources, 256)
        .unwrap();
    assert_eq!(third.info.data_descriptor.len, 256);
    // out of memory: the collection reclaims 512 bytes, too few for a second attempt
    let all = alloc_with::<GarbageCollect<JustAlloc, Defragment>>(
        &mut provider,
        &mut resources,
        768,
    );
    assert_eq!(all, Err(ZAllocError::OutOfMemory));
    assert_eq!(provider.busy_count(), 1);
    assert_eq!(provider.available(), 768);
    // a call for defragmentation is none for collection
    let most = alloc_with::<GarbageCollect<JustAlloc, Defragment>>(
        &mut provider,
        &mut resources,
        700,
    );
    assert_eq!(most, Err(ZAllocError::NeedDefragment));
    // out of memory, and the collection reclaims enough: the second policy runs
    let fourth = alloc_with::<JustAlloc>(&mut provider, &mut resources, 512).unwrap();
    fourth.release(&mut resources);
    let fifth = alloc_with::<GarbageCollect<JustAlloc, Defragment>>(
        &mut provider,
        &mut resources,
        512,
    )
    .unwrap();
    assert_eq!(fifth.info.data_descriptor.chunk, 512);
    assert_eq!(fifth.info.data_descriptor.len, 512);
    assert_eq!(provider.busy_count(), 2);
}

#[test]
fn defragment_policy_retries_after_joining_runs() {
    let mut provider = provider_of(300);
    let mut resources = resources_of(8, 1);
    let a = alloc_just(&mut provider, &mut resources, 100);
    let b = alloc_just(&mut provider, &mut resources, 100);
    let _c = alloc_just(&mut provider, &mut resources, 100);
    a.release(&mut resources);
    b.release(&mut resources);
    assert_eq!(provider.garbage_collect(&mut resources), 100);
    assert_eq!(provider.available(), 200);
    assert_eq!(
        alloc_with::<JustAlloc>(&mut provider, &mut resources, 200),
        Err(ZAllocError::NeedDefragment)
    );
    let joined = alloc_with::<Defragment>(&mut provider, &mut resources, 200).unwrap();
    assert_eq!(joined.info.data_descriptor.chunk, 0);
    assert_eq!(joined.info.data_descriptor.len, 200);
    assert_eq!(
        alloc_with::<Defragment>(&mut provider, &mut resources, 200),
        Err(ZAllocError::OutOfMemory)
    );
    assert_eq!(provider.defragment(), 0);
}

#[test]
fn collect_then_defragment_then_allocate() {
    let mut provider = provider_of(300);
    let mut resources = resources_of(8, 1);
    let a = alloc_just(&mut provider, &mut resources, 100);
    let b = alloc_just(&mut provider, &mut resources, 100);
    let c = alloc_just(&mut provider, &mut resources, 100);
    a.release(&mut resources);
    b.release(&mut resources);
    c.release(&mut resources);
    type Policy = GarbageCollect<JustAlloc, Defragment<JustAlloc, JustAlloc>>;
    let all = alloc_with::<Policy>(&mut provider, &mut resources, 300);
    // the collection reclaims chunks of 100 bytes only: too small to try again
    assert_eq!(all, Err(ZAllocError::OutOfMemory));
    let all = alloc_with::<Defragment>(&mut provider, &mut resources, 300).unwrap();
    assert_eq!(all.info.data_descriptor.len, 300);
}

fn chunks_in_use(provider: &mut Provider, resources: &mut SharedResources) -> Vec<u32> {
    // evicting the eldest again and again shows the chunks in use, oldest first
    let mut chunks = vec![];
    let mut before = provider.available();
    while DeallocEldest::dealloc(provider, resources) {
        chunks.push((provider.available() - before) as u32);
        before = provider.available();
    }
    chunks
}

#[test]
fn force_dealloc_policies_pick_their_victims() {
    let sizes = [10usize, 20, 30, 40];

    let mut provider = provider_of(1000);
    let mut resources = resources_of(8, 1);
    for &size in &sizes {
        alloc_just(&mut provider, &mut resources, size);
    }
    assert!(DeallocOptimal::dealloc(&mut provider, &mut resources));
    assert_eq!(chunks_in_use(&mut provider, &mut resources), vec![10, 30, 40]);
    assert!(!DeallocOptimal::dealloc(&mut provider, &mut resources));

    let mut provider = provider_of(1000);
    let mut resources = resources_of(8, 1);
    for &size in &sizes {
        alloc_just(&mut provider, &mut resources, size);
    }
    assert!(DeallocYoungest::dealloc(&mut provider, &mut resources));
    assert_eq!(chunks_in_use(&mut provider, &mut resources), vec![10, 20, 30]);
    assert!(!DeallocYoungest::dealloc(&mut provider, &mut resources));

    let mut provider = provider_of(1000);
    let mut resources = resources_of(8, 1);
    for &size in &sizes {
        alloc_just(&mut provider, &mut resources, size);
    }
    assert!(DeallocEldest::dealloc(&mut provider, &mut resources));
    assert_eq!(chunks_in_use(&mut provider, &mut resources), vec![20, 30, 40]);
    assert!(!DeallocEldest::dealloc(&mut provider, &mut resources));

    let mut provider = provider_of(1000);
    let mut resources = resources_of(8, 1);
    alloc_just(&mut provider, &mut resources, 10);
    assert!(DeallocOptimal::dealloc(&mut provider, &mut resources));
    assert_eq!(provider.busy_count(), 0);
    assert_eq!(provider.available(), 1000);
}

#[test]
fn eviction_gives_header_and_watchdog_back() {
    let mut provider = provider_of(1000);
    let mut resources = resources_of(2, 1);
    let first = alloc_just(&mut provider, &mut resources, 10);
    let _second = alloc_just(&mut provider, &mut resources, 10);
    assert!(provider.evict(&mut resources, 0));
    assert!(!provider.evict(&mut resources, 1));
    let third = alloc_just(&mut provider, &mut resources, 10);
    assert_eq!(third.info.header_descriptor, first.info.header_descriptor);
    assert_eq!(third.info.watchdog_descriptor, first.info.watchdog_descriptor);
    assert_eq!(third.info.generation, first.info.generation + 1);
}

#[test]
fn deallocate_evicts_at_most_n_chunks() {
    let mut provider = provider_of(400);
    let mut resources = resources_of(8, 1);
    for _ in 0..4 {
        alloc_just(&mut provider, &mut resources, 100);
    }
    // two evictions free 200 bytes: not enough for 300
    let result = alloc_with::<Deallocate<2, JustAlloc, JustAlloc, DeallocOptimal>>(
        &mut provider,
        &mut resources,
        300,
    );
    assert_eq!(result, Err(ZAllocError::OutOfMemory));
    assert_eq!(provider.busy_count(), 2);
    assert_eq!(provider.available(), 200);
    // no eviction at all
    let result = alloc_with::<Deallocate<0, JustAlloc, JustAlloc, DeallocOptimal>>(
        &mut provider,
        &mut resources,
        300,
    );
    assert_eq!(result, Err(ZAllocError::OutOfMemory));
    assert_eq!(provider.busy_count(), 2);
    // evicting the youngest twice and joining the runs makes room
    type Policy = Deallocate<4, JustAlloc, Defragment, DeallocYoungest>;
    let result = alloc_with::<Policy>(&mut provider, &mut resources, 400).unwrap();
    assert_eq!(result.info.data_descriptor.len, 400);
    assert_eq!(provider.busy_count(), 1);
    // nothing to evict but the new buffer itself: it goes, and the next attempt succeeds
    let again = alloc_with::<Deallocate<1, JustAlloc, JustAlloc, DeallocEldest>>(
        &mut provider,
        &mut resources,
        400,
    )
    .unwrap();
    assert_eq!(again.info.data_descriptor, result.info.data_descriptor);
}

#[test]
fn deallocate_stops_when_nothing_is_left_to_evict() {
    let mut provider = provider_of(100);
    let mut resources = resources_of(8, 1);
    let result = alloc_with::<Deallocate<10, JustAlloc, JustAlloc, DeallocOptimal>>(
        &mut provider,
        &mut resources,
        200,
    );
    assert_eq!(result, Err(ZAllocError::OutOfMemory));
    assert_eq!(provider.available(), 100);
}

#[test]
fn block_on_says_when_to_wait() {
    assert_eq!(BACKOFF_MS, 1);
    let mut provider = provider_of(100);
    let mut resources = resources_of(8, 1);
    let layout = MemoryLayout::new(100, AllocAlignment::new(0)).unwrap();
    let first = match BlockOn::<JustAlloc>::attempt(&layout, &mut provider, &mut resources) {
        BlockOnStep::Done(Ok(chunk)) => chunk,
        _ => panic!("the first attempt finds memory"),
    };
    assert_eq!(first.descriptor.len, 100);
    assert!(matches!(
        BlockOn::<JustAlloc>::attempt(&layout, &mut provider, &mut resources),
        BlockOnStep::Wait
    ));
    assert!(matches!(
        BlockOn::<JustAlloc>::decide(Err(ZAllocError::NeedDefragment)),
        BlockOnStep::Wait
    ));
    assert!(matches!(
        BlockOn::<JustAlloc>::decide(Err(ZAllocError::Other(ZError::Exhausted))),
        BlockOnStep::Done(Err(ZAllocError::Other(ZError::Exhausted)))
    ));
    // the chunk goes into a buffer, as after a wait
    let (header, watchdog, confirmed) = Provider::alloc_resources(&mut resources).unwrap();
    let buffer = provider
        .finish_alloc(&mut resources, 64, Ok(first), header, watchdog, confirmed)
        .unwrap();
    assert_eq!(buffer.info.data_len, 64);
    assert_eq!(buffer.info.data_descriptor.len, 100);
    assert_eq!(buffer.info.header_descriptor.index, 0);
    assert_eq!(provider.busy_count(), 1);
    // a failure gives the header and the bit back: the next buffer gets them
    let (header, watchdog, confirmed) = Provider::alloc_resources(&mut resources).unwrap();
    assert_eq!(header.descriptor.index, 1);
    let failed = provider.finish_alloc(
        &mut resources,
        64,
        Err(ZAllocError::OutOfMemory),
        header,
        watchdog,
        confirmed,
    );
    assert_eq!(failed, Err(ZAllocError::OutOfMemory));
    assert_eq!(provider.busy_count(), 1);
    let (header, watchdog, _confirmed) = Provider::alloc_resources(&mut resources).unwrap();
    assert_eq!(header.descriptor.index, 1);
    assert_eq!(watchdog.descriptor.mask, 2);
}

#[test]
fn nothing_leaks_over_many_allocations() {
    let mut provider = provider_of(8192);
    let mut resources = resources_of(16, 1);
    let initial = provider.available();
    let mut live: Vec<SharedMemoryBuf> = vec![];
    for round in 0..50usize {
        let size = 64 + (round * 37) % 900;
        type Policy = GarbageCollect<Defragment, Deallocate<2, Defragment, Defragment>>;
        match alloc_with::<Policy>(&mut provider, &mut resources, size) {
            Ok(buffer) => live.push(buffer),
            Err(_) => {}
        }
        if round % 3 == 0 {
            if let Some(buffer) = live.pop() {
                buffer.release(&mut resources);
            }
        }
        if round % 7 == 0 {
            provider.garbage_collect(&mut resources);
        }
        if round % 5 == 0 {
            resources.confirm_round();
            resources.validate_round();
        }
    }
    for buffer in live {
        buffer.release(&mut resources);
    }
    provider.garbage_collect(&mut resources);
    assert_eq!(provider.busy_count(), 0);
    assert_eq!(provider.available(), initial);
    assert_eq!(provider.defragment(), initial);
}

#[test]
fn consumer_attaches_by_the_descriptor_on_the_wire() {
    let mut provider = provider_of(4096);
    let mut resources = resources_of(8, 1);
    let _first = alloc_just(&mut provider, &mut resources, 128);
    let produced = alloc_just(&mut provider, &mut resources, 256);

    // producer -> wire -> consumer
    let codec = Zenoh080::new();
    let mut wire = vec![];
    codec.write(&mut wire, &produced.info);
    let mut reader = Reader::new(&wire);
    let info: SharedMemoryBufInfo = codec.read(&mut reader).unwrap();
    assert_eq!(info, produced.info);

    let client = PosixSharedMemoryClient {};
    assert_eq!(check_refusal(&info, &resources), None);
    let consumed = attach(&client, &info, &mut resources).unwrap();
    assert_eq!(consumed.info, produced.info);
    assert_eq!(consumed.header, produced.header);
    assert_eq!(consumed.watchdog, produced.watchdog);
    assert_eq!(consumed.ref_count(&resources.headers), Some(2));
    assert!(consumed.is_valid(&resources.headers));

    // the producer drops its reference: the consumer keeps the chunk alive
    produced.release(&mut resources);
    assert_eq!(provider.garbage_collect(&mut resources), 0);
    consumed.release(&mut resources);
    assert_eq!(provider.garbage_collect(&mut resources), 256);

    // the record moves on: the old descriptor is stale
    let next = alloc_just(&mut provider, &mut resources, 64);
    assert_eq!(next.info.header_descriptor, info.header_descriptor);
    assert_eq!(check_refusal(&info, &resources), Some(ZError::StaleDescriptor));
    assert_eq!(
        attach(&client, &info, &mut resources),
        Err(ZError::StaleDescriptor)
    );
    assert_eq!(next.ref_count(&resources.headers), Some(1));
}

#[test]
fn consumer_is_refused_a_header_or_a_segment_that_is_not_there() {
    let mut provider = provider_of(4096);
    let mut resources = resources_of(8, 1);
    let produced = alloc_just(&mut provider, &mut resources, 256);
    let client = PosixSharedMemoryClient {};

    let mut elsewhere = produced.info;
    elsewhere.header_descriptor.id += 1;
    assert_eq!(
        attach(&client, &elsewhere, &mut resources),
        Err(ZError::SegmentNotFound)
    );
    let mut beyond = produced.info;
    beyond.header_descriptor.index = 8;
    assert_eq!(
        attach(&client, &beyond, &mut resources),
        Err(ZError::SegmentNotFound)
    );
    let mut behind = produced.info;
    behind.data_descriptor.chunk = 4096;
    assert_eq!(
        attach(&client, &behind, &mut resources),
        Err(ZError::SegmentNotFound)
    );
    let mut gone = produced.info;
    gone.data_descriptor.segment = gone.data_descriptor.segment.wrapping_add(1);
    assert!(attach(&client, &gone, &mut resources).is_err());
    assert_eq!(produced.ref_count(&resources.headers), Some(1));
}

#[test]
fn consumer_buffer_of_a_mapped_chunk() {
    let mut provider = provider_of(4096);
    let mut resources = resources_of(8, 1);
    let produced = alloc_just(&mut provider, &mut resources, 256);
    assert_eq!(check_refusal(&produced.info, &resources), None);
    let consumed = attach_mapped(&produced.info, 0x7000, &mut resources);
    assert_eq!(consumed.buf, 0x7000);
    assert_eq!(consumed.info, produced.info);
    assert_eq!(consumed.header, produced.header);
    assert_eq!(consumed.watchdog, produced.watchdog);
    assert_eq!(produced.ref_count(&resources.headers), Some(2));
}
