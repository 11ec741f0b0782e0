use device_memory::align::round_up;
use device_memory::chunk::{Chunk, Slice};
use device_memory::config::{
    MemoryConfiguration, MemoryDeviceProperties, MemoryPoolOptions, PoolType, LARGE_PAGE,
    MEDIUM_PAGE, SMALL_PAGE,
};
use device_memory::error::AllocError;
use device_memory::manager::{Handle, MemoryManager};
use device_memory::pool::{DeviceAllocator, Pool, SliceId};

const KIB: u64 = 1024;
const MIB: u64 = 1024 * 1024;

/// A device with a fixed number of bytes that records what it is asked.
struct Device {
    budget: u64,
    next: u64,
    live: Vec<u64>,
    asked: Vec<u64>,
    freed: Vec<u64>,
}

impl Device {
    fn with_budget(budget: u64) -> Device {
        Device { budget, next: 100, live: Vec::new(), asked: Vec::new(), freed: Vec::new() }
    }
}

impl DeviceAllocator for Device {
    fn allocate(&mut self, bytes: u64) -> Option<u64> {
        self.asked.push(bytes);
        if bytes > self.budget {
            return None;
        }
        self.budget -= bytes;
        self.next += 1;
        self.live.push(self.next);
        Some(self.next)
    }

    fn free(&mut self, raw: u64) {
        self.live.retain(|r| *r != raw);
        self.freed.push(raw);
    }
}

fn props(max_page_size: u64, alignment: u64) -> MemoryDeviceProperties {
    MemoryDeviceProperties { max_page_size, alignment }
}

fn sliced(page_size: u64, max_slice_size: u64, period: Option<u64>) -> MemoryPoolOptions {
    MemoryPoolOptions {
        pool_type: PoolType::SlicedPages { max_slice_size },
        page_size,
        chunk_num_prealloc: 0,
        dealloc_period: period,
    }
}

fn exclusive(page_size: u64) -> MemoryPoolOptions {
    MemoryPoolOptions {
        pool_type: PoolType::ExclusivePages,
        page_size,
        chunk_num_prealloc: 0,
        dealloc_period: None,
    }
}

fn manager(pools: Vec<MemoryPoolOptions>, p: MemoryDeviceProperties) -> MemoryManager<Device> {
    MemoryManager::configure(&MemoryConfiguration::Custom(pools), p, Device::with_budget(64 * MIB))
        .unwrap()
}

fn overlap(a: &Slice, b: &Slice) -> bool {
    a.offset < b.offset + b.size && b.offset < a.offset + a.size
}

#[test]
fn ten_slices_share_a_page_and_the_eleventh_opens_another() {
    let mut m = manager(vec![sliced(MIB, 256 * KIB, None)], props(64 * MIB, 256));
    let mut handles: Vec<Handle> = Vec::new();
    for i in 0..10u64 {
        let h = m.reserve(100 * KIB, 256).unwrap();
        assert_eq!(h.pool, 0);
        assert_eq!(h.slice.chunk, 0);
        assert_eq!(h.slice.offset, i * 100 * KIB);
        assert_eq!(h.slice.size, 100 * KIB);
        handles.push(h);
    }
    assert_eq!(m.pools[0].chunks.len(), 1);
    assert_eq!(m.device.asked, vec![MIB]);
    let h = m.reserve(100 * KIB, 256).unwrap();
    assert_eq!(h.slice.chunk, 1);
    assert_eq!(h.slice.offset, 0);
    assert_eq!(m.pools[0].chunks.len(), 2);
    assert_eq!(m.device.asked, vec![MIB, MIB]);
    assert_eq!(m.allocations(), 11);
    for c in m.pools[0].chunks.iter() {
        assert_eq!(c.size, MIB);
        for (i, a) in c.slices.iter().enumerate() {
            for (j, b) in c.slices.iter().enumerate() {
                assert!(i == j || !overlap(a, b));
            }
        }
    }
}

#[test]
fn exclusive_chunk_goes_at_the_first_tick_after_release() {
    let mut m = manager(vec![exclusive(64 * MIB)], props(64 * MIB, 256));
    let h = m.reserve(4 * KIB, 256).unwrap();
    assert_eq!(m.device.asked, vec![4 * KIB]);
    assert_eq!(m.pools[0].chunks.len(), 1);
    assert_eq!(m.pools[0].chunks[0].size, 4 * KIB);
    m.tick();
    assert_eq!(m.pools[0].chunks.len(), 1);
    let raw = m.pools[0].chunks[0].raw;
    m.release(h);
    m.tick();
    assert_eq!(m.pools[0].chunks.len(), 0);
    assert_eq!(m.device.freed, vec![raw]);
    assert!(m.device.live.is_empty());
}

#[test]
fn request_above_the_ceiling_is_too_large() {
    let mut m = manager(vec![sliced(MIB, 256 * KIB, None)], props(64 * MIB, 256));
    assert_eq!(m.reserve(500 * KIB, 256), Err(AllocError::SliceTooLarge));
    assert_eq!(m.allocations(), 0);
    assert!(m.device.asked.is_empty());
    assert_eq!(m.pools[0].chunks.len(), 0);

    let mut pool = Pool::new(sliced(MIB, 256 * KIB, None), props(64 * MIB, 256)).unwrap();
    let mut device = Device::with_budget(64 * MIB);
    assert_eq!(pool.reserve(&mut device, 256 * KIB + 1, 256, 1), Err(AllocError::SliceTooLarge));
    assert!(device.asked.is_empty());
    assert_eq!(pool.chunks.len(), 0);
    assert!(pool.reserve(&mut device, 256 * KIB, 256, 1).is_ok());
}

#[test]
fn locked_slice_keeps_its_chunk_until_unlocked() {
    let mut m = manager(
        vec![sliced(MIB, 256 * KIB, Some(2)), exclusive(64 * MIB)],
        props(64 * MIB, 256),
    );
    let h = m.reserve(4 * KIB, 256).unwrap();
    let guard = m.lock(&h);
    m.release(h);
    let record = m.lookup(&h).unwrap();
    assert!(!record.used);
    assert_eq!(record.locks, 1);
    // let the count pass the period
    for _ in 0..5 {
        let big = m.reserve(MIB, 256).unwrap();
        assert_eq!(big.pool, 1);
        m.tick();
        assert_eq!(m.pools[0].chunks.len(), 1);
    }
    // the pinned bytes are not handed out again
    let other = m.reserve(4 * KIB, 256).unwrap();
    assert_eq!(other.slice.offset, 4 * KIB);
    m.release(other);
    m.unlock(guard);
    assert_eq!(m.lookup(&h), None);
    m.tick();
    assert_eq!(m.pools[0].chunks.len(), 1);
    m.reserve(MIB, 256).unwrap();
    m.reserve(MIB, 256).unwrap();
    m.tick();
    assert_eq!(m.pools[0].chunks.len(), 0);
}

#[test]
fn idle_page_goes_when_the_period_has_passed() {
    let mut m = manager(
        vec![sliced(MIB, 256 * KIB, Some(3)), exclusive(64 * MIB)],
        props(64 * MIB, 256),
    );
    let h = m.reserve(KIB, 256).unwrap();
    assert_eq!(m.pools[0].chunks[0].last_touched, 1);
    m.release(h);
    assert_eq!(m.pools[0].chunks[0].last_touched, 1);
    m.reserve(MIB, 256).unwrap();
    m.reserve(MIB, 256).unwrap();
    assert_eq!(m.allocations(), 3);
    m.tick();
    assert_eq!(m.pools[0].chunks.len(), 1);
    m.reserve(MIB, 256).unwrap();
    assert_eq!(m.allocations(), 4);
    m.tick();
    assert_eq!(m.pools[0].chunks.len(), 0);
    assert_eq!(m.device.freed.len(), 1);
}

#[test]
fn page_without_a_period_is_kept() {
    let mut m = manager(vec![sliced(MIB, 256 * KIB, None), exclusive(64 * MIB)], props(64 * MIB, 256));
    let h = m.reserve(KIB, 256).unwrap();
    m.release(h);
    for _ in 0..10 {
        m.reserve(MIB, 256).unwrap();
    }
    m.tick();
    assert_eq!(m.pools[0].chunks.len(), 1);
    assert_eq!(m.pools[1].chunks.len(), 10);
}

#[test]
fn sizes_are_rounded_up_to_the_alignment() {
    assert_eq!(round_up(1000, 256, u64::MAX), Some(1024));
    assert_eq!(round_up(1024, 256, u64::MAX), Some(1024));
    assert_eq!(round_up(0, 256, u64::MAX), Some(256));
    assert_eq!(round_up(1, 256, 255), None);
    assert_eq!(round_up(u64::MAX, 256, u64::MAX), None);
    assert_eq!(round_up(u64::MAX, 1, u64::MAX), Some(u64::MAX));

    let mut m = manager(vec![sliced(MIB, 256 * KIB, None)], props(64 * MIB, 256));
    let a = m.reserve(1000, 64).unwrap();
    let b = m.reserve(1, 256).unwrap();
    let c = m.reserve(0, 1).unwrap();
    assert_eq!((a.slice.offset, a.slice.size), (0, 1024));
    assert_eq!((b.slice.offset, b.slice.size), (1024, 256));
    assert_eq!((c.slice.offset, c.slice.size), (1280, 256));
}

#[test]
fn alignment_that_cannot_be_met_is_refused() {
    let mut m = manager(vec![sliced(1000, 1000, None)], props(64 * MIB, 256));
    assert_eq!(m.reserve(16, 0), Err(AllocError::MisalignedRequest));
    assert_eq!(m.reserve(16, 512), Err(AllocError::MisalignedRequest));
    assert_eq!(m.reserve(16, 96), Err(AllocError::MisalignedRequest));
    // 1000 bytes round up to 1024, which is more than a page
    assert_eq!(m.reserve(1000, 256), Err(AllocError::MisalignedRequest));
    assert!(m.reserve(768, 256).is_ok());
    assert_eq!(m.allocations(), 1);
}

#[test]
fn device_without_memory_fails_the_reservation() {
    let p = props(64 * MIB, 256);
    let config = MemoryConfiguration::Custom(vec![sliced(MIB, 256 * KIB, None), exclusive(64 * MIB)]);
    let mut m = MemoryManager::configure(&config, p, Device::with_budget(MIB)).unwrap();
    let first = m.reserve(KIB, 256);
    assert!(first.is_ok());
    assert_eq!(m.reserve(2 * MIB, 256), Err(AllocError::OutOfDeviceMemory));
    assert_eq!(m.allocations(), 1);
    assert_eq!(m.pools[1].chunks.len(), 0);
    // larger than the device allows in one go: the device is not even asked
    let asked = m.device.asked.len();
    assert_eq!(m.reserve(64 * MIB + 1, 256), Err(AllocError::OutOfDeviceMemory));
    assert_eq!(m.device.asked.len(), asked);
    // the page that is there still serves
    assert!(m.reserve(KIB, 256).is_ok());
    assert_eq!(m.allocations(), 2);
}

#[test]
fn invalid_options_are_refused() {
    let p = props(MIB, 256);
    assert_eq!(sliced(0, 0, None).validate(&p), Err(AllocError::InvalidConfiguration));
    assert_eq!(sliced(2 * MIB, KIB, None).validate(&p), Err(AllocError::InvalidConfiguration));
    assert_eq!(sliced(KIB, 2 * KIB, None).validate(&p), Err(AllocError::InvalidConfiguration));
    assert_eq!(exclusive(KIB).validate(&props(MIB, 0)), Err(AllocError::InvalidConfiguration));
    assert_eq!(sliced(MIB, MIB, None).validate(&p), Ok(()));
    assert_eq!(exclusive(MIB).validate(&p), Ok(()));
    assert!(Pool::new(sliced(2 * MIB, KIB, None), p).is_err());

    let config = MemoryConfiguration::Custom(vec![sliced(KIB, KIB, None), sliced(KIB, 2 * KIB, None)]);
    let r = MemoryManager::configure(&config, p, Device::with_budget(MIB));
    assert!(matches!(r, Err(AllocError::InvalidConfiguration)));
}

#[test]
fn presets_build_the_ladder() {
    let p = props(1024 * MIB, 256);
    let list = MemoryConfiguration::default().pool_options(&p);
    assert!(matches!(MemoryConfiguration::default(), MemoryConfiguration::SubSlices));
    assert_eq!(list.len(), 4);
    assert_eq!(list[0].page_size, SMALL_PAGE);
    assert_eq!(list[0].pool_type, PoolType::SlicedPages { max_slice_size: 128 * KIB });
    assert_eq!(list[0].dealloc_period, Some(1000));
    assert_eq!(list[1].page_size, MEDIUM_PAGE);
    assert_eq!(list[1].pool_type, PoolType::SlicedPages { max_slice_size: 2 * MIB });
    assert_eq!(list[2].page_size, LARGE_PAGE);
    assert_eq!(list[2].pool_type, PoolType::SlicedPages { max_slice_size: 32 * MIB });
    assert_eq!(list[3].pool_type, PoolType::ExclusivePages);
    assert_eq!(list[3].page_size, 1024 * MIB);

    let small = MemoryConfiguration::SubSlices.pool_options(&props(4 * MIB, 256));
    assert_eq!(small.len(), 2);
    assert_eq!(small[0].page_size, SMALL_PAGE);
    assert_eq!(small[1].pool_type, PoolType::ExclusivePages);

    let only = MemoryConfiguration::ExclusivePages.pool_options(&p);
    assert_eq!(only.len(), 1);
    assert_eq!(only[0].pool_type, PoolType::ExclusivePages);

    let custom = MemoryConfiguration::Custom(vec![exclusive(7), sliced(9, 3, Some(5))]).pool_options(&p);
    assert_eq!(custom.len(), 2);
    assert_eq!(custom[0].page_size, 7);
    assert_eq!(custom[1].page_size, 9);
    assert_eq!(custom[1].dealloc_period, Some(5));
}

#[test]
fn requests_go_to_the_first_pool_that_covers_them() {
    let p = props(1024 * MIB, 256);
    let mut m =
        MemoryManager::configure(&MemoryConfiguration::SubSlices, p, Device::with_budget(u64::MAX))
            .unwrap();
    assert_eq!(m.properties(), p);
    assert_eq!(m.pools.len(), 4);
    assert_eq!(m.route(128 * KIB), Some(0));
    assert_eq!(m.route(128 * KIB + 1), Some(1));
    assert_eq!(m.route(32 * MIB), Some(2));
    assert_eq!(m.route(32 * MIB + 1), Some(3));
    assert_eq!(m.reserve(10, 256).unwrap().pool, 0);
    assert_eq!(m.reserve(MIB, 256).unwrap().pool, 1);
    assert_eq!(m.reserve(3 * MIB, 256).unwrap().pool, 2);
    assert_eq!(m.reserve(100 * MIB, 256).unwrap().pool, 3);
    assert_eq!(m.device.asked, vec![SMALL_PAGE, MEDIUM_PAGE, LARGE_PAGE, 100 * MIB]);
    assert_eq!(m.allocations(), 4);
}

#[test]
fn pages_are_taken_ahead_of_time() {
    let mut options = sliced(MIB, 256 * KIB, None);
    options.chunk_num_prealloc = 3;
    let mut ignored = exclusive(MIB);
    ignored.chunk_num_prealloc = 5;
    let config = MemoryConfiguration::Custom(vec![options, ignored]);
    let mut m = MemoryManager::configure(&config, props(64 * MIB, 256), Device::with_budget(8 * MIB)).unwrap();
    assert_eq!(m.device.asked, vec![MIB, MIB, MIB]);
    assert_eq!(m.pools[0].chunks.len(), 3);
    assert_eq!(m.pools[1].chunks.len(), 0);
    assert_eq!(m.allocations(), 0);
    m.reserve(KIB, 256).unwrap();
    assert_eq!(m.device.asked.len(), 3);

    let r = MemoryManager::configure(&config, props(64 * MIB, 256), Device::with_budget(2 * MIB));
    assert!(matches!(r, Err(AllocError::OutOfDeviceMemory)));
}

#[test]
fn smallest_free_space_is_chosen() {
    let mut pool = Pool::new(sliced(4096, 4096, None), props(MIB, 256)).unwrap();
    let mut device = Device::with_budget(MIB);
    let a = pool.reserve(&mut device, 1024, 256, 1).unwrap();
    let b = pool.reserve(&mut device, 256, 256, 2).unwrap();
    let c = pool.reserve(&mut device, 512, 256, 3).unwrap();
    let d = pool.reserve(&mut device, 256, 256, 4).unwrap();
    let e = pool.reserve(&mut device, 1024, 256, 5).unwrap();
    assert_eq!((a.offset, b.offset, c.offset, d.offset, e.offset), (0, 1024, 1280, 1792, 2048));
    // free spaces: 1024 bytes at 0, 512 at 1280, none between the last two, 1024 at the end
    pool.release(a, 6);
    pool.release(c, 7);
    assert_eq!(pool.place(256), Some((0, 1)));
    assert_eq!(pool.place(600), Some((0, 0)));
    assert_eq!(pool.place(2048), None);
    let f = pool.reserve(&mut device, 300, 256, 8).unwrap();
    assert_eq!((f.chunk, f.offset, f.size), (0, 1280, 512));
    let g = pool.reserve(&mut device, 700, 256, 9).unwrap();
    assert_eq!((g.chunk, g.offset, g.size), (0, 0, 768));
    assert_eq!(device.asked, vec![4096]);
    assert_eq!(pool.chunks[0].last_touched, 9);
    let offsets: Vec<u64> = pool.chunks[0].slices.iter().map(|s| s.offset).collect();
    assert_eq!(offsets, vec![0, 1024, 1280, 1792, 2048]);
    assert_eq!(pool.lookup(b).unwrap().size, 256);
    assert_eq!(pool.lookup(SliceId { chunk: 0, offset: 1024, size: 512 }), None);
    assert_eq!(pool.lookup(SliceId { chunk: 9, offset: 0, size: 768 }), None);
}

#[test]
fn neighbouring_free_spaces_join() {
    let mut pool = Pool::new(sliced(1024, 1024, None), props(MIB, 256)).unwrap();
    let mut device = Device::with_budget(MIB);
    let a = pool.reserve(&mut device, 256, 256, 1).unwrap();
    let b = pool.reserve(&mut device, 256, 256, 2).unwrap();
    let c = pool.reserve(&mut device, 256, 256, 3).unwrap();
    let d = pool.reserve(&mut device, 256, 256, 4).unwrap();
    assert_eq!(pool.place(256), None);
    pool.release(b, 5);
    pool.release(c, 5);
    let wide = pool.reserve(&mut device, 512, 256, 6).unwrap();
    assert_eq!((wide.chunk, wide.offset), (0, 256));
    assert_eq!(device.asked, vec![1024]);
    pool.release(a, 7);
    pool.release(d, 7);
    pool.release(wide, 7);
    assert!(pool.chunks[0].slices.is_empty());
    let all = pool.reserve(&mut device, 1024, 256, 8).unwrap();
    assert_eq!((all.chunk, all.offset, all.size), (0, 0, 1024));
}

#[test]
fn locks_are_counted() {
    let mut pool = Pool::new(sliced(1024, 1024, Some(0)), props(MIB, 256)).unwrap();
    let mut device = Device::with_budget(MIB);
    let a = pool.reserve(&mut device, 256, 256, 1).unwrap();
    pool.lock(a);
    pool.lock(a);
    assert_eq!(pool.lookup(a).unwrap().locks, 2);
    pool.release(a, 1);
    pool.unlock(a);
    let record = pool.lookup(a).unwrap();
    assert_eq!((record.used, record.locks), (false, 1));
    assert_eq!(pool.tick(100), Vec::<u64>::new());
    assert_eq!(pool.place(1024), None);
    pool.unlock(a);
    assert_eq!(pool.lookup(a), None);
    assert_eq!(pool.place(1024), Some((0, 0)));
    let raw = pool.chunks[0].raw;
    assert_eq!(pool.tick(100), vec![raw]);
    assert!(pool.chunks.is_empty());
    // a lock on a region in use leaves it in use when it goes
    let b = pool.reserve(&mut device, 256, 256, 2).unwrap();
    assert_eq!(b.chunk, 1);
    pool.lock(b);
    pool.unlock(b);
    let record = pool.lookup(b).unwrap();
    assert_eq!((record.used, record.locks), (true, 0));
}

#[test]
fn tick_keeps_the_order_of_the_chunks_that_stay() {
    let mut pool = Pool::new(exclusive(MIB), props(MIB, 256)).unwrap();
    let mut device = Device::with_budget(MIB);
    let a = pool.reserve(&mut device, 100, 256, 1).unwrap();
    let b = pool.reserve(&mut device, 200, 256, 2).unwrap();
    let c = pool.reserve(&mut device, 300, 256, 3).unwrap();
    let d = pool.reserve(&mut device, 400, 256, 4).unwrap();
    assert_eq!((a.chunk, b.chunk, c.chunk, d.chunk), (0, 1, 2, 3));
    assert_eq!((a.size, b.size, c.size, d.size), (256, 256, 512, 512));
    let raws: Vec<u64> = pool.chunks.iter().map(|c| c.raw).collect();
    pool.release(a, 4);
    pool.release(c, 4);
    assert_eq!(pool.tick(4), vec![raws[0], raws[2]]);
    let ids: Vec<u64> = pool.chunks.iter().map(|c| c.id).collect();
    assert_eq!(ids, vec![1, 3]);
    assert_eq!(pool.find_chunk(3), Some(1));
    assert_eq!(pool.find_chunk(0), None);
    // a freed exclusive chunk is never used again: the next request gets a new one
    let e = pool.reserve(&mut device, 100, 256, 5).unwrap();
    assert_eq!(e.chunk, 4);
}

#[test]
fn chunk_records_are_kept_by_offset() {
    let mut chunk = Chunk::new(7, 70, 1024, 0);
    assert_eq!(chunk.best_gap(256, 1024), Some((0, 1024)));
    assert_eq!(chunk.best_gap(256, 1025), None);
    assert_eq!(chunk.carve(256, 0, 512, 1), 0);
    assert_eq!(chunk.carve(256, 1, 256, 2), 512);
    assert_eq!(chunk.gap(256, 2), (768, 1024));
    assert_eq!(chunk.find(256, 512), Some(1));
    assert_eq!(chunk.find(256, 256), None);
    chunk.release(256, 0, 3);
    assert_eq!(chunk.last_touched, 3);
    assert_eq!(chunk.slices, vec![Slice { offset: 512, size: 256, used: true, locks: 0 }]);
    assert_eq!(chunk.best_gap(256, 256), Some((1, 256)));
    assert_eq!(chunk.best_gap(256, 512), Some((0, 512)));
}

#[test]
fn exclusive_pool_serves_up_to_one_page() {
    let mut pool = Pool::new(exclusive(4096), props(MIB, 256)).unwrap();
    let mut device = Device::with_budget(MIB);
    assert_eq!(pool.request_size(4096, 256), Ok(4096));
    assert_eq!(pool.request_size(4000, 256), Ok(4096));
    assert_eq!(pool.request_size(4097, 256), Err(AllocError::OutOfDeviceMemory));
    assert_eq!(pool.reserve(&mut device, 4097, 256, 1), Err(AllocError::OutOfDeviceMemory));
    assert!(device.asked.is_empty());
    let a = pool.reserve(&mut device, 4000, 256, 1).unwrap();
    assert_eq!((a.chunk, a.offset, a.size), (0, 0, 4096));
    assert_eq!(device.asked, vec![4096]);
    assert_eq!(pool.chunks[0].size, 4096);
    assert_eq!(pool.chunks[0].slices, vec![Slice { offset: 0, size: 4096, used: true, locks: 0 }]);
}

#[test]
fn offsets_are_multiples_of_the_alignment() {
    let mut m = manager(vec![sliced(MIB, 256 * KIB, None)], props(64 * MIB, 512));
    let sizes = [1u64, 511, 512, 513, 4000, 100 * KIB, 7, 0, 256 * KIB];
    let mut handles: Vec<Handle> = Vec::new();
    for (i, size) in sizes.iter().enumerate() {
        let alignment = [512u64, 256, 64, 1][i % 4];
        let h = m.reserve(*size, alignment).unwrap();
        assert_eq!(h.slice.offset % 512, 0);
        assert_eq!(h.slice.offset % alignment, 0);
        assert_eq!(h.slice.size % 512, 0);
        assert!(h.slice.size >= *size && h.slice.size < *size + 512 + 1);
        handles.push(h);
    }
    m.release(handles[1]);
    m.release(handles[2]);
    m.release(handles[5]);
    let again = m.reserve(900, 512).unwrap();
    assert_eq!(again.slice.offset, 512);
    assert_eq!(again.slice.size, 1024);
    assert_eq!(m.allocations(), 10);
    let total: u64 = m.pools[0].chunks.iter().map(|c| c.size).sum();
    assert!(total <= m.pools[0].chunks.len() as u64 * MIB);
    for c in m.pools[0].chunks.iter() {
        for pair in c.slices.windows(2) {
            assert!(pair[0].offset + pair[0].size <= pair[1].offset);
        }
        for s in c.slices.iter() {
            assert!(s.offset + s.size <= c.size);
        }
    }
}

#[test]
fn other_regions_stay_when_one_goes() {
    let mut m = manager(vec![sliced(4096, 4096, Some(0))], props(MIB, 256));
    let a = m.reserve(256, 256).unwrap();
    let b = m.reserve(256, 256).unwrap();
    let c = m.reserve(256, 256).unwrap();
    let before = m.lookup(&c).unwrap();
    m.release(a);
    let guard = m.lock(&b);
    m.tick();
    assert_eq!(m.lookup(&a), None);
    assert_eq!(m.lookup(&c), Some(before));
    assert_eq!(m.lookup(&b).unwrap().locks, 1);
    let d = m.reserve(256, 256).unwrap();
    assert_eq!(d.slice.offset, 0);
    assert_eq!(m.lookup(&c), Some(before));
    m.unlock(guard);
    assert_eq!(m.lookup(&b).unwrap(), Slice { offset: 256, size: 256, used: true, locks: 0 });
}

#[test]
fn broken_bookkeeping_is_detected() {
    let mut m = manager(
        vec![sliced(4096, 4096, Some(0)), exclusive(MIB)],
        props(MIB, 256),
    );
    assert!(m.check());
    let a = m.reserve(256, 256).unwrap();
    let b = m.reserve(512, 256).unwrap();
    let big = m.reserve(8192, 256).unwrap();
    assert_eq!(big.pool, 1);
    m.lock(&a);
    m.release(b);
    assert!(m.check());
    assert!(m.pools[0].check());
    assert!(m.pools[0].chunks[0].check(256));
    assert!(!m.pools[0].chunks[0].check(0));
    assert!(m.pools[0].chunks[0].check(128));
    assert!(!m.pools[0].chunks[0].check(512));

    let mut chunk = Chunk::new(0, 1, 1024, 0);
    chunk.slices.push(Slice { offset: 0, size: 512, used: true, locks: 0 });
    chunk.slices.push(Slice { offset: 256, size: 512, used: true, locks: 0 });
    assert!(!chunk.check(256));
    chunk.slices[1].offset = 512;
    assert!(chunk.check(256));
    chunk.slices[1].size = 768;
    assert!(!chunk.check(256));
    chunk.slices[1].size = 512;
    chunk.slices[1].used = false;
    assert!(!chunk.check(256));
    chunk.slices[1].locks = 3;
    assert!(chunk.check(256));
    chunk.slices[0].offset = 8;
    assert!(!chunk.check(256));
    chunk.slices[0].offset = 0;
    chunk.slices[0].size = 0;
    assert!(!chunk.check(256));

    m.pools[0].chunks[0].size = 2048;
    assert!(!m.pools[0].check());
    assert!(!m.check());
    m.pools[0].chunks[0].size = 4096;
    assert!(m.check());
    m.pools[1].chunks[0].id = m.pools[1].next_id;
    assert!(!m.check());
    m.pools[1].chunks[0].id = 0;
    m.pools[1].properties.alignment = 512;
    assert!(m.pools[1].check());
    assert!(!m.check());
}
