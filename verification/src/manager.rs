use vstd::prelude::*;
use crate::chunk::{Chunk, Slice};
use crate::config::{MemoryConfiguration, MemoryDeviceProperties, MemoryPoolOptions, PoolType};
use crate::error::AllocError;
use crate::pool::{keeps, DeviceAllocator, Pool, SliceId};

verus! {

/// Names one region that the manager handed out.
#[derive(Debug, Clone, Copy, PartialEq, Eq, Structural)]
pub struct Handle {
    /// The place of the pool that serves the region.
    pub pool: usize,
    /// The region within that pool.
    pub slice: SliceId,
}

/// One pin on a region, to be handed back to `unlock` when the device is
/// done with the region.
#[derive(Debug)]
pub struct LockGuard {
    /// The pinned region.
    pub handle: Handle,
}

/// The pools of one device, in the order in which requests are offered to
/// them, and the count of the reservations made so far.
pub struct MemoryManager<D: DeviceAllocator> {
    /// The limits of the device.
    pub properties: MemoryDeviceProperties,
    /// The pools, first choice first.
    pub pools: Vec<Pool>,
    /// Number of reservations that succeeded.
    pub allocations: u64,
    /// The device that the chunks come from.
    pub device: D,
}

/// The count after one more reservation; it stays at the largest number.
pub open spec fn bumped(count: u64) -> u64 {
    if count < u64::MAX {
        (count + 1) as u64
    } else {
        count
    }
}

/// Every entry of the list is valid on a device with these properties.
pub open spec fn all_valid(list: Seq<MemoryPoolOptions>, properties: MemoryDeviceProperties) -> bool {
    forall|i: int| 0 <= i < list.len() ==> (#[trigger] list[i]).valid_for(properties)
}

/// Number of pages that a pool with these options takes from the device
/// when it is built.
pub open spec fn prealloc(options: MemoryPoolOptions) -> u64 {
    match options.pool_type {
        PoolType::ExclusivePages => 0,
        PoolType::SlicedPages { .. } => options.chunk_num_prealloc,
    }
}

/// The chunk at place `place` of a pool that was just built: nothing is in
/// it, it is named by its place, and no reservation has touched it.
pub open spec fn untouched(c: Chunk, place: int) -> bool {
    c.idle() && c.id == place && c.last_touched == 0
}

/// Returns every chunk of the pool to the device.
fn return_chunks<D: DeviceAllocator>(device: &mut D, pool: &Pool) {
    let mut c: usize = 0;
    while c < pool.chunks.len()
        invariant
            c <= pool.chunks@.len(),
        decreases pool.chunks@.len() - c,
    {
        device.free(pool.chunks[c].raw);
        c += 1;
    }
}

impl<D: DeviceAllocator> MemoryManager<D> {
    /// Every pool is well-formed and built for the manager's device.
    pub open spec fn wf(self) -> bool {
        forall|p: int|
            0 <= p < self.pools@.len() ==> (#[trigger] self.pools@[p]).wf() && self.pools@[p].properties
                == self.properties
    }

    /// Pool `p` is the first whose ceiling covers `size`.
    pub open spec fn serves(self, p: int, size: u64) -> bool {
        &&& 0 <= p < self.pools@.len()
        &&& self.pools@[p].options.covers(size)
        &&& forall|q: int| 0 <= q < p ==> !(#[trigger] self.pools@[q]).options.covers(size)
    }

    /// No pool's ceiling covers `size`.
    pub open spec fn unserved(self, size: u64) -> bool {
        forall|q: int| 0 <= q < self.pools@.len() ==> !(#[trigger] self.pools@[q]).options.covers(size)
    }

    /// The manager has a record of the region.
    pub open spec fn holds(self, h: Handle) -> bool {
        h.pool < self.pools@.len() && self.pools@[h.pool as int].holds(h.slice)
    }

    /// The manager's record of the region.
    pub open spec fn record(self, h: Handle) -> Slice {
        self.pools@[h.pool as int].record(h.slice)
    }

    /// All pools but pool `p` are in `after` what they are in `self`, and
    /// so are the device's limits.
    pub open spec fn same_but(self, after: Self, p: int) -> bool {
        &&& after.properties == self.properties
        &&& after.pools@.len() == self.pools@.len()
        &&& forall|q: int| 0 <= q < self.pools@.len() && q != p ==> after.pools@[q] == self.pools@[q]
    }

    /// Builds one pool for each entry of the configuration, in its order,
    /// and asks the device for the pages that the sliced pools want ahead
    /// of time (an exclusive pool has no use for a page before a request
    /// names its size). An entry that breaks the device's limits makes the
    /// whole configuration invalid. Where the device refuses a page, the
    /// pages it gave are returned to it.
    pub fn configure(config: &MemoryConfiguration, properties: MemoryDeviceProperties, device: D) -> (r:
        Result<Self, AllocError>)
        ensures
            !all_valid(config.pools(properties), properties) ==> (r matches Err(e) && e
                == AllocError::InvalidConfiguration),
            all_valid(config.pools(properties), properties) ==> match r {
                Ok(m) => {
                    &&& m.wf()
                    &&& m.properties == properties
                    &&& m.allocations == 0
                    &&& m.pools@.len() == config.pools(properties).len()
                    &&& forall|p: int|
                        0 <= p < m.pools@.len() ==> {
                            let pool = #[trigger] m.pools@[p];
                            &&& pool.options == config.pools(properties)[p]
                            &&& pool.chunks@.len() == prealloc(pool.options)
                            &&& forall|c: int|
                                0 <= c < pool.chunks@.len() ==> untouched(#[trigger] pool.chunks@[c], c)
                        }
                },
                Err(e) => e == AllocError::OutOfDeviceMemory && exists|p: int|
                    0 <= p < config.pools(properties).len() && prealloc(
                        #[trigger] config.pools(properties)[p],
                    ) > 0,
            },
    {
        let wanted = config.pool_options(&properties);
        let mut i: usize = 0;
        while i < wanted.len()
            invariant
                wanted@ == config.pools(properties),
                i <= wanted@.len(),
                forall|q: int| 0 <= q < i ==> (#[trigger] wanted@[q]).valid_for(properties),
            decreases wanted@.len() - i,
        {
            if wanted[i].validate(&properties).is_err() {
                assert(!wanted@[i as int].valid_for(properties));
                return Err(AllocError::InvalidConfiguration);
            }
            i += 1;
        }
        let mut device = device;
        let mut pools: Vec<Pool> = Vec::new();
        let mut p: usize = 0;
        while p < wanted.len()
            invariant
                wanted@ == config.pools(properties),
                all_valid(wanted@, properties),
                p <= wanted@.len(),
                pools@.len() == p,
                forall|q: int|
                    0 <= q < p ==> {
                        let pool = #[trigger] pools@[q];
                        &&& pool.wf()
                        &&& pool.properties == properties
                        &&& pool.options == wanted@[q]
                        &&& pool.chunks@.len() == prealloc(pool.options)
                        &&& forall|c: int|
                            0 <= c < pool.chunks@.len() ==> untouched(#[trigger] pool.chunks@[c], c)
                    },
            decreases wanted@.len() - p,
        {
            let options = wanted[p];
            assert(options.valid_for(properties));
            let mut pool = match Pool::new(options, properties) {
                Ok(pool) => pool,
                Err(e) => {
                    return Err(e);
                },
            };
            let ahead: u64 = match options.pool_type {
                PoolType::ExclusivePages => 0,
                PoolType::SlicedPages { .. } => options.chunk_num_prealloc,
            };
            let mut k: u64 = 0;
            while k < ahead
                invariant
                    pool.wf(),
                    pool.properties == properties,
                    pool.options == options,
                    ahead == prealloc(options),
                    ahead > 0 ==> pool.sliced(),
                    k <= ahead,
                    pool.next_id == k,
                    pool.chunks@.len() == k,
                    forall|c: int| 0 <= c < pool.chunks@.len() ==> untouched(#[trigger] pool.chunks@[c], c),
                    p < wanted@.len(),
                    options == wanted@[p as int],
                    wanted@ == config.pools(properties),
                    all_valid(wanted@, properties),
                decreases ahead - k,
            {
                match device.allocate(options.page_size) {
                    Some(raw) => {
                        let ghost before = pool.chunks@;
                        pool.preallocate(raw, 0);
                        proof {
                            assert forall|c: int| 0 <= c < pool.chunks@.len() implies untouched(
                                #[trigger] pool.chunks@[c],
                                c,
                            ) by {
                                if c < before.len() {
                                    assert(pool.chunks@[c] == pool.chunks@.drop_last()[c]);
                                }
                            }
                        }
                    },
                    None => {
                        assert(prealloc(wanted@[p as int]) > 0);
                        return_chunks(&mut device, &pool);
                        let mut q: usize = 0;
                        while q < pools.len()
                            invariant
                                q <= pools@.len(),
                                p < wanted@.len(),
                                prealloc(wanted@[p as int]) > 0,
                                wanted@ == config.pools(properties),
                                all_valid(wanted@, properties),
                            decreases pools@.len() - q,
                        {
                            return_chunks(&mut device, &pools[q]);
                            q += 1;
                        }
                        return Err(AllocError::OutOfDeviceMemory);
                    },
                }
                k += 1;
            }
            pools.push(pool);
            p += 1;
        }
        Ok(MemoryManager { properties, pools, allocations: 0, device })
    }

    /// Tests whether the manager is well-formed.
    pub fn check(&self) -> (r: bool)
        ensures
            r == self.wf(),
    {
        let mut p: usize = 0;
        while p < self.pools.len()
            invariant
                p <= self.pools@.len(),
                forall|q: int|
                    0 <= q < p ==> (#[trigger] self.pools@[q]).wf() && self.pools@[q].properties
                        == self.properties,
            decreases self.pools@.len() - p,
        {
            let pool = &self.pools[p];
            let same = pool.properties.max_page_size == self.properties.max_page_size
                && pool.properties.alignment == self.properties.alignment;
            if !(same && pool.check()) {
                assert(!(self.pools@[p as int].wf() && self.pools@[p as int].properties
                    == self.properties));
                return false;
            }
            p += 1;
        }
        true
    }

    /// The first pool whose ceiling covers `size`.
    pub fn route(&self, size: u64) -> (r: Option<usize>)
        ensures
            r.is_none() <==> self.unserved(size),
            r.is_some() ==> self.serves(r.unwrap() as int, size),
    {
        let mut p: usize = 0;
        while p < self.pools.len()
            invariant
                p <= self.pools@.len(),
                forall|q: int| 0 <= q < p ==> !(#[trigger] self.pools@[q]).options.covers(size),
            decreases self.pools@.len() - p,
        {
            let covers = match self.pools[p].options.pool_type {
                PoolType::ExclusivePages => true,
                PoolType::SlicedPages { max_slice_size } => size <= max_slice_size,
            };
            if covers {
                return Some(p);
            }
            p += 1;
        }
        None
    }

    /// The limits of the device.
    pub fn properties(&self) -> (r: MemoryDeviceProperties)
        ensures
            r == self.properties,
    {
        self.properties
    }

    /// Number of reservations that succeeded so far.
    pub fn allocations(&self) -> (r: u64)
        ensures
            r == self.allocations,
    {
        self.allocations
    }

    /// The manager's record of the region, if it has one.
    pub fn lookup(&self, h: &Handle) -> (r: Option<Slice>)
        requires
            self.wf(),
        ensures
            r.is_some() <==> self.holds(*h),
            r.is_some() ==> r.unwrap() == self.record(*h),
    {
        if h.pool < self.pools.len() {
            self.pools[h.pool].lookup(h.slice)
        } else {
            None
        }
    }

    /// Reserves `size` bytes in the first pool whose ceiling covers them,
    /// and counts the reservation if it succeeds. Without such a pool the
    /// request is refused as too large.
    pub fn reserve(&mut self, size: u64, alignment: u64) -> (r: Result<Handle, AllocError>)
        requires
            old(self).wf(),
        ensures
            final(self).wf(),
            old(self).unserved(size) ==> r == Err::<Handle, AllocError>(AllocError::SliceTooLarge)
                && final(self).pools@ == old(self).pools@ && final(self).allocations == old(
                self,
            ).allocations && final(self).properties == old(self).properties,
            forall|p: int| #[trigger]
                old(self).serves(p, size) ==> {
                    &&& old(self).same_but(*final(self), p)
                    &&& old(self).pools@[p].reserved(
                        final(self).pools@[p],
                        size,
                        alignment,
                        bumped(old(self).allocations),
                        match r {
                            Ok(h) => Ok(h.slice),
                            Err(e) => Err(e),
                        },
                    )
                    &&& r.is_ok() ==> r.unwrap().pool == p
                },
            final(self).allocations == if r.is_ok() {
                bumped(old(self).allocations)
            } else {
                old(self).allocations
            },
            r.is_ok() ==> {
                let h = r.unwrap();
                &&& final(self).holds(h)
                &&& final(self).record(h) == (Slice {
                    offset: h.slice.offset,
                    size: h.slice.size,
                    used: true,
                    locks: 0,
                })
                &&& h.slice.offset % alignment == 0
                &&& h.slice.size >= size
            },
    {
        let p: usize = match self.route(size) {
            None => {
                return Err(AllocError::SliceTooLarge);
            },
            Some(p) => p,
        };
        let now: u64 = if self.allocations < u64::MAX {
            self.allocations + 1
        } else {
            self.allocations
        };
        let r = self.pools[p].reserve(&mut self.device, size, alignment, now);
        proof {
            assert forall|q: int| old(self).serves(q, size) implies q == p by {
                if q < p {
                    assert(!old(self).pools@[q].options.covers(size));
                }
            }
        }
        match r {
            Ok(slice) => {
                self.allocations = now;
                Ok(Handle { pool: p, slice })
            },
            Err(e) => Err(e),
        }
    }

    /// The caller of the region gives it up.
    pub fn release(&mut self, h: Handle)
        requires
            old(self).wf(),
            old(self).holds(h),
            old(self).record(h).used,
        ensures
            final(self).wf(),
            final(self).allocations == old(self).allocations,
            old(self).same_but(*final(self), h.pool as int),
            old(self).pools@[h.pool as int].rewritten(
                final(self).pools@[h.pool as int],
                old(self).pools@[h.pool as int].chunk_index(h.slice.chunk),
                Chunk::released(
                    old(self).pools@[h.pool as int].chunks@[old(self).pools@[h.pool as int].chunk_index(
                        h.slice.chunk,
                    )].slices@,
                    old(self).pools@[h.pool as int].chunks@[old(self).pools@[h.pool as int].chunk_index(
                        h.slice.chunk,
                    )].position(h.slice.offset),
                ),
                old(self).allocations,
            ),
            old(self).record(h).locks == 0 ==> !final(self).holds(h),
            old(self).record(h).locks > 0 ==> final(self).holds(h) && final(self).record(h) == (Slice {
                used: false,
                ..old(self).record(h)
            }),
    {
        let now = self.allocations;
        self.pools[h.pool].release(h.slice, now);
    }

    /// Pins the region for one operation of the device.
    pub fn lock(&mut self, h: &Handle) -> (guard: LockGuard)
        requires
            old(self).wf(),
            old(self).holds(*h),
            old(self).record(*h).locks < u64::MAX,
        ensures
            final(self).wf(),
            guard.handle == *h,
            final(self).allocations == old(self).allocations,
            old(self).same_but(*final(self), h.pool as int),
            old(self).pools@[h.pool as int].rewritten(
                final(self).pools@[h.pool as int],
                old(self).pools@[h.pool as int].chunk_index(h.slice.chunk),
                Chunk::pinned(
                    old(self).pools@[h.pool as int].chunks@[old(self).pools@[h.pool as int].chunk_index(
                        h.slice.chunk,
                    )].slices@,
                    old(self).pools@[h.pool as int].chunks@[old(self).pools@[h.pool as int].chunk_index(
                        h.slice.chunk,
                    )].position(h.slice.offset),
                ),
                old(self).pools@[h.pool as int].chunks@[old(self).pools@[h.pool as int].chunk_index(
                    h.slice.chunk,
                )].last_touched,
            ),
            final(self).holds(*h),
            final(self).record(*h) == (Slice {
                locks: (old(self).record(*h).locks + 1) as u64,
                ..old(self).record(*h)
            }),
    {
        self.pools[h.pool].lock(h.slice);
        LockGuard { handle: *h }
    }

    /// Takes the guard's pin off its region.
    pub fn unlock(&mut self, guard: LockGuard)
        requires
            old(self).wf(),
            old(self).holds(guard.handle),
            old(self).record(guard.handle).locks > 0,
        ensures
            final(self).wf(),
            final(self).allocations == old(self).allocations,
            old(self).same_but(*final(self), guard.handle.pool as int),
            old(self).pools@[guard.handle.pool as int].rewritten(
                final(self).pools@[guard.handle.pool as int],
                old(self).pools@[guard.handle.pool as int].chunk_index(guard.handle.slice.chunk),
                Chunk::unpinned(
                    old(self).pools@[guard.handle.pool as int].chunks@[old(
                        self,
                    ).pools@[guard.handle.pool as int].chunk_index(guard.handle.slice.chunk)].slices@,
                    old(self).pools@[guard.handle.pool as int].chunks@[old(
                        self,
                    ).pools@[guard.handle.pool as int].chunk_index(guard.handle.slice.chunk)].position(
                        guard.handle.slice.offset,
                    ),
                ),
                old(self).pools@[guard.handle.pool as int].chunks@[old(
                    self,
                ).pools@[guard.handle.pool as int].chunk_index(guard.handle.slice.chunk)].last_touched,
            ),
            old(self).record(guard.handle).locks == 1 && !old(self).record(guard.handle).used ==> !final(self).holds(guard.handle),
            !(old(self).record(guard.handle).locks == 1 && !old(self).record(guard.handle).used)
                ==> final(self).holds(guard.handle) && final(self).record(guard.handle) == (Slice {
                locks: (old(self).record(guard.handle).locks - 1) as u64,
                ..old(self).record(guard.handle)
            }),
    {
        let h = guard.handle;
        self.pools[h.pool].unlock(h.slice);
    }

    /// Lets every pool, first pool first, give back to the device the
    /// chunks that are due at the present count.
    pub fn tick(&mut self)
        requires
            old(self).wf(),
        ensures
            final(self).wf(),
            final(self).allocations == old(self).allocations,
            final(self).properties == old(self).properties,
            final(self).pools@.len() == old(self).pools@.len(),
            forall|p: int|
                0 <= p < old(self).pools@.len() ==> {
                    let before = #[trigger] old(self).pools@[p];
                    let after = final(self).pools@[p];
                    &&& after.options == before.options
                    &&& after.next_id == before.next_id
                    &&& after.chunks@ == before.chunks@.filter(
                        keeps(before.options, old(self).allocations),
                    )
                },
    {
        let now = self.allocations;
        let mut p: usize = 0;
        while p < self.pools.len()
            invariant
                self.wf(),
                self.allocations == old(self).allocations,
                self.properties == old(self).properties,
                self.pools@.len() == old(self).pools@.len(),
                now == self.allocations,
                p <= self.pools@.len(),
                forall|q: int| p <= q < self.pools@.len() ==> self.pools@[q] == old(self).pools@[q],
                forall|q: int|
                    0 <= q < p ==> {
                        let before = #[trigger] old(self).pools@[q];
                        let after = self.pools@[q];
                        &&& after.options == before.options
                        &&& after.next_id == before.next_id
                        &&& after.chunks@ == before.chunks@.filter(keeps(before.options, now))
                    },
            decreases self.pools@.len() - p,
        {
            let freed = self.pools[p].tick(now);
            let mut i: usize = 0;
            while i < freed.len()
                invariant
                    self.wf(),
                    self.allocations == old(self).allocations,
                    self.properties == old(self).properties,
                    self.pools@.len() == old(self).pools@.len(),
                    now == self.allocations,
                    p < self.pools@.len(),
                    forall|q: int| p < q < self.pools@.len() ==> self.pools@[q] == old(self).pools@[q],
                    forall|q: int|
                        0 <= q <= p ==> {
                            let before = #[trigger] old(self).pools@[q];
                            let after = self.pools@[q];
                            &&& after.options == before.options
                            &&& after.next_id == before.next_id
                            &&& after.chunks@ == before.chunks@.filter(keeps(before.options, now))
                        },
                decreases freed.len() - i,
            {
                self.device.free(freed[i]);
                i += 1;
            }
            p += 1;
        }
    }
}

} // verus!
