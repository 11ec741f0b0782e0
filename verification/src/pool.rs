use vstd::prelude::*;
use crate::align::{lemma_divisor_aligned, lemma_rounded, round_up, rounded};
use crate::chunk::{Chunk, Slice};
use crate::config::{MemoryDeviceProperties, MemoryPoolOptions, PoolType};
use crate::error::AllocError;

verus! {

/// The device layer under the pools: it hands out regions of device memory
/// and takes them back. Nothing is assumed of what it answers.
pub trait DeviceAllocator {
    /// Asks the device for `bytes` bytes; `None` where it has none to give.
    fn allocate(&mut self, bytes: u64) -> Option<u64>;

    /// Returns the region that the device called `raw`.
    fn free(&mut self, raw: u64);
}

/// Names one region that a pool handed out.
#[derive(Debug, Clone, Copy, PartialEq, Eq, Structural)]
pub struct SliceId {
    /// The chunk that holds the region.
    pub chunk: u64,
    /// First byte of the region within the chunk.
    pub offset: u64,
    /// Number of bytes of the region.
    pub size: u64,
}

/// The chunks of one strategy, oldest first.
#[derive(Debug)]
pub struct Pool {
    /// The policy of the pool.
    pub options: MemoryPoolOptions,
    /// The limits of the device that the chunks come from.
    pub properties: MemoryDeviceProperties,
    /// The chunks that the pool owns, by rising name.
    pub chunks: Vec<Chunk>,
    /// The name that the next chunk gets.
    pub next_id: u64,
}

/// A chunk is given back once nothing in it is in use or pinned: by an
/// exclusive pool at once, by a sliced pool when `period` allocations have
/// passed since it was last touched, and never where the pool has no period.
pub open spec fn evictable(options: MemoryPoolOptions, c: Chunk, now: u64) -> bool {
    &&& c.idle()
    &&& match options.pool_type {
        PoolType::ExclusivePages => true,
        PoolType::SlicedPages { .. } => match options.dealloc_period {
            Some(period) => now - c.last_touched >= period,
            None => false,
        },
    }
}

/// The chunks that stay at the count `now`.
pub open spec fn keeps(options: MemoryPoolOptions, now: u64) -> spec_fn(Chunk) -> bool {
    |c: Chunk| !evictable(options, c, now)
}

/// The chunks that are given back at the count `now`.
pub open spec fn drops(options: MemoryPoolOptions, now: u64) -> spec_fn(Chunk) -> bool {
    |c: Chunk| evictable(options, c, now)
}

/// What the device called a chunk.
pub open spec fn raw_of() -> spec_fn(Chunk) -> u64 {
    |c: Chunk| c.raw
}

impl Pool {
    /// The alignment of every region of the pool.
    pub open spec fn align(self) -> u64 {
        self.properties.alignment
    }

    /// The pool cuts its pages into slices.
    pub open spec fn sliced(self) -> bool {
        self.options.pool_type is SlicedPages
    }

    /// What the pool's strategy asks of each of its chunks: a sliced pool's
    /// chunk is one page; an exclusive pool's chunk is no larger than a
    /// page and holds at most one region, which is the whole chunk.
    pub open spec fn chunk_ok(self, c: Chunk) -> bool {
        &&& c.wf(self.align())
        &&& c.id < self.next_id
        &&& c.size <= self.options.page_size
        &&& if self.sliced() {
            c.size == self.options.page_size
        } else {
            &&& c.slices@.len() <= 1
            &&& c.slices@.len() == 1 ==> c.slices@[0].offset == 0 && c.slices@[0].size == c.size
        }
    }

    /// The options are valid, every chunk is in order, and the names of the
    /// chunks rise.
    pub open spec fn wf(self) -> bool {
        &&& self.options.valid_for(self.properties)
        &&& forall|c: int| 0 <= c < self.chunks@.len() ==> self.chunk_ok(#[trigger] self.chunks@[c])
        &&& forall|a: int, b: int|
            0 <= a < b < self.chunks@.len() ==> (#[trigger] self.chunks@[a]).id
                < (#[trigger] self.chunks@[b]).id
    }

    /// The pool owns a chunk of that name.
    pub open spec fn has_chunk(self, id: u64) -> bool {
        exists|c: int| 0 <= c < self.chunks@.len() && (#[trigger] self.chunks@[c]).id == id
    }

    /// The place of the chunk of that name.
    pub open spec fn chunk_index(self, id: u64) -> int {
        choose|c: int| 0 <= c < self.chunks@.len() && (#[trigger] self.chunks@[c]).id == id
    }

    /// The pool has a record of the region.
    pub open spec fn holds(self, s: SliceId) -> bool {
        &&& self.has_chunk(s.chunk)
        &&& self.chunks@[self.chunk_index(s.chunk)].holds(s.offset)
        &&& self.chunks@[self.chunk_index(s.chunk)].record(s.offset).size == s.size
    }

    /// The pool's record of the region.
    pub open spec fn record(self, s: SliceId) -> Slice {
        self.chunks@[self.chunk_index(s.chunk)].record(s.offset)
    }

    /// In a well-formed pool one chunk at most has a given name.
    pub proof fn lemma_chunk_index(self, c: int)
        requires
            self.wf(),
            0 <= c < self.chunks@.len(),
        ensures
            self.has_chunk(self.chunks@[c].id),
            self.chunk_index(self.chunks@[c].id) == c,
    {
        let id = self.chunks@[c].id;
        let p = self.chunk_index(id);
        assert(0 <= p < self.chunks@.len() && self.chunks@[p].id == id);
        if p < c {
            assert(self.chunks@[p].id < self.chunks@[c].id);
        } else if c < p {
            assert(self.chunks@[c].id < self.chunks@[p].id);
        }
    }

    /// What becomes of a request before any chunk is looked at: the error
    /// that refuses it, or the number of bytes that its region takes.
    pub open spec fn request(self, size: u64, alignment: u64) -> Result<u64, AllocError> {
        let need = rounded(size as int, self.align() as int);
        if !self.options.covers(size) {
            Err(AllocError::SliceTooLarge)
        } else if alignment == 0 || self.align() % alignment != 0 {
            Err(AllocError::MisalignedRequest)
        } else if self.sliced() {
            if need > self.options.page_size {
                Err(AllocError::MisalignedRequest)
            } else {
                Ok(need as u64)
            }
        } else {
            if need > self.options.page_size {
                Err(AllocError::OutOfDeviceMemory)
            } else {
                Ok(need as u64)
            }
        }
    }

    /// The bytes that the pool asks of the device for a chunk that is to
    /// take a region of `need` bytes.
    pub open spec fn chunk_bytes(self, need: u64) -> u64 {
        if self.sliced() {
            self.options.page_size
        } else {
            need
        }
    }

    /// Some chunk of the pool has free space for `need` bytes.
    pub open spec fn can_place(self, need: u64) -> bool {
        exists|c: int, k: int|
            0 <= c < self.chunks@.len() && #[trigger] self.chunks@[c].fits(k, need)
    }

    /// `r` is the smallest free space among the first `upto` chunks that
    /// takes `need` bytes; where several are as small, the first of the
    /// first chunk that has one.
    pub open spec fn best_place(self, need: u64, upto: int, r: Option<(usize, usize)>) -> bool {
        &&& r.is_none() <==> forall|c: int, k: int|
            0 <= c < upto ==> !#[trigger] self.chunks@[c].fits(k, need)
        &&& r.is_some() ==> {
            let c = r.unwrap().0 as int;
            let k = r.unwrap().1 as int;
            let len = self.chunks@[c].gap_len(k);
            &&& 0 <= c < upto
            &&& self.chunks@[c].fits(k, need)
            &&& forall|d: int, j: int|
                0 <= d < upto && #[trigger] self.chunks@[d].fits(j, need) ==> len
                    <= self.chunks@[d].gap_len(j)
            &&& forall|d: int, j: int|
                0 <= d < c && #[trigger] self.chunks@[d].fits(j, need) ==> len
                    < self.chunks@[d].gap_len(j)
            &&& forall|j: int|
                0 <= j < k && #[trigger] self.chunks@[c].fits(j, need) ==> len
                    < self.chunks@[c].gap_len(j)
        }
    }

    /// `after` is `self` with a region of `need` bytes recorded at the start
    /// of the free space before record `k` of chunk `c`, named `id`.
    pub open spec fn carved(self, after: Pool, c: int, k: int, need: u64, now: u64, id: SliceId) -> bool {
        let before = self.chunks@[c];
        let chunk = after.chunks@[c];
        &&& 0 <= c < self.chunks@.len()
        &&& after.chunks@.len() == self.chunks@.len()
        &&& after.next_id == self.next_id
        &&& after.options == self.options
        &&& after.properties == self.properties
        &&& forall|d: int| 0 <= d < self.chunks@.len() && d != c ==> after.chunks@[d] == self.chunks@[d]
        &&& id == (SliceId { chunk: before.id, offset: before.gap_start(k) as u64, size: need })
        &&& chunk.slices@ == before.slices@.insert(
            k,
            (Slice { offset: id.offset, size: need, used: true, locks: 0 }),
        )
        &&& chunk.id == before.id
        &&& chunk.raw == before.raw
        &&& chunk.size == before.size
        &&& chunk.last_touched == now
    }

    /// `after` is `self` with one more chunk, which the device called `raw`
    /// and whose first bytes are the region `id` of `need` bytes.
    pub open spec fn adopted(self, after: Pool, raw: u64, need: u64, now: u64, id: SliceId) -> bool {
        let chunk = after.chunks@.last();
        &&& after.chunks@.len() == self.chunks@.len() + 1
        &&& after.next_id == self.next_id + 1
        &&& after.options == self.options
        &&& after.properties == self.properties
        &&& after.chunks@.drop_last() == self.chunks@
        &&& id == (SliceId { chunk: self.next_id, offset: 0, size: need })
        &&& chunk.slices@ == seq![(Slice { offset: 0, size: need, used: true, locks: 0 })]
        &&& chunk.id == self.next_id
        &&& chunk.raw == raw
        &&& chunk.size == self.chunk_bytes(need)
        &&& chunk.last_touched == now
    }

    /// Tests whether the pool is well-formed.
    pub fn check(&self) -> (r: bool)
        ensures
            r == self.wf(),
    {
        if self.options.validate(&self.properties).is_err() {
            return false;
        }
        let sliced = match self.options.pool_type {
            PoolType::ExclusivePages => false,
            PoolType::SlicedPages { .. } => true,
        };
        let mut c: usize = 0;
        while c < self.chunks.len()
            invariant
                self.options.valid_for(self.properties),
                sliced == self.sliced(),
                c <= self.chunks@.len(),
                forall|d: int| 0 <= d < c ==> self.chunk_ok(#[trigger] self.chunks@[d]),
                forall|a: int, b: int|
                    0 <= a < b < c ==> (#[trigger] self.chunks@[a]).id < (#[trigger] self.chunks@[b]).id,
            decreases self.chunks@.len() - c,
        {
            let chunk = &self.chunks[c];
            let shape = if sliced {
                chunk.size == self.options.page_size
            } else {
                chunk.slices.len() == 0 || (chunk.slices.len() == 1 && chunk.slices[0].offset == 0
                    && chunk.slices[0].size == chunk.size)
            };
            let ok = chunk.check(self.properties.alignment) && chunk.id < self.next_id && chunk.size
                <= self.options.page_size && shape;
            if !ok {
                assert(!self.chunk_ok(self.chunks@[c as int]));
                return false;
            }
            if c > 0 {
                if self.chunks[c - 1].id >= chunk.id {
                    assert(!(self.chunks@[c - 1].id < self.chunks@[c as int].id));
                    return false;
                }
                assert forall|a: int| 0 <= a < c implies (#[trigger] self.chunks@[a]).id
                    < chunk.id by {
                    if a < c - 1 {
                        assert(self.chunks@[a].id < self.chunks@[c - 1].id);
                    }
                }
            }
            c += 1;
        }
        true
    }

    /// A pool without chunks, or `InvalidConfiguration` where the options
    /// break the device's limits.
    pub fn new(options: MemoryPoolOptions, properties: MemoryDeviceProperties) -> (r: Result<
        Pool,
        AllocError,
    >)
        ensures
            r.is_ok() <==> options.valid_for(properties),
            r.is_err() ==> r.unwrap_err() == AllocError::InvalidConfiguration,
            r.is_ok() ==> {
                let p = r.unwrap();
                &&& p.wf()
                &&& p.options == options
                &&& p.properties == properties
                &&& p.chunks@.len() == 0
                &&& p.next_id == 0
            },
    {
        match options.validate(&properties) {
            Ok(()) => Ok(Pool { options, properties, chunks: Vec::new(), next_id: 0 }),
            Err(_) => Err(AllocError::InvalidConfiguration),
        }
    }

    /// Tests a request against the pool's ceiling and the alignment, and
    /// rounds its size.
    pub fn request_size(&self, size: u64, alignment: u64) -> (r: Result<u64, AllocError>)
        requires
            self.wf(),
        ensures
            r == self.request(size, alignment),
            r.is_ok() ==> r.unwrap() > 0 && r.unwrap() % self.align() == 0 && r.unwrap() >= size
                && r.unwrap() <= self.chunk_bytes(r.unwrap()),
    {
        proof {
            lemma_rounded(size as int, self.align() as int);
        }
        match self.options.pool_type {
            PoolType::ExclusivePages => {
                if alignment == 0 || self.properties.alignment % alignment != 0 {
                    return Err(AllocError::MisalignedRequest);
                }
                match round_up(size, self.properties.alignment, self.options.page_size) {
                    Some(need) => Ok(need),
                    None => Err(AllocError::OutOfDeviceMemory),
                }
            },
            PoolType::SlicedPages { max_slice_size } => {
                if size > max_slice_size {
                    return Err(AllocError::SliceTooLarge);
                }
                if alignment == 0 || self.properties.alignment % alignment != 0 {
                    return Err(AllocError::MisalignedRequest);
                }
                match round_up(size, self.properties.alignment, self.options.page_size) {
                    Some(need) => Ok(need),
                    None => Err(AllocError::MisalignedRequest),
                }
            },
        }
    }

    /// The bytes to ask of the device for a chunk that is to take a region
    /// of `need` bytes: a page in a sliced pool, the region's own size in
    /// an exclusive pool.
    pub fn page_request(&self, need: u64) -> (r: u64)
        ensures
            r == self.chunk_bytes(need),
    {
        match self.options.pool_type {
            PoolType::ExclusivePages => need,
            PoolType::SlicedPages { .. } => self.options.page_size,
        }
    }

    /// The smallest free space of the pool that takes `need` bytes: the
    /// place of its chunk and its place within the chunk.
    pub fn place(&self, need: u64) -> (r: Option<(usize, usize)>)
        requires
            self.wf(),
        ensures
            self.best_place(need, self.chunks@.len() as int, r),
            r.is_some() <==> self.can_place(need),
    {
        let mut best: Option<(usize, usize)> = None;
        let mut best_len: u64 = 0;
        let mut c: usize = 0;
        while c < self.chunks.len()
            invariant
                self.wf(),
                c <= self.chunks@.len(),
                self.best_place(need, c as int, best),
                best.is_some() ==> best_len == self.chunks@[best.unwrap().0 as int].gap_len(
                    best.unwrap().1 as int,
                ),
            decreases self.chunks@.len() - c,
        {
            let ghost chunk = self.chunks@[c as int];
            assert(self.chunk_ok(chunk));
            let found = self.chunks[c].best_gap(self.properties.alignment, need);
            match found {
                Some((k, len)) => {
                    if best.is_none() || len < best_len {
                        best = Some((c, k));
                        best_len = len;
                    }
                },
                None => {},
            }
            proof {
                assert(forall|j: int| #[trigger] chunk.fits(j, need) ==> 0 <= j < chunk.slices@.len() + 1);
            }
            c += 1;
        }
        best
    }

    /// Records a region of `need` bytes in the free space before record `k`
    /// of chunk `c`.
    pub fn carve_at(&mut self, c: usize, k: usize, need: u64, now: u64) -> (id: SliceId)
        requires
            old(self).wf(),
            old(self).sliced(),
            c < old(self).chunks@.len(),
            old(self).chunks@[c as int].fits(k as int, need),
            need > 0,
            need % old(self).align() == 0,
        ensures
            final(self).wf(),
            final(self).options == old(self).options,
            final(self).properties == old(self).properties,
            old(self).carved(*final(self), c as int, k as int, need, now, id),
            id.offset % old(self).align() == 0,
            final(self).holds(id),
            final(self).record(id) == (Slice { offset: id.offset, size: need, used: true, locks: 0 }),
    {
        let align = self.properties.alignment;
        assert(self.chunk_ok(self.chunks@[c as int]));
        let chunk_id = self.chunks[c].id;
        let offset = self.chunks[c].carve(align, k, need, now);
        let id = SliceId { chunk: chunk_id, offset, size: need };
        proof {
            assert forall|d: int| 0 <= d < self.chunks@.len() implies self.chunk_ok(
                #[trigger] self.chunks@[d],
            ) by {
                if d != c {
                    assert(old(self).chunk_ok(old(self).chunks@[d]));
                }
            }
            assert forall|a: int, b: int| 0 <= a < b < self.chunks@.len() implies (
            #[trigger] self.chunks@[a]).id < (#[trigger] self.chunks@[b]).id by {
                assert(old(self).chunks@[a].id < old(self).chunks@[b].id);
            }
            self.lemma_chunk_index(c as int);
            let chunk = self.chunks@[c as int];
            assert(chunk.slices@[k as int].offset == offset);
            chunk.lemma_position(align, k as int);
        }
        id
    }

    /// Takes over a chunk that the device called `raw` and records a region
    /// of `need` bytes at its start.
    pub fn adopt(&mut self, raw: u64, need: u64, now: u64) -> (id: SliceId)
        requires
            old(self).wf(),
            old(self).next_id < u64::MAX,
            need > 0,
            need % old(self).align() == 0,
            need <= old(self).chunk_bytes(need),
            old(self).chunk_bytes(need) <= old(self).options.page_size,
        ensures
            final(self).wf(),
            final(self).options == old(self).options,
            final(self).properties == old(self).properties,
            old(self).adopted(*final(self), raw, need, now, id),
            final(self).holds(id),
            final(self).record(id) == (Slice { offset: 0, size: need, used: true, locks: 0 }),
    {
        let bytes = match self.options.pool_type {
            PoolType::ExclusivePages => need,
            PoolType::SlicedPages { .. } => self.options.page_size,
        };
        let mut chunk = Chunk::new(self.next_id, raw, bytes, now);
        let first = Slice { offset: 0, size: need, used: true, locks: 0 };
        chunk.slices.push(first);
        let id = SliceId { chunk: self.next_id, offset: 0, size: need };
        self.chunks.push(chunk);
        self.next_id = self.next_id + 1;
        proof {
            let n = old(self).chunks@.len() as int;
            assert(self.chunks@.drop_last() =~= old(self).chunks@);
            let last = self.chunks@[n];
            assert(last.slices@ =~= seq![first]);
            vstd::arithmetic::div_mod::lemma_small_mod(0, self.align() as nat);
            assert(last.slices@[0] == first);
            assert(last.wf(self.align()));
            assert forall|d: int| 0 <= d < self.chunks@.len() implies self.chunk_ok(
                #[trigger] self.chunks@[d],
            ) by {
                if d < n {
                    assert(old(self).chunk_ok(old(self).chunks@[d]));
                }
            }
            assert forall|a: int, b: int| 0 <= a < b < self.chunks@.len() implies (
            #[trigger] self.chunks@[a]).id < (#[trigger] self.chunks@[b]).id by {
                assert(old(self).chunk_ok(old(self).chunks@[a]));
                if b < n {
                    assert(old(self).chunks@[a].id < old(self).chunks@[b].id);
                }
            }
            self.lemma_chunk_index(n);
            last.lemma_position(self.align(), 0);
        }
        id
    }

    /// `after` holds the chunks of `self`, unchanged.
    pub open spec fn unchanged(self, after: Pool) -> bool {
        &&& after.chunks@ == self.chunks@
        &&& after.next_id == self.next_id
        &&& after.options == self.options
        &&& after.properties == self.properties
    }

    /// `after` is `self` with the records of chunk `c` replaced by `slices`
    /// and the chunk's last touch set to `touched`.
    pub open spec fn rewritten(self, after: Pool, c: int, slices: Seq<Slice>, touched: u64) -> bool {
        let before = self.chunks@[c];
        let chunk = after.chunks@[c];
        &&& 0 <= c < self.chunks@.len()
        &&& after.chunks@.len() == self.chunks@.len()
        &&& after.next_id == self.next_id
        &&& after.options == self.options
        &&& after.properties == self.properties
        &&& forall|d: int| 0 <= d < self.chunks@.len() && d != c ==> after.chunks@[d] == self.chunks@[d]
        &&& chunk.slices@ == slices
        &&& chunk.id == before.id
        &&& chunk.raw == before.raw
        &&& chunk.size == before.size
        &&& chunk.last_touched == touched
    }

    /// The request was served from the smallest free space that takes it.
    pub open spec fn reserved_in_place(self, after: Pool, need: u64, now: u64, id: SliceId) -> bool {
        exists|c: usize, k: usize| #[trigger]
            self.best_place(need, self.chunks@.len() as int, Some((c, k))) && self.carved(
                after,
                c as int,
                k as int,
                need,
                now,
                id,
            )
    }

    /// What a reservation at the count `now` makes of the pool `self`:
    /// the pool `after` and the answer `r`.
    pub open spec fn reserved(
        self,
        after: Pool,
        size: u64,
        alignment: u64,
        now: u64,
        r: Result<SliceId, AllocError>,
    ) -> bool {
        &&& match self.request(size, alignment) {
            Err(e) => r == Err::<SliceId, AllocError>(e) && self.unchanged(after),
            Ok(need) => if self.sliced() && self.can_place(need) {
                r.is_ok() && self.reserved_in_place(after, need, now, r.unwrap())
            } else {
                match r {
                    Ok(id) => self.adopted(after, after.chunks@.last().raw, need, now, id),
                    Err(e) => e == AllocError::OutOfDeviceMemory && self.unchanged(after),
                }
            },
        }
        &&& r.is_ok() ==> {
            let id = r.unwrap();
            &&& after.holds(id)
            &&& after.record(id) == (Slice { offset: id.offset, size: id.size, used: true, locks: 0 })
            &&& id.offset % alignment == 0
            &&& id.offset % self.align() == 0
            &&& id.size >= size
        }
    }

    /// Rewriting the records of one chunk of a well-formed pool, so that
    /// the chunk stays in order, leaves the pool well-formed.
    proof fn lemma_rewritten(self, after: Pool, c: int, slices: Seq<Slice>, touched: u64)
        requires
            self.wf(),
            self.rewritten(after, c, slices, touched),
            after.chunks@[c].wf(self.align()),
            slices.len() <= self.chunks@[c].slices@.len(),
            !self.sliced() && slices.len() == 1 ==> slices[0].offset
                == self.chunks@[c].slices@[0].offset && slices[0].size
                == self.chunks@[c].slices@[0].size,
        ensures
            after.wf(),
    {
        assert(self.chunk_ok(self.chunks@[c]));
        assert forall|d: int| 0 <= d < after.chunks@.len() implies after.chunk_ok(
            #[trigger] after.chunks@[d],
        ) by {
            if d != c {
                assert(self.chunk_ok(self.chunks@[d]));
            }
        }
        assert forall|a: int, b: int| 0 <= a < b < after.chunks@.len() implies (
        #[trigger] after.chunks@[a]).id < (#[trigger] after.chunks@[b]).id by {
            assert(self.chunks@[a].id < self.chunks@[b].id);
        }
    }

    /// Where the chunk of that name stands, if the pool owns it.
    pub fn find_chunk(&self, id: u64) -> (r: Option<usize>)
        requires
            self.wf(),
        ensures
            r.is_some() <==> self.has_chunk(id),
            r.is_some() ==> r.unwrap() == self.chunk_index(id),
    {
        let mut c: usize = 0;
        while c < self.chunks.len()
            invariant
                self.wf(),
                c <= self.chunks@.len(),
                forall|d: int| 0 <= d < c ==> (#[trigger] self.chunks@[d]).id != id,
            decreases self.chunks@.len() - c,
        {
            if self.chunks[c].id == id {
                proof {
                    self.lemma_chunk_index(c as int);
                }
                return Some(c);
            }
            c += 1;
        }
        None
    }

    /// The pool's record of the region, if it has one.
    pub fn lookup(&self, id: SliceId) -> (r: Option<Slice>)
        requires
            self.wf(),
        ensures
            r.is_some() <==> self.holds(id),
            r.is_some() ==> r.unwrap() == self.record(id),
    {
        match self.find_chunk(id.chunk) {
            None => None,
            Some(c) => {
                assert(self.chunk_ok(self.chunks@[c as int]));
                match self.chunks[c].find(self.properties.alignment, id.offset) {
                    None => None,
                    Some(i) => {
                        let s = self.chunks[c].slices[i];
                        if s.size == id.size {
                            Some(s)
                        } else {
                            None
                        }
                    },
                }
            },
        }
    }

    /// What the pool does with the device's answer to a request for a new
    /// chunk: without a chunk the reservation fails and nothing changes;
    /// with one, the region is the chunk's first bytes.
    pub fn settle(&mut self, outcome: Option<u64>, need: u64, now: u64) -> (r: Result<
        SliceId,
        AllocError,
    >)
        requires
            old(self).wf(),
            old(self).next_id < u64::MAX,
            need > 0,
            need % old(self).align() == 0,
            need <= old(self).chunk_bytes(need),
            old(self).chunk_bytes(need) <= old(self).options.page_size,
        ensures
            final(self).wf(),
            final(self).options == old(self).options,
            final(self).properties == old(self).properties,
            match outcome {
                None => r == Err::<SliceId, AllocError>(AllocError::OutOfDeviceMemory) && old(
                    self,
                ).unchanged(*final(self)),
                Some(raw) => {
                    &&& r.is_ok()
                    &&& old(self).adopted(*final(self), raw, need, now, r.unwrap())
                    &&& final(self).holds(r.unwrap())
                    &&& final(self).record(r.unwrap()) == (Slice {
                        offset: 0,
                        size: need,
                        used: true,
                        locks: 0,
                    })
                },
            },
    {
        match outcome {
            None => Err(AllocError::OutOfDeviceMemory),
            Some(raw) => Ok(self.adopt(raw, need, now)),
        }
    }

    /// Reserves `size` bytes. A request above the pool's ceiling, with an
    /// alignment that cannot be met, or larger than a page of an exclusive
    /// pool, is refused and changes nothing. A sliced pool serves the
    /// request from the smallest free space that takes it; where there is
    /// none, and always in an exclusive pool, a new chunk is asked of the
    /// device, and the reservation fails without a change where the device
    /// gives none or the names of chunks have run out.
    pub fn reserve<D: DeviceAllocator>(
        &mut self,
        device: &mut D,
        size: u64,
        alignment: u64,
        now: u64,
    ) -> (r: Result<SliceId, AllocError>)
        requires
            old(self).wf(),
        ensures
            final(self).wf(),
            final(self).options == old(self).options,
            final(self).properties == old(self).properties,
            old(self).reserved(*final(self), size, alignment, now, r),
    {
        let need = match self.request_size(size, alignment) {
            Err(e) => {
                return Err(e);
            },
            Ok(need) => need,
        };
        let sliced = match self.options.pool_type {
            PoolType::ExclusivePages => false,
            PoolType::SlicedPages { .. } => true,
        };
        if sliced {
            match self.place(need) {
                Some((c, k)) => {
                    let id = self.carve_at(c, k, need, now);
                    proof {
                        lemma_divisor_aligned(
                            id.offset as int,
                            self.align() as int,
                            alignment as int,
                        );
                    }
                    return Ok(id);
                },
                None => {},
            }
        }
        if self.next_id == u64::MAX {
            return Err(AllocError::OutOfDeviceMemory);
        }
        let bytes = self.page_request(need);
        let outcome = device.allocate(bytes);
        proof {
            vstd::arithmetic::div_mod::lemma_small_mod(0, alignment as nat);
            vstd::arithmetic::div_mod::lemma_small_mod(0, self.align() as nat);
        }
        self.settle(outcome, need, now)
    }

    /// The caller of the region gives it up. Its bytes are free again at
    /// once unless the region is pinned.
    pub fn release(&mut self, id: SliceId, now: u64)
        requires
            old(self).wf(),
            old(self).holds(id),
            old(self).record(id).used,
        ensures
            final(self).wf(),
            old(self).rewritten(
                *final(self),
                old(self).chunk_index(id.chunk),
                Chunk::released(
                    old(self).chunks@[old(self).chunk_index(id.chunk)].slices@,
                    old(self).chunks@[old(self).chunk_index(id.chunk)].position(id.offset),
                ),
                now,
            ),
            old(self).record(id).locks == 0 ==> !final(self).holds(id),
            old(self).record(id).locks > 0 ==> final(self).holds(id) && final(self).record(id) == (Slice {
                used: false,
                ..old(self).record(id)
            }),
    {
        let found = self.find_chunk(id.chunk);
        let c: usize = found.unwrap();
        assert(self.chunk_ok(self.chunks@[c as int]));
        let align = self.properties.alignment;
        self.chunks[c].release(align, id.offset, now);
        proof {
            let before = old(self).chunks@[c as int];
            let i = before.position(id.offset);
            let slices = Chunk::released(before.slices@, i);
            assert(0 <= i < before.slices@.len());
            old(self).lemma_rewritten(*self, c as int, slices, now);
            self.lemma_chunk_index(c as int);
        }
    }

    /// Pins the region: until the pin is taken off, its bytes are neither
    /// handed out again nor given back to the device.
    pub fn lock(&mut self, id: SliceId)
        requires
            old(self).wf(),
            old(self).holds(id),
            old(self).record(id).locks < u64::MAX,
        ensures
            final(self).wf(),
            old(self).rewritten(
                *final(self),
                old(self).chunk_index(id.chunk),
                Chunk::pinned(
                    old(self).chunks@[old(self).chunk_index(id.chunk)].slices@,
                    old(self).chunks@[old(self).chunk_index(id.chunk)].position(id.offset),
                ),
                old(self).chunks@[old(self).chunk_index(id.chunk)].last_touched,
            ),
            final(self).holds(id),
            final(self).record(id) == (Slice {
                locks: (old(self).record(id).locks + 1) as u64,
                ..old(self).record(id)
            }),
    {
        let found = self.find_chunk(id.chunk);
        let c: usize = found.unwrap();
        assert(self.chunk_ok(self.chunks@[c as int]));
        let align = self.properties.alignment;
        self.chunks[c].lock(align, id.offset);
        proof {
            let before = old(self).chunks@[c as int];
            let i = before.position(id.offset);
            let slices = Chunk::pinned(before.slices@, i);
            assert(0 <= i < before.slices@.len());
            old(self).lemma_rewritten(*self, c as int, slices, before.last_touched);
            self.lemma_chunk_index(c as int);
        }
    }

    /// Takes one pin off the region. With the last pin gone, a region that
    /// its caller has given up is free again.
    pub fn unlock(&mut self, id: SliceId)
        requires
            old(self).wf(),
            old(self).holds(id),
            old(self).record(id).locks > 0,
        ensures
            final(self).wf(),
            old(self).rewritten(
                *final(self),
                old(self).chunk_index(id.chunk),
                Chunk::unpinned(
                    old(self).chunks@[old(self).chunk_index(id.chunk)].slices@,
                    old(self).chunks@[old(self).chunk_index(id.chunk)].position(id.offset),
                ),
                old(self).chunks@[old(self).chunk_index(id.chunk)].last_touched,
            ),
            old(self).record(id).locks == 1 && !old(self).record(id).used ==> !final(self).holds(id),
            !(old(self).record(id).locks == 1 && !old(self).record(id).used) ==> final(self).holds(id)
                && final(self).record(id) == (Slice {
                locks: (old(self).record(id).locks - 1) as u64,
                ..old(self).record(id)
            }),
    {
        let found = self.find_chunk(id.chunk);
        let c: usize = found.unwrap();
        assert(self.chunk_ok(self.chunks@[c as int]));
        let align = self.properties.alignment;
        self.chunks[c].unlock(align, id.offset);
        proof {
            let before = old(self).chunks@[c as int];
            let i = before.position(id.offset);
            let slices = Chunk::unpinned(before.slices@, i);
            assert(0 <= i < before.slices@.len());
            old(self).lemma_rewritten(*self, c as int, slices, before.last_touched);
            self.lemma_chunk_index(c as int);
        }
    }

    /// Giving a chunk back leaves the pool well-formed.
    proof fn lemma_without(self, after: Pool, i: int)
        requires
            self.wf(),
            0 <= i < self.chunks@.len(),
            after.chunks@ == self.chunks@.remove(i),
            after.next_id == self.next_id,
            after.options == self.options,
            after.properties == self.properties,
        ensures
            after.wf(),
    {
        assert forall|d: int| 0 <= d < after.chunks@.len() implies after.chunk_ok(
            #[trigger] after.chunks@[d],
        ) by {
            let e = if d < i { d } else { d + 1 };
            assert(self.chunk_ok(self.chunks@[e]));
        }
        assert forall|a: int, b: int| 0 <= a < b < after.chunks@.len() implies (
        #[trigger] after.chunks@[a]).id < (#[trigger] after.chunks@[b]).id by {
            let ea = if a < i { a } else { a + 1 };
            let eb = if b < i { b } else { b + 1 };
            assert(self.chunks@[ea].id < self.chunks@[eb].id);
        }
    }

    /// Chunk `c` is to be given back at the count `now`.
    fn is_evictable(&self, c: usize, now: u64) -> (r: bool)
        requires
            c < self.chunks@.len(),
        ensures
            r == evictable(self.options, self.chunks@[c as int], now),
    {
        let chunk = &self.chunks[c];
        if chunk.slices.len() != 0 {
            return false;
        }
        match self.options.pool_type {
            PoolType::ExclusivePages => true,
            PoolType::SlicedPages { .. } => match self.options.dealloc_period {
                None => false,
                Some(period) => now >= chunk.last_touched && now - chunk.last_touched >= period,
            },
        }
    }

    /// Gives up the chunks that are due at the count `now`, and returns
    /// what the device called them, oldest chunk first. The chunks that
    /// stay are not changed and keep their order.
    pub fn tick(&mut self, now: u64) -> (freed: Vec<u64>)
        requires
            old(self).wf(),
        ensures
            final(self).wf(),
            final(self).options == old(self).options,
            final(self).properties == old(self).properties,
            final(self).next_id == old(self).next_id,
            final(self).chunks@ == old(self).chunks@.filter(keeps(old(self).options, now)),
            freed@ == old(self).chunks@.filter(drops(old(self).options, now)).map_values(raw_of()),
    {
        let ghost prior = self.chunks@;
        let ghost n = prior.len() as int;
        let ghost keep = keeps(self.options, now);
        let ghost drop = drops(self.options, now);
        let ghost mut j: int = 0;
        let mut i: usize = 0;
        let mut freed: Vec<u64> = Vec::new();
        proof {
            reveal(Seq::filter);
            assert(prior.subrange(0, 0) =~= Seq::<Chunk>::empty());
            assert(prior.subrange(0, n) =~= prior);
            assert(self.chunks@ =~= prior.subrange(0, 0).filter(keep) + prior.subrange(0, n));
            assert(freed@ =~= prior.subrange(0, 0).filter(drop).map_values(raw_of()));
        }
        while i < self.chunks.len()
            invariant
                self.wf(),
                self.options == old(self).options,
                self.properties == old(self).properties,
                self.next_id == old(self).next_id,
                prior == old(self).chunks@,
                n == prior.len(),
                keep == keeps(self.options, now),
                drop == drops(self.options, now),
                0 <= j <= n,
                i == prior.subrange(0, j).filter(keep).len(),
                self.chunks@ == prior.subrange(0, j).filter(keep) + prior.subrange(j, n),
                freed@ == prior.subrange(0, j).filter(drop).map_values(raw_of()),
            decreases n - j,
        {
            let ghost before = *self;
            let ghost kept = prior.subrange(0, j).filter(keep);
            let ghost x = prior[j];
            proof {
                assert(self.chunks@[i as int] == prior.subrange(j, n)[0]);
                assert(prior.subrange(0, j + 1) =~= prior.subrange(0, j).push(x));
                prior.subrange(0, j).lemma_filter_push(x, keep);
                prior.subrange(0, j).lemma_filter_push(x, drop);
            }
            if self.is_evictable(i, now) {
                let chunk = self.chunks.remove(i);
                freed.push(chunk.raw);
                proof {
                    before.lemma_without(*self, i as int);
                    assert(self.chunks@ =~= kept + prior.subrange(j + 1, n));
                    assert(freed@ =~= prior.subrange(0, j + 1).filter(drop).map_values(raw_of()));
                }
            } else {
                i += 1;
                proof {
                    assert(self.chunks@ =~= kept.push(x) + prior.subrange(j + 1, n));
                }
            }
            proof {
                j = j + 1;
            }
        }
        proof {
            assert(prior.subrange(0, n) =~= prior);
            assert(self.chunks@ =~= prior.filter(keep));
        }
        freed
    }

    /// Takes over a chunk of one page that the device called `raw`, with
    /// nothing in it yet.
    pub fn preallocate(&mut self, raw: u64, now: u64)
        requires
            old(self).wf(),
            old(self).sliced(),
            old(self).next_id < u64::MAX,
        ensures
            final(self).wf(),
            final(self).options == old(self).options,
            final(self).properties == old(self).properties,
            final(self).next_id == old(self).next_id + 1,
            final(self).chunks@.len() == old(self).chunks@.len() + 1,
            final(self).chunks@.drop_last() == old(self).chunks@,
            final(self).chunks@.last().idle(),
            final(self).chunks@.last().id == old(self).next_id,
            final(self).chunks@.last().raw == raw,
            final(self).chunks@.last().size == old(self).options.page_size,
            final(self).chunks@.last().last_touched == now,
    {
        let chunk = Chunk::new(self.next_id, raw, self.options.page_size, now);
        self.chunks.push(chunk);
        self.next_id = self.next_id + 1;
        proof {
            let n = old(self).chunks@.len() as int;
            assert(self.chunks@.drop_last() =~= old(self).chunks@);
            assert forall|d: int| 0 <= d < self.chunks@.len() implies self.chunk_ok(
                #[trigger] self.chunks@[d],
            ) by {
                if d < n {
                    assert(old(self).chunk_ok(old(self).chunks@[d]));
                }
            }
            assert forall|a: int, b: int| 0 <= a < b < self.chunks@.len() implies (
            #[trigger] self.chunks@[a]).id < (#[trigger] self.chunks@[b]).id by {
                assert(old(self).chunk_ok(old(self).chunks@[a]));
                if b < n {
                    assert(old(self).chunks@[a].id < old(self).chunks@[b].id);
                }
            }
        }
    }
}

} // verus!
