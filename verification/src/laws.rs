use vstd::prelude::*;
use crate::align::rounded;
use crate::chunk::{Chunk, Slice};
use crate::config::PoolType;
use crate::error::AllocError;
use crate::pool::{drops, keeps, raw_of, Pool, SliceId};

verus! {

/// No aliasing: two different records of one chunk of a well-formed pool
/// never share a byte, whether their regions are in use or only pinned.
/// Every operation of a pool keeps it well-formed, so this holds after any
/// sequence of them.
pub proof fn law_no_aliasing(pool: Pool, c: int, i: int, j: int)
    requires
        pool.wf(),
        0 <= c < pool.chunks@.len(),
        0 <= i < pool.chunks@[c].slices@.len(),
        0 <= j < pool.chunks@[c].slices@.len(),
        i != j,
    ensures
        pool.chunks@[c].slices@[i].disjoint(pool.chunks@[c].slices@[j]),
        pool.chunks@[c].slices@[i].live(),
        pool.chunks@[c].slices@[i].end() <= pool.chunks@[c].size,
{
    assert(pool.chunk_ok(pool.chunks@[c]));
    pool.chunks@[c].lemma_no_aliasing(pool.align(), i, j);
}

/// Alignment: the offset of a region that a reservation returns is a
/// multiple of the alignment that was asked for and of the device's.
pub proof fn law_alignment(pool: Pool, after: Pool, size: u64, alignment: u64, now: u64, id: SliceId)
    requires
        pool.wf(),
        pool.reserved(after, size, alignment, now, Ok(id)),
    ensures
        alignment > 0,
        id.offset % alignment == 0,
        id.offset % pool.properties.alignment == 0,
{
}

/// Capacity: a chunk of a sliced pool is exactly one page, and a chunk of
/// an exclusive pool is exactly as large as the one region in it; no chunk
/// is larger than a page, and no page larger than the device allows.
pub proof fn law_capacity(pool: Pool, c: int)
    requires
        pool.wf(),
        0 <= c < pool.chunks@.len(),
    ensures
        pool.chunks@[c].size <= pool.options.page_size <= pool.properties.max_page_size,
        pool.sliced() ==> pool.chunks@[c].size == pool.options.page_size,
        !pool.sliced() ==> forall|i: int|
            0 <= i < pool.chunks@[c].slices@.len() ==> (#[trigger] pool.chunks@[c].slices@[i]).offset
                == 0 && pool.chunks@[c].slices@[i].size == pool.chunks@[c].size,
{
    assert(pool.chunk_ok(pool.chunks@[c]));
}

/// The chunk that an exclusive pool obtains for a reservation has the
/// size of the request, rounded up to the device's alignment.
pub proof fn law_exclusive_chunk_size(
    pool: Pool,
    after: Pool,
    size: u64,
    alignment: u64,
    now: u64,
    id: SliceId,
)
    requires
        pool.wf(),
        !pool.sliced(),
        pool.reserved(after, size, alignment, now, Ok(id)),
    ensures
        after.chunks@.len() == pool.chunks@.len() + 1,
        after.chunks@.last().size == rounded(size as int, pool.properties.alignment as int),
        id.size == after.chunks@.last().size,
        id.offset == 0,
{
}

/// Ceiling rejection: a sliced pool refuses a request above its ceiling
/// as too large, and keeps its chunks as they were.
pub proof fn law_ceiling_rejection(
    pool: Pool,
    after: Pool,
    size: u64,
    alignment: u64,
    now: u64,
    r: Result<SliceId, AllocError>,
    max_slice_size: u64,
)
    requires
        pool.options.pool_type == (PoolType::SlicedPages { max_slice_size }),
        size > max_slice_size,
        pool.reserved(after, size, alignment, now, r),
    ensures
        r == Err::<SliceId, AllocError>(AllocError::SliceTooLarge),
        pool.unchanged(after),
{
}

/// Lock survives eviction: a chunk with a pinned region is among the
/// chunks that a tick keeps, at every count and whether or not the
/// region's caller has given it up.
pub proof fn law_lock_survives_tick(pool: Pool, now: u64, c: int, i: int)
    requires
        0 <= c < pool.chunks@.len(),
        0 <= i < pool.chunks@[c].slices@.len(),
        pool.chunks@[c].slices@[i].locks > 0,
    ensures
        pool.chunks@.filter(keeps(pool.options, now)).contains(pool.chunks@[c]),
{
    pool.chunks@.lemma_filter_contains(keeps(pool.options, now), c);
}

/// Eviction timing: a tick of a sliced pool with a period gives back a
/// chunk with nothing in it when at least the period has passed since the
/// chunk was last touched, and keeps it when less has passed.
pub proof fn law_eviction_timing(pool: Pool, now: u64, c: int, period: u64)
    requires
        pool.sliced(),
        pool.options.dealloc_period == Some(period),
        0 <= c < pool.chunks@.len(),
        pool.chunks@[c].idle(),
    ensures
        now - pool.chunks@[c].last_touched >= period ==> !pool.chunks@.filter(
            keeps(pool.options, now),
        ).contains(pool.chunks@[c]) && pool.chunks@.filter(drops(pool.options, now)).map_values(
            raw_of(),
        ).contains(pool.chunks@[c].raw),
        now - pool.chunks@[c].last_touched < period ==> pool.chunks@.filter(
            keeps(pool.options, now),
        ).contains(pool.chunks@[c]),
{
    let kept = pool.chunks@.filter(keeps(pool.options, now));
    let chunk = pool.chunks@[c];
    if now - chunk.last_touched >= period {
        if kept.contains(chunk) {
            let i = choose|i: int| 0 <= i < kept.len() && kept[i] == chunk;
            pool.chunks@.lemma_filter_pred(keeps(pool.options, now), i);
        }
        let gone = pool.chunks@.filter(drops(pool.options, now));
        pool.chunks@.lemma_filter_contains(drops(pool.options, now), c);
        let j = choose|j: int| 0 <= j < gone.len() && gone[j] == chunk;
        assert(gone.map_values(raw_of())[j] == chunk.raw);
    } else {
        pool.chunks@.lemma_filter_contains(keeps(pool.options, now), c);
    }
}

/// A tick of an exclusive pool gives back every chunk with nothing in it,
/// at once.
pub proof fn law_exclusive_eviction(pool: Pool, now: u64, c: int)
    requires
        !pool.sliced(),
        0 <= c < pool.chunks@.len(),
        pool.chunks@[c].idle(),
    ensures
        !pool.chunks@.filter(keeps(pool.options, now)).contains(pool.chunks@[c]),
        pool.chunks@.filter(drops(pool.options, now)).map_values(raw_of()).contains(
            pool.chunks@[c].raw,
        ),
{
    let kept = pool.chunks@.filter(keeps(pool.options, now));
    let chunk = pool.chunks@[c];
    if kept.contains(chunk) {
        let i = choose|i: int| 0 <= i < kept.len() && kept[i] == chunk;
        pool.chunks@.lemma_filter_pred(keeps(pool.options, now), i);
    }
    let gone = pool.chunks@.filter(drops(pool.options, now));
    pool.chunks@.lemma_filter_contains(drops(pool.options, now), c);
    let j = choose|j: int| 0 <= j < gone.len() && gone[j] == chunk;
    assert(gone.map_values(raw_of())[j] == chunk.raw);
}

/// Recording a region in the free space of a chunk leaves every region
/// that the pool held as it was, and the new region is none of them.
pub proof fn law_carve_keeps_regions(
    pool: Pool,
    after: Pool,
    c: int,
    k: int,
    need: u64,
    now: u64,
    id: SliceId,
    other: SliceId,
)
    requires
        pool.wf(),
        after.wf(),
        pool.carved(after, c, k, need, now, id),
        0 <= k <= pool.chunks@[c].slices@.len(),
        pool.holds(other),
    ensures
        after.holds(other),
        after.record(other) == pool.record(other),
        id.chunk != other.chunk || id.offset != other.offset,
{
    let d = pool.chunk_index(other.chunk);
    assert(after.chunks@[d].id == other.chunk);
    after.lemma_chunk_index(d);
    if d == c {
        assert(after.chunk_ok(after.chunks@[d]));
        after.chunks@[d].lemma_kept_on_insert(
            pool.chunks@[d],
            pool.align(),
            k,
            (Slice { offset: id.offset, size: need, used: true, locks: 0 }),
            other.offset,
        );
    } else {
        pool.lemma_chunk_index(c);
    }
}

/// Taking over a new chunk leaves every region that the pool held as it
/// was, and the region in the new chunk is none of them.
pub proof fn law_adopt_keeps_regions(
    pool: Pool,
    after: Pool,
    raw: u64,
    need: u64,
    now: u64,
    id: SliceId,
    other: SliceId,
)
    requires
        pool.wf(),
        after.wf(),
        pool.adopted(after, raw, need, now, id),
        pool.holds(other),
    ensures
        after.holds(other),
        after.record(other) == pool.record(other),
        id.chunk != other.chunk,
{
    let d = pool.chunk_index(other.chunk);
    assert(pool.chunk_ok(pool.chunks@[d]));
    assert(after.chunks@.drop_last()[d] == after.chunks@[d]);
    after.lemma_chunk_index(d);
}

/// A reservation leaves every region that the pool held as it was, and
/// the region that it returns is none of them.
pub proof fn law_reserve_keeps_regions(
    pool: Pool,
    after: Pool,
    size: u64,
    alignment: u64,
    now: u64,
    r: Result<SliceId, AllocError>,
    other: SliceId,
)
    requires
        pool.wf(),
        after.wf(),
        pool.reserved(after, size, alignment, now, r),
        pool.holds(other),
    ensures
        after.holds(other),
        after.record(other) == pool.record(other),
        r.is_ok() ==> r.unwrap().chunk != other.chunk || r.unwrap().offset != other.offset,
{
    match pool.request(size, alignment) {
        Err(_) => {},
        Ok(need) => {
            if pool.sliced() && pool.can_place(need) {
                let id = r.unwrap();
                let (c, k) = choose|c: usize, k: usize| #[trigger]
                    pool.best_place(need, pool.chunks@.len() as int, Some((c, k))) && pool.carved(
                        after,
                        c as int,
                        k as int,
                        need,
                        now,
                        id,
                    );
                law_carve_keeps_regions(pool, after, c as int, k as int, need, now, id, other);
            } else if r.is_ok() {
                law_adopt_keeps_regions(
                    pool,
                    after,
                    after.chunks@.last().raw,
                    need,
                    now,
                    r.unwrap(),
                    other,
                );
            }
        },
    }
}

/// Releasing, pinning or unpinning one region leaves every other region
/// of the pool as it was.
pub proof fn law_other_regions_stay(
    pool: Pool,
    after: Pool,
    id: SliceId,
    other: SliceId,
    slices: Seq<Slice>,
    touched: u64,
)
    requires
        pool.wf(),
        after.wf(),
        pool.holds(id),
        pool.holds(other),
        other.chunk != id.chunk || other.offset != id.offset,
        pool.rewritten(after, pool.chunk_index(id.chunk), slices, touched),
        ({
            let chunk = pool.chunks@[pool.chunk_index(id.chunk)];
            let i = chunk.position(id.offset);
            ||| slices == Chunk::released(chunk.slices@, i)
            ||| slices == Chunk::pinned(chunk.slices@, i)
            ||| slices == Chunk::unpinned(chunk.slices@, i)
        }),
    ensures
        after.holds(other),
        after.record(other) == pool.record(other),
{
    let c = pool.chunk_index(id.chunk);
    let d = pool.chunk_index(other.chunk);
    let chunk = pool.chunks@[c];
    let i = chunk.position(id.offset);
    assert(after.chunks@[d].id == other.chunk);
    after.lemma_chunk_index(d);
    if d == c {
        assert(after.chunk_ok(after.chunks@[c]));
        let s = chunk.slices@[i];
        if slices == chunk.slices@.remove(i) {
            after.chunks@[c].lemma_kept_on_remove(chunk, pool.align(), i, other.offset);
        } else if slices == chunk.slices@.update(i, (Slice { used: false, ..s })) {
            after.chunks@[c].lemma_kept_on_update(
                chunk,
                pool.align(),
                i,
                (Slice { used: false, ..s }),
                other.offset,
            );
        } else if slices == chunk.slices@.update(i, (Slice { locks: (s.locks + 1) as u64, ..s })) {
            after.chunks@[c].lemma_kept_on_update(
                chunk,
                pool.align(),
                i,
                (Slice { locks: (s.locks + 1) as u64, ..s }),
                other.offset,
            );
        } else {
            after.chunks@[c].lemma_kept_on_update(
                chunk,
                pool.align(),
                i,
                (Slice { locks: (s.locks - 1) as u64, ..s }),
                other.offset,
            );
        }
    }
}

/// A tick leaves every region that the pool holds as it is: a chunk with
/// a region in use or pinned is never given back.
pub proof fn law_tick_keeps_regions(pool: Pool, after: Pool, now: u64, other: SliceId)
    requires
        pool.wf(),
        after.wf(),
        after.chunks@ == pool.chunks@.filter(keeps(pool.options, now)),
        pool.holds(other),
    ensures
        after.holds(other),
        after.record(other) == pool.record(other),
{
    let d = pool.chunk_index(other.chunk);
    let chunk = pool.chunks@[d];
    let p = chunk.position(other.offset);
    assert(0 <= p < chunk.slices@.len());
    pool.chunks@.lemma_filter_contains(keeps(pool.options, now), d);
    let e = choose|e: int| 0 <= e < after.chunks@.len() && after.chunks@[e] == chunk;
    after.lemma_chunk_index(e);
}

/// The bytes of a list of chunks, added up.
pub open spec fn total_bytes(chunks: Seq<Chunk>) -> nat
    decreases chunks.len(),
{
    if chunks.len() == 0 {
        0
    } else {
        total_bytes(chunks.drop_last()) + chunks.last().size as nat
    }
}

/// The first `n` chunks of a well-formed pool hold at most `n` pages, and
/// each of them has a name of at least its place.
proof fn lemma_prefix_bytes(pool: Pool, n: int)
    requires
        pool.wf(),
        0 <= n <= pool.chunks@.len(),
    ensures
        total_bytes(pool.chunks@.take(n)) <= n * pool.options.page_size,
        n > 0 ==> pool.chunks@[n - 1].id >= n - 1,
    decreases n,
{
    if n > 0 {
        lemma_prefix_bytes(pool, n - 1);
        let prefix = pool.chunks@.take(n);
        assert(prefix.drop_last() =~= pool.chunks@.take(n - 1));
        assert(prefix.last() == pool.chunks@[n - 1]);
        assert(pool.chunk_ok(pool.chunks@[n - 1]));
        if n > 1 {
            assert(pool.chunks@[n - 2].id < pool.chunks@[n - 1].id);
        }
        assert(n * pool.options.page_size == (n - 1) * pool.options.page_size
            + pool.options.page_size) by (nonlinear_arith);
    }
}

/// The chunks of a pool together hold at most one page of bytes for each
/// chunk that the pool ever obtained.
pub proof fn law_total_bytes(pool: Pool)
    requires
        pool.wf(),
    ensures
        pool.chunks@.len() <= pool.next_id,
        total_bytes(pool.chunks@) <= pool.chunks@.len() * pool.options.page_size,
        total_bytes(pool.chunks@) <= pool.next_id * pool.options.page_size,
{
    let n = pool.chunks@.len() as int;
    lemma_prefix_bytes(pool, n);
    assert(pool.chunks@.take(n) =~= pool.chunks@);
    if n > 0 {
        assert(pool.chunk_ok(pool.chunks@[n - 1]));
    }
    assert(n * pool.options.page_size <= pool.next_id * pool.options.page_size) by (nonlinear_arith)
        requires
            0 <= n <= pool.next_id,
    ;
}

} // verus!
