use vstd::prelude::*;

verus! {

/// The record of one region of a chunk that is in use or pinned.
#[derive(Debug, Clone, Copy, PartialEq, Eq, Structural)]
pub struct Slice {
    /// First byte of the region, counted from the start of the chunk.
    pub offset: u64,
    /// Number of bytes of the region.
    pub size: u64,
    /// The caller that reserved the region has not released it yet.
    pub used: bool,
    /// Number of operations of the device that may still touch the region.
    pub locks: u64,
}

impl Slice {
    /// One past the last byte of the region.
    pub open spec fn end(self) -> int {
        self.offset + self.size
    }

    /// The region may neither be handed out again nor given back.
    pub open spec fn live(self) -> bool {
        self.used || self.locks > 0
    }

    /// The two regions share no byte.
    pub open spec fn disjoint(self, other: Slice) -> bool {
        self.end() <= other.offset || other.end() <= self.offset
    }
}

/// One contiguous region obtained from the device. Its records are kept in
/// the order of their offsets; the bytes between them are free.
#[derive(Debug)]
pub struct Chunk {
    /// Name of the chunk within its pool, never given twice.
    pub id: u64,
    /// What the device called the region when it handed it out.
    pub raw: u64,
    /// Number of bytes of the region.
    pub size: u64,
    /// The regions in use or pinned, by rising offset.
    pub slices: Vec<Slice>,
    /// Value of the allocation counter when a region was last reserved or
    /// released here.
    pub last_touched: u64,
}

impl Chunk {
    /// Where the free space before record `k` starts (after the last record
    /// for `k` equal to the number of records).
    pub open spec fn gap_start(self, k: int) -> int {
        if k == 0 {
            0
        } else {
            self.slices@[k - 1].end()
        }
    }

    /// Where the free space before record `k` ends.
    pub open spec fn gap_end(self, k: int) -> int {
        if k == self.slices@.len() {
            self.size as int
        } else {
            self.slices@[k].offset as int
        }
    }

    /// Number of free bytes before record `k`.
    pub open spec fn gap_len(self, k: int) -> int {
        self.gap_end(k) - self.gap_start(k)
    }

    /// The free space before record `k` takes `need` bytes.
    pub open spec fn fits(self, k: int, need: u64) -> bool {
        0 <= k <= self.slices@.len() && self.gap_len(k) >= need
    }

    /// Every record is a live, aligned, non-empty region inside the chunk,
    /// and the records follow each other without sharing a byte.
    pub open spec fn wf(self, align: u64) -> bool {
        &&& align > 0
        &&& forall|i: int|
            0 <= i < self.slices@.len() ==> {
                let s = #[trigger] self.slices@[i];
                &&& s.size > 0
                &&& s.offset % align == 0
                &&& s.size % align == 0
                &&& s.live()
                &&& s.end() <= self.size
            }
        &&& forall|i: int, j: int|
            0 <= i < j < self.slices@.len() ==> (#[trigger] self.slices@[i]).end()
                <= (#[trigger] self.slices@[j]).offset
    }

    /// Some record starts at `offset`.
    pub open spec fn holds(self, offset: u64) -> bool {
        exists|i: int| 0 <= i < self.slices@.len() && (#[trigger] self.slices@[i]).offset == offset
    }

    /// The place of the record that starts at `offset`.
    pub open spec fn position(self, offset: u64) -> int {
        choose|i: int| 0 <= i < self.slices@.len() && (#[trigger] self.slices@[i]).offset == offset
    }

    /// The record that starts at `offset`.
    pub open spec fn record(self, offset: u64) -> Slice {
        self.slices@[self.position(offset)]
    }

    /// No byte of the chunk is in use or pinned.
    pub open spec fn idle(self) -> bool {
        self.slices@.len() == 0
    }

    /// In a well-formed chunk at most one record starts at an offset.
    pub proof fn lemma_position(self, align: u64, i: int)
        requires
            self.wf(align),
            0 <= i < self.slices@.len(),
        ensures
            self.holds(self.slices@[i].offset),
            self.position(self.slices@[i].offset) == i,
    {
        let offset = self.slices@[i].offset;
        let p = self.position(offset);
        assert(0 <= p < self.slices@.len() && self.slices@[p].offset == offset);
        if p < i {
            assert(self.slices@[p].end() <= self.slices@[i].offset);
        } else if i < p {
            assert(self.slices@[i].end() <= self.slices@[p].offset);
        }
    }

    /// In a well-formed chunk the free space before each record is not
    /// negative and starts at a multiple of the alignment.
    pub proof fn lemma_gap(self, align: u64, k: int)
        requires
            self.wf(align),
            0 <= k <= self.slices@.len(),
        ensures
            0 <= self.gap_start(k) <= self.gap_end(k) <= self.size,
            self.gap_start(k) % (align as int) == 0,
    {
        if k > 0 {
            let s = self.slices@[k - 1];
            crate::align::lemma_sum_aligned(s.offset as int, s.size as int, align as int);
            if k < self.slices@.len() {
                assert(self.slices@[k - 1].end() <= self.slices@[k].offset);
            }
        }
        if k < self.slices@.len() {
            assert(self.slices@[k].end() <= self.size);
        }
    }

    /// A chunk of `size` bytes with nothing in it.
    pub fn new(id: u64, raw: u64, size: u64, now: u64) -> (r: Chunk)
        ensures
            r.id == id,
            r.raw == raw,
            r.size == size,
            r.last_touched == now,
            r.idle(),
    {
        Chunk { id, raw, size, slices: Vec::new(), last_touched: now }
    }

    /// What `wf` asks of one record.
    pub open spec fn record_ok(self, align: u64, s: Slice) -> bool {
        &&& s.size > 0
        &&& s.offset % align == 0
        &&& s.size % align == 0
        &&& s.live()
        &&& s.end() <= self.size
    }

    /// Tests whether the chunk is well-formed for the alignment.
    pub fn check(&self, align: u64) -> (r: bool)
        ensures
            r == self.wf(align),
    {
        if align == 0 {
            return false;
        }
        let mut i: usize = 0;
        while i < self.slices.len()
            invariant
                align > 0,
                i <= self.slices@.len(),
                forall|j: int| 0 <= j < i ==> self.record_ok(align, #[trigger] self.slices@[j]),
                forall|a: int, b: int|
                    0 <= a < b < i ==> (#[trigger] self.slices@[a]).end() <= (
                    #[trigger] self.slices@[b]).offset,
            decreases self.slices@.len() - i,
        {
            let s = self.slices[i];
            let inside = s.offset <= self.size && s.size <= self.size - s.offset;
            let ok = s.size > 0 && s.offset % align == 0 && s.size % align == 0 && (s.used || s.locks
                > 0) && inside;
            if !ok {
                assert(!self.record_ok(align, self.slices@[i as int]));
                return false;
            }
            if i > 0 {
                let prev = self.slices[i - 1];
                if prev.offset + prev.size > s.offset {
                    assert(!(self.slices@[i - 1].end() <= self.slices@[i as int].offset));
                    return false;
                }
                assert forall|a: int| 0 <= a < i implies (#[trigger] self.slices@[a]).end()
                    <= s.offset by {
                    if a < i - 1 {
                        assert(self.slices@[a].end() <= self.slices@[i - 1].offset);
                        assert(self.record_ok(align, self.slices@[i - 1]));
                    }
                }
            }
            i += 1;
        }
        assert forall|j: int| 0 <= j < self.slices@.len() implies {
            let s = #[trigger] self.slices@[j];
            &&& s.size > 0
            &&& s.offset % align == 0
            &&& s.size % align == 0
            &&& s.live()
            &&& s.end() <= self.size
        } by {
            assert(self.record_ok(align, self.slices@[j]));
        }
        true
    }

    /// The bounds of the free space before record `k`.
    pub fn gap(&self, align: u64, k: usize) -> (r: (u64, u64))
        requires
            self.wf(align),
            k <= self.slices@.len(),
        ensures
            r.0 == self.gap_start(k as int),
            r.1 == self.gap_end(k as int),
            r.0 <= r.1,
    {
        proof {
            self.lemma_gap(align, k as int);
        }
        let start: u64 = if k == 0 {
            0
        } else {
            self.slices[k - 1].offset + self.slices[k - 1].size
        };
        let end: u64 = if k == self.slices.len() {
            self.size
        } else {
            self.slices[k].offset
        };
        (start, end)
    }

    /// `best` is the smallest free space among the first `upto` that takes
    /// `need` bytes, the first of them where several are as small.
    pub open spec fn best_among(self, need: u64, upto: int, best: Option<(usize, u64)>) -> bool {
        &&& best.is_none() <==> forall|j: int| 0 <= j < upto ==> !#[trigger] self.fits(j, need)
        &&& best.is_some() ==> {
            let b = best.unwrap().0;
            let len = best.unwrap().1;
            &&& b < upto
            &&& self.fits(b as int, need)
            &&& len == self.gap_len(b as int)
            &&& forall|j: int| 0 <= j < upto && #[trigger] self.fits(j, need) ==> len <= self.gap_len(j)
            &&& forall|j: int| 0 <= j < b && #[trigger] self.fits(j, need) ==> len < self.gap_len(j)
        }
    }

    /// Holds the free space before record `k` against the best one so far.
    fn consider(&self, align: u64, need: u64, k: usize, best: Option<(usize, u64)>) -> (r: Option<
        (usize, u64),
    >)
        requires
            self.wf(align),
            k <= self.slices@.len(),
            self.best_among(need, k as int, best),
        ensures
            self.best_among(need, k + 1, r),
    {
        let (start, end) = self.gap(align, k);
        let len: u64 = end - start;
        let r = if len >= need {
            match best {
                None => Some((k, len)),
                Some((_, cur)) => if len < cur { Some((k, len)) } else { best },
            }
        } else {
            best
        };
        proof {
            assert(self.fits(k as int, need) <==> len >= need);
            assert(len == self.gap_len(k as int));
            if r.is_none() {
                assert forall|j: int| 0 <= j < k + 1 implies !#[trigger] self.fits(j, need) by {}
            }
        }
        r
    }

    /// The smallest free space that takes `need` bytes, the first of them
    /// where several are as small: its place and its length.
    pub fn best_gap(&self, align: u64, need: u64) -> (r: Option<(usize, u64)>)
        requires
            self.wf(align),
        ensures
            self.best_among(need, self.slices@.len() as int + 1, r),
    {
        let mut best: Option<(usize, u64)> = None;
        let n: usize = self.slices.len();
        let mut k: usize = 0;
        while k < n
            invariant
                self.wf(align),
                n == self.slices@.len(),
                k <= n,
                self.best_among(need, k as int, best),
            decreases n - k,
        {
            best = self.consider(align, need, k, best);
            k += 1;
        }
        self.consider(align, need, n, best)
    }

    /// Where the record that starts at `offset` stands, if there is one.
    pub fn find(&self, align: u64, offset: u64) -> (r: Option<usize>)
        requires
            self.wf(align),
        ensures
            r.is_some() <==> self.holds(offset),
            r.is_some() ==> r.unwrap() == self.position(offset),
    {
        let mut i: usize = 0;
        while i < self.slices.len()
            invariant
                self.wf(align),
                i <= self.slices@.len(),
                forall|j: int| 0 <= j < i ==> (#[trigger] self.slices@[j]).offset != offset,
            decreases self.slices@.len() - i,
        {
            if self.slices[i].offset == offset {
                proof {
                    self.lemma_position(align, i as int);
                }
                return Some(i);
            }
            i += 1;
        }
        None
    }

    /// Records a new region of `need` bytes at the start of the free space
    /// before record `k`, and returns its offset.
    pub fn carve(&mut self, align: u64, k: usize, need: u64, now: u64) -> (offset: u64)
        requires
            old(self).wf(align),
            old(self).fits(k as int, need),
            need > 0,
            need % align == 0,
        ensures
            final(self).wf(align),
            offset == old(self).gap_start(k as int),
            offset % align == 0,
            offset + need <= old(self).size,
            final(self).slices@ == old(self).slices@.insert(
                k as int,
                (Slice { offset, size: need, used: true, locks: 0 }),
            ),
            final(self).last_touched == now,
            final(self).id == old(self).id,
            final(self).raw == old(self).raw,
            final(self).size == old(self).size,
    {
        let (start, end) = self.gap(align, k);
        proof {
            self.lemma_gap(align, k as int);
        }
        let ghost before = self.slices@;
        let fresh = Slice { offset: start, size: need, used: true, locks: 0 };
        self.slices.insert(k, fresh);
        self.last_touched = now;
        proof {
            let after = self.slices@;
            assert forall|i: int| 0 <= i < after.len() implies {
                let s = #[trigger] after[i];
                &&& s.size > 0
                &&& s.offset % align == 0
                &&& s.size % align == 0
                &&& s.live()
                &&& s.end() <= self.size
            } by {
                if i < k {
                    assert(after[i] == before[i]);
                } else if i > k {
                    assert(after[i] == before[i - 1]);
                }
            }
            assert forall|i: int, j: int| 0 <= i < j < after.len() implies (#[trigger] after[i]).end()
                <= (#[trigger] after[j]).offset by {
                let bi = if i < k { i } else { i - 1 };
                let bj = if j < k { j } else { j - 1 };
                if i != k {
                    assert(after[i] == before[bi]);
                }
                if j != k {
                    assert(after[j] == before[bj]);
                }
                if i == k {
                    // the new region ends before the record that followed the gap
                    if bj > k {
                        assert(before[k as int].end() <= before[bj].offset);
                    }
                } else if j == k {
                    if bi < k - 1 {
                        assert(before[bi].end() <= before[k - 1].offset);
                    }
                }
            }
        }
        start
    }

    /// The records after the caller of the one at place `i` gave it up: the
    /// record goes unless it is pinned.
    pub open spec fn released(slices: Seq<Slice>, i: int) -> Seq<Slice> {
        let s = slices[i];
        if s.locks == 0 {
            slices.remove(i)
        } else {
            slices.update(i, (Slice { used: false, ..s }))
        }
    }

    /// The records after one more pin on the one at place `i`.
    pub open spec fn pinned(slices: Seq<Slice>, i: int) -> Seq<Slice> {
        let s = slices[i];
        slices.update(i, (Slice { locks: (s.locks + 1) as u64, ..s }))
    }

    /// The records after one pin less on the one at place `i`: the record
    /// goes with its last pin if its caller has given it up.
    pub open spec fn unpinned(slices: Seq<Slice>, i: int) -> Seq<Slice> {
        let s = slices[i];
        if s.locks == 1 && !s.used {
            slices.remove(i)
        } else {
            slices.update(i, (Slice { locks: (s.locks - 1) as u64, ..s }))
        }
    }

    /// Taking a record out keeps a chunk well-formed.
    proof fn lemma_remove(self, before: Chunk, align: u64, i: int)
        requires
            before.wf(align),
            0 <= i < before.slices@.len(),
            self.size == before.size,
            self.slices@ == before.slices@.remove(i),
        ensures
            self.wf(align),
    {
        let after = self.slices@;
        let prior = before.slices@;
        assert forall|j: int| 0 <= j < after.len() implies {
            let s = #[trigger] after[j];
            &&& s.size > 0
            &&& s.offset % align == 0
            &&& s.size % align == 0
            &&& s.live()
            &&& s.end() <= self.size
        } by {
            let bj = if j < i { j } else { j + 1 };
            assert(after[j] == prior[bj]);
        }
        assert forall|a: int, b: int| 0 <= a < b < after.len() implies (#[trigger] after[a]).end()
            <= (#[trigger] after[b]).offset by {
            let ba = if a < i { a } else { a + 1 };
            let bb = if b < i { b } else { b + 1 };
            assert(after[a] == prior[ba]);
            assert(after[b] == prior[bb]);
        }
    }

    /// With the record at place `i` taken out, no record starts where it
    /// started.
    proof fn lemma_gone(self, before: Chunk, align: u64, i: int)
        requires
            before.wf(align),
            0 <= i < before.slices@.len(),
            self.slices@ == before.slices@.remove(i),
        ensures
            !self.holds(before.slices@[i].offset),
    {
        let offset = before.slices@[i].offset;
        assert forall|j: int| 0 <= j < self.slices@.len() implies (#[trigger] self.slices@[j]).offset
            != offset by {
            let bj = if j < i { j } else { j + 1 };
            assert(self.slices@[j] == before.slices@[bj]);
            if bj < i {
                assert(before.slices@[bj].end() <= before.slices@[i].offset);
            } else {
                assert(before.slices@[i].end() <= before.slices@[bj].offset);
            }
        }
    }

    /// Changing the flag or the pins of a record that stays live keeps a
    /// chunk well-formed.
    proof fn lemma_update(self, before: Chunk, align: u64, i: int, s: Slice)
        requires
            before.wf(align),
            0 <= i < before.slices@.len(),
            self.size == before.size,
            s.offset == before.slices@[i].offset,
            s.size == before.slices@[i].size,
            s.live(),
            self.slices@ == before.slices@.update(i, s),
        ensures
            self.wf(align),
    {
        let after = self.slices@;
        let prior = before.slices@;
        assert forall|j: int| 0 <= j < after.len() implies {
            let t = #[trigger] after[j];
            &&& t.size > 0
            &&& t.offset % align == 0
            &&& t.size % align == 0
            &&& t.live()
            &&& t.end() <= self.size
        } by {
            if j != i {
                assert(after[j] == prior[j]);
            } else {
                assert(prior[i].size > 0);
            }
        }
        assert forall|a: int, b: int| 0 <= a < b < after.len() implies (#[trigger] after[a]).end()
            <= (#[trigger] after[b]).offset by {
            assert(prior[a].end() <= prior[b].offset);
        }
    }

    /// The caller of the region at `offset` gives it up. The bytes are free
    /// again at once unless the region is pinned.
    pub fn release(&mut self, align: u64, offset: u64, now: u64)
        requires
            old(self).wf(align),
            old(self).holds(offset),
            old(self).record(offset).used,
        ensures
            final(self).wf(align),
            final(self).slices@ == Self::released(old(self).slices@, old(self).position(offset)),
            old(self).record(offset).locks == 0 ==> !final(self).holds(offset),
            old(self).record(offset).locks > 0 ==> final(self).holds(offset) && final(self).record(
                offset,
            ) == (Slice { used: false, ..old(self).record(offset) }),
            final(self).last_touched == now,
            final(self).id == old(self).id,
            final(self).raw == old(self).raw,
            final(self).size == old(self).size,
    {
        let ghost before = *self;
        let found = self.find(align, offset);
        let i: usize = found.unwrap();
        let s = self.slices[i];
        if s.locks == 0 {
            self.slices.remove(i);
            proof {
                self.lemma_remove(before, align, i as int);
                self.lemma_gone(before, align, i as int);
            }
        } else {
            let t = Slice { used: false, ..s };
            self.slices.set(i, t);
            proof {
                self.lemma_update(before, align, i as int, t);
                self.lemma_position(align, i as int);
            }
        }
        self.last_touched = now;
    }

    /// Pins the region at `offset` once more.
    pub fn lock(&mut self, align: u64, offset: u64)
        requires
            old(self).wf(align),
            old(self).holds(offset),
            old(self).record(offset).locks < u64::MAX,
        ensures
            final(self).wf(align),
            final(self).slices@ == Self::pinned(old(self).slices@, old(self).position(offset)),
            final(self).holds(offset),
            final(self).record(offset) == (Slice {
                locks: (old(self).record(offset).locks + 1) as u64,
                ..old(self).record(offset)
            }),
            final(self).last_touched == old(self).last_touched,
            final(self).id == old(self).id,
            final(self).raw == old(self).raw,
            final(self).size == old(self).size,
    {
        let ghost before = *self;
        let found = self.find(align, offset);
        let i: usize = found.unwrap();
        let s = self.slices[i];
        let t = Slice { locks: s.locks + 1, ..s };
        self.slices.set(i, t);
        proof {
            self.lemma_update(before, align, i as int, t);
            self.lemma_position(align, i as int);
        }
    }

    /// Takes one pin off the region at `offset`. With the last pin gone, a
    /// region that its caller has given up is free again.
    pub fn unlock(&mut self, align: u64, offset: u64)
        requires
            old(self).wf(align),
            old(self).holds(offset),
            old(self).record(offset).locks > 0,
        ensures
            final(self).wf(align),
            final(self).slices@ == Self::unpinned(old(self).slices@, old(self).position(offset)),
            old(self).record(offset).locks == 1 && !old(self).record(offset).used ==> !final(self).holds(offset),
            !(old(self).record(offset).locks == 1 && !old(self).record(offset).used) ==> final(self).holds(offset) && final(self).record(offset) == (Slice {
                locks: (old(self).record(offset).locks - 1) as u64,
                ..old(self).record(offset)
            }),
            final(self).last_touched == old(self).last_touched,
            final(self).id == old(self).id,
            final(self).raw == old(self).raw,
            final(self).size == old(self).size,
    {
        let ghost before = *self;
        let found = self.find(align, offset);
        let i: usize = found.unwrap();
        let s = self.slices[i];
        if s.locks == 1 && !s.used {
            self.slices.remove(i);
            proof {
                self.lemma_remove(before, align, i as int);
                self.lemma_gone(before, align, i as int);
            }
        } else {
            let t = Slice { locks: s.locks - 1, ..s };
            self.slices.set(i, t);
            proof {
                self.lemma_update(before, align, i as int, t);
                self.lemma_position(align, i as int);
            }
        }
    }

    /// A record that was there before another was put in is still there,
    /// unchanged.
    pub proof fn lemma_kept_on_insert(self, before: Chunk, align: u64, k: int, s: Slice, offset: u64)
        requires
            self.wf(align),
            0 <= k <= before.slices@.len(),
            self.slices@ == before.slices@.insert(k, s),
            before.holds(offset),
        ensures
            self.holds(offset),
            self.record(offset) == before.record(offset),
            s.offset != offset,
    {
        let i = before.position(offset);
        let j = if i < k { i } else { i + 1 };
        assert(self.slices@[j] == before.slices@[i]);
        assert(self.slices@[k] == s);
        self.lemma_position(align, j);
        self.lemma_position(align, k);
    }

    /// A record other than the one that was taken out is still there,
    /// unchanged.
    pub proof fn lemma_kept_on_remove(self, before: Chunk, align: u64, i: int, offset: u64)
        requires
            self.wf(align),
            0 <= i < before.slices@.len(),
            self.slices@ == before.slices@.remove(i),
            before.holds(offset),
            before.slices@[i].offset != offset,
        ensures
            self.holds(offset),
            self.record(offset) == before.record(offset),
    {
        let p = before.position(offset);
        let j = if p < i { p } else { p - 1 };
        assert(self.slices@[j] == before.slices@[p]);
        self.lemma_position(align, j);
    }

    /// A record other than the one that was changed is still there,
    /// unchanged.
    pub proof fn lemma_kept_on_update(self, before: Chunk, align: u64, i: int, s: Slice, offset: u64)
        requires
            self.wf(align),
            0 <= i < before.slices@.len(),
            self.slices@ == before.slices@.update(i, s),
            before.holds(offset),
            before.slices@[i].offset != offset,
        ensures
            self.holds(offset),
            self.record(offset) == before.record(offset),
    {
        let p = before.position(offset);
        assert(self.slices@[p] == before.slices@[p]);
        self.lemma_position(align, p);
    }

    /// No two records of a well-formed chunk share a byte.
    pub proof fn lemma_no_aliasing(self, align: u64, i: int, j: int)
        requires
            self.wf(align),
            0 <= i < self.slices@.len(),
            0 <= j < self.slices@.len(),
            i != j,
        ensures
            self.slices@[i].disjoint(self.slices@[j]),
    {
        if i < j {
            assert(self.slices@[i].end() <= self.slices@[j].offset);
        } else {
            assert(self.slices@[j].end() <= self.slices@[i].offset);
        }
    }
}

} // verus!
