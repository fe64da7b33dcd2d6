//! Chunked bump allocation: aligned offsets, memory chunks, and the arena
//! allocator that grows by whole chunks and frees only in bulk.
//!
//! Sub-allocations are identified by offsets into a chunk's backing store
//! rather than by raw addresses, so the "no individual free, only bulk
//! reset" contract is enforced by construction: a reset invalidates every
//! previously returned offset, and callers must not retain offsets across
//! a reset.

use vstd::prelude::*;
use vstd::arithmetic::div_mod::{lemma_fundamental_div_mod, lemma_mod_multiples_basic};

use crate::errors::MemoryError;

verus! {

/// The smallest multiple of `alignment` that is at least `offset`
/// (`offset` itself when `alignment` is zero).
pub open spec fn spec_align_up(offset: int, alignment: int) -> int {
    if alignment <= 0 {
        offset
    } else if offset % alignment == 0 {
        offset
    } else {
        offset + (alignment - offset % alignment)
    }
}

/// An aligned offset is a multiple of the alignment and lies within one
/// alignment step of the original offset.
pub proof fn lemma_align_up_properties(offset: int, alignment: int)
    requires
        0 <= offset,
        0 < alignment,
    ensures
        spec_align_up(offset, alignment) % alignment == 0,
        offset <= spec_align_up(offset, alignment) < offset + alignment,
{
    let r = offset % alignment;
    if r != 0 {
        let q = offset / alignment;
        lemma_fundamental_div_mod(offset, alignment);
        lemma_mod_multiples_basic(q + 1, alignment);
        assert(offset + (alignment - r) == (q + 1) * alignment) by (nonlinear_arith)
            requires offset == alignment * q + r;
    }
}

/// Round `offset` up to the next multiple of `alignment`; an alignment of
/// zero leaves the offset unchanged.
pub fn align_offset(offset: usize, alignment: usize) -> (r: usize)
    requires
        alignment == 0 || offset + alignment - 1 <= usize::MAX,
    ensures
        r == spec_align_up(offset as int, alignment as int),
{
    if alignment == 0 {
        offset
    } else {
        let rem = offset % alignment;
        if rem == 0 {
            offset
        } else {
            offset + (alignment - rem)
        }
    }
}

/// Whether `n` is a power of two.
pub open spec fn spec_is_power_of_two(n: int) -> bool
    decreases n,
{
    if n <= 0 {
        false
    } else if n == 1 {
        true
    } else {
        n % 2 == 0 && spec_is_power_of_two(n / 2)
    }
}

/// Whether a region of `size` bytes at the given alignment is a valid
/// allocation layout: the alignment is a power of two and the size,
/// rounded up by one alignment step, stays within the address range.
pub open spec fn layout_valid(size: int, alignment: int) -> bool {
    spec_is_power_of_two(alignment) && size + alignment - 1 <= isize::MAX as int
}

/// Runtime power-of-two test.
pub fn is_power_of_two(n: usize) -> (r: bool)
    ensures
        r == spec_is_power_of_two(n as int),
{
    if n == 0 {
        return false;
    }
    let mut m: usize = n;
    while m > 1 && m % 2 == 0
        invariant
            1 <= m <= n,
            spec_is_power_of_two(n as int) == spec_is_power_of_two(m as int),
        decreases m,
    {
        m = m / 2;
    }
    m == 1
}

/// Runtime layout-validity test.
pub fn layout_ok(size: usize, alignment: usize) -> (r: bool)
    ensures
        r == layout_valid(size as int, alignment as int),
{
    if !is_power_of_two(alignment) {
        return false;
    }
    let max: usize = isize::MAX as usize;
    if alignment - 1 > max {
        return false;
    }
    size <= max - (alignment - 1)
}

/// Mathematical model of a chunk: its backing bytes and its cursor.
#[verifier::ext_equal]
pub ghost struct ChunkView {
    pub data: Seq<u8>,
    pub offset: nat,
}

impl ChunkView {
    /// The cursor never passes the end of the backing store, and the store
    /// fits the address range.
    pub open spec fn wf(self) -> bool {
        self.offset <= self.data.len() <= usize::MAX
    }

    /// Whether a request of `size` bytes at `alignment` fits behind the cursor.
    pub open spec fn fits(self, size: int, alignment: int) -> bool {
        spec_align_up(self.offset as int, alignment) + size <= self.data.len()
    }
}

/// Holds of a chunk that has live sub-allocations.
pub open spec fn chunk_in_use() -> spec_fn(ChunkView) -> bool {
    |c: ChunkView| c.offset != 0
}

/// The models of a sequence of chunks.
pub open spec fn views_of(s: Seq<MemoryChunk>) -> Seq<ChunkView> {
    Seq::new(s.len(), |i: int| s[i]@)
}

/// Indexing the models of a chunk sequence is indexing the sequence.
pub broadcast proof fn lemma_views_of_index(s: Seq<MemoryChunk>, i: int)
    requires
        0 <= i < s.len(),
    ensures
        #[trigger] views_of(s)[i] == s[i]@,
{
}

/// An owned region of fixed byte size with an allocation cursor. Successful
/// sub-allocations advance the cursor monotonically; the region never
/// shrinks and is only reset in bulk.
pub struct MemoryChunk {
    pub data: Vec<u8>,
    pub offset: usize,
}

impl View for MemoryChunk {
    type V = ChunkView;

    open spec fn view(&self) -> ChunkView {
        ChunkView { data: self.data@, offset: self.offset as nat }
    }
}

impl MemoryChunk {
    /// Allocate a zero-initialized chunk of `size` bytes. Fails exactly when
    /// the size/alignment pair is not a valid layout.
    pub fn new(size: usize, alignment: usize) -> (r: Result<Self, MemoryError>)
        ensures
            r is Ok <==> layout_valid(size as int, alignment as int),
            r is Err ==> r->Err_0 == MemoryError::InvalidLayout,
            r is Ok ==> r->Ok_0@.wf() && r->Ok_0@.offset == 0 && r->Ok_0@.data.len() == size
                && (forall|i: int| 0 <= i < size ==> r->Ok_0@.data[i] == 0u8),
    {
        if !layout_ok(size, alignment) {
            return Err(MemoryError::InvalidLayout);
        }
        let data: Vec<u8> = vec![0u8; size];
        Ok(MemoryChunk { data, offset: 0 })
    }

    /// Bump-allocate `size` bytes at `alignment` from this chunk, returning
    /// the aligned offset of the new sub-allocation, or `None` when the
    /// request does not fit in the remaining space.
    pub fn allocate(&mut self, size: usize, alignment: usize) -> (r: Option<usize>)
        requires
            old(self)@.wf(),
        ensures
            final(self)@.wf(),
            final(self)@.data == old(self)@.data,
            r is Some <==> old(self)@.fits(size as int, alignment as int),
            r is None ==> final(self)@ == old(self)@,
            r is Some ==> r->0 == spec_align_up(old(self)@.offset as int, alignment as int)
                && final(self)@.offset == r->0 + size
                && old(self)@.offset <= r->0
                && (alignment > 0 ==> r->0 as int % alignment as int == 0),
    {
        proof {
            if alignment > 0 {
                lemma_align_up_properties(self.offset as int, alignment as int);
            }
        }
        let aligned: usize = if alignment == 0 {
            self.offset
        } else {
            let rem = self.offset % alignment;
            if rem == 0 {
                self.offset
            } else {
                let pad = alignment - rem;
                if self.offset > usize::MAX - pad {
                    // the next aligned offset exceeds the address range, so it
                    // cannot lie inside the backing store
                    return None;
                }
                self.offset + pad
            }
        };
        if aligned > self.data.len() || size > self.data.len() - aligned {
            return None;
        }
        self.offset = aligned + size;
        Some(aligned)
    }

    /// Bytes left between the cursor and the end of the chunk.
    pub fn remaining_space(&self) -> (r: usize)
        requires
            self@.wf(),
        ensures
            r == self@.data.len() - self@.offset,
    {
        self.data.len() - self.offset
    }

    /// Whether the chunk has no live sub-allocations.
    pub fn is_empty(&self) -> (r: bool)
        ensures
            r == (self@.offset == 0),
    {
        self.offset == 0
    }

    /// Move the cursor back to the start, invalidating every sub-allocation.
    pub fn reset(&mut self)
        ensures
            final(self)@.offset == 0,
            final(self)@.data == old(self)@.data,
    {
        self.offset = 0;
    }
}

/// A sub-allocation handle: which chunk the bytes live in and the aligned
/// offset of their first byte. Valid until the owning arena is reset,
/// defragmented or dropped.
#[derive(Clone, Copy, Debug, PartialEq, Eq, Structural)]
pub struct ArenaPtr {
    pub chunk: usize,
    pub offset: usize,
}

/// Mathematical model of the arena.
#[verifier::ext_equal]
pub ghost struct ArenaView {
    pub chunks: Seq<ChunkView>,
    pub current: nat,
    pub chunk_size: nat,
    pub total: nat,
    pub alignment: nat,
}

impl ArenaView {
    pub open spec fn wf(self) -> bool {
        &&& self.chunks.len() >= 1
        &&& self.current < self.chunks.len()
        &&& forall|i: int| 0 <= i < self.chunks.len() ==> (#[trigger] self.chunks[i]).wf()
        &&& layout_valid(self.chunk_size as int, self.alignment as int)
    }

    /// Whether some existing chunk can satisfy the request.
    pub open spec fn some_chunk_fits(self, size: int, alignment: int) -> bool {
        exists|i: int| 0 <= i < self.chunks.len() && (#[trigger] self.chunks[i]).fits(size, alignment)
    }

    /// The byte size of the chunk grown for a request of `size` bytes.
    pub open spec fn grown_size(self, size: int) -> int {
        if self.chunk_size >= size {
            self.chunk_size as int
        } else {
            size
        }
    }
}

/// Chunked bump allocator: an ordered sequence of chunks, a cursor chunk,
/// a default chunk size and a default chunk alignment. Sub-allocations are
/// never freed individually; the arena is reset or dropped as a whole.
pub struct ArenaAllocator {
    pub chunks: Vec<MemoryChunk>,
    pub current_chunk: usize,
    pub chunk_size: usize,
    pub total_allocated: usize,
    pub alignment: usize,
}

impl View for ArenaAllocator {
    type V = ArenaView;

    open spec fn view(&self) -> ArenaView {
        ArenaView {
            chunks: views_of(self.chunks@),
            current: self.current_chunk as nat,
            chunk_size: self.chunk_size as nat,
            total: self.total_allocated as nat,
            alignment: self.alignment as nat,
        }
    }
}

impl ArenaAllocator {
    /// Create an arena whose first chunk is allocated eagerly. Fails exactly
    /// when the chunk size/alignment pair is not a valid layout.
    pub fn new(chunk_size: usize, alignment: usize) -> (r: Result<Self, MemoryError>)
        ensures
            r is Ok <==> layout_valid(chunk_size as int, alignment as int),
            r is Err ==> r->Err_0 == MemoryError::InvalidLayout,
            r is Ok ==> {
                let a = r->Ok_0@;
                &&& a.wf()
                &&& a.chunks.len() == 1
                &&& a.chunks[0].offset == 0
                &&& a.chunks[0].data.len() == chunk_size
                &&& a.current == 0
                &&& a.chunk_size == chunk_size
                &&& a.total == 0
                &&& a.alignment == alignment
            },
    {
        broadcast use lemma_views_of_index;

        let initial = MemoryChunk::new(chunk_size, alignment)?;
        let mut chunks: Vec<MemoryChunk> = Vec::new();
        chunks.push(initial);
        Ok(ArenaAllocator {
            chunks,
            current_chunk: 0,
            chunk_size,
            total_allocated: 0,
            alignment,
        })
    }

    /// Allocate `size` bytes at `alignment`: first from the cursor chunk,
    /// then from any other chunk with space, and finally from a fresh chunk
    /// sized `max(chunk_size, size)`. Returns `None` exactly when no chunk
    /// fits and the grown chunk would not be a valid layout.
    pub fn allocate(&mut self, size: usize, alignment: usize) -> (r: Option<ArenaPtr>)
        requires
            old(self)@.wf(),
            old(self)@.total + size <= usize::MAX,
        ensures
            final(self)@.wf(),
            final(self)@.chunk_size == old(self)@.chunk_size,
            final(self)@.alignment == old(self)@.alignment,
            r is Some <==> old(self)@.some_chunk_fits(size as int, alignment as int)
                || layout_valid(old(self)@.grown_size(size as int), old(self)@.alignment as int),
            r is None ==> final(self)@ == old(self)@,
            r is Some ==> final(self)@.total == old(self)@.total + size,
            r is Some ==> {
                let p = r->0;
                &&& p.chunk < final(self)@.chunks.len()
                &&& final(self)@.current == p.chunk
                &&& (alignment > 0 ==> p.offset as int % alignment as int == 0)
                &&& p.offset + size <= final(self)@.chunks[p.chunk as int].data.len()
                &&& final(self)@.chunks[p.chunk as int].offset == p.offset + size
            },
            old(self)@.chunks.len() <= final(self)@.chunks.len() <= old(self)@.chunks.len() + 1,
            // the allocation lands in the cursor chunk when it fits there,
            r is Some && old(self)@.chunks[old(self)@.current as int].fits(size as int, alignment as int)
                ==> final(self)@.chunks.len() == old(self)@.chunks.len()
                    && final(self)@.current == old(self)@.current
                    && r->0.chunk == old(self)@.current
                    && r->0.offset == spec_align_up(
                        old(self)@.chunks[old(self)@.current as int].offset as int, alignment as int),
            // otherwise in the first chunk with room,
            r is Some && !old(self)@.chunks[old(self)@.current as int].fits(size as int, alignment as int)
                && old(self)@.some_chunk_fits(size as int, alignment as int)
                ==> old(self)@.chunks[r->0.chunk as int].fits(size as int, alignment as int)
                    && (forall|j: int| 0 <= j < r->0.chunk
                        ==> !(#[trigger] old(self)@.chunks[j]).fits(size as int, alignment as int))
                    && r->0.offset == spec_align_up(
                        old(self)@.chunks[r->0.chunk as int].offset as int, alignment as int),
            // and at the start of a grown chunk sized to fit when none has room
            r is Some && !old(self)@.some_chunk_fits(size as int, alignment as int)
                ==> r->0.chunk == old(self)@.chunks.len() && r->0.offset == 0
                    && final(self)@.chunks.len() == old(self)@.chunks.len() + 1
                    && final(self)@.chunks[old(self)@.chunks.len() as int].data.len()
                        == old(self)@.grown_size(size as int),
            // backing stores are never moved or shrunk
            forall|j: int| 0 <= j < old(self)@.chunks.len()
                ==> (#[trigger] final(self)@.chunks[j]).data == old(self)@.chunks[j].data,
            // cursors only advance
            forall|j: int| 0 <= j < old(self)@.chunks.len()
                ==> old(self)@.chunks[j].offset <= (#[trigger] final(self)@.chunks[j]).offset,
    {
        broadcast use lemma_views_of_index;

        // Try the chunk the cursor points at.
        let cur = self.current_chunk;
        proof {
            assert(self@.chunks[cur as int].wf());
        }
        let first = self.chunks[cur].allocate(size, alignment);
        if let Some(off) = first {
            self.total_allocated = self.total_allocated + size;
            proof {
                assert(old(self)@.chunks[cur as int].fits(size as int, alignment as int));
                assert(forall|j: int| 0 <= j < old(self)@.chunks.len() && j != cur as int
                    ==> #[trigger] self@.chunks[j] == old(self)@.chunks[j]);
            }
            return Some(ArenaPtr { chunk: cur, offset: off });
        }
        proof {
            assert(!old(self)@.chunks[old(self)@.current as int].fits(size as int, alignment as int));
            assert(self@ =~= old(self)@);
        }
        // The cursor chunk is full: scan every chunk for space.
        let n = self.chunks.len();
        let mut i: usize = 0;
        while i < n
            invariant
                i <= n,
                n == self@.chunks.len(),
                self@ =~= old(self)@,
                self@.wf(),
                old(self)@.total + size <= usize::MAX,
                !old(self)@.chunks[old(self)@.current as int].fits(size as int, alignment as int),
                forall|j: int| 0 <= j < i ==> !(#[trigger] self@.chunks[j]).fits(
                    size as int, alignment as int),
            decreases n - i,
        {
            proof {
                assert(self@.chunks[i as int].wf());
            }
            let ghost pre = self@;
            let got = self.chunks[i].allocate(size, alignment);
            if let Some(off) = got {
                self.current_chunk = i;
                self.total_allocated = self.total_allocated + size;
                proof {
                    assert(pre.chunks[i as int].fits(size as int, alignment as int));
                    assert(old(self)@.chunks[i as int].fits(size as int, alignment as int));
                    assert(old(self)@.some_chunk_fits(size as int, alignment as int));
                    assert(forall|j: int| 0 <= j < old(self)@.chunks.len() && j != i as int
                        ==> #[trigger] self@.chunks[j] == old(self)@.chunks[j]);
                }
                return Some(ArenaPtr { chunk: i, offset: off });
            }
            proof {
                assert(self@ =~= old(self)@);
            }
            i = i + 1;
        }
        proof {
            assert(forall|j: int| 0 <= j < old(self)@.chunks.len()
                ==> !(#[trigger] old(self)@.chunks[j]).fits(size as int, alignment as int));
        }
        // No existing chunk has enough space: grow by one chunk sized to fit.
        let new_size = if self.chunk_size > size { self.chunk_size } else { size };
        match MemoryChunk::new(new_size, self.alignment) {
            Ok(mut fresh) => {
                proof {
                    // a fresh chunk of at least `size` bytes always fits the
                    // request: its cursor is zero, which is aligned
                    assert(spec_align_up(0, alignment as int) == 0);
                    assert(fresh@.fits(size as int, alignment as int));
                }
                let got = fresh.allocate(size, alignment);
                let off = got.unwrap();
                let idx = self.chunks.len();
                self.chunks.push(fresh);
                self.current_chunk = idx;
                self.total_allocated = self.total_allocated + size;
                proof {
                    assert(forall|j: int| 0 <= j < old(self)@.chunks.len()
                        ==> #[trigger] self@.chunks[j] == old(self)@.chunks[j]);
                }
                Some(ArenaPtr { chunk: idx, offset: off })
            },
            Err(_) => {
                proof {
                    assert(self@ =~= old(self)@);
                }
                None
            },
        }
    }

    /// Total bytes handed out since creation or the last reset.
    pub fn total_allocated(&self) -> (r: usize)
        ensures
            r == self@.total,
    {
        self.total_allocated
    }

    /// Number of chunks currently owned.
    pub fn chunk_count(&self) -> (r: usize)
        ensures
            r == self@.chunks.len(),
    {
        self.chunks.len()
    }

    /// Bytes left in the cursor chunk.
    pub fn remaining_space(&self) -> (r: usize)
        requires
            self@.wf(),
        ensures
            r == self@.chunks[self@.current as int].data.len()
                - self@.chunks[self@.current as int].offset,
    {
        broadcast use lemma_views_of_index;

        proof {
            assert(self@.chunks[self@.current as int].wf());
        }
        self.chunks[self.current_chunk].remaining_space()
    }

    /// Mark every chunk as free, invalidating all sub-allocation handles.
    /// Callers must not use an `ArenaPtr` obtained before a reset.
    pub fn reset(&mut self)
        requires
            old(self)@.wf(),
        ensures
            final(self)@.wf(),
            final(self)@.chunks.len() == old(self)@.chunks.len(),
            forall|j: int| 0 <= j < final(self)@.chunks.len()
                ==> (#[trigger] final(self)@.chunks[j]).offset == 0
                    && final(self)@.chunks[j].data == old(self)@.chunks[j].data,
            final(self)@.current == 0,
            final(self)@.total == 0,
            final(self)@.chunk_size == old(self)@.chunk_size,
            final(self)@.alignment == old(self)@.alignment,
    {
        broadcast use lemma_views_of_index;

        let n = self.chunks.len();
        let mut i: usize = 0;
        while i < n
            invariant
                i <= n,
                n == self@.chunks.len(),
                self@.chunks.len() == old(self)@.chunks.len(),
                self@.chunk_size == old(self)@.chunk_size,
                self@.alignment == old(self)@.alignment,
                self@.total == old(self)@.total,
                self@.current == old(self)@.current,
                forall|j: int| 0 <= j < i ==> (#[trigger] self@.chunks[j]).offset == 0,
                forall|j: int| 0 <= j < n
                    ==> (#[trigger] self@.chunks[j]).data == old(self)@.chunks[j].data,
                forall|j: int| i <= j < n
                    ==> (#[trigger] self@.chunks[j]).offset == old(self)@.chunks[j].offset,
            decreases n - i,
        {
            let ghost pre = self.chunks@;
            self.chunks[i].reset();
            proof {
                assert forall|j: int| 0 <= j < n && j != i implies
                    #[trigger] self@.chunks[j] == views_of(pre)[j] by {
                    assert(self.chunks@[j] == pre[j]);
                    assert(views_of(pre)[j] == pre[j]@);
                }
                assert(views_of(pre)[i as int] == pre[i as int]@);
                assert(self@.chunks[i as int] == self.chunks@[i as int]@);
                assert(self@.chunks[i as int].offset == 0);
                assert(self@.chunks[i as int].data == views_of(pre)[i as int].data);
            }
            i = i + 1;
        }
        self.current_chunk = 0;
        self.total_allocated = 0;
    }

    /// Drop chunks with no live sub-allocations; if every chunk was unused,
    /// keep one fresh chunk of the default size.
    pub fn defragment(&mut self)
        requires
            old(self)@.wf(),
        ensures
            final(self)@.wf(),
            final(self)@.current == 0,
            final(self)@.total == old(self)@.total,
            final(self)@.chunk_size == old(self)@.chunk_size,
            final(self)@.alignment == old(self)@.alignment,
            ({
                let kept = old(self)@.chunks.filter(chunk_in_use());
                if kept.len() > 0 {
                    final(self)@.chunks == kept
                } else {
                    final(self)@.chunks.len() == 1
                        && final(self)@.chunks[0].offset == 0
                        && final(self)@.chunks[0].data.len() == old(self)@.chunk_size
                }
            }),
    {
        broadcast use lemma_views_of_index;

        let ghost g: Seq<ChunkView> = self@.chunks;
        let ghost pred = chunk_in_use();
        let mut kept: Vec<MemoryChunk> = Vec::new();
        let ghost mut i: int = 0;
        proof {
            reveal(Seq::filter);
            assert(g.take(0).filter(pred) =~= Seq::<ChunkView>::empty());
        }
        while self.chunks.len() > 0
            invariant
                0 <= i,
                pred == chunk_in_use(),
                i + self.chunks@.len() == g.len(),
                views_of(self.chunks@) =~= g.skip(i),
                views_of(kept@) =~= g.take(i).filter(pred),
                forall|k: int| 0 <= k < kept@.len() ==> (#[trigger] kept@[k]@).wf(),
                self@.chunk_size == old(self)@.chunk_size,
                self@.alignment == old(self)@.alignment,
                self@.total == old(self)@.total,
                g == old(self)@.chunks,
                old(self)@.wf(),
            decreases self.chunks@.len(),
        {
            let ghost pre = self.chunks@;
            let ghost kpre = kept@;
            proof {
                assert(views_of(pre)[0] == g.skip(i)[0]);
                assert(pre[0]@ == g[i]);
            }
            let c = self.chunks.remove(0);
            proof {
                assert(c@ == g[i]);
                assert forall|j: int| 0 <= j < self.chunks@.len() implies
                    #[trigger] views_of(self.chunks@)[j] == g.skip(i + 1)[j] by {
                    assert(self.chunks@[j] == pre[j + 1]);
                    assert(views_of(pre)[j + 1] == pre[j + 1]@);
                    assert(views_of(pre)[j + 1] == g.skip(i)[j + 1]);
                }
                assert(views_of(self.chunks@) =~= g.skip(i + 1));
            }
            if !c.is_empty() {
                let ghost cv = c@;
                kept.push(c);
                proof {
                    reveal(Seq::filter);
                    assert(g.take(i + 1).drop_last() =~= g.take(i));
                    assert(g.take(i + 1).last() == g[i]);
                    assert(g.take(i).filter(pred) == views_of(kpre));
                    assert(pred(g[i]) == (g[i].offset != 0));
                    assert(pred(g[i]));
                    assert(g.take(i + 1).filter(pred) == views_of(kpre).push(g[i]));
                    assert(kept@ == kpre.push(c));
                    assert forall|j: int| 0 <= j < kept@.len() implies
                        #[trigger] views_of(kept@)[j] == views_of(kpre).push(g[i])[j] by {
                        if j < kpre.len() {
                            assert(kept@[j] == kpre[j]);
                            assert(views_of(kpre)[j] == kpre[j]@);
                        } else {
                            assert(kept@[j]@ == cv);
                        }
                    }
                    assert(views_of(kept@) =~= g.take(i + 1).filter(pred));
                    i = i + 1;
                }
            } else {
                proof {
                    reveal(Seq::filter);
                    assert(g.take(i + 1).drop_last() =~= g.take(i));
                    assert(g.take(i + 1).last() == g[i]);
                    assert(g.take(i).filter(pred) == views_of(kpre));
                    assert(pred(g[i]) == (g[i].offset != 0));
                    assert(!pred(g[i]));
                    assert(g.take(i + 1).filter(pred) == views_of(kpre));
                    assert(views_of(kept@) =~= g.take(i + 1).filter(pred));
                    i = i + 1;
                }
            }
        }
        proof {
            assert(g.take(g.len() as int) =~= g);
        }
        if kept.len() == 0 {
            match MemoryChunk::new(self.chunk_size, self.alignment) {
                Ok(fresh) => {
                    self.chunks.push(fresh);
                },
                Err(_) => {
                    // unreachable: well-formedness gives a valid default layout
                    proof {
                        assert(false);
                    }
                },
            }
        } else {
            self.chunks.append(&mut kept);
        }
        self.current_chunk = 0;
        proof {
            if g.filter(pred).len() > 0 {
                assert(views_of(self.chunks@) =~= g.filter(pred));
            }
        }
    }
}

} // verus!
