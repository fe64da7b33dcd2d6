//! Named free-list allocator: buffers are handed out, explicitly returned,
//! and reused in last-in-first-out order.

use vstd::prelude::*;

use crate::errors::MemoryError;

verus! {

/// A zero-filled buffer of `size` elements, as handed out by a pool.
pub open spec fn zero_buffer(size: nat) -> Seq<u32> {
    Seq::new(size, |i: int| 0u32)
}

/// Mathematical model of a pool: the free list, the count of outstanding
/// buffers, the configured buffer size and the pool's name.
#[verifier::ext_equal]
pub ghost struct PoolView {
    pub available: Seq<Seq<u32>>,
    pub allocated: nat,
    pub buffer_size: nat,
    pub name: Seq<char>,
}

impl PoolView {
    /// Allocation pops one free buffer when there is one, and counts one
    /// more outstanding buffer either way.
    pub open spec fn after_allocate(self) -> PoolView {
        PoolView {
            available: if self.available.len() > 0 {
                self.available.drop_last()
            } else {
                self.available
            },
            allocated: self.allocated + 1,
            ..self
        }
    }

    /// Deallocation pushes the buffer onto the free list and counts one
    /// fewer outstanding buffer, never dropping below zero.
    pub open spec fn after_deallocate(self, buffer: Seq<u32>) -> PoolView {
        PoolView {
            available: self.available.push(buffer),
            allocated: if self.allocated > 0 { (self.allocated - 1) as nat } else { 0 },
            ..self
        }
    }

    /// Clearing drops every free buffer and resets the outstanding count.
    pub open spec fn after_clear(self) -> PoolView {
        PoolView { available: Seq::empty(), allocated: 0, ..self }
    }

    /// Defragmentation keeps only the non-empty free buffers, in order.
    pub open spec fn after_defrag(self) -> PoolView {
        PoolView { available: self.available.filter(nonempty_buffer()), ..self }
    }
}

/// Returning a buffer to a pool and then allocating takes that buffer back:
/// the free list returns to what it was before the return, and the
/// outstanding count returns to what it was after the first allocation.
pub proof fn lemma_pool_reuse(p: PoolView, buffer: Seq<u32>)
    ensures
        p.after_allocate().after_deallocate(buffer).after_allocate().available
            == p.after_allocate().available,
        p.after_allocate().after_deallocate(buffer).after_allocate().allocated
            == p.after_allocate().allocated,
        p.after_allocate().after_deallocate(buffer).after_allocate().available.len() + 1
            == p.after_allocate().after_deallocate(buffer).available.len(),
{
    let p1 = p.after_allocate();
    let p2 = p1.after_deallocate(buffer);
    assert(p2.available.drop_last() =~= p1.available);
}

/// Named free-list allocator for reusable variable-length buffers.
pub struct MemoryPool {
    pub available: Vec<Vec<u32>>,
    pub allocated_count: usize,
    pub buffer_size: usize,
    pub name: String,
}

impl View for MemoryPool {
    type V = PoolView;

    open spec fn view(&self) -> PoolView {
        PoolView {
            available: Seq::new(self.available@.len(), |i: int| self.available@[i]@),
            allocated: self.allocated_count as nat,
            buffer_size: self.buffer_size as nat,
            name: self.name@,
        }
    }
}

impl MemoryPool {
    /// Create an empty pool with the given name and nominal buffer size.
    pub fn new(name: String, buffer_size: usize) -> (r: Self)
        ensures
            r@.available.len() == 0,
            r@.allocated == 0,
            r@.buffer_size == buffer_size,
            r@.name == name@,
    {
        MemoryPool { available: Vec::new(), allocated_count: 0, buffer_size, name }
    }

    /// Hand out a zero-filled buffer of `size` elements, reusing the most
    /// recently returned free buffer when one exists.
    pub fn allocate(&mut self, size: usize) -> (r: Result<Vec<u32>, MemoryError>)
        requires
            old(self)@.allocated < usize::MAX,
        ensures
            r is Ok,
            r->Ok_0@ == zero_buffer(size as nat),
            final(self)@ == old(self)@.after_allocate(),
    {
        let popped = self.available.pop();
        let buffer: Vec<u32> = if let Some(mut b) = popped {
            b.clear();
            b.resize(size, 0u32);
            proof {
                assert(b@ =~= zero_buffer(size as nat));
            }
            b
        } else {
            let b: Vec<u32> = vec![0u32; size];
            proof {
                assert(b@ =~= zero_buffer(size as nat));
            }
            b
        };
        self.allocated_count = self.allocated_count + 1;
        proof {
            assert(self@ =~= old(self)@.after_allocate());
        }
        Ok(buffer)
    }

    /// Return a buffer to the free list for reuse.
    pub fn deallocate(&mut self, buffer: Vec<u32>)
        ensures
            final(self)@ == old(self)@.after_deallocate(buffer@),
    {
        self.available.push(buffer);
        self.allocated_count = if self.allocated_count > 0 {
            self.allocated_count - 1
        } else {
            0
        };
        proof {
            assert(self@ =~= old(self)@.after_deallocate(buffer@));
        }
    }

    /// Drop all free buffers and reset the outstanding count.
    pub fn clear(&mut self)
        ensures
            final(self)@ == old(self)@.after_clear(),
    {
        self.available.clear();
        self.allocated_count = 0;
        proof {
            assert(self@ =~= old(self)@.after_clear());
        }
    }

    /// Number of buffers handed out and not yet returned.
    pub fn allocated_count(&self) -> (r: usize)
        ensures
            r == self@.allocated,
    {
        self.allocated_count
    }

    /// Number of free buffers waiting for reuse.
    pub fn available_count(&self) -> (r: usize)
        ensures
            r == self@.available.len(),
    {
        self.available.len()
    }

    /// Drop zero-length free buffers, keeping the reusable ones in order.
    pub fn drop_empty_buffers(&mut self)
        ensures
            final(self)@ == old(self)@.after_defrag(),
    {
        let ghost g: Seq<Seq<u32>> = self@.available;
        let ghost pred = nonempty_buffer();
        let mut kept: Vec<Vec<u32>> = Vec::new();
        let ghost mut i: int = 0;
        proof {
            reveal(Seq::filter);
            assert(g.take(0).filter(pred) =~= Seq::<Seq<u32>>::empty());
        }
        while self.available.len() > 0
            invariant
                0 <= i,
                pred == nonempty_buffer(),
                i + self.available@.len() == g.len(),
                bufs_of(self.available@) =~= g.skip(i),
                bufs_of(kept@) =~= g.take(i).filter(pred),
                self@.allocated == old(self)@.allocated,
                self@.buffer_size == old(self)@.buffer_size,
                self@.name == old(self)@.name,
                g == old(self)@.available,
            decreases self.available@.len(),
        {
            let ghost pre = self.available@;
            proof {
                assert(bufs_of(pre)[0] == g.skip(i)[0]);
                assert(pre[0]@ == g[i]);
            }
            let b = self.available.remove(0);
            proof {
                assert(b@ == g[i]);
                assert forall|j: int| 0 <= j < self.available@.len() implies
                    #[trigger] bufs_of(self.available@)[j] == g.skip(i + 1)[j] by {
                    assert(self.available@[j] == pre[j + 1]);
                    assert(bufs_of(pre)[j + 1] == pre[j + 1]@);
                    assert(bufs_of(pre)[j + 1] == g.skip(i)[j + 1]);
                    assert(g.skip(i)[j + 1] == g[i + 1 + j]);
                    assert(g.skip(i + 1)[j] == g[i + 1 + j]);
                }
                reveal(Seq::filter);
                assert(g.take(i + 1).drop_last() =~= g.take(i));
                assert(g.take(i + 1).last() == g[i]);
                assert(bufs_of(self.available@) =~= g.skip(i + 1));
            }
            if b.len() > 0 {
                let ghost kpre = kept@;
                kept.push(b);
                proof {
                    reveal(Seq::filter);
                    assert(pred(g[i]) == (g[i].len() != 0));
                    assert forall|j: int| 0 <= j < kept@.len() implies
                        #[trigger] bufs_of(kept@)[j] == bufs_of(kpre).push(g[i])[j] by {
                        if j < kpre.len() {
                            assert(kept@[j] == kpre[j]);
                            assert(bufs_of(kpre)[j] == kpre[j]@);
                        }
                    }
                    assert(bufs_of(kept@) =~= g.take(i + 1).filter(pred));
                    i = i + 1;
                }
            } else {
                proof {
                    reveal(Seq::filter);
                    assert(pred(g[i]) == (g[i].len() != 0));
                    assert(bufs_of(kept@) =~= g.take(i + 1).filter(pred));
                    i = i + 1;
                }
            }
        }
        proof {
            assert(g.take(g.len() as int) =~= g);
        }
        self.available = kept;
        proof {
            assert(self@ =~= old(self)@.after_defrag());
        }
    }
}

/// Holds of a free buffer that still has contents worth reusing.
pub open spec fn nonempty_buffer() -> spec_fn(Seq<u32>) -> bool {
    |b: Seq<u32>| b.len() != 0
}

/// The models of a sequence of buffers.
pub open spec fn bufs_of(s: Seq<Vec<u32>>) -> Seq<Seq<u32>> {
    Seq::new(s.len(), |i: int| s[i]@)
}

} // verus!
