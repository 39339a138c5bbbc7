//! The pre-sized entry pool: bump allocation over a fixed arena.
//!
//! The pool owns a fixed number of bytes and hands out aligned,
//! non-overlapping ranges front to back. Allocation fails
//! deterministically when the arena is exhausted; nothing blocks and
//! nothing grows. A reset reclaims everything at once.

use vstd::prelude::*;

use crate::errors::AgentError;

verus! {

/// Alignment of every allocation, in bytes.
pub const POOL_ALIGNMENT: usize = 16;

/// Smallest arena the pool will accept.
pub const MIN_POOL_SIZE: usize = 1024;

/// One range handed out by the pool.
#[derive(Debug, Clone, Copy, PartialEq, Eq, Structural)]
pub struct PoolAllocation {
    /// First byte of the range inside the arena.
    pub offset: usize,
    /// Length of the range, already rounded up to the alignment.
    pub size: usize,
}

impl PoolAllocation {
    /// First byte of the range inside the arena.
    pub fn offset(&self) -> (r: usize)
        ensures
            r == self.offset,
    {
        self.offset
    }

    /// Length of the range.
    pub fn size(&self) -> (r: usize)
        ensures
            r == self.size,
    {
        self.size
    }
}

/// A fixed-capacity bump allocator over an arena of bytes.
pub struct MemoryPool {
    /// Total bytes of the arena.
    pub buffer_size: usize,
    /// First free byte.
    pub next_free: usize,
    /// High-water mark of bytes ever in use at once.
    pub max_used: usize,
}

impl MemoryPool {
    /// Soundness: the free pointer stays inside the arena, aligned,
    /// and never above the high-water mark's account.
    pub open spec fn wf(&self) -> bool {
        &&& self.next_free <= self.buffer_size
        &&& self.max_used <= self.buffer_size
        &&& self.next_free <= self.max_used
        &&& (self.next_free as int) % (POOL_ALIGNMENT as int) == 0
    }

    /// A pool over an arena of at least `size` bytes; small requests
    /// are raised to the minimum arena size.
    pub fn new(size: usize) -> (r: MemoryPool)
        requires
            size % POOL_ALIGNMENT == 0,
        ensures
            r.wf(),
            r.buffer_size == (if size >= MIN_POOL_SIZE {
                size as int
            } else {
                MIN_POOL_SIZE as int
            }),
            r.next_free == 0,
            r.max_used == 0,
    {
        let buffer_size = if size >= MIN_POOL_SIZE {
            size
        } else {
            MIN_POOL_SIZE
        };
        MemoryPool { buffer_size, next_free: 0, max_used: 0 }
    }

    /// Reserve `size` bytes, rounded up to the alignment. The returned
    /// range starts where the previous one ended; an exhausted pool
    /// refuses deterministically and keeps its state.
    pub fn allocate(&mut self, size: usize) -> (r: Result<PoolAllocation, AgentError>)
        requires
            old(self).wf(),
            size <= usize::MAX - POOL_ALIGNMENT,
        ensures
            final(self).wf(),
            final(self).buffer_size == old(self).buffer_size,
            ({
                let aligned = ((size as int + POOL_ALIGNMENT as int - 1) / (POOL_ALIGNMENT as int)) * (POOL_ALIGNMENT as int);
                &&& (r is Ok <==> old(self).next_free + aligned <= old(self).buffer_size)
                &&& (r matches Ok(a) ==> a.offset == old(self).next_free && a.size == aligned
                    && final(self).next_free == old(self).next_free + aligned && final(self).max_used >= final(self).next_free)
                &&& (r is Err ==> r == Err::<PoolAllocation, AgentError>(AgentError::PoolExhausted)
                    && final(self).next_free == old(self).next_free && final(self).max_used == old(self).max_used)
            }),
    {
        let aligned = ((size + POOL_ALIGNMENT - 1) / POOL_ALIGNMENT) * POOL_ALIGNMENT;
        proof {
            assert((aligned as int) % (POOL_ALIGNMENT as int) == 0) by (nonlinear_arith)
                requires
                    aligned as int == ((size as int + POOL_ALIGNMENT as int - 1) / (POOL_ALIGNMENT as int)) * (POOL_ALIGNMENT as int),
            ;
        }
        if aligned > self.buffer_size - self.next_free {
            return Err(AgentError::PoolExhausted);
        }
        let offset = self.next_free;
        self.next_free = self.next_free + aligned;
        if self.next_free > self.max_used {
            self.max_used = self.next_free;
        }
        proof {
            assert((self.next_free as int) % (POOL_ALIGNMENT as int) == 0) by (nonlinear_arith)
                requires
                    self.next_free == offset + aligned,
                    (offset as int) % (POOL_ALIGNMENT as int) == 0,
                    (aligned as int) % (POOL_ALIGNMENT as int) == 0,
            ;
        }
        Ok(PoolAllocation { offset, size: aligned })
    }

    /// Reclaim the whole arena; the high-water mark stays.
    pub fn reset(&mut self)
        requires
            old(self).wf(),
        ensures
            final(self).wf(),
            final(self).next_free == 0,
            final(self).buffer_size == old(self).buffer_size,
            final(self).max_used == old(self).max_used,
    {
        self.next_free = 0;
    }

    /// Bytes in use now and the high-water mark.
    pub fn usage(&self) -> (r: (usize, usize))
        ensures
            r.0 == self.next_free,
            r.1 == self.max_used,
    {
        (self.next_free, self.max_used)
    }
}

/// A pool of fixed-size slots for one kind of entry.
pub struct TypedMemoryPool {
    /// The underlying byte arena.
    pub pool: MemoryPool,
    /// Size of one entry, in bytes.
    pub entry_size: usize,
}

impl TypedMemoryPool {
    /// A pool with room for `count` entries of `entry_size` bytes; an
    /// arena that would overflow the address space saturates.
    pub fn new(entry_size: usize, count: usize) -> (r: Result<TypedMemoryPool, AgentError>)
        requires
            1 <= entry_size,
        ensures
            r is Ok,
            r matches Ok(p) ==> p.pool.wf() && p.entry_size == entry_size && p.pool.next_free
                == 0,
    {
        let need: usize = if count != 0 && entry_size > usize::MAX / count {
            usize::MAX
        } else {
            proof {
                if count != 0 {
                    assert(entry_size * count <= (usize::MAX as int / count as int) * count)
                        by (nonlinear_arith)
                        requires
                            count >= 1,
                            entry_size <= usize::MAX as int / count as int,
                    ;
                    assert((usize::MAX as int / count as int) * count <= usize::MAX)
                        by (nonlinear_arith)
                        requires
                            count >= 1,
                    ;
                }
            }
            entry_size * count
        };
        proof {
            if need >= 1 {
                assert(((need as int - 1) / 16 + 1) * 16 <= need as int + 15) by (nonlinear_arith)
                    requires
                        need >= 1,
                ;
            }
        }
        let rounded: usize = if need == 0 {
            0
        } else if need > usize::MAX - (POOL_ALIGNMENT - 1) {
            usize::MAX - (usize::MAX % POOL_ALIGNMENT)
        } else {
            ((need - 1) / POOL_ALIGNMENT + 1) * POOL_ALIGNMENT
        };
        proof {
            assert((rounded as int) % 16 == 0) by (nonlinear_arith)
                requires
                    rounded as int == ((need as int - 1) / 16 + 1) * 16 || rounded as int == 0
                        || rounded as int == usize::MAX as int - (usize::MAX as int % 16),
            ;
        }
        Ok(TypedMemoryPool { pool: MemoryPool::new(rounded), entry_size })
    }

    /// Reserve one entry slot.
    pub fn allocate(&mut self) -> (r: Result<PoolAllocation, AgentError>)
        requires
            old(self).pool.wf(),
            old(self).entry_size <= usize::MAX - POOL_ALIGNMENT,
        ensures
            final(self).pool.wf(),
            final(self).entry_size == old(self).entry_size,
            r is Err ==> r == Err::<PoolAllocation, AgentError>(AgentError::PoolExhausted),
    {
        self.pool.allocate(self.entry_size)
    }

    /// Reclaim every slot at once.
    pub fn reset(&mut self)
        requires
            old(self).pool.wf(),
        ensures
            final(self).pool.wf(),
            final(self).pool.next_free == 0,
            final(self).entry_size == old(self).entry_size,
    {
        self.pool.reset();
    }

    /// Bytes in use now and the high-water mark.
    pub fn usage(&self) -> (r: (usize, usize))
        ensures
            r.0 == self.pool.next_free,
            r.1 == self.pool.max_used,
    {
        self.pool.usage()
    }
}

} // verus!
