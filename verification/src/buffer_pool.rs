//! A pool of reusable byte buffers, an allocation optimization for the
//! hot push path. Buffers handed out are always empty; the pool is bounded.
use vstd::prelude::*;
use std::collections::VecDeque;

verus! {

/// Relies on Vec::capacity: the number of elements the vector can hold
/// without reallocating, documented to be at least its length.
#[verifier::external_body]
fn vec_capacity(v: &Vec<u8>) -> (c: usize)
    ensures
        c >= v@.len(),
{
    v.capacity()
}

/// A bounded pool of byte buffers with automatic reset on reuse.
pub struct BufferPool {
    pool: VecDeque<Vec<u8>>,
    max_pool_size: usize,
    default_capacity: usize,
}

impl BufferPool {
    /// A pool holding at most `max_pool_size` buffers, handing out buffers
    /// of `default_capacity` when empty.
    pub fn new(max_pool_size: usize, default_capacity: usize) -> (r: BufferPool)
        ensures
            r.spec_size() == 0,
            r.spec_max() == max_pool_size,
    {
        BufferPool { pool: VecDeque::new(), max_pool_size, default_capacity }
    }

    /// How many buffers the pool currently holds.
    pub closed spec fn spec_size(&self) -> nat {
        self.pool@.len()
    }

    /// The most buffers the pool will hold.
    pub closed spec fn spec_max(&self) -> nat {
        self.max_pool_size as nat
    }

    /// Take a buffer from the pool, or allocate a fresh one. The buffer
    /// handed out is always empty.
    pub fn acquire(&mut self) -> (r: Vec<u8>)
        ensures
            r@ == Seq::<u8>::empty(),
            final(self).spec_size() == if old(self).spec_size() == 0 {
                0int
            } else {
                old(self).spec_size() - 1
            },
    {
        match self.pool.pop_front() {
            Some(mut buffer) => {
                buffer.clear();
                assert(buffer@ =~= Seq::<u8>::empty());
                buffer
            },
            None => {
                let v: Vec<u8> = Vec::with_capacity(self.default_capacity);
                assert(v@ =~= Seq::<u8>::empty());
                v
            },
        }
    }

    /// Take an empty buffer able to hold at least `capacity` bytes,
    /// preferring a pooled buffer that is already large enough.
    pub fn acquire_with_capacity(&mut self, capacity: usize) -> (r: Vec<u8>)
        ensures
            r@ == Seq::<u8>::empty(),
            final(self).spec_size() <= old(self).spec_size(),
            final(self).spec_max() == old(self).spec_max(),
    {
        let mut i: usize = 0;
        while i < self.pool.len()
            invariant
                i <= self.pool@.len(),
                *self == *old(self),
            decreases self.pool@.len() - i,
        {
            if vec_capacity(&self.pool[i]) >= capacity {
                match self.pool.remove(i) {
                    Some(mut buffer) => {
                        buffer.clear();
                        assert(buffer@ =~= Seq::<u8>::empty());
                        return buffer;
                    },
                    None => {
                    },
                }
            }
            i = i + 1;
        }
        let v: Vec<u8> = Vec::with_capacity(capacity);
        assert(v@ =~= Seq::<u8>::empty());
        v
    }

    /// Return a buffer to the pool. Oversized buffers are discarded to
    /// avoid memory bloat; a full pool drops the buffer too.
    pub fn release(&mut self, buffer: Vec<u8>)
        ensures
            final(self).spec_size() <= old(self).spec_size() + 1,
            final(self).spec_size() > old(self).spec_size() ==> final(self).spec_size()
                <= old(self).spec_max(),
            final(self).spec_max() == old(self).spec_max(),
    {
        let mut buffer = buffer;
        let bound: usize = if self.default_capacity <= usize::MAX / 4 {
            self.default_capacity * 4
        } else {
            usize::MAX
        };
        if vec_capacity(&buffer) <= bound {
            buffer.clear();
            if self.pool.len() < self.max_pool_size {
                self.pool.push_back(buffer);
            }
        }
    }

    /// The number of buffers currently pooled.
    pub fn size(&self) -> (r: usize)
        ensures
            r == self.spec_size(),
    {
        self.pool.len()
    }

    /// Drop every pooled buffer.
    pub fn clear(&mut self)
        ensures
            final(self).spec_size() == 0,
    {
        self.pool.clear();
    }
}

/// A buffer borrowed from a pool. Hand it back with `BufferPool::release`
/// when done, or keep it via `into_inner`.
pub struct PooledBuffer {
    buffer: Vec<u8>,
}

impl PooledBuffer {
    /// The bytes currently held.
    pub closed spec fn spec_buf(&self) -> Seq<u8> {
        self.buffer@
    }

    /// Wrap a buffer acquired from the pool.
    pub fn new(pool: &mut BufferPool) -> (r: PooledBuffer)
        ensures
            r.spec_buf() == Seq::<u8>::empty(),
    {
        PooledBuffer { buffer: pool.acquire() }
    }

    /// Wrap a buffer of at least the given capacity.
    pub fn with_capacity(pool: &mut BufferPool, capacity: usize) -> (r: PooledBuffer)
        ensures
            r.spec_buf() == Seq::<u8>::empty(),
    {
        PooledBuffer { buffer: pool.acquire_with_capacity(capacity) }
    }

    /// The wrapped buffer, mutably.
    pub fn get_mut(&mut self) -> &mut Vec<u8> {
        &mut self.buffer
    }

    /// The wrapped buffer.
    pub fn get(&self) -> (r: &Vec<u8>)
        ensures
            r@ == self.spec_buf(),
    {
        &self.buffer
    }

    /// Take the buffer out of the wrapper.
    pub fn into_inner(self) -> (r: Vec<u8>)
        ensures
            r@ == self.spec_buf(),
    {
        self.buffer
    }
}

} // verus!
