/*!
A `Bucket` is a bump region of auxiliary byte storage. The allocator hands
out whole-word chunks from the front; a bucket is reclaimed only as a whole,
by `reset`.

Byte contents are not modelled: node vectors carry their payloads themselves
and record which bucket their bytes are accounted to, so a bucket here is its
capacity and its remaining free bytes.
*/

use vstd::prelude::*;

verus! {

/// No single bucket exceeds this capacity; it keeps every byte count the
/// allocator ever forms well inside its counters.
pub const MAX_BUCKET_CAPACITY: usize = 0x4000_0000;

/// The machine word size in bytes; every request is a multiple of it.
pub const WORD_SIZE: usize = 8;

#[derive(Copy, Clone, Debug, PartialEq, Eq, Structural)]
pub struct Bucket {
    pub capacity: usize,
    pub bytes_free: usize,
}

impl Bucket {
    pub open spec fn wf(self) -> bool {
        &&& self.bytes_free <= self.capacity
        &&& self.capacity <= MAX_BUCKET_CAPACITY
    }

    pub open spec fn spec_capacity(self) -> int {
        self.capacity as int
    }

    pub open spec fn spec_bytes_free(self) -> int {
        self.bytes_free as int
    }

    /// Bytes bump-consumed from the front of the bucket.
    pub open spec fn consumed(self) -> int {
        self.capacity - self.bytes_free
    }

    pub fn with_capacity(capacity: usize) -> (r: Bucket)
        requires
            capacity <= MAX_BUCKET_CAPACITY,
        ensures
            r.wf(),
            r.spec_capacity() == capacity,
            r.consumed() == 0,
    {
        Bucket { capacity, bytes_free: capacity }
    }

    pub fn capacity(&self) -> (r: usize)
        ensures
            r == self.spec_capacity(),
    {
        self.capacity
    }

    pub fn bytes_free(&self) -> (r: usize)
        ensures
            r == self.spec_bytes_free(),
    {
        self.bytes_free
    }

    /// Bump-allocates `bytes_needed` bytes. The caller has checked that the
    /// bucket has room; a request that is not whole words is a programmer
    /// error and is excluded here.
    pub fn allocate(&mut self, bytes_needed: usize) -> (r: usize)
        requires
            old(self).wf(),
            bytes_needed % WORD_SIZE == 0,
            bytes_needed <= old(self).bytes_free,
        ensures
            final(self).wf(),
            final(self).spec_capacity() == old(self).spec_capacity(),
            final(self).consumed() == old(self).consumed() + bytes_needed,
            r == old(self).consumed(),
    {
        let offset = self.capacity - self.bytes_free;
        self.bytes_free = self.bytes_free - bytes_needed;
        offset
    }

    /// Forgets everything in the bucket, making its whole capacity free.
    pub fn reset(&mut self)
        requires
            old(self).wf(),
        ensures
            final(self).wf(),
            final(self).spec_capacity() == old(self).spec_capacity(),
            final(self).consumed() == 0,
    {
        self.bytes_free = self.capacity;
    }
}

} // verus!
