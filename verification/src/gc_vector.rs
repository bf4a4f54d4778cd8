/*!
A relocatable, non-growing vector whose bytes are charged to bucket storage.

Every creation draws from a `StorageAllocator`: one header's worth of bytes
and one machine word per capacity cell. The vector remembers which bucket its
cells were charged to, which is what the relocation invariant of the garbage
collector speaks about. Pushing past capacity is a programmer error — the
capacity is provisioned from symbol arity at node creation — so `push`
excludes it; the only legal resizing is the copy the collector itself makes.
*/

use vstd::prelude::*;

use crate::bucket::WORD_SIZE;
use crate::storage_allocator::{storage_evolved, StorageAllocator};

verus! {

/// Bytes charged for a vector header: length, capacity and data reference.
pub const VECTOR_HEADER_BYTES: usize = 32;

/// Largest capacity a vector may be created with; its cells then still fit
/// one storage request.
pub const MAX_VECTOR_CAPACITY: usize = 0x100_0000;

pub struct GCVector<T> {
    pub data: Vec<T>,
    pub capacity: usize,
    /// Id of the bucket the cells were charged to.
    pub bucket: usize,
}

impl<T: Copy> GCVector<T> {
    pub open spec fn view(self) -> Seq<T> {
        self.data@
    }

    pub open spec fn wf(self) -> bool {
        &&& self.data@.len() <= self.capacity
        &&& self.capacity <= MAX_VECTOR_CAPACITY
    }

    pub open spec fn spec_capacity(self) -> int {
        self.capacity as int
    }

    pub open spec fn spec_bucket(self) -> usize {
        self.bucket
    }

    /// Creates a new empty vector with the given capacity, charging its
    /// header and cells to bucket storage.
    pub fn with_capacity(storage: &mut StorageAllocator, capacity: usize) -> (r: GCVector<T>)
        requires
            old(storage).wf(),
            capacity <= MAX_VECTOR_CAPACITY,
        ensures
            final(storage).wf(),
            storage_evolved(*old(storage), *final(storage)),
            final(storage).spec_storage_in_use() == old(storage).spec_storage_in_use()
                + VECTOR_HEADER_BYTES + capacity * WORD_SIZE,
            final(storage).spec_want_gc() == (old(storage).spec_want_gc() || final(storage).spec_storage_in_use() > final(storage).spec_target()),
            r.wf(),
            r@ =~= Seq::<T>::empty(),
            r.spec_capacity() == capacity,
            r.spec_bucket() < final(storage).spec_buckets().len(),
            final(storage).spec_in_use_list().contains(r.spec_bucket()),
    {
        storage.allocate_storage(VECTOR_HEADER_BYTES);
        let bucket = storage.allocate_storage(capacity * WORD_SIZE);
        GCVector { data: Vec::new(), capacity, bucket }
    }

    /// Creates a vector holding the contents of `items`; its capacity equals
    /// the length of `items`.
    #[verifier::loop_isolation(false)]
    pub fn from_slice(storage: &mut StorageAllocator, items: &[T]) -> (r: GCVector<T>)
        requires
            old(storage).wf(),
            items@.len() <= MAX_VECTOR_CAPACITY,
        ensures
            final(storage).wf(),
            storage_evolved(*old(storage), *final(storage)),
            final(storage).spec_storage_in_use() == old(storage).spec_storage_in_use()
                + VECTOR_HEADER_BYTES + items@.len() * WORD_SIZE,
            final(storage).spec_want_gc() == (old(storage).spec_want_gc() || final(storage).spec_storage_in_use() > final(storage).spec_target()),
            r.wf(),
            r@ == items@,
            r.spec_capacity() == items@.len(),
            r.spec_bucket() < final(storage).spec_buckets().len(),
            final(storage).spec_in_use_list().contains(r.spec_bucket()),
    {
        let capacity = items.len();
        let mut r = GCVector::with_capacity(storage, capacity);
        let ghost fresh = r;
        let mut i: usize = 0;
        while i < capacity
            invariant
                i <= capacity,
                r.data@ =~= items@.take(i as int),
                r.capacity == capacity,
                r.bucket == fresh.bucket,
            decreases capacity - i,
        {
            r.data.push(items[i]);
            i = i + 1;
        }
        proof {
            assert(r.data@ =~= items@);
        }
        r
    }

    /// An identical shallow copy with the same capacity, in fresh storage.
    /// Used by the collector to relocate argument vectors during mark.
    pub fn copy(&self, storage: &mut StorageAllocator) -> (r: GCVector<T>)
        requires
            old(storage).wf(),
            self.wf(),
        ensures
            final(storage).wf(),
            storage_evolved(*old(storage), *final(storage)),
            final(storage).spec_storage_in_use() == old(storage).spec_storage_in_use()
                + VECTOR_HEADER_BYTES + self.spec_capacity() * WORD_SIZE,
            final(storage).spec_want_gc() == (old(storage).spec_want_gc() || final(storage).spec_storage_in_use() > final(storage).spec_target()),
            r.wf(),
            r@ == self@,
            r.spec_capacity() == self.spec_capacity(),
            r.spec_bucket() < final(storage).spec_buckets().len(),
            final(storage).spec_in_use_list().contains(r.spec_bucket()),
    {
        self.copy_with_capacity(storage, self.capacity)
    }

    /// A copy with `new_capacity` cells; contents beyond `new_capacity` are
    /// truncated.
    #[verifier::loop_isolation(false)]
    pub fn copy_with_capacity(&self, storage: &mut StorageAllocator, new_capacity: usize) -> (r:
        GCVector<T>)
        requires
            old(storage).wf(),
            self.wf(),
            new_capacity <= MAX_VECTOR_CAPACITY,
        ensures
            final(storage).wf(),
            storage_evolved(*old(storage), *final(storage)),
            final(storage).spec_storage_in_use() == old(storage).spec_storage_in_use()
                + VECTOR_HEADER_BYTES + new_capacity * WORD_SIZE,
            final(storage).spec_want_gc() == (old(storage).spec_want_gc() || final(storage).spec_storage_in_use() > final(storage).spec_target()),
            r.wf(),
            r@ == if self@.len() <= new_capacity {
                self@
            } else {
                self@.take(new_capacity as int)
            },
            r.spec_capacity() == new_capacity,
            r.spec_bucket() < final(storage).spec_buckets().len(),
            final(storage).spec_in_use_list().contains(r.spec_bucket()),
    {
        let mut r = GCVector::with_capacity(storage, new_capacity);
        let ghost fresh = r;
        let keep = if self.data.len() <= new_capacity {
            self.data.len()
        } else {
            new_capacity
        };
        let mut i: usize = 0;
        while i < keep
            invariant
                i <= keep,
                keep <= self.data@.len(),
                keep <= new_capacity,
                r.data@ =~= self.data@.take(i as int),
                r.capacity == new_capacity,
                r.bucket == fresh.bucket,
            decreases keep - i,
        {
            r.data.push(self.data[i]);
            i = i + 1;
        }
        proof {
            if self@.len() <= new_capacity {
                assert(r.data@ =~= self@);
            } else {
                assert(r.data@ =~= self@.take(new_capacity as int));
            }
        }
        r
    }

    /// The contents, in order, as a plain vector.
    #[verifier::loop_isolation(false)]
    pub fn iter(&self) -> (r: Vec<T>)
        ensures
            r@ == self@,
    {
        let mut r: Vec<T> = Vec::new();
        let mut i: usize = 0;
        while i < self.data.len()
            invariant
                i <= self.data@.len(),
                r@ =~= self.data@.take(i as int),
            decreases self.data@.len() - i,
        {
            r.push(self.data[i]);
            i = i + 1;
        }
        proof {
            assert(r@ =~= self.data@);
        }
        r
    }

    pub fn len(&self) -> (r: usize)
        ensures
            r == self@.len(),
    {
        self.data.len()
    }

    pub fn capacity(&self) -> (r: usize)
        ensures
            r == self.spec_capacity(),
    {
        self.capacity
    }

    pub fn is_empty(&self) -> (r: bool)
        ensures
            r == (self@.len() == 0),
    {
        self.data.len() == 0
    }

    /// The element at position `index`.
    pub fn index(&self, index: usize) -> (r: T)
        requires
            index < self@.len(),
        ensures
            r == self@[index as int],
    {
        self.data[index]
    }

    /// Replaces the element at position `index`.
    pub fn set(&mut self, index: usize, value: T)
        requires
            index < old(self)@.len(),
        ensures
            final(self)@ == old(self)@.update(index as int, value),
            final(self).capacity == old(self).capacity,
            final(self).bucket == old(self).bucket,
    {
        self.data.set(index, value);
    }

    /// Pushes onto the end of the vector. Running past the provisioned
    /// capacity is a programmer error and is excluded.
    pub fn push(&mut self, node: T)
        requires
            old(self).wf(),
            old(self)@.len() < old(self).spec_capacity(),
        ensures
            final(self).wf(),
            final(self)@ == old(self)@.push(node),
            final(self).capacity == old(self).capacity,
            final(self).bucket == old(self).bucket,
    {
        self.data.push(node);
    }

    pub fn pop(&mut self) -> (r: Option<T>)
        requires
            old(self).wf(),
        ensures
            final(self).wf(),
            final(self).capacity == old(self).capacity,
            final(self).bucket == old(self).bucket,
            old(self)@.len() == 0 ==> r is None && final(self)@ == old(self)@,
            old(self)@.len() > 0 ==> r == Some(old(self)@.last()) && final(self)@ == old(
                self,
            )@.drop_last(),
    {
        if self.data.len() == 0 {
            None
        } else {
            let v = self.data.pop().unwrap();
            Some(v)
        }
    }
}

/// Round trip: a vector built from a slice iterates back to exactly that
/// slice, and a copy with capacity `k` keeps exactly the first
/// `min(length, k)` elements. The hypotheses are the postconditions of
/// `from_slice`, `iter` and `copy_with_capacity`; the conclusion pins the
/// round trip down to the original sequence.
pub proof fn lemma_round_trip<T>(
    s: Seq<T>,
    built: Seq<T>,
    iterated: Seq<T>,
    k: int,
    copied: Seq<T>,
)
    requires
        0 <= k,
        built == s,
        iterated == built,
        copied == if built.len() <= k {
            built
        } else {
            built.take(k)
        },
    ensures
        iterated == s,
        copied.len() == if s.len() <= k {
            s.len() as int
        } else {
            k
        },
        forall|i: int| 0 <= i < copied.len() ==> copied[i] == s[i],
{
}

} // verus!
