/*!
The copying bump allocator for auxiliary storage.

Buckets live in one stable table; the "in use", "unused" and "retired" lists
hold indices into it. Allocation walks the in-use list, then the unused list,
and only then creates a bucket. A garbage collection cycle pivots the lists:
`_prepare_to_mark` retires the in-use list and promotes the unused list, so
every allocation made while the mark runs lands in a previously empty bucket;
`_sweep_garbage` then resets the retired buckets and returns them to the
unused list.

The central invariant, kept in `wf`, is that `storage_in_use` equals the sum
of bump-consumed bytes over the in-use bucket list.
*/

use vstd::prelude::*;

use crate::bucket::{Bucket, MAX_BUCKET_CAPACITY, WORD_SIZE};

verus! {

/// Oversizing factor for buckets created by huge requests.
pub const BUCKET_MULTIPLIER: usize = 8;

/// Bucket size for ordinary allocations.
pub const MIN_BUCKET_SIZE: usize = 256 * 1024 - 8;

/// Initial in-use threshold beyond which a collection is requested.
pub const INITIAL_TARGET: u128 = 220 * 1024;

/// Growth factor for the adaptive threshold after a collection.
pub const TARGET_MULTIPLIER: u128 = 8;

/// Largest single request; eight times it still fits one bucket.
pub const MAX_STORAGE_REQUEST: usize = 0x800_0000;

/// Capacity of a bucket created for a request of `bytes`: a multiple of the
/// request for huge allocations, the standard size otherwise.
pub open spec fn spec_new_bucket_size(bytes: int) -> int {
    if BUCKET_MULTIPLIER * bytes > MIN_BUCKET_SIZE {
        BUCKET_MULTIPLIER * bytes
    } else {
        MIN_BUCKET_SIZE as int
    }
}

/// Every id in `ids` indexes into `buckets`.
pub open spec fn ids_valid(ids: Seq<usize>, buckets: Seq<Bucket>) -> bool {
    forall|k: int| 0 <= k < ids.len() ==> (#[trigger] ids[k]) < buckets.len()
}

/// No id occurs in both lists.
pub open spec fn ids_disjoint(a: Seq<usize>, b: Seq<usize>) -> bool {
    forall|x: usize| a.contains(x) ==> !b.contains(x)
}

/// Sum of bump-consumed bytes over a list of bucket ids.
pub open spec fn sum_consumed(ids: Seq<usize>, buckets: Seq<Bucket>) -> int
    decreases ids.len(),
{
    if ids.len() == 0 {
        0
    } else {
        buckets[ids[0] as int].consumed() + sum_consumed(ids.drop_first(), buckets)
    }
}

/// Sum of capacities over a list of bucket ids.
pub open spec fn sum_capacity(ids: Seq<usize>, buckets: Seq<Bucket>) -> int
    decreases ids.len(),
{
    if ids.len() == 0 {
        0
    } else {
        buckets[ids[0] as int].spec_capacity() + sum_capacity(ids.drop_first(), buckets)
    }
}

/// Both sums lie between zero and the capacity sum.
pub proof fn lemma_sums_bounds(ids: Seq<usize>, buckets: Seq<Bucket>)
    requires
        ids_valid(ids, buckets),
        forall|k: int| 0 <= k < buckets.len() ==> (#[trigger] buckets[k]).wf(),
    ensures
        0 <= sum_consumed(ids, buckets) <= sum_capacity(ids, buckets),
    decreases ids.len(),
{
    if ids.len() > 0 {
        assert(ids_valid(ids.drop_first(), buckets));
        lemma_sums_bounds(ids.drop_first(), buckets);
    }
}

/// A list over buckets whose entries are all fully free sums to zero.
pub proof fn lemma_sum_consumed_zero(ids: Seq<usize>, buckets: Seq<Bucket>)
    requires
        ids_valid(ids, buckets),
        forall|k: int| 0 <= k < ids.len() ==> buckets[#[trigger] ids[k] as int].consumed() == 0,
    ensures
        sum_consumed(ids, buckets) == 0,
    decreases ids.len(),
{
    if ids.len() > 0 {
        assert(ids_valid(ids.drop_first(), buckets));
        assert(forall|k: int|
            0 <= k < ids.drop_first().len() ==> buckets[
                #[trigger] ids.drop_first()[k] as int].consumed() == 0) by {
            assert(forall|k: int|
                0 <= k < ids.drop_first().len() ==> ids.drop_first()[k] == ids[k + 1]);
        }
        lemma_sum_consumed_zero(ids.drop_first(), buckets);
    }
}

/// Replacing the bucket at `j` moves the sums by the change at `j` when `j`
/// occurs exactly once, and not at all when `j` does not occur.
pub proof fn lemma_sum_update(ids: Seq<usize>, buckets: Seq<Bucket>, j: usize, b2: Bucket)
    requires
        ids_valid(ids, buckets),
        j < buckets.len(),
    ensures
        !ids.contains(j) ==> sum_consumed(ids, buckets.update(j as int, b2)) == sum_consumed(
            ids,
            buckets,
        ),
        !ids.contains(j) ==> sum_capacity(ids, buckets.update(j as int, b2)) == sum_capacity(
            ids,
            buckets,
        ),
        ids.no_duplicates() && ids.contains(j) ==> sum_consumed(ids, buckets.update(j as int, b2))
            == sum_consumed(ids, buckets) - buckets[j as int].consumed() + b2.consumed(),
        ids.no_duplicates() && ids.contains(j) ==> sum_capacity(ids, buckets.update(j as int, b2))
            == sum_capacity(ids, buckets) - buckets[j as int].spec_capacity()
            + b2.spec_capacity(),
    decreases ids.len(),
{
    if ids.len() > 0 {
        let rest = ids.drop_first();
        assert(ids_valid(rest, buckets));
        lemma_sum_update(rest, buckets, j, b2);
        if ids.no_duplicates() {
            assert(rest.no_duplicates());
        }
        if ids.contains(j) {
            if ids[0] == j {
                if ids.no_duplicates() {
                    assert(!rest.contains(j)) by {
                        if rest.contains(j) {
                            let k = choose|k: int| 0 <= k < rest.len() && rest[k] == j;
                            assert(ids[k + 1] == j);
                        }
                    }
                }
            } else {
                assert(rest.contains(j)) by {
                    let k = choose|k: int| 0 <= k < ids.len() && ids[k] == j;
                    assert(rest[k - 1] == j);
                }
            }
        } else {
            assert(!rest.contains(j)) by {
                if rest.contains(j) {
                    let k = choose|k: int| 0 <= k < rest.len() && rest[k] == j;
                    assert(ids[k + 1] == j);
                }
            }
        }
    }
}

/// Extending the bucket table without touching existing entries leaves the
/// sums of any list over the old table unchanged.
pub proof fn lemma_sum_grow(ids: Seq<usize>, buckets: Seq<Bucket>, buckets2: Seq<Bucket>)
    requires
        ids_valid(ids, buckets),
        buckets.len() <= buckets2.len(),
        forall|k: int| 0 <= k < buckets.len() ==> buckets2[k] == buckets[k],
    ensures
        sum_consumed(ids, buckets2) == sum_consumed(ids, buckets),
        sum_capacity(ids, buckets2) == sum_capacity(ids, buckets),
    decreases ids.len(),
{
    if ids.len() > 0 {
        assert(ids_valid(ids.drop_first(), buckets));
        lemma_sum_grow(ids.drop_first(), buckets, buckets2);
    }
}

/// Putting `j` at the head of a list adds the bucket at `j` to the sums.
pub proof fn lemma_sum_prepend(ids: Seq<usize>, buckets: Seq<Bucket>, j: usize)
    requires
        ids_valid(ids, buckets),
        j < buckets.len(),
    ensures
        sum_consumed(ids.insert(0, j), buckets) == buckets[j as int].consumed() + sum_consumed(
            ids,
            buckets,
        ),
        sum_capacity(ids.insert(0, j), buckets) == buckets[j as int].spec_capacity()
            + sum_capacity(ids, buckets),
{
    let grown = ids.insert(0, j);
    assert(grown[0] == j);
    assert(grown.drop_first() =~= ids);
}

/// Removing the entry at position `k` subtracts the bucket at `ids[k]`.
pub proof fn lemma_sum_remove(ids: Seq<usize>, buckets: Seq<Bucket>, k: int)
    requires
        ids_valid(ids, buckets),
        0 <= k < ids.len(),
    ensures
        sum_consumed(ids.remove(k), buckets) == sum_consumed(ids, buckets) - buckets[ids[k] as int].consumed(),
        sum_capacity(ids.remove(k), buckets) == sum_capacity(ids, buckets) - buckets[ids[k] as int].spec_capacity(),
    decreases ids.len(),
{
    if k == 0 {
        assert(ids.remove(0) =~= ids.drop_first());
    } else {
        let rest = ids.drop_first();
        assert(ids_valid(rest, buckets));
        lemma_sum_remove(rest, buckets, k - 1);
        assert(ids.remove(k).drop_first() =~= rest.remove(k - 1));
        assert(ids.remove(k)[0] == ids[0]);
    }
}

/// How one allocation call may change the allocator, as the collector's
/// relocation argument needs it: the in-use list only grows, and grows only
/// from the unused list or from freshly created buckets; the unused list only
/// shrinks; the retired list and the target stay.
pub open spec fn storage_evolved(pre: StorageAllocator, post: StorageAllocator) -> bool {
    &&& post.target == pre.target
    &&& post.old_storage_in_use == pre.old_storage_in_use
    &&& post.retired_list@ == pre.retired_list@
    &&& post.buckets@.len() >= pre.buckets@.len()
    &&& forall|x: usize| pre.in_use_list@.contains(x) ==> post.in_use_list@.contains(x)
    &&& forall|x: usize|
        post.in_use_list@.contains(x) ==> pre.in_use_list@.contains(x)
            || pre.unused_list@.contains(x) || x >= pre.buckets@.len()
    &&& forall|x: usize| post.unused_list@.contains(x) ==> pre.unused_list@.contains(x)
}

/// The evolution relation composes.
pub proof fn lemma_storage_evolved_trans(
    a: StorageAllocator,
    b: StorageAllocator,
    c: StorageAllocator,
)
    requires
        storage_evolved(a, b),
        storage_evolved(b, c),
    ensures
        storage_evolved(a, c),
{
}

pub struct StorageAllocator {
    pub buckets: Vec<Bucket>,
    pub in_use_list: Vec<usize>,
    pub unused_list: Vec<usize>,
    pub retired_list: Vec<usize>,
    pub storage_in_use: u128,
    pub old_storage_in_use: u128,
    pub total_bytes_allocated: u128,
    pub target: u128,
    pub need_to_collect_garbage: bool,
}

impl StorageAllocator {
    pub open spec fn spec_buckets(self) -> Seq<Bucket> {
        self.buckets@
    }

    pub open spec fn spec_in_use_list(self) -> Seq<usize> {
        self.in_use_list@
    }

    pub open spec fn spec_unused_list(self) -> Seq<usize> {
        self.unused_list@
    }

    pub open spec fn spec_retired_list(self) -> Seq<usize> {
        self.retired_list@
    }

    pub open spec fn spec_storage_in_use(self) -> int {
        self.storage_in_use as int
    }

    pub open spec fn spec_old_storage_in_use(self) -> int {
        self.old_storage_in_use as int
    }

    pub open spec fn spec_total_bytes_allocated(self) -> int {
        self.total_bytes_allocated as int
    }

    pub open spec fn spec_target(self) -> int {
        self.target as int
    }

    pub open spec fn spec_want_gc(self) -> bool {
        self.need_to_collect_garbage
    }

    /// Some bucket on the in-use list has room for `bytes`.
    pub open spec fn some_in_use_bucket_fits(self, bytes: int) -> bool {
        exists|k: int|
            0 <= k < self.in_use_list@.len() && self.buckets@[
                #[trigger] self.in_use_list@[k] as int].spec_bytes_free() >= bytes
    }

    /// Some bucket on the unused list has room for `bytes`.
    pub open spec fn some_unused_bucket_fits(self, bytes: int) -> bool {
        exists|k: int|
            0 <= k < self.unused_list@.len() && self.buckets@[
                #[trigger] self.unused_list@[k] as int].spec_bytes_free() >= bytes
    }

    pub open spec fn wf(self) -> bool {
        &&& forall|k: int| 0 <= k < self.buckets@.len() ==> (#[trigger] self.buckets@[k]).wf()
        &&& ids_valid(self.in_use_list@, self.buckets@)
        &&& ids_valid(self.unused_list@, self.buckets@)
        &&& ids_valid(self.retired_list@, self.buckets@)
        &&& self.in_use_list@.no_duplicates()
        &&& self.unused_list@.no_duplicates()
        &&& self.retired_list@.no_duplicates()
        &&& ids_disjoint(self.in_use_list@, self.unused_list@)
        &&& ids_disjoint(self.in_use_list@, self.retired_list@)
        &&& ids_disjoint(self.unused_list@, self.retired_list@)
        &&& forall|k: int|
            0 <= k < self.unused_list@.len() ==> self.buckets@[
                #[trigger] self.unused_list@[k] as int].consumed() == 0
        &&& sum_consumed(self.in_use_list@, self.buckets@) == self.storage_in_use as int
        &&& sum_capacity(self.in_use_list@, self.buckets@) + sum_capacity(
            self.unused_list@,
            self.buckets@,
        ) + sum_capacity(self.retired_list@, self.buckets@)
            <= self.total_bytes_allocated as int
        &&& self.total_bytes_allocated as int <= self.buckets@.len() * (
        MAX_BUCKET_CAPACITY as int)
    }

    /// The charged byte count never exceeds the bytes ever allocated.
    pub proof fn lemma_in_use_le_total(self)
        requires
            self.wf(),
        ensures
            self.storage_in_use as int <= self.total_bytes_allocated as int,
            self.total_bytes_allocated < 0x1_0000_0000_0000_0000_0000_0000_0000,
    {
        lemma_sums_bounds(self.in_use_list@, self.buckets@);
        lemma_sums_bounds(self.unused_list@, self.buckets@);
        lemma_sums_bounds(self.retired_list@, self.buckets@);
        assert(self.buckets.len() == self.buckets@.len());
        assert(self.buckets@.len() <= usize::MAX as int);
        assert(usize::MAX as int <= u64::MAX as int);
        assert(self.buckets@.len() * (MAX_BUCKET_CAPACITY as int) < 0x1_0000_0000_0000_0000_0000_0000) by (nonlinear_arith)
            requires self.buckets@.len() < 0x1_0000_0000_0000_0000;
    }

    pub fn new() -> (r: StorageAllocator)
        ensures
            r.wf(),
            r.spec_buckets().len() == 0,
            r.spec_in_use_list().len() == 0,
            r.spec_unused_list().len() == 0,
            r.spec_retired_list().len() == 0,
            r.spec_storage_in_use() == 0,
            r.spec_total_bytes_allocated() == 0,
            r.spec_target() == INITIAL_TARGET,
            !r.spec_want_gc(),
    {
        StorageAllocator {
            buckets: Vec::new(),
            in_use_list: Vec::new(),
            unused_list: Vec::new(),
            retired_list: Vec::new(),
            storage_in_use: 0,
            old_storage_in_use: 0,
            total_bytes_allocated: 0,
            target: INITIAL_TARGET,
            need_to_collect_garbage: false,
        }
    }

    /// Whether enough storage has been charged to want a collection.
    pub fn want_to_collect_garbage(&self) -> (r: bool)
        ensures
            r == self.spec_want_gc(),
    {
        self.need_to_collect_garbage
    }

    /// Bytes currently charged against live auxiliary storage.
    pub fn storage_in_use(&self) -> (r: u128)
        ensures
            r as int == self.spec_storage_in_use(),
    {
        self.storage_in_use
    }

    /// Number of buckets ever created.
    pub fn bucket_count(&self) -> (r: usize)
        ensures
            r == self.spec_buckets().len(),
    {
        self.buckets.len()
    }

    /// Whether the bucket `id` currently sits on the unused list.
    pub fn is_unused(&self, id: usize) -> (r: bool)
        ensures
            r == self.spec_unused_list().contains(id),
    {
        let mut k: usize = 0;
        while k < self.unused_list.len()
            invariant
                k <= self.unused_list@.len(),
                forall|j: int| 0 <= j < k ==> self.unused_list@[j] != id,
            decreases self.unused_list@.len() - k,
        {
            if self.unused_list[k] == id {
                return true;
            }
            k = k + 1;
        }
        false
    }

    /// Whether the bucket `id` currently sits on the in-use list.
    pub fn is_in_use(&self, id: usize) -> (r: bool)
        ensures
            r == self.spec_in_use_list().contains(id),
    {
        let mut k: usize = 0;
        while k < self.in_use_list.len()
            invariant
                k <= self.in_use_list@.len(),
                forall|j: int| 0 <= j < k ==> self.in_use_list@[j] != id,
            decreases self.in_use_list@.len() - k,
        {
            if self.in_use_list[k] == id {
                return true;
            }
            k = k + 1;
        }
        false
    }

    /// Allocates `bytes_needed` bytes of bucket storage and returns the id of
    /// the bucket that now holds them. Requests must be whole machine words;
    /// the request is charged against `storage_in_use`, and crossing the
    /// adaptive target arms the want-collection flag.
    #[verifier::loop_isolation(false)]
    pub fn allocate_storage(&mut self, bytes_needed: usize) -> (b: usize)
        requires
            old(self).wf(),
            bytes_needed % WORD_SIZE == 0,
            bytes_needed <= MAX_STORAGE_REQUEST,
        ensures
            final(self).wf(),
            b < final(self).spec_buckets().len(),
            final(self).spec_in_use_list().contains(b),
            final(self).spec_storage_in_use() == old(self).spec_storage_in_use() + bytes_needed,
            final(self).spec_target() == old(self).spec_target(),
            final(self).spec_want_gc() == (old(self).spec_want_gc() || final(self).spec_storage_in_use()
                > final(self).spec_target()),
            final(self).spec_retired_list() == old(self).spec_retired_list(),
            final(self).spec_buckets().len() >= old(self).spec_buckets().len(),
            forall|x: usize|
                old(self).spec_in_use_list().contains(x) ==> final(self).spec_in_use_list().contains(x),
            forall|x: usize|
                final(self).spec_in_use_list().contains(x) ==> old(self).spec_in_use_list().contains(x)
                    || old(self).spec_unused_list().contains(x) || x >= old(self).spec_buckets().len(),
            forall|x: usize|
                final(self).spec_unused_list().contains(x) ==> old(self).spec_unused_list().contains(x),
            final(self).spec_old_storage_in_use() == old(self).spec_old_storage_in_use(),
            storage_evolved(*old(self), *final(self)),
            // The request's bytes land in the returned bucket and nowhere
            // else.
            forall|x: int|
                0 <= x < old(self).spec_buckets().len() && x != b ==> final(self).spec_buckets()[x]
                    == old(self).spec_buckets()[x],
            b < old(self).spec_buckets().len() ==> final(self).spec_buckets()[b as int].consumed()
                == old(self).spec_buckets()[b as int].consumed() + bytes_needed && final(self).spec_buckets()[b as int].spec_capacity() == old(self).spec_buckets()[
                b as int
            ].spec_capacity(),
            // When a bucket with room is in use, it is bump-allocated from
            // and the lists stay as they are.
            old(self).some_in_use_bucket_fits(bytes_needed as int) ==> final(self).spec_in_use_list() == old(self).spec_in_use_list() && final(self).spec_unused_list()
                == old(self).spec_unused_list() && old(self).spec_in_use_list().contains(b),
            // When only an unused bucket has room, it is unlinked from the
            // unused list and prepended to the in-use list; no bucket is
            // created.
            !old(self).some_in_use_bucket_fits(bytes_needed as int) && old(self).some_unused_bucket_fits(bytes_needed as int) ==> old(self).spec_unused_list().contains(b) && final(self).spec_in_use_list() == old(self).spec_in_use_list().insert(0, b) && !final(self).spec_unused_list().contains(b) && (forall|x: usize|
                x != b ==> final(self).spec_unused_list().contains(x) == old(self).spec_unused_list().contains(x)),
            old(self).some_in_use_bucket_fits(bytes_needed as int) || old(self).some_unused_bucket_fits(bytes_needed as int) ==> final(self).spec_buckets().len() == old(self).spec_buckets().len() && final(self).spec_total_bytes_allocated() == old(self).spec_total_bytes_allocated(),
            // When no listed bucket has room, one bucket of the standard
            // oversized capacity is created and prepended to the in-use list.
            !old(self).some_in_use_bucket_fits(bytes_needed as int) && !old(self).some_unused_bucket_fits(bytes_needed as int) ==> b == old(self).spec_buckets().len() && final(self).spec_buckets().len() == old(self).spec_buckets().len() + 1 && final(self).spec_buckets()[b as int].spec_capacity() == spec_new_bucket_size(
                bytes_needed as int,
            ) && final(self).spec_buckets()[b as int].consumed() == bytes_needed && final(self).spec_total_bytes_allocated() == old(self).spec_total_bytes_allocated()
                + spec_new_bucket_size(bytes_needed as int) && final(self).spec_in_use_list()
                == old(self).spec_in_use_list().insert(0, b) && final(self).spec_unused_list()
                == old(self).spec_unused_list(),
    {
        proof {
            self.lemma_in_use_le_total();
        }
        self.storage_in_use = self.storage_in_use + bytes_needed as u128;
        if self.storage_in_use > self.target {
            self.need_to_collect_garbage = true;
        }

        let ghost pre = *self;
        let mut k: usize = 0;
        while k < self.in_use_list.len()
            invariant
                *self == pre,
                k <= self.in_use_list@.len(),
                forall|j: int|
                    0 <= j < k ==> pre.buckets@[
                        #[trigger] pre.in_use_list@[j] as int].spec_bytes_free() < bytes_needed,
            decreases self.in_use_list@.len() - k,
        {
            let id = self.in_use_list[k];
            assert(self.buckets@[id as int].wf());
            if self.buckets[id].bytes_free() >= bytes_needed {
                let mut bucket = self.buckets[id];
                bucket.allocate(bytes_needed);
                self.buckets.set(id, bucket);
                proof {
                    lemma_sum_update(pre.in_use_list@, pre.buckets@, id, bucket);
                    lemma_sum_update(pre.unused_list@, pre.buckets@, id, bucket);
                    lemma_sum_update(pre.retired_list@, pre.buckets@, id, bucket);
                    assert(pre.in_use_list@.contains(id));
                    assert(!pre.unused_list@.contains(id));
                    assert(!pre.retired_list@.contains(id));
                    assert(old(self).some_in_use_bucket_fits(bytes_needed as int)) by {
                        assert(old(self).in_use_list@[k as int] == id);
                        assert(old(self).buckets@[id as int].spec_bytes_free() >= bytes_needed);
                    }
                }
                return id;
            }
            k = k + 1;
        }

        proof {
            assert(!pre.some_in_use_bucket_fits(bytes_needed as int)) by {
                if pre.some_in_use_bucket_fits(bytes_needed as int) {
                    let j = choose|j: int|
                        0 <= j < pre.in_use_list@.len() && pre.buckets@[
                            #[trigger] pre.in_use_list@[j] as int].spec_bytes_free()
                            >= bytes_needed;
                }
            }
        }
        let b = self.slow_allocate_storage(bytes_needed);
        proof {
            assert(storage_evolved(*old(self), pre));
            lemma_storage_evolved_trans(*old(self), pre, *self);
            // The fit predicates of the charged state are those of the entry
            // state: the lists and buckets are untouched by the charge.
            assert(!old(self).some_in_use_bucket_fits(bytes_needed as int)) by {
                if old(self).some_in_use_bucket_fits(bytes_needed as int) {
                    let j = choose|j: int|
                        0 <= j < old(self).in_use_list@.len() && old(self).buckets@[
                            #[trigger] old(self).in_use_list@[j] as int].spec_bytes_free()
                            >= bytes_needed;
                    assert(pre.buckets@[pre.in_use_list@[j] as int].spec_bytes_free()
                        >= bytes_needed);
                }
            }
            if old(self).some_unused_bucket_fits(bytes_needed as int) {
                let j = choose|j: int|
                    0 <= j < old(self).unused_list@.len() && old(self).buckets@[
                        #[trigger] old(self).unused_list@[j] as int].spec_bytes_free()
                        >= bytes_needed;
                assert(pre.buckets@[pre.unused_list@[j] as int].spec_bytes_free()
                    >= bytes_needed);
                assert(pre.some_unused_bucket_fits(bytes_needed as int));
            }
            if pre.some_unused_bucket_fits(bytes_needed as int) {
                let j = choose|j: int|
                    0 <= j < pre.unused_list@.len() && pre.buckets@[
                        #[trigger] pre.unused_list@[j] as int].spec_bytes_free() >= bytes_needed;
                assert(old(self).buckets@[old(self).unused_list@[j] as int].spec_bytes_free()
                    >= bytes_needed);
                assert(old(self).some_unused_bucket_fits(bytes_needed as int));
            }
        }
        b
    }

    /// Allocates by moving an unused bucket into use, or by creating a new
    /// bucket when no unused bucket is large enough. Called with the request
    /// already charged against `storage_in_use`.
    #[verifier::loop_isolation(false)]
    fn slow_allocate_storage(&mut self, bytes_needed: usize) -> (b: usize)
        requires
            bytes_needed % WORD_SIZE == 0,
            bytes_needed <= MAX_STORAGE_REQUEST,
            !old(self).some_in_use_bucket_fits(bytes_needed as int),
            // well-formed except that the charge for this request is already in:
            forall|k: int| 0 <= k < old(self).buckets@.len() ==> (#[trigger] old(self).buckets@[k]).wf(),
            ids_valid(old(self).in_use_list@, old(self).buckets@),
            ids_valid(old(self).unused_list@, old(self).buckets@),
            ids_valid(old(self).retired_list@, old(self).buckets@),
            old(self).in_use_list@.no_duplicates(),
            old(self).unused_list@.no_duplicates(),
            old(self).retired_list@.no_duplicates(),
            ids_disjoint(old(self).in_use_list@, old(self).unused_list@),
            ids_disjoint(old(self).in_use_list@, old(self).retired_list@),
            ids_disjoint(old(self).unused_list@, old(self).retired_list@),
            forall|k: int|
                0 <= k < old(self).unused_list@.len() ==> old(self).buckets@[
                    #[trigger] old(self).unused_list@[k] as int].consumed() == 0,
            sum_consumed(old(self).in_use_list@, old(self).buckets@) + bytes_needed == old(self).storage_in_use as int,
            sum_capacity(old(self).in_use_list@, old(self).buckets@) + sum_capacity(
                old(self).unused_list@,
                old(self).buckets@,
            ) + sum_capacity(old(self).retired_list@, old(self).buckets@) <= old(self).total_bytes_allocated as int,
            old(self).total_bytes_allocated as int <= old(self).buckets@.len() * (
            MAX_BUCKET_CAPACITY as int),
        ensures
            final(self).wf(),
            b < final(self).spec_buckets().len(),
            final(self).spec_in_use_list().contains(b),
            final(self).spec_storage_in_use() == old(self).spec_storage_in_use(),
            final(self).spec_target() == old(self).spec_target(),
            final(self).spec_want_gc() == old(self).spec_want_gc(),
            final(self).spec_retired_list() == old(self).spec_retired_list(),
            final(self).spec_buckets().len() >= old(self).spec_buckets().len(),
            forall|x: usize|
                old(self).spec_in_use_list().contains(x) ==> final(self).spec_in_use_list().contains(x),
            forall|x: usize|
                final(self).spec_in_use_list().contains(x) ==> old(self).spec_in_use_list().contains(x)
                    || old(self).spec_unused_list().contains(x) || x >= old(self).spec_buckets().len(),
            forall|x: usize|
                final(self).spec_unused_list().contains(x) ==> old(self).spec_unused_list().contains(x),
            final(self).spec_old_storage_in_use() == old(self).spec_old_storage_in_use(),
            storage_evolved(*old(self), *final(self)),
            forall|x: int|
                0 <= x < old(self).spec_buckets().len() && x != b ==> final(self).spec_buckets()[x]
                    == old(self).spec_buckets()[x],
            b < old(self).spec_buckets().len() ==> final(self).spec_buckets()[b as int].consumed()
                == old(self).spec_buckets()[b as int].consumed() + bytes_needed && final(self).spec_buckets()[b as int].spec_capacity() == old(self).spec_buckets()[
                b as int
            ].spec_capacity(),
            old(self).some_unused_bucket_fits(bytes_needed as int) ==> old(self).spec_unused_list().contains(b) && final(self).spec_in_use_list() == old(self).spec_in_use_list().insert(0, b) && !final(self).spec_unused_list().contains(b)
                && (forall|x: usize|
                x != b ==> final(self).spec_unused_list().contains(x) == old(self).spec_unused_list().contains(x)) && final(self).spec_buckets().len() == old(self).spec_buckets().len() && final(self).spec_total_bytes_allocated() == old(self).spec_total_bytes_allocated(),
            !old(self).some_unused_bucket_fits(bytes_needed as int) ==> b == old(self).spec_buckets().len() && final(self).spec_buckets().len() == old(self).spec_buckets().len() + 1 && final(self).spec_buckets()[b as int].spec_capacity()
                == spec_new_bucket_size(bytes_needed as int) && final(self).spec_buckets()[
                b as int
            ].consumed() == bytes_needed && final(self).spec_total_bytes_allocated() == old(self).spec_total_bytes_allocated() + spec_new_bucket_size(bytes_needed as int) && final(self).spec_in_use_list() == old(self).spec_in_use_list().insert(0, b) && final(self).spec_unused_list() == old(self).spec_unused_list(),
    {
        let ghost pre = *self;
        let mut k: usize = 0;
        while k < self.unused_list.len()
            invariant
                *self == pre,
                k <= self.unused_list@.len(),
                forall|j: int|
                    0 <= j < k ==> pre.buckets@[
                        #[trigger] pre.unused_list@[j] as int].spec_bytes_free() < bytes_needed,
            decreases self.unused_list@.len() - k,
        {
            let id = self.unused_list[k];
            assert(self.buckets@[id as int].wf());
            if self.buckets[id].bytes_free() >= bytes_needed {
                // Move the bucket from the unused list to the in-use list and
                // bump-allocate from it.
                self.unused_list.remove(k);
                let mut bucket = self.buckets[id];
                bucket.allocate(bytes_needed);
                self.buckets.set(id, bucket);
                self.in_use_list.insert(0, id);
                proof {
                    let mid_unused = pre.unused_list@.remove(k as int);
                    assert(pre.unused_list@.contains(id));
                    assert(!pre.in_use_list@.contains(id));
                    assert(!pre.retired_list@.contains(id));
                    assert(mid_unused.no_duplicates()) by {
                        assert(forall|i: int, j: int|
                            0 <= i < j < mid_unused.len() ==> mid_unused[i] != mid_unused[j]) by {
                            assert(forall|i: int|
                                0 <= i < mid_unused.len() ==> #[trigger] mid_unused[i] == if i < k {
                                    pre.unused_list@[i]
                                } else {
                                    pre.unused_list@[i + 1]
                                });
                        }
                    }
                    assert(!mid_unused.contains(id)) by {
                        if mid_unused.contains(id) {
                            let i = choose|i: int|
                                0 <= i < mid_unused.len() && mid_unused[i] == id;
                            if i < k {
                                assert(pre.unused_list@[i] == id);
                                assert(pre.unused_list@[k as int] == id);
                            } else {
                                assert(pre.unused_list@[i + 1] == id);
                                assert(pre.unused_list@[k as int] == id);
                            }
                        }
                    }
                    lemma_sum_remove(pre.unused_list@, pre.buckets@, k as int);
                    lemma_sum_update(pre.in_use_list@, pre.buckets@, id, bucket);
                    lemma_sum_update(mid_unused, pre.buckets@, id, bucket);
                    lemma_sum_update(pre.retired_list@, pre.buckets@, id, bucket);
                    assert(ids_valid(mid_unused, pre.buckets@));
                    lemma_sum_prepend(pre.in_use_list@, self.buckets@, id);
                    assert(self.in_use_list@ == pre.in_use_list@.insert(0, id));
                    assert(forall|x: usize|
                        mid_unused.contains(x) ==> pre.unused_list@.contains(x)) by {
                        assert(forall|i: int|
                            0 <= i < mid_unused.len() ==> #[trigger] mid_unused[i] == if i < k {
                                pre.unused_list@[i]
                            } else {
                                pre.unused_list@[i + 1]
                            });
                    }
                    assert(forall|x: usize|
                        self.in_use_list@.contains(x) ==> x == id || pre.in_use_list@.contains(
                            x,
                        )) by {
                        assert(forall|i: int|
                            0 <= i < self.in_use_list@.len() ==> #[trigger] self.in_use_list@[i]
                                == if i == 0 {
                                id
                            } else {
                                pre.in_use_list@[i - 1]
                            });
                    }
                    assert(forall|x: usize|
                        pre.in_use_list@.contains(x) ==> self.in_use_list@.contains(x)) by {
                        assert(forall|i: int|
                            0 <= i < pre.in_use_list@.len() ==> pre.in_use_list@[i]
                                == self.in_use_list@[i + 1]);
                    }
                    assert(self.in_use_list@.no_duplicates()) by {
                        assert(forall|i: int, j: int|
                            0 <= i < j < self.in_use_list@.len() ==> self.in_use_list@[i]
                                != self.in_use_list@[j]) by {
                            assert(forall|i: int|
                                0 <= i < self.in_use_list@.len()
                                    ==> #[trigger] self.in_use_list@[i] == if i == 0 {
                                    id
                                } else {
                                    pre.in_use_list@[i - 1]
                                });
                        }
                    }
                }
                assert(self.in_use_list@[0] == id);
                assert(self.in_use_list@.contains(id));
                proof {
                    assert(old(self).some_unused_bucket_fits(bytes_needed as int)) by {
                        assert(old(self).unused_list@[k as int] == id);
                        assert(old(self).buckets@[id as int].spec_bytes_free() >= bytes_needed);
                    }
                    let ghost mid_unused = pre.unused_list@.remove(k as int);
                    assert(self.unused_list@ == mid_unused);
                    assert forall|x: usize|
                        x != id implies self.unused_list@.contains(x) == old(self).spec_unused_list().contains(x) by {
                        if old(self).spec_unused_list().contains(x) {
                            let m = choose|m: int|
                                0 <= m < pre.unused_list@.len() && pre.unused_list@[m] == x;
                            if m < k {
                                assert(mid_unused[m] == x);
                            } else {
                                assert(m != k);
                                assert(mid_unused[m - 1] == x);
                            }
                            assert(self.unused_list@.contains(x));
                        }
                    }
                }
                return id;
            }
            k = k + 1;
        }

        proof {
            assert(!old(self).some_unused_bucket_fits(bytes_needed as int)) by {
                if old(self).some_unused_bucket_fits(bytes_needed as int) {
                    let j = choose|j: int|
                        0 <= j < old(self).unused_list@.len() && old(self).buckets@[
                            #[trigger] old(self).unused_list@[j] as int].spec_bytes_free()
                            >= bytes_needed;
                }
            }
        }
        // No unused bucket fits: create a new one.
        let size = if BUCKET_MULTIPLIER * bytes_needed > MIN_BUCKET_SIZE {
            BUCKET_MULTIPLIER * bytes_needed
        } else {
            MIN_BUCKET_SIZE
        };
        let mut bucket = Bucket::with_capacity(size);
        bucket.allocate(bytes_needed);
        let id = self.buckets.len();
        self.buckets.push(bucket);
        self.total_bytes_allocated = self.total_bytes_allocated + size as u128;
        self.in_use_list.insert(0, id);
        proof {
            lemma_sum_grow(pre.in_use_list@, pre.buckets@, self.buckets@);
            lemma_sum_grow(pre.unused_list@, pre.buckets@, self.buckets@);
            lemma_sum_grow(pre.retired_list@, pre.buckets@, self.buckets@);
            lemma_sum_prepend(pre.in_use_list@, self.buckets@, id);
            assert(self.in_use_list@ == pre.in_use_list@.insert(0, id));
            assert(self.buckets@[id as int] == bucket);
            assert(!pre.in_use_list@.contains(id));
            assert(forall|x: usize|
                self.in_use_list@.contains(x) ==> x == id || pre.in_use_list@.contains(x)) by {
                assert(forall|i: int|
                    0 <= i < self.in_use_list@.len() ==> #[trigger] self.in_use_list@[i] == if i
                        == 0 {
                        id
                    } else {
                        pre.in_use_list@[i - 1]
                    });
            }
            assert(forall|x: usize|
                pre.in_use_list@.contains(x) ==> self.in_use_list@.contains(x)) by {
                assert(forall|i: int|
                    0 <= i < pre.in_use_list@.len() ==> pre.in_use_list@[i] == self.in_use_list@[i
                        + 1]);
            }
            assert(self.in_use_list@.no_duplicates()) by {
                assert(forall|i: int, j: int|
                    0 <= i < j < self.in_use_list@.len() ==> self.in_use_list@[i]
                        != self.in_use_list@[j]) by {
                    assert(forall|i: int|
                        0 <= i < self.in_use_list@.len() ==> #[trigger] self.in_use_list@[i]
                            == if i == 0 {
                            id
                        } else {
                            pre.in_use_list@[i - 1]
                        });
                }
            }
            assert((pre.buckets@.len() + 1) * (MAX_BUCKET_CAPACITY as int) == pre.buckets@.len()
                * (MAX_BUCKET_CAPACITY as int) + MAX_BUCKET_CAPACITY as int) by (nonlinear_arith);
        }
        assert(self.in_use_list@[0] == id);
        assert(self.in_use_list@.contains(id));
        id
    }

    /// Pivots the lists for a mark phase: the in-use buckets are retired, the
    /// unused buckets become the copy targets, and the in-use charge restarts
    /// at zero. Every allocation made during the mark therefore lands in a
    /// bucket that was empty when the collection began.
    pub fn _prepare_to_mark(&mut self)
        requires
            old(self).wf(),
            old(self).spec_retired_list().len() == 0,
        ensures
            final(self).wf(),
            final(self).spec_buckets() == old(self).spec_buckets(),
            final(self).spec_retired_list() == old(self).spec_in_use_list(),
            final(self).spec_in_use_list() == old(self).spec_unused_list(),
            final(self).spec_unused_list().len() == 0,
            final(self).spec_storage_in_use() == 0,
            final(self).spec_old_storage_in_use() == old(self).spec_storage_in_use(),
            final(self).spec_target() == old(self).spec_target(),
            !final(self).spec_want_gc(),
    {
        self.old_storage_in_use = self.storage_in_use;
        let mut promoted: Vec<usize> = Vec::new();
        std::mem::swap(&mut promoted, &mut self.unused_list);
        std::mem::swap(&mut promoted, &mut self.in_use_list);
        self.retired_list = promoted;
        self.storage_in_use = 0;
        self.need_to_collect_garbage = false;
        proof {
            lemma_sum_consumed_zero(self.in_use_list@, self.buckets@);
        }
    }

    /// Completes a collection: resets every retired bucket and chains it back
    /// onto the unused list, then raises the adaptive target to a multiple of
    /// what the mark phase copied.
    #[verifier::loop_isolation(false)]
    pub fn _sweep_garbage(&mut self)
        requires
            old(self).wf(),
        ensures
            final(self).wf(),
            final(self).spec_retired_list().len() == 0,
            final(self).spec_in_use_list() == old(self).spec_in_use_list(),
            final(self).spec_buckets().len() == old(self).spec_buckets().len(),
            forall|x: usize|
                old(self).spec_in_use_list().contains(x) ==> final(self).spec_buckets()[x as int] == old(self).spec_buckets()[x as int],
            forall|x: usize|
                final(self).spec_unused_list().contains(x) <==> old(self).spec_unused_list().contains(x)
                    || old(self).spec_retired_list().contains(x),
            final(self).spec_storage_in_use() == old(self).spec_storage_in_use(),
            final(self).spec_old_storage_in_use() == old(self).spec_old_storage_in_use(),
            final(self).spec_target() == if TARGET_MULTIPLIER as int * old(self).spec_storage_in_use()
                > old(self).spec_target() {
                TARGET_MULTIPLIER as int * old(self).spec_storage_in_use()
            } else {
                old(self).spec_target()
            },
            final(self).spec_want_gc() == old(self).spec_want_gc(),
    {
        let ghost pre = *self;
        while self.retired_list.len() > 0
            invariant
                forall|k: int| 0 <= k < self.buckets@.len() ==> (#[trigger] self.buckets@[k]).wf(),
                ids_valid(self.in_use_list@, self.buckets@),
                ids_valid(self.unused_list@, self.buckets@),
                ids_valid(self.retired_list@, self.buckets@),
                self.in_use_list@.no_duplicates(),
                self.unused_list@.no_duplicates(),
                self.retired_list@.no_duplicates(),
                ids_disjoint(self.in_use_list@, self.unused_list@),
                ids_disjoint(self.in_use_list@, self.retired_list@),
                ids_disjoint(self.unused_list@, self.retired_list@),
                forall|k: int|
                    0 <= k < self.unused_list@.len() ==> self.buckets@[
                        #[trigger] self.unused_list@[k] as int].consumed() == 0,
                sum_consumed(self.in_use_list@, self.buckets@) == self.storage_in_use as int,
                sum_capacity(self.in_use_list@, self.buckets@) + sum_capacity(
                    self.unused_list@,
                    self.buckets@,
                ) + sum_capacity(self.retired_list@, self.buckets@)
                    <= self.total_bytes_allocated as int,
                self.total_bytes_allocated as int <= self.buckets@.len() * (
                MAX_BUCKET_CAPACITY as int),
                self.in_use_list@ == pre.in_use_list@,
                self.buckets@.len() == pre.buckets@.len(),
                self.storage_in_use == pre.storage_in_use,
                self.old_storage_in_use == pre.old_storage_in_use,
                self.target == pre.target,
                self.total_bytes_allocated == pre.total_bytes_allocated,
                self.need_to_collect_garbage == pre.need_to_collect_garbage,
                forall|x: usize|
                    pre.in_use_list@.contains(x) ==> self.buckets@[x as int]
                        == pre.buckets@[x as int],
                forall|x: usize|
                    self.unused_list@.contains(x) <==> pre.unused_list@.contains(x)
                        || (pre.retired_list@.contains(x) && !self.retired_list@.contains(x)),
                forall|x: usize|
                    self.retired_list@.contains(x) ==> pre.retired_list@.contains(x),
            decreases self.retired_list@.len(),
        {
            let ghost loop_pre = *self;
            let id = self.retired_list[self.retired_list.len() - 1];
            self.retired_list.pop();
            assert(self.buckets@[id as int].wf());
            let mut bucket = self.buckets[id];
            bucket.reset();
            self.buckets.set(id, bucket);
            self.unused_list.push(id);
            proof {
                let last = loop_pre.retired_list@.len() - 1;
                assert(loop_pre.retired_list@.contains(id));
                assert(!loop_pre.in_use_list@.contains(id));
                assert(!loop_pre.unused_list@.contains(id));
                assert(self.retired_list@ =~= loop_pre.retired_list@.drop_last());
                assert(!self.retired_list@.contains(id)) by {
                    if self.retired_list@.contains(id) {
                        let i = choose|i: int|
                            0 <= i < self.retired_list@.len() && self.retired_list@[i] == id;
                        assert(loop_pre.retired_list@[i] == id);
                        assert(loop_pre.retired_list@[last] == id);
                    }
                }
                lemma_sum_update(loop_pre.in_use_list@, loop_pre.buckets@, id, bucket);
                lemma_sum_update(loop_pre.unused_list@, loop_pre.buckets@, id, bucket);
                lemma_sum_update(loop_pre.retired_list@, loop_pre.buckets@, id, bucket);
                lemma_sum_remove(loop_pre.retired_list@, self.buckets@, last);
                assert(loop_pre.retired_list@.remove(last) =~= loop_pre.retired_list@.drop_last());
                assert(self.unused_list@ == loop_pre.unused_list@.push(id));
                assert(sum_capacity(self.unused_list@, self.buckets@) == sum_capacity(
                    loop_pre.unused_list@,
                    self.buckets@,
                ) + bucket.spec_capacity()) by {
                    assert(self.unused_list@ =~= loop_pre.unused_list@.insert(
                        loop_pre.unused_list@.len() as int,
                        id,
                    ));
                    lemma_sum_push(loop_pre.unused_list@, self.buckets@, id);
                }
                assert(self.unused_list@.no_duplicates()) by {
                    assert(forall|i: int|
                        0 <= i < loop_pre.unused_list@.len() ==> self.unused_list@[i]
                            == loop_pre.unused_list@[i]);
                }
                assert(forall|x: usize|
                    self.unused_list@.contains(x) ==> loop_pre.unused_list@.contains(x) || x
                        == id) by {
                    assert(forall|i: int|
                        0 <= i < self.unused_list@.len() ==> #[trigger] self.unused_list@[i]
                            == if i < loop_pre.unused_list@.len() {
                            loop_pre.unused_list@[i]
                        } else {
                            id
                        });
                }
                assert(forall|x: usize|
                    loop_pre.unused_list@.contains(x) ==> self.unused_list@.contains(x)) by {
                    assert(forall|i: int|
                        0 <= i < loop_pre.unused_list@.len() ==> loop_pre.unused_list@[i]
                            == self.unused_list@[i]);
                }
                assert(self.unused_list@.contains(id)) by {
                    assert(self.unused_list@[loop_pre.unused_list@.len() as int] == id);
                }
                assert(forall|x: usize|
                    self.retired_list@.contains(x) ==> loop_pre.retired_list@.contains(x)) by {
                    assert(forall|i: int|
                        0 <= i < self.retired_list@.len() ==> self.retired_list@[i]
                            == loop_pre.retired_list@[i]);
                }
                assert forall|x: usize|
                    self.unused_list@.contains(x) implies !self.retired_list@.contains(x) by {
                    if x != id {
                        assert(loop_pre.unused_list@.contains(x));
                        assert(!loop_pre.retired_list@.contains(x));
                        if self.retired_list@.contains(x) {
                            assert(loop_pre.retired_list@.contains(x));
                        }
                    }
                }
                assert forall|x: usize|
                    pre.unused_list@.contains(x) || (pre.retired_list@.contains(x)
                        && !self.retired_list@.contains(x)) implies self.unused_list@.contains(
                    x,
                ) by {
                    if !pre.unused_list@.contains(x) {
                        if loop_pre.retired_list@.contains(x) {
                            if x != id {
                                let i = choose|i: int|
                                    0 <= i < loop_pre.retired_list@.len()
                                        && loop_pre.retired_list@[i] == x;
                                assert(i != last);
                                assert(self.retired_list@[i] == x);
                            }
                        }
                    }
                }
            }
        }
        proof {
            self.lemma_in_use_le_total();
        }
        let grown_target = TARGET_MULTIPLIER * self.storage_in_use;
        if grown_target > self.target {
            self.target = grown_target;
        }
    }
}

/// Appending `j` to a list adds the bucket at `j` to the sums.
pub proof fn lemma_sum_push(ids: Seq<usize>, buckets: Seq<Bucket>, j: usize)
    requires
        ids_valid(ids, buckets),
        j < buckets.len(),
    ensures
        sum_consumed(ids.push(j), buckets) == sum_consumed(ids, buckets) + buckets[j as int].consumed(),
        sum_capacity(ids.push(j), buckets) == sum_capacity(ids, buckets) + buckets[j as int].spec_capacity(),
    decreases ids.len(),
{
    if ids.len() == 0 {
        assert(ids.push(j).drop_first() =~= ids);
    } else {
        assert(ids_valid(ids.drop_first(), buckets));
        lemma_sum_push(ids.drop_first(), buckets, j);
        assert(ids.push(j).drop_first() =~= ids.drop_first().push(j));
        assert(ids.push(j)[0] == ids[0]);
    }
}

} // verus!
