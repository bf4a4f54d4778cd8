use mod2lib::bucket::Bucket;
use mod2lib::gc_vector::GCVector;
use mod2lib::storage_allocator::StorageAllocator;

#[test]
fn bucket_bump_allocation() {
    let mut b = Bucket::with_capacity(1024);
    assert_eq!(b.capacity(), 1024);
    assert_eq!(b.bytes_free(), 1024);
    let first = b.allocate(64);
    assert_eq!(first, 0);
    let second = b.allocate(8);
    assert_eq!(second, 64);
    assert_eq!(b.bytes_free(), 1024 - 72);
    b.reset();
    assert_eq!(b.bytes_free(), 1024);
}

#[test]
fn storage_charges_every_request() {
    let mut st = StorageAllocator::new();
    st.allocate_storage(40);
    st.allocate_storage(8);
    // The in-use byte count is exactly the sum of the charged requests.
    assert_eq!(st.storage_in_use(), 48);
    assert_eq!(st.bucket_count(), 1);
    assert!(!st.want_to_collect_garbage());
}

#[test]
fn storage_wants_collection_past_target() {
    let mut st = StorageAllocator::new();
    // The initial target is just under a bucket: charge past it.
    let chunk = 128 * 1024;
    st.allocate_storage(chunk);
    assert!(!st.want_to_collect_garbage());
    st.allocate_storage(chunk);
    assert!(st.want_to_collect_garbage());
}

#[test]
fn storage_reuse_after_collection() {
    let mut st = StorageAllocator::new();
    // Fill a megabyte of auxiliary storage.
    for _ in 0..16 {
        st.allocate_storage(64 * 1024);
    }
    assert_eq!(st.storage_in_use(), 1024 * 1024);
    let buckets_before = st.bucket_count();
    assert!(buckets_before >= 2);
    // A collection cycle with nothing live: pivot, no copies, recycle.
    st._prepare_to_mark();
    st._sweep_garbage();
    assert_eq!(st.storage_in_use(), 0);
    // The original buckets are all on the unused list again.
    for id in 0..buckets_before {
        assert!(st.is_unused(id));
    }
    // The next allocation reuses one of them instead of creating a bucket.
    let b = st.allocate_storage(64);
    assert_eq!(st.bucket_count(), buckets_before);
    assert!(st.is_in_use(b));
}

#[test]
fn vector_round_trip() {
    let mut st = StorageAllocator::new();
    let items: Vec<u64> = vec![10, 20, 30, 40, 50];
    let v = GCVector::from_slice(&mut st, &items);
    assert_eq!(v.iter(), items);
    assert_eq!(v.len(), 5);
    assert_eq!(v.capacity(), 5);
    assert!(!v.is_empty());
}

#[test]
fn copy_with_capacity_truncates() {
    let mut st = StorageAllocator::new();
    let items: Vec<u64> = vec![1, 2, 3, 4];
    let v = GCVector::from_slice(&mut st, &items);
    // Shrinking keeps min(length, k) elements.
    let small = v.copy_with_capacity(&mut st, 2);
    assert_eq!(small.iter(), vec![1, 2]);
    assert_eq!(small.capacity(), 2);
    // Growing keeps the length and raises the capacity.
    let big = v.copy_with_capacity(&mut st, 8);
    assert_eq!(big.iter(), items);
    assert_eq!(big.capacity(), 8);
    // A plain copy is identical, in fresh storage.
    let same = v.copy(&mut st);
    assert_eq!(same.iter(), items);
    assert_eq!(same.capacity(), 4);
}

#[test]
fn vector_push_and_pop() {
    let mut st = StorageAllocator::new();
    let mut v: GCVector<u64> = GCVector::with_capacity(&mut st, 3);
    assert!(v.is_empty());
    v.push(5);
    v.push(6);
    assert_eq!(v.len(), 2);
    assert_eq!(v.index(0), 5);
    v.set(0, 7);
    assert_eq!(v.index(0), 7);
    assert_eq!(v.pop(), Some(6));
    assert_eq!(v.pop(), Some(7));
    assert_eq!(v.pop(), None);
}

#[test]
fn huge_requests_get_oversized_buckets() {
    let mut st = StorageAllocator::new();
    let huge = 1024 * 1024;
    st.allocate_storage(huge);
    assert_eq!(st.bucket_count(), 1);
    assert_eq!(st.storage_in_use(), huge as u128);
    // The bucket was sized at a multiple of the request, so a second huge
    // request still fits without a new bucket.
    st.allocate_storage(huge);
    assert_eq!(st.bucket_count(), 1);
}
