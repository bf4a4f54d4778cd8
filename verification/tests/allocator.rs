use mod2lib::dag_node_core::{DagNodeTheory, NodeArgs};
use mod2lib::heap::{
    active_node_count, allocate_dag_node, want_to_collect_garbage, Heap, RootContainer,
};
use mod2lib::node_allocator::{ARENA_NODES, RESERVE_SLOTS};
use mod2lib::symbol::{Arity, Symbol};
use rand::RngExt;

/// Recursively builds a random tree of nodes below `parent`; each child gets
/// a random arity between the width bounds, zero at the leaves.
fn build_random_tree(
    heap: &mut Heap,
    parent: usize,
    parent_arity: usize,
    max_height: usize,
    max_width: usize,
    min_width: usize,
) {
    if max_height == 0 {
        return;
    }
    let min_width = std::cmp::min(max_width, min_width);
    let max_width = std::cmp::max(max_width, min_width);
    let mut rng = rand::rng();
    for _ in 0..parent_arity {
        let child_arity = if max_height == 1 {
            0
        } else {
            rng.random_range(min_width..=max_width)
        };
        let child = heap.with_theory(
            child_arity,
            Arity::Value(child_arity as u16),
            DagNodeTheory::Free,
        );
        heap.insert_child(parent, child);
        build_random_tree(heap, child, child_arity, max_height - 1, max_width, min_width);
    }
}

#[test]
fn test_allocate_dag_node() {
    let mut heap = Heap::new();
    let node = allocate_dag_node(&mut heap);
    assert_eq!(heap.len(node), 0);
    assert_eq!(active_node_count(&heap), 1);
}

#[test]
fn test_dag_creation() {
    let symbols: Vec<Symbol> = (0..=10)
        .map(|x| Symbol::new("sym".to_string(), Arity::Value(x)))
        .collect();
    let mut heap = Heap::new();
    let root = heap.with_theory(3, Arity::Value(3), DagNodeTheory::Free);
    let _root_container = RootContainer::new(&mut heap, root);
    let max_height: usize = 6;
    let max_width: usize = 3;
    assert_eq!(symbols.len(), 11);
    build_random_tree(&mut heap, root, 3, max_height, max_width, 0);
    assert_eq!(heap.len(root), 3);
}

#[test]
fn test_garbage_collection() {
    let symbols: Vec<Symbol> = (0..=10)
        .map(|x| Symbol::new(format!("sym({})", x), Arity::Value(x)))
        .collect();
    assert_eq!(symbols.len(), 11);
    let mut heap = Heap::new();
    for _ in 0..100 {
        let mut containers = Vec::with_capacity(10);
        for _ in 0..10 {
            let root = heap.with_theory(4, Arity::Value(4), DagNodeTheory::Free);
            let container = RootContainer::new(&mut heap, root);
            let max_height: usize = 6;
            let max_width: usize = 4;
            build_random_tree(&mut heap, root, 4, max_height, max_width, 0);
            containers.push(container);
        }
        mod2lib::heap::ok_to_collect_garbage(&mut heap);
        for c in containers {
            c.unlink(&mut heap);
        }
    }
}

#[test]
fn test_arena_exhaustion() {
    let mut heap = Heap::new();
    let root = heap.with_theory(1, Arity::Value(1), DagNodeTheory::Free);
    let _root_container = RootContainer::new(&mut heap, root);
    let mut last_node = root;
    for _ in 1..=10000 {
        let node = heap.with_theory(1, Arity::Value(1), DagNodeTheory::Free);
        heap.insert_child(last_node, node);
        last_node = node;
    }
    assert!(want_to_collect_garbage(&heap));
}

#[test]
fn lazy_sweep_reuses_the_dead_chain() {
    // A chain of 10000 single-child nodes, rooted at its head.
    let mut heap = Heap::new();
    let head = heap.with_theory(1, Arity::Value(1), DagNodeTheory::Free);
    let container = RootContainer::new(&mut heap, head);
    let mut last = head;
    for _ in 1..10000 {
        let node = heap.with_theory(1, Arity::Value(1), DagNodeTheory::Free);
        heap.insert_child(last, node);
        last = node;
    }
    heap.collect_garbage();
    assert_eq!(active_node_count(&heap), 10000);
    // Drop the root and collect again: nothing is live.
    container.unlink(&mut heap);
    heap.collect_garbage();
    assert_eq!(active_node_count(&heap), 0);
    // Reallocation reuses the dead chain's slots from the front.
    let first = allocate_dag_node(&mut heap);
    assert_eq!(first, 0);
    for _ in 1..10000 {
        allocate_dag_node(&mut heap);
    }
    assert_eq!(active_node_count(&heap), 10000);
}

#[test]
fn vector_relocation_during_mark() {
    // A node of arity five, with five children in its argument vector.
    let mut heap = Heap::new();
    let parent = heap.with_theory(5, Arity::Value(5), DagNodeTheory::Free);
    let mut children = Vec::new();
    for _ in 0..5 {
        let child = heap.with_theory(0, Arity::Value(0), DagNodeTheory::Free);
        heap.insert_child(parent, child);
        children.push(child);
    }
    let (handle_before, bucket_before) = match heap.nodes.slots[parent].args {
        NodeArgs::Vector(h) => (h, heap.vectors[h].bucket),
        _ => panic!("expected vector-shaped arguments"),
    };
    let _container = RootContainer::new(&mut heap, parent);
    heap.collect_garbage();
    // The vector was relocated into a different bucket; the children are
    // unchanged.
    let (handle_after, bucket_after) = match heap.nodes.slots[parent].args {
        NodeArgs::Vector(h) => (h, heap.vectors[h].bucket),
        _ => panic!("expected vector-shaped arguments"),
    };
    assert_ne!(handle_before, handle_after);
    assert_ne!(bucket_before, bucket_after);
    assert_eq!(heap.iter_args(parent), children);
}

#[test]
fn slop_sizing_grows_arenas() {
    // A collection that finds 1000 live nodes must provide at least
    // ceil(1000 * 8 / ARENA_NODES) = 2 arenas.
    let mut heap = Heap::new();
    let head = heap.with_theory(1, Arity::Value(1), DagNodeTheory::Free);
    let _container = RootContainer::new(&mut heap, head);
    let mut last = head;
    for _ in 1..1000 {
        let node = heap.with_theory(1, Arity::Value(1), DagNodeTheory::Free);
        heap.insert_child(last, node);
        last = node;
    }
    heap.collect_garbage();
    assert_eq!(active_node_count(&heap), 1000);
    assert!(heap.nodes.arena_count >= 2);
}

#[test]
fn reserve_region_arms_the_flag() {
    // The want-collection flag turns on exactly when allocation crosses into
    // the last arena's reserve region.
    let mut heap = Heap::new();
    let main_region = ARENA_NODES - RESERVE_SLOTS;
    for _ in 0..main_region {
        allocate_dag_node(&mut heap);
        assert!(!want_to_collect_garbage(&heap));
    }
    allocate_dag_node(&mut heap);
    assert!(want_to_collect_garbage(&heap));
}

#[test]
fn root_unlink_on_drop() {
    // Two roots; dropping the first lets its node die while the second's
    // node survives.
    let mut heap = Heap::new();
    let n1 = heap.with_theory(0, Arity::Value(0), DagNodeTheory::Free);
    let n2 = heap.with_theory(0, Arity::Value(0), DagNodeTheory::Free);
    let r1 = RootContainer::new(&mut heap, n1);
    let _r2 = RootContainer::new(&mut heap, n2);
    r1.unlink(&mut heap);
    heap.collect_garbage();
    assert_eq!(active_node_count(&heap), 1);
    // The survivor still carries its data; the dead slot is reused first.
    assert_eq!(heap.nodes.slots[n2].symbol, 0);
    let reused = allocate_dag_node(&mut heap);
    assert_eq!(reused, n1);
}

#[test]
fn marked_bits_clear_behind_the_cursor() {
    // After a collection the live nodes are marked; the lazy sweep clears
    // each mark as the cursor passes it.
    let mut heap = Heap::new();
    let node = heap.with_theory(0, Arity::Value(0), DagNodeTheory::Free);
    let _container = RootContainer::new(&mut heap, node);
    heap.collect_garbage();
    assert!(heap.nodes.slots[node].is_marked());
    // Allocate past the node: its mark is gone, its data intact.
    let mut cursor = allocate_dag_node(&mut heap);
    while cursor <= node {
        cursor = allocate_dag_node(&mut heap);
    }
    assert!(!heap.nodes.slots[node].is_marked());
    assert_eq!(heap.nodes.slots[node].symbol, 0);
}

#[test]
fn destructor_runs_once_per_epoch() {
    // A dead vector-carrying node is destroyed (disarmed) when its slot is
    // reused, and the slot comes back with no destruction pending.
    let mut heap = Heap::new();
    let parent = heap.with_theory(2, Arity::Value(2), DagNodeTheory::Free);
    let c1 = heap.with_theory(0, Arity::Value(0), DagNodeTheory::Free);
    let c2 = heap.with_theory(0, Arity::Value(0), DagNodeTheory::Free);
    heap.insert_child(parent, c1);
    heap.insert_child(parent, c2);
    assert!(heap.nodes.slots[parent].needs_destruction());
    // Nothing is rooted: collect, then reuse the parent's slot.
    heap.collect_garbage();
    let mut reused = allocate_dag_node(&mut heap);
    while reused < parent {
        reused = allocate_dag_node(&mut heap);
    }
    assert_eq!(reused, parent);
    assert!(!heap.nodes.slots[parent].needs_destruction());
    assert!(heap.nodes.slots[parent].simple_reuse());
}

#[test]
fn storage_pressure_triggers_collection() {
    // Enough argument-vector storage crosses the adaptive target; the next
    // safe point then runs a collection, which empties the charge and clears
    // both want-collection flags.
    let mut heap = Heap::new();
    for _ in 0..60 {
        let parent = heap.with_theory(1000, Arity::Value(1000), DagNodeTheory::Free);
        let _ = parent;
    }
    assert!(want_to_collect_garbage(&heap));
    mod2lib::heap::ok_to_collect_garbage(&mut heap);
    assert!(!want_to_collect_garbage(&heap));
    assert_eq!(heap.storage.storage_in_use(), 0);
    assert_eq!(active_node_count(&heap), 0);
}

#[test]
fn memory_variables_dump() {
    let heap = Heap::new();
    let dump = heap.nodes.dump_memory_variables();
    assert!(dump.contains("arena_count: 0\n"));
    assert!(dump.contains("need_to_collect_garbage: false\n"));
}
