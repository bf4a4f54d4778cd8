/*!
The garbage-collected heap: the node arenas, the bucket storage with the node
vectors that live in it, and the root set, driven together through one
collection cycle.

A node reference is an index into the arena slots; a node's vector-shaped
arguments are an index into the vector table, whose records carry the bucket
their bytes are charged to. The collector marks from the roots with an
explicit worklist, relocating every reached argument vector into the buckets
promoted by `_prepare_to_mark`, and afterwards sizes the arenas by the slop
factor and resets the scan cursor; node reclamation is then the allocator's
lazy sweep.
*/

use vstd::prelude::*;

use crate::dag_node_core::{DagNodeCore, DagNodeFlag, DagNodeFlags, DagNodeTheory, NodeArgs};
use crate::gc_vector::GCVector;
use crate::node_allocator::{slop_scaled, slot_swept, NodeAllocator, ARENA_NODES, LOWER_BOUND, MAX_ARENAS, RESERVE_SLOTS, UPPER_BOUND};
use crate::storage_allocator::{lemma_storage_evolved_trans, storage_evolved, StorageAllocator};
use crate::symbol::Arity;

verus! {

/// The registry of mutator-held roots. An entry is `None` once its container
/// has been unlinked.
pub struct RootList {
    pub entries: Vec<Option<usize>>,
}

impl RootList {
    pub fn new() -> (r: RootList)
        ensures
            r.entries@.len() == 0,
    {
        RootList { entries: Vec::new() }
    }
}

/// A scoped handle pinning one node: creating it links the node into the
/// root list, `unlink` removes it again.
pub struct RootContainer {
    /// Position of this container's entry in the root list.
    pub index: usize,
    /// The pinned node.
    pub node: usize,
}

pub struct Heap {
    pub nodes: NodeAllocator,
    pub storage: StorageAllocator,
    /// All node vectors ever created; a node's `Vector` argument indexes it.
    pub vectors: Vec<GCVector<usize>>,
    pub roots: RootList,
}

impl Heap {
    pub open spec fn node_count(self) -> int {
        self.nodes.slots@.len() as int
    }

    pub open spec fn spec_marked(self, i: int) -> bool {
        self.nodes.slots@[i].flags.marked
    }

    /// The children of node `i`, as node indices.
    pub open spec fn children_of(self, i: int) -> Seq<usize> {
        match self.nodes.slots@[i].args {
            NodeArgs::Empty => Seq::empty(),
            NodeArgs::Single(c) => seq![c],
            NodeArgs::Vector(h) => self.vectors@[h as int]@,
        }
    }

    /// The argument discriminator of slot `i` agrees with its
    /// `NeedsDestruction` flag and refers only into the tables.
    pub open spec fn args_ok(self, i: int) -> bool {
        match self.nodes.slots@[i].args {
            NodeArgs::Empty => !self.nodes.slots@[i].flags.needs_destruction,
            NodeArgs::Single(c) => c < self.node_count()
                && !self.nodes.slots@[i].flags.needs_destruction,
            NodeArgs::Vector(h) => h < self.vectors@.len()
                && self.nodes.slots@[i].flags.needs_destruction && forall|k: int|
                0 <= k < self.vectors@[h as int]@.len() ==> (#[trigger] self.vectors@[
                    h as int
                ]@[k]) < self.node_count()
        }
    }

    /// Node `i`'s arguments are the vector record `h`.
    pub open spec fn owns_vector(self, i: int, h: usize) -> bool {
        self.nodes.slots@[i].args == NodeArgs::Vector(h)
    }

    pub open spec fn wf(self) -> bool {
        &&& self.nodes.wf()
        &&& self.storage.wf()
        &&& forall|i: int| 0 <= i < self.node_count() ==> #[trigger] self.args_ok(i)
        &&& forall|h: int|
            0 <= h < self.vectors@.len() ==> (#[trigger] self.vectors@[h]).wf() && self.vectors@[
                h
            ].bucket < self.storage.spec_buckets().len()
        &&& forall|k: int|
            0 <= k < self.roots.entries@.len() ==> ((#[trigger] self.roots.entries@[k]) matches
            Some(n) ==> n < self.node_count())
        // Every vector record is owned by at most one node.
        &&& forall|i: int, j: int, h: usize|
            0 <= i < self.node_count() && 0 <= j < self.node_count() && i != j
                && #[trigger] self.owns_vector(i, h) ==> !(#[trigger] self.owns_vector(j, h))
    }

    /// Everything the mutator can observe of node `i` — symbol, arity,
    /// theory, sort, destruction flag and argument topology — is the same in
    /// both heaps.
    pub open spec fn node_preserved(pre: Heap, post: Heap, i: int) -> bool {
        &&& post.nodes.slots@[i].symbol == pre.nodes.slots@[i].symbol
        &&& post.nodes.slots@[i].arity == pre.nodes.slots@[i].arity
        &&& post.nodes.slots@[i].theory_tag == pre.nodes.slots@[i].theory_tag
        &&& post.nodes.slots@[i].sort_index == pre.nodes.slots@[i].sort_index
        &&& post.nodes.slots@[i].flags.needs_destruction == pre.nodes.slots@[
            i
        ].flags.needs_destruction
        &&& post.children_of(i) == pre.children_of(i)
    }

    /// A fresh heap: no arenas, no buckets, no vectors, no roots.
    pub fn new() -> (r: Heap)
        ensures
            r.wf(),
            r.node_count() == 0,
            r.nodes.active_node_count == 0,
            r.storage.spec_storage_in_use() == 0,
            r.vectors@.len() == 0,
            r.roots.entries@.len() == 0,
            !r.nodes.need_to_collect_garbage,
            !r.storage.spec_want_gc(),
    {
        Heap {
            nodes: NodeAllocator::new(),
            storage: StorageAllocator::new(),
            vectors: Vec::new(),
            roots: RootList::new(),
        }
    }

    /// Allocates a reset node slot, lazily sweeping as the cursor advances.
    /// Every node the mutator still holds below the old cursor is untouched.
    pub fn allocate_node(&mut self) -> (r: usize)
        requires
            old(self).wf(),
            old(self).nodes.arena_count < MAX_ARENAS,
            old(self).nodes.active_node_count < usize::MAX,
        ensures
            final(self).wf(),
            r < final(self).node_count(),
            final(self).node_count() >= old(self).node_count(),
            final(self).nodes.slots@[r as int] == DagNodeCore::spec_cleared(),
            final(self).children_of(r as int) =~= Seq::<usize>::empty(),
            final(self).nodes.next_node == r + 1,
            r >= old(self).nodes.next_node || old(self).nodes.arena_count == 0,
            final(self).nodes.active_node_count == old(self).nodes.active_node_count + 1,
            forall|i: int|
                0 <= i < old(self).nodes.next_node ==> final(self).nodes.slots@[i] == old(self).nodes.slots@[i],
            forall|i: int|
                0 <= i < old(self).nodes.next_node && i != r ==> Heap::node_preserved(
                    *old(self),
                    *final(self),
                    i,
                ),
            final(self).storage == old(self).storage,
            final(self).vectors == old(self).vectors,
            final(self).roots == old(self).roots,
            final(self).nodes.need_to_collect_garbage == (old(self).nodes.need_to_collect_garbage || (old(self).nodes.arena_count > 0 && r + 1
                + crate::node_allocator::RESERVE_SLOTS > old(self).nodes.slots@.len())),
            final(self).nodes.last_active_node == old(self).nodes.last_active_node,
    {
        let r = self.nodes.allocate_dag_node();
        proof {
            assert forall|i: int| 0 <= i < self.node_count() implies #[trigger] self.args_ok(
                i,
            ) by {
                if i < old(self).nodes.slots@.len() && i != r {
                    assert(slot_swept(old(self).nodes.slots@[i], self.nodes.slots@[i]));
                    assert(old(self).args_ok(i));
                } else {
                    assert(self.nodes.slots@[i as int] == DagNodeCore::spec_cleared());
                }
            }
            assert forall|i: int|
                0 <= i < old(self).nodes.next_node && i != r implies Heap::node_preserved(
                *old(self),
                *self,
                i,
            ) by {
                assert(self.nodes.slots@[i] == old(self).nodes.slots@[i]);
            }
            assert forall|i: int, j: int, h: usize|
                0 <= i < self.node_count() && 0 <= j < self.node_count() && i != j
                    && #[trigger] self.owns_vector(i, h) implies !(#[trigger] self.owns_vector(
                j,
                h,
            )) by {
                if self.owns_vector(j, h) {
                    assert(i != r && j != r);
                    if i < old(self).nodes.slots@.len() && j < old(self).nodes.slots@.len() {
                        assert(slot_swept(old(self).nodes.slots@[i], self.nodes.slots@[i]));
                        assert(slot_swept(old(self).nodes.slots@[j], self.nodes.slots@[j]));
                        assert(old(self).owns_vector(i, h));
                        assert(old(self).owns_vector(j, h));
                    }
                }
            }
        }
        r
    }

    /// Creates a node for `symbol` with the given theory tag. A symbol whose
    /// arity is two or more gets an argument vector of that capacity, and its
    /// slot is flagged as needing destruction.
    pub fn with_theory(&mut self, symbol: usize, arity: Arity, theory: DagNodeTheory) -> (r:
        usize)
        requires
            old(self).wf(),
            old(self).nodes.arena_count < MAX_ARENAS,
            old(self).nodes.active_node_count < usize::MAX,
        ensures
            final(self).wf(),
            r < final(self).node_count(),
            final(self).node_count() >= old(self).node_count(),
            final(self).nodes.slots@[r as int].symbol == symbol,
            final(self).nodes.slots@[r as int].arity == crate::symbol::arity_value(arity),
            final(self).nodes.slots@[r as int].theory_tag == theory,
            final(self).nodes.slots@[r as int].sort_index == -1i8,
            !final(self).spec_marked(r as int),
            final(self).children_of(r as int) =~= Seq::<usize>::empty(),
            final(self).nodes.next_node == r + 1,
            r >= old(self).nodes.next_node || old(self).nodes.arena_count == 0,
            forall|i: int|
                0 <= i < old(self).nodes.next_node && i != r ==> Heap::node_preserved(
                    *old(self),
                    *final(self),
                    i,
                ),
            forall|i: int|
                0 <= i < old(self).nodes.next_node ==> final(self).nodes.slots@[i] == old(self).nodes.slots@[i],
            final(self).roots == old(self).roots,
            storage_evolved(old(self).storage, final(self).storage),
            final(self).nodes.last_active_node == old(self).nodes.last_active_node,
    {
        let node = self.allocate_node();
        let ghost mid = *self;
        let arity_bits: u16 = match arity {
            Arity::Value(v) => v,
            _ => 0u16,
        };
        let slot = self.nodes.slots[node];
        if arity_bits > 1 {
            let vec: GCVector<usize> = GCVector::with_capacity(
                &mut self.storage,
                arity_bits as usize,
            );
            let h = self.vectors.len();
            self.vectors.push(vec);
            let flags = DagNodeFlags::empty().insert(DagNodeFlag::NeedsDestruction);
            self.nodes.slots.set(
                node,
                DagNodeCore {
                    symbol,
                    arity: arity_bits,
                    args: NodeArgs::Vector(h),
                    sort_index: -1,
                    theory_tag: theory,
                    flags,
                },
            );
        } else {
            self.nodes.slots.set(
                node,
                DagNodeCore {
                    symbol,
                    arity: arity_bits,
                    args: NodeArgs::Empty,
                    sort_index: -1,
                    theory_tag: theory,
                    flags: DagNodeFlags::empty(),
                },
            );
        }
        proof {
            assert(self.nodes.slots@ =~= mid.nodes.slots@.update(
                node as int,
                self.nodes.slots@[node as int],
            ));
            self.lemma_slot_update_wf(mid, node as int);
            assert(self.children_of(node as int) =~= Seq::<usize>::empty());
            assert forall|i: int|
                0 <= i < old(self).nodes.next_node && i != node implies Heap::node_preserved(
                *old(self),
                *self,
                i,
            ) by {
                assert(self.nodes.slots@[i] == old(self).nodes.slots@[i]);
                assert(old(self).args_ok(i));
                match old(self).nodes.slots@[i].args {
                    NodeArgs::Vector(h) => {
                        assert(self.vectors@[h as int] == old(self).vectors@[h as int]);
                    },
                    _ => {},
                }
            }
        }
        node
    }

    /// How many children node `i` has.
    pub fn len(&self, node: usize) -> (r: usize)
        requires
            self.wf(),
            node < self.node_count(),
        ensures
            r == self.children_of(node as int).len(),
    {
        proof {
            assert(self.args_ok(node as int));
        }
        let slot = self.nodes.slots[node];
        match slot.args {
            NodeArgs::Empty => 0,
            NodeArgs::Single(_) => 1,
            NodeArgs::Vector(h) => self.vectors[h].len(),
        }
    }

    /// The children of node `i`, in order, as a plain vector of node indices.
    pub fn iter_args(&self, node: usize) -> (r: Vec<usize>)
        requires
            self.wf(),
            node < self.node_count(),
        ensures
            r@ == self.children_of(node as int),
            forall|k: int| 0 <= k < r@.len() ==> (#[trigger] r@[k]) < self.node_count(),
    {
        proof {
            assert(self.args_ok(node as int));
        }
        let slot = self.nodes.slots[node];
        match slot.args {
            NodeArgs::Empty => {
                let r: Vec<usize> = Vec::new();
                proof {
                    assert(r@ =~= self.children_of(node as int));
                }
                r
            },
            NodeArgs::Single(c) => {
                let mut r: Vec<usize> = Vec::new();
                r.push(c);
                proof {
                    assert(r@ =~= self.children_of(node as int));
                }
                r
            },
            NodeArgs::Vector(h) => {
                let r = self.vectors[h].iter();
                r
            },
        }
    }

    /// Whether another child fits into `node`'s argument representation:
    /// always, until a full argument vector would have to grow.
    pub open spec fn can_insert_child(self, node: int) -> bool {
        match self.nodes.slots@[node].args {
            NodeArgs::Vector(h) => self.vectors@[h as int]@.len() < self.vectors@[
                h as int
            ].spec_capacity(),
            _ => true,
        }
    }

    /// Appends `new_child` to `node`'s children, promoting the argument
    /// representation as needed: none to single, single to a vector sized by
    /// the arity, vector to one more cell. Growing a full vector is a
    /// programmer error — capacity comes from the symbol's arity — and is
    /// excluded.
    pub fn insert_child(&mut self, node: usize, new_child: usize)
        requires
            old(self).wf(),
            node < old(self).node_count(),
            new_child < old(self).node_count(),
            old(self).can_insert_child(node as int),
        ensures
            final(self).wf(),
            final(self).node_count() == old(self).node_count(),
            final(self).children_of(node as int) == old(self).children_of(node as int).push(
                new_child,
            ),
            forall|i: int|
                0 <= i < old(self).node_count() && i != node ==> Heap::node_preserved(
                    *old(self),
                    *final(self),
                    i,
                ),
            forall|i: int|
                0 <= i < old(self).node_count() ==> final(self).spec_marked(i) == old(self).spec_marked(i),
            final(self).nodes.slots@[node as int].symbol == old(self).nodes.slots@[
                node as int
            ].symbol,
            // Representation promotion: none-to-single in place with the
            // destruction flag still clear; single-to-vector via a fresh
            // vector of capacity max(arity, 2) holding both children, with
            // the flag set; vector-shaped arguments grow in place.
            old(self).nodes.slots@[node as int].args is Empty ==> final(self).nodes.slots@[
                node as int
            ] == (DagNodeCore {
                args: NodeArgs::Single(new_child),
                ..old(self).nodes.slots@[node as int]
            }) && final(self).vectors@ == old(self).vectors@ && final(self).storage == old(self).storage,
            (old(self).nodes.slots@[node as int].args matches NodeArgs::Single(c) ==> final(self).nodes.slots@[node as int] == (DagNodeCore {
                args: NodeArgs::Vector(old(self).vectors@.len() as usize),
                flags: old(self).nodes.slots@[node as int].flags.spec_insert(
                    DagNodeFlag::NeedsDestruction,
                ),
                ..old(self).nodes.slots@[node as int]
            }) && final(self).vectors@.len() == old(self).vectors@.len() + 1 && final(self).vectors@[old(self).vectors@.len() as int]@ == seq![c, new_child] && final(self).vectors@[old(self).vectors@.len() as int].spec_capacity() == (if old(self).nodes.slots@[node as int].arity > 2 {
                old(self).nodes.slots@[node as int].arity as int
            } else {
                2int
            }) && final(self).storage.spec_in_use_list().contains(
                final(self).vectors@[old(self).vectors@.len() as int].bucket,
            )),
            (old(self).nodes.slots@[node as int].args matches NodeArgs::Vector(h) ==> final(self).nodes.slots@[node as int] == old(self).nodes.slots@[node as int] && final(self).vectors@.len() == old(self).vectors@.len() && final(self).vectors@[h as int].spec_capacity() == old(self).vectors@[h as int].spec_capacity() && final(self).vectors@[h as int].bucket == old(self).vectors@[h as int].bucket && final(self).storage == old(self).storage),
            final(self).roots == old(self).roots,
            storage_evolved(old(self).storage, final(self).storage),
            final(self).nodes.next_node == old(self).nodes.next_node,
            final(self).nodes.last_active_node == old(self).nodes.last_active_node,
            final(self).nodes.arena_count == old(self).nodes.arena_count,
            final(self).nodes.active_node_count == old(self).nodes.active_node_count,
            final(self).nodes.need_to_collect_garbage == old(self).nodes.need_to_collect_garbage,
    {
        proof {
            assert(self.args_ok(node as int));
        }
        let slot = self.nodes.slots[node];
        match slot.args {
            NodeArgs::Empty => {
                self.nodes.slots.set(
                    node,
                    DagNodeCore { args: NodeArgs::Single(new_child), ..slot },
                );
                proof {
                    assert(old(self).args_ok(node as int));
                    assert(self.children_of(node as int) =~= old(self).children_of(
                        node as int,
                    ).push(new_child));
                    assert(self.nodes.slots@ =~= old(self).nodes.slots@.update(
                        node as int,
                        self.nodes.slots@[node as int],
                    ));
                    self.lemma_slot_update_wf(*old(self), node as int);
                }
            },
            NodeArgs::Single(existing) => {
                // Promote to a vector sized from the arity, at least two.
                let capacity: usize = if slot.arity > 2 {
                    slot.arity as usize
                } else {
                    2
                };
                let mut vec: GCVector<usize> = GCVector::with_capacity(&mut self.storage, capacity);
                vec.push(existing);
                vec.push(new_child);
                let h = self.vectors.len();
                self.vectors.push(vec);
                self.nodes.slots.set(
                    node,
                    DagNodeCore {
                        args: NodeArgs::Vector(h),
                        flags: slot.flags.insert(DagNodeFlag::NeedsDestruction),
                        ..slot
                    },
                );
                proof {
                    assert(old(self).args_ok(node as int));
                    assert(self.vectors@[h as int]@ =~= seq![existing].push(new_child));
                    assert(self.children_of(node as int) =~= old(self).children_of(
                        node as int,
                    ).push(new_child));
                    assert(self.nodes.slots@ =~= old(self).nodes.slots@.update(
                        node as int,
                        self.nodes.slots@[node as int],
                    ));
                    self.lemma_slot_update_wf(*old(self), node as int);
                }
            },
            NodeArgs::Vector(h) => {
                proof {
                    assert(old(self).args_ok(node as int));
                }
                let items = self.vectors[h].iter();
                let capacity = self.vectors[h].capacity();
                let bucket = self.vectors[h].bucket;
                let mut data = items;
                data.push(new_child);
                self.vectors.set(h, GCVector { data, capacity, bucket });
                proof {
                    assert(self.children_of(node as int) =~= old(self).children_of(
                        node as int,
                    ).push(new_child));
                    self.lemma_vector_update_wf(*old(self), h as int);
                }
            },
        }
        proof {
            assert forall|i: int|
                0 <= i < old(self).node_count() && i != node implies Heap::node_preserved(
                *old(self),
                *self,
                i,
            ) by {
                assert(self.nodes.slots@[i] == old(self).nodes.slots@[i]);
                assert(old(self).args_ok(i));
                match old(self).nodes.slots@[i].args {
                    NodeArgs::Vector(g) => {
                        assert(old(self).owns_vector(i, g));
                        if old(self).nodes.slots@[node as int].args == NodeArgs::Vector(g) {
                            assert(old(self).owns_vector(node as int, g));
                        }
                        assert(self.vectors@[g as int] == old(self).vectors@[g as int]);
                    },
                    _ => {},
                }
            }
        }
    }

    /// After a change confined to slot `node` — possibly with new vector
    /// records and new buckets appended — that keeps the slot's own arguments
    /// valid and sets its mark bit only inside the tidy window, the whole
    /// heap is well-formed again.
    pub proof fn lemma_slot_update_wf(self, pre: Heap, node: int)
        requires
            pre.wf(),
            0 <= node < pre.node_count(),
            self.nodes.slots@ == pre.nodes.slots@.update(node, self.nodes.slots@[node]),
            self.nodes.slots@[node].flags.marked == pre.nodes.slots@[node].flags.marked || (
            self.nodes.slots@[node].flags.marked && pre.nodes.next_node <= node <= pre.nodes.last_active_node),
            self.nodes.arena_count == pre.nodes.arena_count,
            self.nodes.current_arena == pre.nodes.current_arena,
            self.nodes.next_node == pre.nodes.next_node,
            self.nodes.end_pointer == pre.nodes.end_pointer,
            self.nodes.last_active_node == pre.nodes.last_active_node,
            self.nodes.current_arena_past_active_arena
                == pre.nodes.current_arena_past_active_arena,
            self.nodes.need_to_collect_garbage == pre.nodes.need_to_collect_garbage,
            self.roots == pre.roots,
            self.storage.wf(),
            self.storage.spec_buckets().len() >= pre.storage.spec_buckets().len(),
            self.vectors@.len() >= pre.vectors@.len(),
            forall|g: int| 0 <= g < pre.vectors@.len() ==> self.vectors@[g] == pre.vectors@[g],
            forall|g: int|
                pre.vectors@.len() <= g < self.vectors@.len() ==> (#[trigger] self.vectors@[
                    g
                ]).wf() && self.vectors@[g].bucket < self.storage.spec_buckets().len() && (forall|
                    k: int,
                |
                    0 <= k < self.vectors@[g]@.len() ==> (#[trigger] self.vectors@[g]@[k])
                        < self.node_count()),
            self.args_ok(node),
            // The slot keeps its old vector, if any, or takes a fresh record.
            (self.nodes.slots@[node].args matches NodeArgs::Vector(h) ==> self.nodes.slots@[
                node
            ].args == pre.nodes.slots@[node].args || h >= pre.vectors@.len()),
        ensures
            self.wf(),
    {
        assert(self.node_count() == pre.node_count());
        assert(self.nodes.wf()) by {
            assert forall|i: int|
                0 <= i < self.nodes.next_node implies !(#[trigger] self.nodes.slots@[
                i
            ]).flags.marked by {
                if i == node && self.nodes.slots@[node].flags.marked != pre.nodes.slots@[
                    node
                ].flags.marked {
                    assert(pre.nodes.next_node <= node);
                } else {
                    assert(!pre.nodes.slots@[i].flags.marked);
                }
            }
            assert forall|i: int|
                0 <= i < self.nodes.slots@.len() && (#[trigger] self.nodes.slots@[
                    i
                ]).flags.marked implies i <= self.nodes.last_active_node by {
                if i == node && self.nodes.slots@[node].flags.marked != pre.nodes.slots@[
                    node
                ].flags.marked {
                    assert(node <= pre.nodes.last_active_node);
                } else {
                    assert(pre.nodes.slots@[i].flags.marked);
                }
            }
        }
        assert forall|i: int| 0 <= i < self.node_count() implies #[trigger] self.args_ok(i) by {
            if i != node {
                assert(pre.args_ok(i));
                assert(self.nodes.slots@[i] == pre.nodes.slots@[i]);
                match pre.nodes.slots@[i].args {
                    NodeArgs::Vector(h) => {
                        assert(self.vectors@[h as int] == pre.vectors@[h as int]);
                    },
                    _ => {},
                }
            }
        }
        assert forall|h: int| 0 <= h < self.vectors@.len() implies (#[trigger] self.vectors@[
            h
        ]).wf() && self.vectors@[h].bucket < self.storage.spec_buckets().len() by {
            if h < pre.vectors@.len() {
                assert(self.vectors@[h] == pre.vectors@[h]);
            }
        }
        assert forall|i: int, j: int, h: usize|
            0 <= i < self.node_count() && 0 <= j < self.node_count() && i != j
                && #[trigger] self.owns_vector(i, h) implies !(#[trigger] self.owns_vector(
            j,
            h,
        )) by {
            if self.owns_vector(j, h) {
                if i != node && j != node {
                    assert(pre.owns_vector(i, h));
                    assert(pre.owns_vector(j, h));
                } else {
                    let other = if i == node { j } else { i };
                    assert(pre.owns_vector(other, h));
                    assert(pre.args_ok(other));
                    assert(h < pre.vectors@.len());
                    if self.nodes.slots@[node].args == pre.nodes.slots@[node].args {
                        assert(pre.owns_vector(node, h));
                    }
                }
            }
        }
    }

    /// Like `lemma_slot_update_wf`, but for a change that replaced the
    /// vector record `h` with one of equal validity, slots untouched.
    pub proof fn lemma_vector_update_wf(self, pre: Heap, h: int)
        requires
            pre.wf(),
            self.storage == pre.storage,
            self.nodes == pre.nodes,
            self.roots == pre.roots,
            self.vectors@.len() == pre.vectors@.len(),
            forall|g: int|
                0 <= g < pre.vectors@.len() && g != h ==> self.vectors@[g] == pre.vectors@[g],
            0 <= h < self.vectors@.len(),
            self.vectors@[h].wf(),
            self.vectors@[h].bucket < self.storage.spec_buckets().len(),
            forall|k: int|
                0 <= k < self.vectors@[h]@.len() ==> (#[trigger] self.vectors@[h]@[k])
                    < self.node_count(),
        ensures
            self.wf(),
    {
        assert forall|i: int| 0 <= i < self.node_count() implies #[trigger] self.args_ok(i) by {
            assert(pre.args_ok(i));
            match pre.nodes.slots@[i].args {
                NodeArgs::Vector(g) => {
                    if g != h {
                        assert(self.vectors@[g as int] == pre.vectors@[g as int]);
                    }
                },
                _ => {},
            }
        }
        assert forall|g: int| 0 <= g < self.vectors@.len() implies (#[trigger] self.vectors@[
            g
        ]).wf() && self.vectors@[g].bucket < self.storage.spec_buckets().len() by {
            if g != h {
                assert(self.vectors@[g] == pre.vectors@[g]);
            }
        }
        assert forall|i: int, j: int, g: usize|
            0 <= i < self.node_count() && 0 <= j < self.node_count() && i != j
                && #[trigger] self.owns_vector(i, g) implies !(#[trigger] self.owns_vector(
            j,
            g,
        )) by {
            assert(pre.owns_vector(i, g) == self.owns_vector(i, g));
            assert(pre.owns_vector(j, g) == self.owns_vector(j, g));
        }
    }

    /// The retired list as a sequence; empty outside a collection.
    pub open spec fn spec_retired_seq(self) -> Seq<usize> {
        self.storage.spec_retired_list()
    }
}

impl RootContainer {
    /// Pins `node`: links a new entry into the heap's root list and returns
    /// the scoped handle for it.
    pub fn new(heap: &mut Heap, node: usize) -> (r: RootContainer)
        requires
            old(heap).wf(),
            node < old(heap).node_count(),
        ensures
            final(heap).wf(),
            *final(heap) == (Heap { roots: final(heap).roots, ..*old(heap) }),
            final(heap).roots.entries@ == old(heap).roots.entries@.push(Some(node)),
            r.node == node,
            r.index == old(heap).roots.entries@.len(),
    {
        let index = heap.roots.entries.len();
        heap.roots.entries.push(Some(node));
        proof {
            assert forall|i: int| 0 <= i < heap.node_count() implies #[trigger] heap.args_ok(
                i,
            ) by {
                assert(old(heap).args_ok(i));
            }
            assert forall|i: int, j: int, h: usize|
                0 <= i < heap.node_count() && 0 <= j < heap.node_count() && i != j
                    && #[trigger] heap.owns_vector(i, h) implies !(#[trigger] heap.owns_vector(
                j,
                h,
            )) by {
                assert(old(heap).owns_vector(i, h) == heap.owns_vector(i, h));
                assert(old(heap).owns_vector(j, h) == heap.owns_vector(j, h));
            }
            assert forall|k: int|
                0 <= k < heap.roots.entries@.len() implies ((#[trigger] heap.roots.entries@[
                k
            ]) matches Some(n) ==> n < heap.node_count()) by {
                if k < old(heap).roots.entries@.len() {
                    assert(old(heap).roots.entries@[k] == heap.roots.entries@[k]);
                }
            }
        }
        RootContainer { index, node }
    }

    /// Marks everything reachable from this container's node, as the mark
    /// phase of a collection does for each registered root.
    pub fn mark(&self, heap: &mut Heap)
        requires
            old(heap).wf(),
            self.node < old(heap).node_count(),
            old(heap).marked_closed(),
            forall|n: usize|
                n < old(heap).node_count() && old(heap).reachable(self.node, n) ==> (old(heap).nodes.next_node <= n <= old(heap).nodes.last_active_node) || old(heap).spec_marked(n as int),
            old(heap).nodes.active_node_count + old(heap).node_count() <= usize::MAX,
        ensures
            final(heap).wf(),
            final(heap).marked_closed(),
            final(heap).spec_marked(self.node as int),
            forall|i: int|
                0 <= i < old(heap).node_count() ==> Heap::node_preserved(
                    *old(heap),
                    *final(heap),
                    i,
                ),
            forall|n: usize|
                n < old(heap).node_count() && old(heap).reachable(self.node, n) ==> final(heap).spec_marked(n as int),
    {
        heap.mark_node(self.node);
    }

    /// Unpins the node: the entry this container holds is cleared. Dropping a
    /// container without unlinking keeps its node alive forever.
    pub fn unlink(&self, heap: &mut Heap)
        requires
            old(heap).wf(),
            self.index < old(heap).roots.entries@.len(),
        ensures
            final(heap).wf(),
            *final(heap) == (Heap { roots: final(heap).roots, ..*old(heap) }),
            final(heap).roots.entries@ == old(heap).roots.entries@.update(
                self.index as int,
                Option::<usize>::None,
            ),
    {
        heap.roots.entries.set(self.index, None);
        proof {
            assert forall|i: int| 0 <= i < heap.node_count() implies #[trigger] heap.args_ok(
                i,
            ) by {
                assert(old(heap).args_ok(i));
            }
            assert forall|i: int, j: int, h: usize|
                0 <= i < heap.node_count() && 0 <= j < heap.node_count() && i != j
                    && #[trigger] heap.owns_vector(i, h) implies !(#[trigger] heap.owns_vector(
                j,
                h,
            )) by {
                assert(old(heap).owns_vector(i, h) == heap.owns_vector(i, h));
                assert(old(heap).owns_vector(j, h) == heap.owns_vector(j, h));
            }
            assert forall|k: int|
                0 <= k < heap.roots.entries@.len() implies ((#[trigger] heap.roots.entries@[
                k
            ]) matches Some(n) ==> n < heap.node_count()) by {
                if k != self.index {
                    assert(old(heap).roots.entries@[k] == heap.roots.entries@[k]);
                }
            }
        }
    }
}

/// The union of the two allocators' want-collection flags.
pub fn want_to_collect_garbage(heap: &Heap) -> (r: bool)
    ensures
        r == (heap.nodes.need_to_collect_garbage || heap.storage.spec_want_gc()),
{
    heap.nodes.want_to_collect_garbage() || heap.storage.want_to_collect_garbage()
}

/// Nodes handed out or found live since the last collection began.
pub fn active_node_count(heap: &Heap) -> (r: usize)
    ensures
        r == heap.nodes.active_node_count,
{
    heap.nodes.active_node_count()
}

/// Allocates a reset node slot from the heap's arenas.
pub fn allocate_dag_node(heap: &mut Heap) -> (r: usize)
    requires
        old(heap).wf(),
        old(heap).nodes.arena_count < MAX_ARENAS,
        old(heap).nodes.active_node_count < usize::MAX,
    ensures
        final(heap).wf(),
        r < final(heap).node_count(),
        final(heap).nodes.slots@[r as int] == DagNodeCore::spec_cleared(),
        final(heap).nodes.active_node_count == old(heap).nodes.active_node_count + 1,
        forall|i: int|
            0 <= i < old(heap).nodes.next_node && i != r ==> Heap::node_preserved(
                *old(heap),
                *final(heap),
                i,
            ),
        final(heap).roots == old(heap).roots,
{
    heap.allocate_node()
}


/// Number of unmarked slots among the first `n`.
pub open spec fn unmarked_below(slots: Seq<DagNodeCore>, n: int) -> int
    decreases n,
{
    if n <= 0 {
        0
    } else {
        unmarked_below(slots, n - 1) + if !slots[n - 1].flags.marked {
            1int
        } else {
            0int
        }
    }
}

pub proof fn lemma_unmarked_below_bounds(slots: Seq<DagNodeCore>, n: int)
    ensures
        0 <= unmarked_below(slots, n),
        n >= 0 ==> unmarked_below(slots, n) <= n,
    decreases n,
{
    if n > 0 {
        lemma_unmarked_below_bounds(slots, n - 1);
    }
}

/// A fully unmarked prefix counts completely.
pub proof fn lemma_unmarked_below_full(slots: Seq<DagNodeCore>, n: int)
    requires
        forall|i: int| 0 <= i < n ==> !(#[trigger] slots[i]).flags.marked,
    ensures
        n >= 0 ==> unmarked_below(slots, n) == n,
    decreases n,
{
    if n > 0 {
        lemma_unmarked_below_full(slots, n - 1);
    }
}

/// Two slot sequences with the same marks below `n` count the same.
pub proof fn lemma_unmarked_below_agree(s1: Seq<DagNodeCore>, s2: Seq<DagNodeCore>, n: int)
    requires
        forall|i: int| 0 <= i < n ==> s1[i].flags.marked == s2[i].flags.marked,
    ensures
        unmarked_below(s1, n) == unmarked_below(s2, n),
    decreases n,
{
    if n > 0 {
        lemma_unmarked_below_agree(s1, s2, n - 1);
    }
}

/// Marking the unmarked slot `j` lowers the count below `n` by one when `j`
/// lies below `n`.
pub proof fn lemma_unmarked_below_mark(s1: Seq<DagNodeCore>, s2: Seq<DagNodeCore>, j: int, n: int)
    requires
        0 <= j,
        !s1[j].flags.marked,
        s2[j].flags.marked,
        forall|i: int| 0 <= i < n && i != j ==> s1[i].flags.marked == s2[i].flags.marked,
    ensures
        j < n ==> unmarked_below(s2, n) == unmarked_below(s1, n) - 1,
        j >= n ==> unmarked_below(s2, n) == unmarked_below(s1, n),
    decreases n,
{
    if n > 0 {
        lemma_unmarked_below_mark(s1, s2, j, n - 1);
    }
}

impl Heap {
    /// There is a path of length at most `fuel` from `from` to `to` along
    /// child edges.
    pub open spec fn reach(self, from: usize, to: usize, fuel: nat) -> bool
        decreases fuel,
    {
        ||| from == to
        ||| (fuel > 0 && exists|k: int|
            0 <= k < self.children_of(from as int).len() && self.reach(
                #[trigger] self.children_of(from as int)[k],
                to,
                (fuel - 1) as nat,
            ))
    }

    /// `to` is transitively reachable from `from` along child edges.
    pub open spec fn reachable(self, from: usize, to: usize) -> bool {
        exists|fuel: nat| #[trigger] self.reach(from, to, fuel)
    }

    /// `n` is reachable from some registered root.
    pub open spec fn roots_reach(self, n: usize) -> bool {
        exists|k: int|
            0 <= k < self.roots.entries@.len() && match #[trigger] self.roots.entries@[k] {
                Some(r) => self.reachable(r, n),
                None => false,
            }
    }

    /// Every marked node's children are in range and marked: the state the
    /// heap is in when a mark phase has finished.
    pub open spec fn marked_closed(self) -> bool {
        forall|i: int, k: int|
            0 <= i < self.node_count() && self.spec_marked(i) && 0 <= k < self.children_of(
                i,
            ).len() ==> (#[trigger] self.children_of(i)[k]) < self.node_count()
                && self.spec_marked(self.children_of(i)[k] as int)
    }

    /// Appending one child edge to a path keeps it a path.
    pub proof fn lemma_reach_step(self, a: usize, b: usize, c: usize, fuel: nat)
        requires
            self.reach(a, b, fuel),
            exists|k: int|
                0 <= k < self.children_of(b as int).len() && #[trigger] self.children_of(
                    b as int,
                )[k] == c,
        ensures
            self.reach(a, c, (fuel + 1) as nat),
        decreases fuel,
    {
        if a == b {
            let k = choose|k: int|
                0 <= k < self.children_of(b as int).len() && self.children_of(b as int)[k] == c;
            assert(self.reach(self.children_of(a as int)[k], c, fuel));
        } else {
            let k = choose|k: int|
                0 <= k < self.children_of(a as int).len() && self.reach(
                    self.children_of(a as int)[k],
                    b,
                    (fuel - 1) as nat,
                );
            self.lemma_reach_step(self.children_of(a as int)[k], b, c, (fuel - 1) as nat);
            assert(self.reach(self.children_of(a as int)[k], c, fuel));
        }
    }

    /// Two heaps whose nodes have the same children agree on reachability.
    pub proof fn lemma_reach_same_children(pre: Heap, post: Heap, from: usize, to: usize, fuel: nat)
        requires
            forall|i: int|
                0 <= i < pre.node_count() ==> post.children_of(i) == #[trigger] pre.children_of(
                    i,
                ),
            post.node_count() == pre.node_count(),
            pre.wf(),
            from < pre.node_count(),
            pre.reach(from, to, fuel),
        ensures
            post.reach(from, to, fuel),
        decreases fuel,
    {
        if from != to {
            let k = choose|k: int|
                0 <= k < pre.children_of(from as int).len() && pre.reach(
                    #[trigger] pre.children_of(from as int)[k],
                    to,
                    (fuel - 1) as nat,
                );
            let c = pre.children_of(from as int)[k];
            assert(pre.args_ok(from as int));
            assert(c < pre.node_count());
            Heap::lemma_reach_same_children(pre, post, c, to, (fuel - 1) as nat);
            assert(post.children_of(from as int)[k] == c);
        }
    }

    /// Once the marked set is closed under children and holds `from`, it
    /// holds everything reachable from `from` in the pre-heap, provided the
    /// children are unchanged.
    pub proof fn lemma_closed_reach_marked(
        pre: Heap,
        post: Heap,
        from: usize,
        to: usize,
        fuel: nat,
    )
        requires
            post.node_count() == pre.node_count(),
            forall|i: int|
                0 <= i < pre.node_count() ==> post.children_of(i) == #[trigger] pre.children_of(
                    i,
                ),
            from < pre.node_count(),
            post.marked_closed(),
            post.spec_marked(from as int),
            pre.reach(from, to, fuel),
        ensures
            post.spec_marked(to as int),
            to < pre.node_count(),
        decreases fuel,
    {
        if from == to {
        } else {
            let k = choose|k: int|
                0 <= k < pre.children_of(from as int).len() && pre.reach(
                    #[trigger] pre.children_of(from as int)[k],
                    to,
                    (fuel - 1) as nat,
                );
            let c = pre.children_of(from as int)[k];
            assert(post.children_of(from as int)[k] == c);
            assert(c < post.node_count() && post.spec_marked(c as int));
            Heap::lemma_closed_reach_marked(pre, post, c, to, (fuel - 1) as nat);
        }
    }

    /// Marks everything reachable from `start`, counting each newly found
    /// live node and relocating every reached argument vector into the
    /// buckets currently in use — during a collection, the buckets that were
    /// empty when the mark began. Uses an explicit worklist.
    #[verifier::rlimit(100)]
    #[verifier::loop_isolation(false)]
    pub fn mark_node(&mut self, start: usize)
        requires
            old(self).wf(),
            start < old(self).node_count(),
            old(self).marked_closed(),
            // The safe-point discipline: everything reachable is either still
            // marked from the previous collection, or lies in the window
            // between the scan cursor and the high-water mark, where setting
            // a mark keeps the allocator's invariants. The collection driver
            // resets the cursor to zero before marking, which makes the
            // window the whole region below the high-water mark.
            forall|n: usize|
                n < old(self).node_count() && old(self).reachable(start, n) ==> (old(self).nodes.next_node <= n <= old(self).nodes.last_active_node) || old(self).spec_marked(n as int),
            old(self).nodes.active_node_count + old(self).node_count() <= usize::MAX,
        ensures
            final(self).wf(),
            final(self).marked_closed(),
            final(self).node_count() == old(self).node_count(),
            forall|i: int|
                0 <= i < old(self).node_count() ==> Heap::node_preserved(
                    *old(self),
                    *final(self),
                    i,
                ),
            forall|i: int|
                0 <= i < old(self).node_count() && old(self).spec_marked(i) ==> final(self).spec_marked(i),
            forall|i: int|
                0 <= i < old(self).node_count() && old(self).spec_marked(i) ==> final(self).nodes.slots@[i] == old(self).nodes.slots@[i],
            final(self).spec_marked(start as int),
            forall|i: int|
                0 <= i < old(self).node_count() && final(self).spec_marked(i) ==> old(self).spec_marked(i) || old(self).reachable(start, i as usize),
            forall|n: usize|
                n < old(self).node_count() && old(self).reachable(start, n) ==> final(self).spec_marked(n as int),
            storage_evolved(old(self).storage, final(self).storage),
            // Marking an already-marked node is a no-op: nothing is visited,
            // nothing is counted, nothing is allocated.
            old(self).spec_marked(start as int) ==> *final(self) == *old(self),
            final(self).storage.spec_storage_in_use() >= old(self).storage.spec_storage_in_use(),
            old(self).storage.spec_want_gc() ==> final(self).storage.spec_want_gc(),
            // Starting coherent — flag clear and charge within target — the
            // flag tracks the charge exactly.
            !old(self).storage.spec_want_gc() && old(self).storage.spec_storage_in_use() <= old(self).storage.spec_target() ==> final(self).storage.spec_want_gc() == (final(self).storage.spec_storage_in_use() > final(self).storage.spec_target()),
            forall|i: int, h: usize|
                0 <= i < old(self).node_count() && final(self).spec_marked(i) && !old(self).spec_marked(i) && #[trigger] final(self).owns_vector(i, h) ==> final(self).storage.spec_in_use_list().contains(final(self).vectors@[h as int].bucket),
            final(self).vectors@.len() >= old(self).vectors@.len(),
            forall|g: int|
                0 <= g < old(self).vectors@.len() ==> final(self).vectors@[g] == old(self).vectors@[g],
            final(self).nodes.active_node_count == old(self).nodes.active_node_count + (
            unmarked_below(old(self).nodes.slots@, old(self).node_count()) - unmarked_below(
                final(self).nodes.slots@,
                final(self).node_count(),
            )),
            final(self).nodes.arena_count == old(self).nodes.arena_count,
            final(self).nodes.current_arena == old(self).nodes.current_arena,
            final(self).nodes.next_node == old(self).nodes.next_node,
            final(self).nodes.end_pointer == old(self).nodes.end_pointer,
            final(self).nodes.last_active_node == old(self).nodes.last_active_node,
            final(self).nodes.current_arena_past_active_arena == old(self).nodes.current_arena_past_active_arena,
            final(self).nodes.need_to_collect_garbage == old(self).nodes.need_to_collect_garbage,
            final(self).roots == old(self).roots,
            final(self).storage.spec_retired_list() == old(self).storage.spec_retired_list(),
    {
        let ghost count = old(self).node_count();
        let first = self.nodes.slots[start];
        if first.is_marked() {
            proof {
                assert forall|n2: usize|
                    n2 < count && old(self).reachable(start, n2) implies self.spec_marked(
                    n2 as int,
                ) by {
                    let fuel = choose|fuel: nat| #[trigger] old(self).reach(start, n2, fuel);
                    assert forall|i: int|
                        0 <= i < count implies self.children_of(i) == #[trigger] old(self).children_of(i) by {}
                    Heap::lemma_closed_reach_marked(*old(self), *self, start, n2, fuel);
                }
            }
            return;
        }
        let mut stack: Vec<usize> = Vec::new();
        stack.push(start);
        proof {
            assert(old(self).reach(start, start, 0nat));
            assert(old(self).reachable(start, start));
            assert(stack@[0] == start);
            lemma_unmarked_below_bounds(old(self).nodes.slots@, count);
        }
        loop
            invariant
                self.wf(),
                self.node_count() == count,
                forall|i: int| 0 <= i < count ==> Heap::node_preserved(*old(self), *self, i),
                forall|i: int|
                    0 <= i < count && old(self).spec_marked(i) ==> self.spec_marked(i),
                forall|i: int|
                    0 <= i < count && old(self).spec_marked(i) ==> self.nodes.slots@[i] == old(self).nodes.slots@[i],
                forall|i: int|
                    0 <= i < count && self.spec_marked(i) ==> old(self).spec_marked(i) || old(self).reachable(start, i as usize),
                forall|k: int|
                    0 <= k < stack@.len() ==> (#[trigger] stack@[k]) < count && old(self).reachable(start, stack@[k]),
                self.spec_marked(start as int) || stack@.contains(start),
                // Newly marked nodes have all children marked or on the stack.
                forall|i: int, k: int|
                    0 <= i < count && self.spec_marked(i) && !old(self).spec_marked(i) && 0 <= k
                        < self.children_of(i).len() ==> self.spec_marked(
                        #[trigger] self.children_of(i)[k] as int,
                    ) || stack@.contains(self.children_of(i)[k]),
                storage_evolved(old(self).storage, self.storage),
                self.storage.spec_storage_in_use() >= old(self).storage.spec_storage_in_use(),
                old(self).storage.spec_want_gc() ==> self.storage.spec_want_gc(),
                !old(self).storage.spec_want_gc() && old(self).storage.spec_storage_in_use()
                    <= old(self).storage.spec_target() ==> self.storage.spec_want_gc() == (
                self.storage.spec_storage_in_use() > self.storage.spec_target()),
                forall|i: int, h: usize|
                    0 <= i < count && self.spec_marked(i) && !old(self).spec_marked(i)
                        && #[trigger] self.owns_vector(i, h)
                        ==> self.storage.spec_in_use_list().contains(
                        self.vectors@[h as int].bucket,
                    ),
                self.vectors@.len() >= old(self).vectors@.len(),
                forall|g: int|
                    0 <= g < old(self).vectors@.len() ==> self.vectors@[g] == old(self).vectors@[g],
                self.nodes.active_node_count == old(self).nodes.active_node_count + (
                unmarked_below(old(self).nodes.slots@, count) - unmarked_below(
                    self.nodes.slots@,
                    count,
                )),
                self.nodes.arena_count == old(self).nodes.arena_count,
                self.nodes.current_arena == old(self).nodes.current_arena,
                self.nodes.next_node == old(self).nodes.next_node,
                self.nodes.end_pointer == old(self).nodes.end_pointer,
                self.nodes.last_active_node == old(self).nodes.last_active_node,
                self.nodes.current_arena_past_active_arena == old(self).nodes.current_arena_past_active_arena,
                self.nodes.need_to_collect_garbage == old(self).nodes.need_to_collect_garbage,
                self.roots == old(self).roots,
                self.storage.spec_retired_list() == old(self).storage.spec_retired_list(),
            decreases unmarked_below(self.nodes.slots@, count), stack@.len(),
        {
            if stack.len() == 0 {
                break;
            }
            let ghost pre_iter = *self;
            let ghost pre_stack = stack@;
            let n = stack.pop().unwrap();
            proof {
                assert(pre_stack[pre_stack.len() - 1] == n);
                assert(old(self).reachable(start, n));
            }
            let slot = self.nodes.slots[n];
            if !slot.is_marked() {
                proof {
                    lemma_unmarked_below_bounds(old(self).nodes.slots@, count);
                    lemma_unmarked_below_mark(
                        pre_iter.nodes.slots@,
                        pre_iter.nodes.slots@.update(
                            n as int,
                            DagNodeCore {
                                flags: pre_iter.nodes.slots@[n as int].flags.spec_insert(
                                    DagNodeFlag::Marked,
                                ),
                                ..pre_iter.nodes.slots@[n as int]
                            },
                        ),
                        n as int,
                        count,
                    );
                    lemma_unmarked_below_bounds(
                        pre_iter.nodes.slots@.update(
                            n as int,
                            DagNodeCore {
                                flags: pre_iter.nodes.slots@[n as int].flags.spec_insert(
                                    DagNodeFlag::Marked,
                                ),
                                ..pre_iter.nodes.slots@[n as int]
                            },
                        ),
                        count,
                    );
                    assert(unmarked_below(pre_iter.nodes.slots@, count) >= 1);
                    assert(self.nodes.active_node_count < usize::MAX);
                }
                // Mark the node and count it live.
                self.nodes.slots.set(
                    n,
                    DagNodeCore { flags: slot.flags.insert(DagNodeFlag::Marked), ..slot },
                );
                self.nodes.active_node_count = self.nodes.active_node_count + 1;
                proof {
                    lemma_unmarked_below_mark(
                        pre_iter.nodes.slots@,
                        self.nodes.slots@,
                        n as int,
                        count,
                    );
                    assert(self.nodes.slots@ =~= pre_iter.nodes.slots@.update(
                        n as int,
                        self.nodes.slots@[n as int],
                    ));
                    assert(pre_iter.args_ok(n as int));
                    assert(self.args_ok(n as int));
                    assert(old(self).nodes.next_node <= n && n <= old(self).nodes.last_active_node) by {
                        assert(old(self).reachable(start, n));
                        assert(!pre_iter.spec_marked(n as int));
                        if old(self).spec_marked(n as int) {
                            assert(pre_iter.spec_marked(n as int));
                        }
                    }
                    self.lemma_slot_update_wf(pre_iter, n as int);
                    assert(self.children_of(n as int) == pre_iter.children_of(n as int));
                    assert(Heap::node_preserved(*old(self), pre_iter, n as int));
                }
                let ghost after_mark = *self;
                // Dispatch on the argument shape.
                match slot.args {
                    NodeArgs::Empty => {
                        proof {
                            assert(self.children_of(n as int).len() == 0);
                        }
                    },
                    NodeArgs::Single(c) => {
                        proof {
                            assert(pre_iter.children_of(n as int) =~= seq![c]);
                            assert(old(self).children_of(n as int) == pre_iter.children_of(
                                n as int,
                            ));
                            assert(old(self).reachable(start, c)) by {
                                let fuel = choose|fuel: nat|
                                    #[trigger] old(self).reach(start, n, fuel);
                                assert(old(self).children_of(n as int)[0] == c);
                                old(self).lemma_reach_step(start, n, c, fuel);
                                assert(old(self).reach(start, c, (fuel + 1) as nat));
                            }
                            assert(c < count) by {
                                assert(pre_iter.args_ok(n as int));
                            }
                        }
                        stack.push(c);
                        proof {
                            assert(stack@[stack@.len() - 1] == c);
                            assert(stack@.contains(c));
                            assert forall|k: int|
                                0 <= k < self.children_of(n as int).len() implies stack@.contains(
                                self.children_of(n as int)[k],
                            ) by {
                                assert(self.children_of(n as int)[k] == c);
                            }
                        }
                    },
                    NodeArgs::Vector(h) => {
                        proof {
                            assert(pre_iter.args_ok(n as int));
                            assert(after_mark.args_ok(n as int));
                        }
                        // Relocate the argument vector into a fresh bucket.
                        let copied = self.vectors[h].copy(&mut self.storage);
                        let h2 = self.vectors.len();
                        self.vectors.push(copied);
                        let slot2 = self.nodes.slots[n];
                        self.nodes.slots.set(
                            n,
                            DagNodeCore { args: NodeArgs::Vector(h2), ..slot2 },
                        );
                        proof {
                            assert(self.nodes.slots@ =~= after_mark.nodes.slots@.update(
                                n as int,
                                self.nodes.slots@[n as int],
                            ));
                            assert(self.vectors@[h2 as int]@ == after_mark.vectors@[h as int]@);
                            assert(self.children_of(n as int) == after_mark.children_of(
                                n as int,
                            ));
                            assert(self.args_ok(n as int)) by {
                                assert(after_mark.args_ok(n as int));
                            }
                            assert(self.storage.wf());
                            self.lemma_slot_update_wf(after_mark, n as int);
                            lemma_unmarked_below_agree(
                                after_mark.nodes.slots@,
                                self.nodes.slots@,
                                count,
                            );
                            lemma_storage_evolved_trans(
                                old(self).storage,
                                after_mark.storage,
                                self.storage,
                            );
                            assert(self.owns_vector(n as int, h2));
                            assert(self.storage.spec_in_use_list().contains(
                                self.vectors@[h2 as int].bucket,
                            ));
                        }
                        // Push every child onto the worklist.
                        let children = self.vectors[h2].iter();
                        let ghost pre_push = *self;
                        let mut k: usize = 0;
                        proof {
                            assert(children@ == self.children_of(n as int));
                        }
                        while k < children.len()
                            invariant
                                *self == pre_push,
                                k <= children@.len(),
                                children@ == pre_push.children_of(n as int),
                                stack@.len() >= pre_stack.len() - 1,
                                forall|m: int|
                                    0 <= m < stack@.len() ==> (#[trigger] stack@[m]) < count
                                        && old(self).reachable(start, stack@[m]),
                                forall|m: int|
                                    0 <= m < pre_stack.len() - 1 ==> stack@[m] == pre_stack[m],
                                forall|j: int| 0 <= j < k ==> stack@.contains(children@[j]),
                            decreases children@.len() - k,
                        {
                            let c = children[k];
                            proof {
                                assert(self.args_ok(n as int));
                                assert(c < count);
                                assert(old(self).reachable(start, c)) by {
                                    let fuel = choose|fuel: nat|
                                        #[trigger] old(self).reach(start, n, fuel);
                                    assert(Heap::node_preserved(*old(self), pre_push, n as int));
                                    assert(old(self).children_of(n as int)[k as int] == c);
                                    old(self).lemma_reach_step(start, n, c, fuel);
                                    assert(old(self).reach(start, c, (fuel + 1) as nat));
                                }
                            }
                            let ghost stack_before = stack@;
                            stack.push(c);
                            proof {
                                assert forall|j: int| 0 <= j < k + 1 implies stack@.contains(
                                    children@[j],
                                ) by {
                                    if j < k {
                                        let m = choose|m: int|
                                            0 <= m < stack_before.len() && stack_before[m]
                                                == children@[j];
                                        assert(stack@[m] == children@[j]);
                                    } else {
                                        assert(stack@[stack@.len() - 1] == c);
                                    }
                                }
                            }
                            k = k + 1;
                        }
                        proof {
                            assert forall|j: int|
                                0 <= j < self.children_of(n as int).len()
                                    implies stack@.contains(self.children_of(n as int)[j]) by {
                                assert(stack@.contains(children@[j]));
                            }
                        }
                    },
                }
                proof {
                    // The whole iteration preserved every node's visible data.
                    assert forall|i: int|
                        0 <= i < count implies Heap::node_preserved(*old(self), *self, i) by {
                        assert(Heap::node_preserved(*old(self), pre_iter, i));
                        if i != n {
                            assert(self.nodes.slots@[i] == pre_iter.nodes.slots@[i]);
                            assert(pre_iter.args_ok(i));
                            match pre_iter.nodes.slots@[i].args {
                                NodeArgs::Vector(g) => {
                                    assert(self.vectors@[g as int] == pre_iter.vectors@[g as int]);
                                },
                                _ => {},
                            }
                        } else {
                            assert(self.children_of(i) == pre_iter.children_of(i));
                        }
                    }
                    // Start is marked or still on the stack.
                    if !self.spec_marked(start as int) {
                        assert(start != n);
                        if pre_iter.spec_marked(start as int) {
                            assert(self.spec_marked(start as int));
                        }
                        assert(pre_stack.contains(start));
                        let m = choose|m: int|
                            0 <= m < pre_stack.len() && pre_stack[m] == start;
                        assert(m < pre_stack.len() - 1);
                        assert(stack@[m] == start);
                        assert(stack@.contains(start));
                    }
                    // Re-establish the closure invariant.
                    assert forall|i: int, k: int|
                        0 <= i < count && self.spec_marked(i) && !old(self).spec_marked(i) && 0
                            <= k < self.children_of(i).len() implies self.spec_marked(
                        #[trigger] self.children_of(i)[k] as int,
                    ) || stack@.contains(self.children_of(i)[k]) by {
                        let c = self.children_of(i)[k];
                        if i == n {
                            assert(stack@.contains(c));
                        } else {
                            assert(self.nodes.slots@[i] == pre_iter.nodes.slots@[i]);
                            assert(pre_iter.args_ok(i));
                            match pre_iter.nodes.slots@[i].args {
                                NodeArgs::Vector(g) => {
                                    assert(self.vectors@[g as int] == pre_iter.vectors@[
                                        g as int
                                    ]);
                                },
                                _ => {},
                            }
                            assert(self.children_of(i) == pre_iter.children_of(i));
                            assert(pre_iter.spec_marked(i));
                            assert(0 <= k < pre_iter.children_of(i).len());
                            assert(pre_iter.children_of(i)[k] == c);
                            assert(pre_iter.children_of(i)[k] as int == c as int);
                            assert(!old(self).spec_marked(i));
                            assert(pre_iter.spec_marked(c as int) || pre_stack.contains(c));
                            if pre_iter.spec_marked(c as int) {
                                assert(self.spec_marked(c as int));
                            } else {
                                if !self.spec_marked(c as int) {
                                    let m = choose|m: int|
                                        0 <= m < pre_stack.len() && pre_stack[m] == c;
                                    if m < pre_stack.len() - 1 {
                                        assert(stack@.len() >= pre_stack.len() - 1);
                                        assert(stack@[m] == c);
                                        assert(stack@.contains(c));
                                    } else {
                                        assert(c == n);
                                        assert(self.spec_marked(c as int));
                                    }
                                }
                            }
                        }
                    }
                    assert forall|g: int|
                        0 <= g < old(self).vectors@.len() implies self.vectors@[g] == old(self).vectors@[g] by {
                        assert(g < pre_iter.vectors@.len());
                        assert(self.vectors@[g] == pre_iter.vectors@[g]);
                    }
                    // The relocation bookkeeping survives the iteration.
                    assert forall|i: int, h: usize|
                        0 <= i < count && self.spec_marked(i) && !old(self).spec_marked(i)
                            && #[trigger] self.owns_vector(i, h)
                            implies self.storage.spec_in_use_list().contains(
                        self.vectors@[h as int].bucket,
                    ) by {
                        if i != n {
                            assert(self.nodes.slots@[i] == pre_iter.nodes.slots@[i]);
                            assert(pre_iter.owns_vector(i, h));
                            assert(pre_iter.spec_marked(i));
                            assert(pre_iter.storage.spec_in_use_list().contains(
                                pre_iter.vectors@[h as int].bucket,
                            ));
                            assert(storage_evolved(pre_iter.storage, self.storage));
                            assert(pre_iter.args_ok(i));
                            assert(h < pre_iter.vectors@.len());
                            assert(self.vectors@[h as int] == pre_iter.vectors@[h as int]);
                        } else {
                            assert(self.owns_vector(n as int, h));
                            match self.nodes.slots@[n as int].args {
                                NodeArgs::Vector(hh) => {
                                    assert(h == hh);
                                },
                                _ => {
                                    assert(false);
                                },
                            }
                        }
                    }
                }
            } else {
                proof {
                    // Already marked: nothing changes but the stack shrinks.
                    assert forall|i: int, k: int|
                        0 <= i < count && self.spec_marked(i) && !old(self).spec_marked(i) && 0
                            <= k < self.children_of(i).len() implies self.spec_marked(
                        #[trigger] self.children_of(i)[k] as int,
                    ) || stack@.contains(self.children_of(i)[k]) by {
                        let c = self.children_of(i)[k];
                        if !self.spec_marked(c as int) {
                            assert(pre_iter.children_of(i)[k] == c);
                            assert(pre_iter.children_of(i)[k] as int == c as int);
                            assert(pre_stack.contains(c));
                            let m = choose|m: int|
                                0 <= m < pre_stack.len() && pre_stack[m] == c;
                            if m < pre_stack.len() - 1 {
                                assert(stack@[m] == c);
                            } else {
                                assert(c == n);
                            }
                        }
                    }
                    if !self.spec_marked(start as int) {
                        assert(pre_stack.contains(start));
                        let m = choose|m: int|
                            0 <= m < pre_stack.len() && pre_stack[m] == start;
                        if m < pre_stack.len() - 1 {
                            assert(stack@[m] == start);
                        } else {
                            assert(start == n);
                        }
                    }
                }
            }
        }
        proof {
            // The worklist is empty: the marked set is closed, so everything
            // reachable from the start is marked.
            assert forall|i: int, k: int|
                0 <= i < count && self.spec_marked(i) && 0 <= k < self.children_of(i).len()
                    implies (#[trigger] self.children_of(i)[k]) < count && self.spec_marked(
                self.children_of(i)[k] as int,
            ) by {
                assert(self.args_ok(i));
                if old(self).spec_marked(i) {
                    assert(Heap::node_preserved(*old(self), *self, i));
                    assert(old(self).children_of(i) == self.children_of(i));
                    assert(old(self).spec_marked(old(self).children_of(i)[k] as int));
                }
            }
            assert forall|i: int|
                0 <= i < count implies self.children_of(i) == old(self).children_of(i) by {
                assert(Heap::node_preserved(*old(self), *self, i));
            }
            assert forall|n2: usize|
                n2 < count && old(self).reachable(start, n2) implies self.spec_marked(
                n2 as int,
            ) by {
                let fuel = choose|fuel: nat| #[trigger] old(self).reach(start, n2, fuel);
                Heap::lemma_closed_reach_marked(*old(self), *self, start, n2, fuel);
            }
        }
    }
}


impl Heap {
    /// The safe-point discipline the mutator owes the collector: at a safe
    /// point, every node reachable from a root is either still marked from
    /// the previous collection or was handed out this epoch, behind the scan
    /// cursor.
    pub open spec fn roots_live(self) -> bool {
        forall|n: usize|
            n < self.node_count() && #[trigger] self.roots_reach(n) ==> self.spec_marked(n as int)
                || n < self.nodes.next_node
    }

    /// Everything reachable in `pre` from the root registered at entry `j`
    /// is marked in `self`.
    pub open spec fn root_cone_marked(self, pre: Heap, j: int) -> bool {
        match pre.roots.entries@[j] {
            Some(r) => forall|n: usize|
                n < pre.node_count() && #[trigger] pre.reachable(r, n) ==> self.spec_marked(
                    n as int,
                ),
            None => true,
        }
    }

    /// If every node's current children are a prefix of its children in
    /// `pre` — a destroyed node keeps none — then every current path already
    /// existed in `pre`.
    pub proof fn lemma_reach_sub(pre: Heap, post: Heap, from: usize, to: usize, fuel: nat)
        requires
            post.wf(),
            post.node_count() == pre.node_count(),
            from < post.node_count(),
            forall|i: int|
                0 <= i < post.node_count() ==> (#[trigger] post.children_of(i)).len()
                    <= pre.children_of(i).len() && (forall|k: int|
                    0 <= k < post.children_of(i).len() ==> post.children_of(i)[k]
                        == pre.children_of(i)[k]),
            post.reach(from, to, fuel),
        ensures
            pre.reach(from, to, fuel),
        decreases fuel,
    {
        if from != to {
            let k = choose|k: int|
                0 <= k < post.children_of(from as int).len() && post.reach(
                    #[trigger] post.children_of(from as int)[k],
                    to,
                    (fuel - 1) as nat,
                );
            let c = post.children_of(from as int)[k];
            assert(post.args_ok(from as int));
            assert(c < post.node_count());
            Heap::lemma_reach_sub(pre, post, c, to, (fuel - 1) as nat);
            assert(pre.children_of(from as int)[k] == c);
        }
    }

    /// A path survives into a changed heap as long as the children of every
    /// node reachable from `root` are unchanged.
    pub proof fn lemma_reach_preserved(
        pre: Heap,
        post: Heap,
        root: usize,
        from: usize,
        to: usize,
        fuel: nat,
    )
        requires
            pre.wf(),
            root < pre.node_count(),
            from < pre.node_count(),
            post.node_count() == pre.node_count(),
            forall|m: usize|
                m < pre.node_count() && #[trigger] pre.reachable(root, m) ==> post.children_of(
                    m as int,
                ) == pre.children_of(m as int),
            pre.reachable(root, from),
            pre.reach(from, to, fuel),
        ensures
            post.reach(from, to, fuel),
        decreases fuel,
    {
        if from != to {
            let k = choose|k: int|
                0 <= k < pre.children_of(from as int).len() && pre.reach(
                    #[trigger] pre.children_of(from as int)[k],
                    to,
                    (fuel - 1) as nat,
                );
            let c = pre.children_of(from as int)[k];
            assert(pre.args_ok(from as int));
            assert(c < pre.node_count());
            assert(pre.reachable(root, c)) by {
                let f0 = choose|f0: nat| #[trigger] pre.reach(root, from, f0);
                pre.lemma_reach_step(root, from, c, f0);
                assert(pre.reach(root, c, (f0 + 1) as nat));
            }
            Heap::lemma_reach_preserved(pre, post, root, c, to, (fuel - 1) as nat);
            assert(post.children_of(from as int) == pre.children_of(from as int));
            assert(post.children_of(from as int)[k] == c);
        }
    }
}

/// Marks every node reachable from a registered root, relocating the
/// argument vectors the mark reaches.
#[verifier::rlimit(100)]
#[verifier::loop_isolation(false)]
pub fn mark_roots(heap: &mut Heap)
    requires
        old(heap).wf(),
        old(heap).marked_closed(),
        forall|n: usize|
            n < old(heap).node_count() && #[trigger] old(heap).roots_reach(n) ==> (old(heap).nodes.next_node <= n <= old(heap).nodes.last_active_node) || old(heap).spec_marked(
                n as int,
            ),
        old(heap).nodes.active_node_count + 2 * old(heap).node_count() <= usize::MAX,
    ensures
        final(heap).wf(),
        final(heap).marked_closed(),
        final(heap).node_count() == old(heap).node_count(),
        forall|i: int|
            0 <= i < old(heap).node_count() ==> Heap::node_preserved(*old(heap), *final(heap), i),
        forall|i: int|
            0 <= i < old(heap).node_count() && old(heap).spec_marked(i) ==> final(heap).spec_marked(i),
        forall|i: int|
            0 <= i < old(heap).node_count() && final(heap).spec_marked(i) ==> old(heap).spec_marked(i) || old(heap).roots_reach(i as usize),
        forall|n: usize|
            n < old(heap).node_count() && #[trigger] old(heap).roots_reach(n) ==> final(heap).spec_marked(n as int),
        storage_evolved(old(heap).storage, final(heap).storage),
        final(heap).storage.spec_storage_in_use() >= old(heap).storage.spec_storage_in_use(),
        old(heap).storage.spec_want_gc() ==> final(heap).storage.spec_want_gc(),
        // Starting coherent — flag clear and charge within target — the flag
        // tracks the charge exactly.
        !old(heap).storage.spec_want_gc() && old(heap).storage.spec_storage_in_use() <= old(heap).storage.spec_target() ==> final(heap).storage.spec_want_gc() == (final(heap).storage.spec_storage_in_use() > final(heap).storage.spec_target()),
        forall|i: int, h: usize|
            0 <= i < old(heap).node_count() && final(heap).spec_marked(i) && !old(heap).spec_marked(i) && #[trigger] final(heap).owns_vector(i, h) ==> final(heap).storage.spec_in_use_list().contains(final(heap).vectors@[h as int].bucket),
        final(heap).vectors@.len() >= old(heap).vectors@.len(),
        forall|g: int|
            0 <= g < old(heap).vectors@.len() ==> final(heap).vectors@[g] == old(heap).vectors@[g],
        final(heap).nodes.active_node_count == old(heap).nodes.active_node_count + (
        unmarked_below(old(heap).nodes.slots@, old(heap).node_count()) - unmarked_below(
            final(heap).nodes.slots@,
            final(heap).node_count(),
        )),
        final(heap).nodes.arena_count == old(heap).nodes.arena_count,
        final(heap).nodes.current_arena == old(heap).nodes.current_arena,
        final(heap).nodes.next_node == old(heap).nodes.next_node,
        final(heap).nodes.end_pointer == old(heap).nodes.end_pointer,
        final(heap).nodes.last_active_node == old(heap).nodes.last_active_node,
        final(heap).nodes.current_arena_past_active_arena == old(heap).nodes.current_arena_past_active_arena,
        final(heap).nodes.need_to_collect_garbage == old(heap).nodes.need_to_collect_garbage,
        final(heap).roots == old(heap).roots,
        final(heap).storage.spec_retired_list() == old(heap).storage.spec_retired_list(),
{
    let ghost count = old(heap).node_count();
    let total = heap.roots.entries.len();
    let mut k: usize = 0;
    proof {
        lemma_unmarked_below_bounds(old(heap).nodes.slots@, count);
    }
    while k < total
        invariant
            total == heap.roots.entries@.len(),
            k <= total,
            heap.wf(),
            heap.marked_closed(),
            heap.node_count() == count,
            forall|i: int| 0 <= i < count ==> Heap::node_preserved(*old(heap), *heap, i),
            forall|i: int|
                0 <= i < count && old(heap).spec_marked(i) ==> heap.spec_marked(i),
            forall|i: int|
                0 <= i < count && heap.spec_marked(i) ==> old(heap).spec_marked(i) || old(heap).roots_reach(i as usize),
            // Every root processed so far has its whole cone marked.
            forall|j: int| 0 <= j < k ==> #[trigger] heap.root_cone_marked(*old(heap), j),
            storage_evolved(old(heap).storage, heap.storage),
            heap.storage.spec_storage_in_use() >= old(heap).storage.spec_storage_in_use(),
            old(heap).storage.spec_want_gc() ==> heap.storage.spec_want_gc(),
            !old(heap).storage.spec_want_gc() && old(heap).storage.spec_storage_in_use() <= old(heap).storage.spec_target() ==> heap.storage.spec_want_gc() == (heap.storage.spec_storage_in_use() > heap.storage.spec_target()),
            forall|i: int, h: usize|
                0 <= i < count && heap.spec_marked(i) && !old(heap).spec_marked(i)
                    && #[trigger] heap.owns_vector(i, h)
                    ==> heap.storage.spec_in_use_list().contains(
                    heap.vectors@[h as int].bucket,
                ),
            heap.vectors@.len() >= old(heap).vectors@.len(),
            forall|g: int|
                0 <= g < old(heap).vectors@.len() ==> heap.vectors@[g] == old(heap).vectors@[g],
            heap.nodes.active_node_count == old(heap).nodes.active_node_count + (unmarked_below(
                old(heap).nodes.slots@,
                count,
            ) - unmarked_below(heap.nodes.slots@, count)),
            heap.nodes.arena_count == old(heap).nodes.arena_count,
            heap.nodes.current_arena == old(heap).nodes.current_arena,
            heap.nodes.next_node == old(heap).nodes.next_node,
            heap.nodes.end_pointer == old(heap).nodes.end_pointer,
            heap.nodes.last_active_node == old(heap).nodes.last_active_node,
            heap.nodes.current_arena_past_active_arena == old(heap).nodes.current_arena_past_active_arena,
            heap.nodes.need_to_collect_garbage == old(heap).nodes.need_to_collect_garbage,
            heap.roots == old(heap).roots,
            heap.storage.spec_retired_list() == old(heap).storage.spec_retired_list(),
        decreases total - k,
    {
        let ghost pre_call = *heap;
        let entry = heap.roots.entries[k];
        match entry {
            Some(r) => {
                proof {
                    assert(r < count);
                    // Children are unchanged so far, so reachability agrees
                    // between the entry state and now.
                    assert forall|i: int|
                        0 <= i < count implies pre_call.children_of(i) == old(heap).children_of(i) by {
                        assert(Heap::node_preserved(*old(heap), pre_call, i));
                    }
                    // The discipline holds at the current state.
                    assert forall|n: usize|
                        n < count && pre_call.reachable(r, n) implies (pre_call.nodes.next_node
                            <= n <= pre_call.nodes.last_active_node) || pre_call.spec_marked(
                        n as int,
                    ) by {
                        let fuel = choose|fuel: nat| #[trigger] pre_call.reach(r, n, fuel);
                        Heap::lemma_reach_same_children(pre_call, *old(heap), r, n, fuel);
                        assert(old(heap).reach(r, n, fuel));
                        assert(old(heap).reachable(r, n));
                        assert(old(heap).roots_reach(n)) by {
                            assert(old(heap).roots.entries@[k as int] == Some(r));
                        }
                        if old(heap).spec_marked(n as int) {
                            assert(pre_call.spec_marked(n as int));
                        }
                    }
                    lemma_unmarked_below_bounds(pre_call.nodes.slots@, count);
                }
                heap.mark_node(r);
                proof {
                    if !old(heap).storage.spec_want_gc() && old(heap).storage.spec_storage_in_use() <= old(heap).storage.spec_target() {
                        if pre_call.storage.spec_storage_in_use()
                            > pre_call.storage.spec_target() {
                            assert(pre_call.storage.spec_want_gc());
                        }
                    }
                    // The cone of every earlier root stays marked; the cone
                    // of this root is newly covered.
                    assert forall|j: int|
                        0 <= j < k + 1 implies #[trigger] heap.root_cone_marked(
                        *old(heap),
                        j,
                    ) by {
                        match old(heap).roots.entries@[j] {
                            Some(r2) => {
                                assert forall|n: usize|
                                    n < count && #[trigger] old(heap).reachable(r2, n)
                                        implies heap.spec_marked(n as int) by {
                                    if j < k {
                                        assert(pre_call.root_cone_marked(*old(heap), j));
                                        assert(pre_call.spec_marked(n as int));
                                    } else {
                                        assert(r2 == r);
                                        let fuel = choose|fuel: nat|
                                            #[trigger] old(heap).reach(r, n, fuel);
                                        assert forall|i: int|
                                            0 <= i < count implies old(heap).children_of(i)
                                                == pre_call.children_of(i) by {
                                            assert(Heap::node_preserved(
                                                *old(heap),
                                                pre_call,
                                                i,
                                            ));
                                        }
                                        Heap::lemma_reach_same_children(
                                            *old(heap),
                                            pre_call,
                                            r,
                                            n,
                                            fuel,
                                        );
                                        assert(pre_call.reach(r, n, fuel));
                                        assert(pre_call.reachable(r, n));
                                    }
                                }
                            },
                            None => {},
                        }
                    }
                    // Composed preservation and soundness.
                    assert forall|i: int|
                        0 <= i < count implies Heap::node_preserved(*old(heap), *heap, i) by {
                        assert(Heap::node_preserved(*old(heap), pre_call, i));
                        assert(Heap::node_preserved(pre_call, *heap, i));
                    }
                    assert forall|i: int|
                        0 <= i < count && heap.spec_marked(i) implies old(heap).spec_marked(i)
                            || old(heap).roots_reach(i as usize) by {
                        if !old(heap).spec_marked(i) {
                            if pre_call.spec_marked(i) {
                            } else {
                                assert(pre_call.reachable(r, i as usize));
                                let fuel = choose|fuel: nat|
                                    #[trigger] pre_call.reach(r, i as usize, fuel);
                                assert forall|m: int|
                                    0 <= m < count implies pre_call.children_of(m) == old(heap).children_of(m) by {
                                    assert(Heap::node_preserved(*old(heap), pre_call, m));
                                }
                                Heap::lemma_reach_same_children(
                                    pre_call,
                                    *old(heap),
                                    r,
                                    i as usize,
                                    fuel,
                                );
                                assert(old(heap).reachable(r, i as usize));
                                assert(old(heap).roots_reach(i as usize)) by {
                                    assert(old(heap).roots.entries@[k as int] == Some(r));
                                }
                            }
                        }
                    }
                    // Relocation bookkeeping composes across calls.
                    assert forall|i: int, h: usize|
                        0 <= i < count && heap.spec_marked(i) && !old(heap).spec_marked(i)
                            && #[trigger] heap.owns_vector(i, h)
                            implies heap.storage.spec_in_use_list().contains(
                        heap.vectors@[h as int].bucket,
                    ) by {
                        if pre_call.spec_marked(i) {
                            // A marked node is not re-marked: its slot is
                            // untouched by this call, so it still owns the
                            // same record in the same bucket.
                            assert(heap.nodes.slots@[i] == pre_call.nodes.slots@[i]);
                            assert(pre_call.owns_vector(i, h));
                            assert(pre_call.storage.spec_in_use_list().contains(
                                pre_call.vectors@[h as int].bucket,
                            ));
                            assert(pre_call.args_ok(i));
                            assert(h < pre_call.vectors@.len());
                            assert(heap.vectors@[h as int] == pre_call.vectors@[h as int]);
                            assert(storage_evolved(pre_call.storage, heap.storage));
                        }
                    }
                }
            },
            None => {
                proof {
                    assert forall|j: int|
                        0 <= j < k + 1 implies #[trigger] heap.root_cone_marked(
                        *old(heap),
                        j,
                    ) by {
                        if j < k {
                            assert(heap.root_cone_marked(*old(heap), j));
                        } else {
                            assert(old(heap).roots.entries@[j] is None);
                        }
                    }
                }
            },
        }
        k = k + 1;
    }
    proof {
        assert forall|n: usize|
            n < count && #[trigger] old(heap).roots_reach(n) implies heap.spec_marked(
            n as int,
        ) by {
            let j = choose|j: int|
                0 <= j < old(heap).roots.entries@.len() && match #[trigger] old(heap).roots.entries@[j] {
                    Some(r) => old(heap).reachable(r, n),
                    None => false,
                };
            assert(heap.root_cone_marked(*old(heap), j));
        }
    }
}


impl Heap {
    /// The tidy step that opens a collection: finishes the lazy sweep up to
    /// the previous high-water mark, resets the scan cursor and the live
    /// count for the new epoch, and pivots the bucket lists so the coming
    /// mark copies into previously empty buckets.
    #[verifier::rlimit(100)]
    #[verifier::spinoff_prover]
    #[verifier::loop_isolation(false)]
    fn collect_tidy_phase(&mut self)
        requires
            old(self).wf(),
            old(self).storage.spec_retired_list().len() == 0,
            old(self).nodes.arena_count > 0,
        ensures
            final(self).wf(),
            final(self).node_count() == old(self).node_count(),
            final(self).roots == old(self).roots,
            final(self).vectors == old(self).vectors,
            final(self).nodes.arena_count == old(self).nodes.arena_count,
            final(self).nodes.next_node == 0,
            final(self).nodes.current_arena == 0,
            !final(self).nodes.current_arena_past_active_arena,
            final(self).nodes.need_to_collect_garbage == old(self).nodes.need_to_collect_garbage,
            final(self).nodes.active_node_count == 0,
            forall|i: int| 0 <= i < old(self).node_count() ==> !final(self).spec_marked(i),
            // Children only shrink: a destroyed dead slot keeps none,
            // everything else keeps its list.
            forall|i: int|
                0 <= i < old(self).node_count() ==> (#[trigger] final(self).children_of(i)).len()
                    <= old(self).children_of(i).len() && (forall|k: int|
                    0 <= k < final(self).children_of(i).len() ==> final(self).children_of(i)[k]
                        == old(self).children_of(i)[k]),
            // Slots the mutator can still reach are intact: marked ones only
            // lose the mark, slots behind the cursor are untouched.
            forall|i: int|
                0 <= i < old(self).node_count() && old(self).spec_marked(i) ==> final(self).nodes.slots@[i] == (DagNodeCore {
                    flags: old(self).nodes.slots@[i].flags.spec_remove(DagNodeFlag::Marked),
                    ..old(self).nodes.slots@[i]
                }),
            forall|i: int|
                0 <= i < old(self).nodes.next_node ==> final(self).nodes.slots@[i] == old(self).nodes.slots@[i],
            // The new high-water mark covers everything that was marked or
            // behind the cursor.
            forall|i: int|
                0 <= i < old(self).node_count() && old(self).spec_marked(i) ==> i <= final(self).nodes.last_active_node,
            old(self).nodes.next_node <= final(self).nodes.last_active_node + 1,
            final(self).nodes.last_active_node < old(self).node_count(),
            // The bucket lists pivot: in-use retires, unused takes over.
            final(self).storage.spec_retired_list() == old(self).storage.spec_in_use_list(),
            final(self).storage.spec_in_use_list() == old(self).storage.spec_unused_list(),
            final(self).storage.spec_unused_list().len() == 0,
            final(self).storage.spec_storage_in_use() == 0,
            final(self).storage.spec_old_storage_in_use() == old(self).storage.spec_storage_in_use(),
            final(self).storage.spec_target() == old(self).storage.spec_target(),
            !final(self).storage.spec_want_gc(),
            final(self).storage.spec_buckets() == old(self).storage.spec_buckets(),
    {
        let ghost count = old(self).node_count();
        // Finish the lazy sweep of the previous epoch.
        self.nodes.sweep_arenas();
        let ghost swept = *self;
        // Reset the scan cursor; the mark phase records liveness against a
        // fresh epoch.
        self.nodes.current_arena = 0;
        self.nodes.next_node = 0;
        self.nodes.end_pointer = if self.nodes.arena_count == 1 {
            ARENA_NODES - RESERVE_SLOTS
        } else {
            ARENA_NODES
        };
        self.nodes.current_arena_past_active_arena = false;
        self.nodes.active_node_count = 0;
        proof {
            assert(self.nodes.wf());
            // After the tidy pass each slot is unchanged, mark-cleared, or
            // reset to a bare slot; all of these keep the argument
            // discriminator coherent.
            assert forall|i: int|
                0 <= i < count implies self.nodes.slots@[i].args == old(self).nodes.slots@[
                i
            ].args || (self.nodes.slots@[i].args == NodeArgs::Empty && !self.nodes.slots@[
                i
            ].flags.needs_destruction) by {
                assert(old(self).nodes.spec_marked(i) == old(self).spec_marked(i));
                if old(self).nodes.spec_marked(i) {
                } else if i < old(self).nodes.next_node {
                } else if i > old(self).nodes.last_active_node {
                }
            }
            assert forall|i: int| 0 <= i < count implies #[trigger] self.args_ok(i) by {
                assert(old(self).args_ok(i));
                assert(self.nodes.slots@[i].args == old(self).nodes.slots@[i].args || (
                self.nodes.slots@[i].args == NodeArgs::Empty && !self.nodes.slots@[
                    i
                ].flags.needs_destruction));
                if self.nodes.slots@[i].args == old(self).nodes.slots@[i].args {
                    assert(old(self).nodes.spec_marked(i) == old(self).spec_marked(i));
                    if old(self).nodes.spec_marked(i) {
                    } else if i < old(self).nodes.next_node {
                    } else if i > old(self).nodes.last_active_node {
                    }
                }
            }
            assert forall|i: int, j: int, h: usize|
                0 <= i < count && 0 <= j < count && i != j && #[trigger] self.owns_vector(i, h)
                    implies !(#[trigger] self.owns_vector(j, h)) by {
                if self.owns_vector(j, h) {
                    assert(self.nodes.slots@[i].args == old(self).nodes.slots@[i].args);
                    assert(self.nodes.slots@[j].args == old(self).nodes.slots@[j].args);
                    assert(old(self).owns_vector(i, h));
                    assert(old(self).owns_vector(j, h));
                }
            }
            assert(self.wf());
        }
        let ghost tid = *self;
        self.storage._prepare_to_mark();
        proof {
            assert forall|i: int| 0 <= i < count implies #[trigger] self.args_ok(i) by {
                assert(tid.args_ok(i));
            }
            assert forall|i: int, j: int, h: usize|
                0 <= i < count && 0 <= j < count && i != j && #[trigger] self.owns_vector(i, h)
                    implies !(#[trigger] self.owns_vector(j, h)) by {
                assert(tid.owns_vector(i, h) == self.owns_vector(i, h));
                assert(tid.owns_vector(j, h) == self.owns_vector(j, h));
            }
            assert(self.wf());
        }
        proof {
            assert forall|i: int|
                0 <= i < count implies !(#[trigger] self.spec_marked(i)) by {
                assert(!swept.nodes.spec_marked(i));
            }
            // Children shrink only; live slots intact; the high-water mark
            // covers the live window.
            assert forall|i: int|
                0 <= i < count implies (#[trigger] self.children_of(i)).len() <= old(self).children_of(i).len() && (forall|k: int|
                    0 <= k < self.children_of(i).len() ==> self.children_of(i)[k] == old(self).children_of(i)[k]) by {
                assert(old(self).args_ok(i));
                assert(old(self).nodes.spec_marked(i) == old(self).spec_marked(i));
                if old(self).nodes.spec_marked(i) {
                    assert(self.nodes.slots@[i].args == old(self).nodes.slots@[i].args);
                    assert(self.children_of(i) == old(self).children_of(i));
                } else if i < old(self).nodes.next_node || i > old(self).nodes.last_active_node {
                    assert(self.nodes.slots@[i] == old(self).nodes.slots@[i]);
                    assert(self.children_of(i) == old(self).children_of(i));
                } else {
                    assert(self.nodes.slots@[i].args == old(self).nodes.slots@[i].args
                        || self.nodes.slots@[i].args == NodeArgs::Empty);
                    assert(self.children_of(i).len() == 0 || self.children_of(i) == old(self).children_of(i));
                }
            }
            assert forall|i: int|
                0 <= i < count && old(self).spec_marked(i) implies self.nodes.slots@[i] == (
            DagNodeCore {
                flags: old(self).nodes.slots@[i].flags.spec_remove(DagNodeFlag::Marked),
                ..old(self).nodes.slots@[i]
            }) by {
                assert(old(self).nodes.spec_marked(i));
            }
            assert forall|i: int|
                0 <= i < count && old(self).spec_marked(i) implies i
                    <= self.nodes.last_active_node by {
                assert(self.nodes.last_active_node == swept.nodes.last_active_node);
                assert(old(self).nodes.spec_marked(i));
                assert(i <= swept.nodes.last_active_node);
            }
            assert(swept.nodes.last_active_node + 1 >= old(self).nodes.next_node);
        }
    }

    /// The opening half of a collection: finishes the lazy sweep up to the
    /// previous high-water mark, resets the scan cursor for the new epoch,
    /// pivots the bucket lists, and marks everything reachable from the
    /// roots, relocating their argument vectors into the promoted buckets.
    #[verifier::rlimit(100)]
    #[verifier::spinoff_prover]
    #[verifier::loop_isolation(false)]
    fn collect_mark_phase(&mut self)
        requires
            old(self).wf(),
            old(self).roots_live(),
            old(self).storage.spec_retired_list().len() == 0,
            old(self).nodes.arena_count > 0,
            old(self).nodes.arena_count < MAX_ARENAS / 8,
        ensures
            final(self).wf(),
            final(self).marked_closed(),
            final(self).node_count() == old(self).node_count(),
            final(self).roots == old(self).roots,
            final(self).vectors@.len() >= old(self).vectors@.len(),
            final(self).nodes.arena_count == old(self).nodes.arena_count,
            final(self).nodes.next_node == 0,
            final(self).nodes.current_arena == 0,
            !final(self).nodes.current_arena_past_active_arena,
            final(self).nodes.need_to_collect_garbage == old(self).nodes.need_to_collect_garbage,
            final(self).storage.spec_retired_list() == old(self).storage.spec_in_use_list(),
            final(self).storage.spec_unused_list().len() == 0,
            forall|x: usize|
                final(self).storage.spec_in_use_list().contains(x) ==> old(self).storage.spec_unused_list().contains(x) || x >= old(self).storage.spec_buckets().len(),
            final(self).storage.spec_buckets().len() >= old(self).storage.spec_buckets().len(),
            final(self).storage.spec_target() == old(self).storage.spec_target(),
            final(self).storage.spec_old_storage_in_use() == old(self).storage.spec_storage_in_use(),
            final(self).storage.spec_want_gc() == (final(self).storage.spec_storage_in_use()
                > old(self).storage.spec_target()),
            // Reachability preservation: every root-reachable node is marked
            // and intact.
            forall|n: usize|
                n < old(self).node_count() && #[trigger] old(self).roots_reach(n) ==> final(self).spec_marked(n as int) && Heap::node_preserved(*old(self), *final(self), n as int),
            // Soundness: only root-reachable nodes are marked.
            forall|i: int|
                0 <= i < old(self).node_count() && final(self).spec_marked(i) ==> old(self).roots_reach(i as usize),
            // Relocation: every marked node's vector now sits in an in-use
            // bucket.
            forall|i: int, h: usize|
                0 <= i < old(self).node_count() && final(self).spec_marked(i)
                    && #[trigger] final(self).owns_vector(i, h) ==> final(self).storage.spec_in_use_list().contains(final(self).vectors@[h as int].bucket),
            // The live count is exactly the number of marked slots.
            final(self).nodes.active_node_count as int == old(self).node_count()
                - unmarked_below(final(self).nodes.slots@, old(self).node_count()),
            final(self).nodes.active_node_count <= old(self).node_count(),
    {
        let ghost count = old(self).node_count();
        self.collect_tidy_phase();
        let ghost ms = *self;
        proof {
            assert(ms.marked_closed());
            // Discipline for the mark phase: everything reachable now was
            // reachable before, hence marked or behind the cursor before,
            // hence at or below the new high-water mark now.
            assert forall|n: usize|
                n < count && #[trigger] ms.roots_reach(n) implies (ms.nodes.next_node <= n
                    <= ms.nodes.last_active_node) || ms.spec_marked(n as int) by {
                let j = choose|j: int|
                    0 <= j < ms.roots.entries@.len() && match #[trigger] ms.roots.entries@[j] {
                        Some(r) => ms.reachable(r, n),
                        None => false,
                    };
                match ms.roots.entries@[j] {
                    Some(r) => {
                        let fuel = choose|fuel: nat| #[trigger] ms.reach(r, n, fuel);
                        assert(r < count);
                        Heap::lemma_reach_sub(*old(self), ms, r, n, fuel);
                        assert(old(self).reach(r, n, fuel));
                        assert(old(self).reachable(r, n));
                        assert(old(self).roots_reach(n)) by {
                            assert(old(self).roots.entries@[j] == Some(r));
                        }
                        assert(old(self).spec_marked(n as int) || n < old(self).nodes.next_node);
                    },
                    None => {},
                }
            }
            let ghost ac0 = old(self).nodes.arena_count as int;
            assert(2 * count <= usize::MAX) by (nonlinear_arith)
                requires
                    count == ac0 * 5460,
                    ac0 < 0xC000,
                    usize::MAX >= 0xFFFF_FFFF,
            ;
        }
        mark_roots(self);
        proof {
            // Well-formedness facts about the marked heap.
            lemma_unmarked_below_bounds(ms.nodes.slots@, count);
            lemma_unmarked_below_bounds(self.nodes.slots@, count);
            assert forall|i: int|
                0 <= i < count implies !(#[trigger] ms.nodes.slots@[i]).flags.marked by {
                assert(!ms.spec_marked(i));
            }
            lemma_unmarked_below_full(ms.nodes.slots@, count);
            // The unused list stayed empty and the in-use list holds only
            // promoted or fresh buckets.
            assert(self.storage.spec_unused_list().len() == 0) by {
                if self.storage.spec_unused_list().len() > 0 {
                    let x = self.storage.spec_unused_list()[0];
                    assert(self.storage.spec_unused_list().contains(x));
                    assert(ms.storage.spec_unused_list().contains(x));
                }
            }
            assert forall|x: usize|
                self.storage.spec_in_use_list().contains(x) implies old(self).storage.spec_unused_list().contains(x) || x >= old(self).storage.spec_buckets().len() by {
                assert(ms.storage.spec_in_use_list().contains(x)
                    || ms.storage.spec_unused_list().contains(x) || x >= ms.storage.spec_buckets().len());
                assert(ms.storage.spec_in_use_list() == old(self).storage.spec_unused_list());
            }
            // Every root-reachable node of the entry state is marked intact.
            assert forall|n: usize|
                n < count && #[trigger] old(self).roots_reach(n) implies self.spec_marked(
                n as int,
            ) && Heap::node_preserved(*old(self), *self, n as int) by {
                let j = choose|j: int|
                    0 <= j < old(self).roots.entries@.len() && match #[trigger] old(self).roots.entries@[j] {
                        Some(r) => old(self).reachable(r, n),
                        None => false,
                    };
                match old(self).roots.entries@[j] {
                    Some(r) => {
                        let fuel = choose|fuel: nat| #[trigger] old(self).reach(r, n, fuel);
                        // The tidy pass left the whole reachable cone intact.
                        assert forall|m: usize|
                            m < count && #[trigger] old(self).reachable(r, m)
                                implies ms.children_of(m as int) == old(self).children_of(
                                m as int,
                            ) && Heap::node_preserved(*old(self), ms, m as int) by {
                            assert(old(self).roots_reach(m)) by {
                                assert(old(self).roots.entries@[j] == Some(r));
                            }
                            assert(old(self).spec_marked(m as int) || m < old(self).nodes.next_node);
                            assert(old(self).args_ok(m as int));
                            if old(self).spec_marked(m as int) {
                                assert(old(self).nodes.spec_marked(m as int));
                                assert(ms.nodes.slots@[m as int].args == old(self).nodes.slots@[
                                    m as int
                                ].args);
                            } else {
                                assert(ms.nodes.slots@[m as int] == old(self).nodes.slots@[
                                    m as int
                                ]);
                            }
                        }
                        assert(r < count);
                        assert(old(self).reachable(r, r)) by {
                            assert(old(self).reach(r, r, 0nat));
                        }
                        Heap::lemma_reach_preserved(*old(self), ms, r, r, n, fuel);
                        assert(ms.reach(r, n, fuel));
                        assert(ms.reachable(r, n));
                        assert(ms.roots_reach(n)) by {
                            assert(ms.roots.entries@[j] == Some(r));
                        }
                        assert(self.spec_marked(n as int));
                        assert(n < count);
                        assert(Heap::node_preserved(ms, *self, n as int));
                        assert(Heap::node_preserved(*old(self), ms, n as int));
                    },
                    None => {},
                }
            }
            // Soundness: only root-reachable nodes are marked.
            assert forall|i: int|
                0 <= i < count && self.spec_marked(i) implies old(self).roots_reach(
                i as usize,
            ) by {
                assert(!ms.spec_marked(i));
                assert(ms.roots_reach(i as usize));
                let j = choose|j: int|
                    0 <= j < ms.roots.entries@.len() && match #[trigger] ms.roots.entries@[j] {
                        Some(r) => ms.reachable(r, i as usize),
                        None => false,
                    };
                match ms.roots.entries@[j] {
                    Some(r) => {
                        let fuel = choose|fuel: nat| #[trigger] ms.reach(r, i as usize, fuel);
                        assert(r < count);
                        Heap::lemma_reach_sub(*old(self), ms, r, i as usize, fuel);
                        assert(old(self).reachable(r, i as usize));
                        assert(old(self).roots_reach(i as usize)) by {
                            assert(old(self).roots.entries@[j] == Some(r));
                        }
                    },
                    None => {},
                }
            }
            // Relocation: every marked node was marked by this phase, so its
            // vector went to an in-use bucket.
            assert forall|i: int, h: usize|
                0 <= i < count && self.spec_marked(i) && #[trigger] self.owns_vector(i, h)
                    implies self.storage.spec_in_use_list().contains(
                self.vectors@[h as int].bucket,
            ) by {
                assert(!ms.spec_marked(i));
            }
        }
    }

    /// Runs one full collection: finishes the lazy sweep up to the previous
    /// high-water mark, resets the scan cursor, pivots the bucket lists,
    /// marks everything reachable from the roots while relocating their
    /// argument vectors into the promoted buckets, recycles the retired
    /// buckets, and finally grows the arenas to the slop target.
    ///
    /// Under the safe-point discipline (`roots_live`), every node reachable
    /// from a root when the collection starts is still intact — same symbol,
    /// same argument topology — and marked when it ends, and every argument
    /// vector of a live node sits in a bucket that was unused, or did not
    /// exist, when the collection began.
    #[verifier::rlimit(100)]
    #[verifier::spinoff_prover]
    #[verifier::loop_isolation(false)]
    pub fn collect_garbage(&mut self)
        requires
            old(self).wf(),
            old(self).roots_live(),
            old(self).storage.spec_retired_list().len() == 0,
            old(self).nodes.arena_count < MAX_ARENAS / 8,
        ensures
            final(self).wf(),
            final(self).roots == old(self).roots,
            final(self).node_count() >= old(self).node_count(),
            final(self).storage.spec_retired_list().len() == 0,
            old(self).nodes.arena_count == 0 ==> *final(self) == *old(self),
            old(self).nodes.arena_count > 0 ==> final(self).nodes.next_node == 0 && !final(self).nodes.need_to_collect_garbage,
            forall|n: usize|
                n < old(self).node_count() && #[trigger] old(self).roots_reach(n) ==> final(self).spec_marked(n as int) && Heap::node_preserved(*old(self), *final(self), n as int),
            forall|i: int|
                0 <= i < final(self).node_count() && final(self).spec_marked(i) ==> i < old(self).node_count() && old(self).roots_reach(i as usize),
            forall|i: int, h: usize|
                0 <= i < old(self).node_count() && final(self).spec_marked(i) && #[trigger] final(self).owns_vector(i, h) ==> final(self).storage.spec_in_use_list().contains(
                    final(self).vectors@[h as int].bucket,
                ) && (old(self).storage.spec_unused_list().contains(
                    final(self).vectors@[h as int].bucket,
                ) || final(self).vectors@[h as int].bucket >= old(self).storage.spec_buckets().len()),
            old(self).nodes.arena_count > 0 ==> final(self).nodes.arena_count * ARENA_NODES * (
            UPPER_BOUND - LOWER_BOUND) >= final(self).nodes.active_node_count * slop_scaled(
                final(self).nodes.active_node_count as int,
            ),
            // The arena count is exact: unchanged, or the least that reaches
            // the slop target.
            old(self).nodes.arena_count > 0 ==> (final(self).nodes.arena_count == old(self).nodes.arena_count || (final(self).nodes.arena_count - 1) * ARENA_NODES * (
            UPPER_BOUND - LOWER_BOUND) < final(self).nodes.active_node_count * slop_scaled(
                final(self).nodes.active_node_count as int,
            )),
            // The live count is exactly the number of marked slots.
            old(self).nodes.arena_count > 0 ==> final(self).nodes.active_node_count as int
                == old(self).node_count() - unmarked_below(
                final(self).nodes.slots@,
                old(self).node_count(),
            ),
            old(self).nodes.arena_count > 0 ==> final(self).nodes.active_node_count <= old(self).node_count(),
            // The storage flag tracks the bytes the mark phase copied,
            // against the target the collection began with.
            old(self).nodes.arena_count > 0 ==> final(self).storage.spec_want_gc() == (final(self).storage.spec_storage_in_use() > old(self).storage.spec_target()),
    {
        if self.nodes.arena_count == 0 {
            return;
        }
        let ghost count = old(self).node_count();
        self.collect_mark_phase();
        let ghost am = *self;
        self.storage._sweep_garbage();
        proof {
            assert forall|i: int| 0 <= i < count implies #[trigger] self.args_ok(i) by {
                assert(am.args_ok(i));
            }
            assert forall|i: int, j: int, h: usize|
                0 <= i < count && 0 <= j < count && i != j && #[trigger] self.owns_vector(i, h)
                    implies !(#[trigger] self.owns_vector(j, h)) by {
                assert(am.owns_vector(i, h) == self.owns_vector(i, h));
                assert(am.owns_vector(j, h) == self.owns_vector(j, h));
            }
            assert forall|h: int|
                0 <= h < self.vectors@.len() implies (#[trigger] self.vectors@[h]).wf()
                    && self.vectors@[h].bucket < self.storage.spec_buckets().len() by {
                assert(am.vectors@[h].wf());
            }
            assert(self.wf());
        }
        let ghost sw = *self;
        self.nodes.grow_arenas();
        proof {
            assert forall|i: int| 0 <= i < self.node_count() implies #[trigger] self.args_ok(
                i,
            ) by {
                if i < count {
                    assert(sw.args_ok(i));
                } else {
                    assert(self.nodes.slots@[i] == DagNodeCore::spec_cleared());
                }
            }
            assert forall|i: int, j: int, h: usize|
                0 <= i < self.node_count() && 0 <= j < self.node_count() && i != j
                    && #[trigger] self.owns_vector(i, h) implies !(#[trigger] self.owns_vector(
                j,
                h,
            )) by {
                if self.owns_vector(j, h) {
                    assert(i < count && j < count);
                    assert(sw.owns_vector(i, h) == self.owns_vector(i, h));
                    assert(sw.owns_vector(j, h) == self.owns_vector(j, h));
                }
            }
            assert(self.wf());
            // The finish phases keep every slot of the old epoch, so the mark
            // phase's guarantees carry to the final state.
            assert forall|n: usize|
                n < count && #[trigger] old(self).roots_reach(n) implies self.spec_marked(
                n as int,
            ) && Heap::node_preserved(*old(self), *self, n as int) by {
                assert(am.spec_marked(n as int));
                assert(self.nodes.slots@[n as int] == am.nodes.slots@[n as int]);
                assert(Heap::node_preserved(*old(self), am, n as int));
                assert(am.args_ok(n as int));
                match am.nodes.slots@[n as int].args {
                    NodeArgs::Vector(g) => {
                        assert(self.vectors@[g as int] == am.vectors@[g as int]);
                    },
                    _ => {},
                }
                assert(self.children_of(n as int) == am.children_of(n as int));
            }
            assert forall|i: int|
                0 <= i < self.node_count() && self.spec_marked(i) implies i < count && old(self).roots_reach(i as usize) by {
                if i >= count {
                    assert(self.nodes.slots@[i] == DagNodeCore::spec_cleared());
                } else {
                    assert(am.spec_marked(i));
                }
            }
            assert forall|i: int, h: usize|
                0 <= i < count && self.spec_marked(i) && #[trigger] self.owns_vector(i, h)
                    implies self.storage.spec_in_use_list().contains(
                self.vectors@[h as int].bucket,
            ) && (old(self).storage.spec_unused_list().contains(self.vectors@[h as int].bucket)
                || self.vectors@[h as int].bucket >= old(self).storage.spec_buckets().len()) by {
                assert(self.nodes.slots@[i] == am.nodes.slots@[i]);
                assert(am.owns_vector(i, h));
                assert(am.spec_marked(i));
                assert(am.storage.spec_in_use_list().contains(am.vectors@[h as int].bucket));
                assert(am.args_ok(i));
                assert(h < am.vectors@.len());
                assert(self.vectors@[h as int] == am.vectors@[h as int]);
                assert(self.storage.spec_in_use_list() == am.storage.spec_in_use_list());
            }
            // The marks are untouched after the mark phase, so the live count
            // stays exact.
            lemma_unmarked_below_agree(am.nodes.slots@, self.nodes.slots@, count);
            // The sizing result carries over verbatim: the finish phases do
            // not change the live count.
            assert(self.nodes.active_node_count == sw.nodes.active_node_count);
            assert(sw.nodes.arena_count == old(self).nodes.arena_count);
            assert(self.nodes.arena_count == sw.nodes.arena_count || (self.nodes.arena_count
                - 1) * ARENA_NODES * (UPPER_BOUND - LOWER_BOUND) < sw.nodes.active_node_count
                * slop_scaled(sw.nodes.active_node_count as int));
        }
    }
}

/// Signals a safe point: if either allocator wants a collection, the full
/// collection driver runs.
pub fn ok_to_collect_garbage(heap: &mut Heap)
    requires
        old(heap).wf(),
        old(heap).roots_live(),
        old(heap).storage.spec_retired_list().len() == 0,
        old(heap).nodes.arena_count < MAX_ARENAS / 8,
    ensures
        final(heap).wf(),
        final(heap).roots == old(heap).roots,
        final(heap).node_count() >= old(heap).node_count(),
        final(heap).storage.spec_retired_list().len() == 0,
        !(old(heap).nodes.need_to_collect_garbage || old(heap).storage.spec_want_gc()) ==> *final(heap) == *old(heap),
        forall|n: usize|
            n < old(heap).node_count() && #[trigger] old(heap).roots_reach(n) ==> Heap::node_preserved(*old(heap), *final(heap), n as int),
        // When either allocator wants a collection, the driver runs: the
        // want-flags are resolved, the cursor is reset, the live cone is
        // marked intact and counted, the relocation holds, and the arenas
        // are sized to the slop target.
        (old(heap).nodes.need_to_collect_garbage || old(heap).storage.spec_want_gc()) ==> ((old(heap).nodes.arena_count == 0 ==> *final(heap) == *old(heap)) && (old(heap).nodes.arena_count > 0 ==> final(heap).nodes.next_node == 0 && !final(heap).nodes.need_to_collect_garbage && final(heap).storage.spec_want_gc() == (final(heap).storage.spec_storage_in_use() > old(heap).storage.spec_target()) && final(heap).nodes.active_node_count as int == old(heap).node_count() - unmarked_below(
            final(heap).nodes.slots@,
            old(heap).node_count(),
        ) && final(heap).nodes.active_node_count <= old(heap).node_count() && final(heap).nodes.arena_count * ARENA_NODES * (UPPER_BOUND - LOWER_BOUND) >= final(heap).nodes.active_node_count * slop_scaled(final(heap).nodes.active_node_count as int) && (final(heap).nodes.arena_count == old(heap).nodes.arena_count || (final(heap).nodes.arena_count - 1) * ARENA_NODES * (UPPER_BOUND - LOWER_BOUND) < final(heap).nodes.active_node_count * slop_scaled(
            final(heap).nodes.active_node_count as int,
        ))) && (forall|n: usize|
            n < old(heap).node_count() && #[trigger] old(heap).roots_reach(n) ==> final(heap).spec_marked(n as int)) && (forall|i: int|
            0 <= i < final(heap).node_count() && final(heap).spec_marked(i) ==> i < old(heap).node_count() && old(heap).roots_reach(i as usize)) && (forall|i: int, h: usize|
            0 <= i < old(heap).node_count() && final(heap).spec_marked(i)
                && #[trigger] final(heap).owns_vector(i, h) ==> final(heap).storage.spec_in_use_list().contains(final(heap).vectors@[h as int].bucket) && (old(heap).storage.spec_unused_list().contains(final(heap).vectors@[h as int].bucket)
                || final(heap).vectors@[h as int].bucket >= old(heap).storage.spec_buckets().len()))),
{
    if heap.nodes.want_to_collect_garbage() || heap.storage.want_to_collect_garbage() {
        heap.collect_garbage();
        proof {
            if old(heap).nodes.arena_count == 0 {
                assert forall|n: usize|
                    n < old(heap).node_count() && #[trigger] old(heap).roots_reach(n)
                        implies Heap::node_preserved(*old(heap), *heap, n as int) by {}
            }
        }
    }
}

} // verus!
