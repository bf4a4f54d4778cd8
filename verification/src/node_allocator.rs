/*!
The mark-sweep arena allocator for DAG nodes.

Arenas are blocks of exactly `ARENA_NODES` fixed-size slots, held flat in one
vector and never freed; a node reference is an index into it. Allocation
scans forward from `next_node`, sweeping lazily as it goes: an unmarked slot
is handed out (running the destructor when the slot owns side data), a marked
slot has its mark cleared and is skipped. When the scan reaches the end of
the last arena it first opens that arena's reserve region — arming the
want-collection flag — and only then appends a new arena.

Key invariants, kept in `wf`:
- everything behind the scan cursor is unmarked (the swept region is clean);
- every marked slot lies at or below the `last_active_node` high-water mark,
  so the tidy pass of a collection reaches every mark the lazy sweep missed;
- once the cursor has entered the final reserve region, the want-collection
  flag is armed.
*/

use vstd::prelude::*;

use crate::dag_node_core::{DagNodeCore, DagNodeFlag, DagNodeFlags, NodeArgs};
use crate::string_join::{spec_decimal, u64_to_string};
use vstd::string::StringExecFns;

verus! {

/// Slots per arena.
pub const ARENA_NODES: usize = 5460;

/// Slack kept at the tail of the last arena; entering it arms the
/// want-collection flag.
pub const RESERVE_SLOTS: usize = 256;

/// Ceiling on the number of arenas the model manages.
pub const MAX_ARENAS: usize = 0x6_0000;

/// Below this many live nodes the small-heap slop factor applies.
pub const LOWER_BOUND: usize = 4 * 1024 * 1024;

/// At or above this many live nodes the large-heap slop factor applies.
pub const UPPER_BOUND: usize = 32 * 1024 * 1024;

/// How one lazy-sweep pass may change a slot it does not hand out: left
/// alone, or with just its mark cleared.
pub open spec fn slot_swept(pre: DagNodeCore, post: DagNodeCore) -> bool {
    ||| post == pre
    ||| post == DagNodeCore { flags: pre.flags.spec_remove(DagNodeFlag::Marked), ..pre }
}

/// The slop factor for `active` live nodes, scaled by `UPPER_BOUND -
/// LOWER_BOUND` so that it stays an integer: 8 at a small heap, 2 at a large
/// one, linear in between.
pub open spec fn slop_scaled(active: int) -> int {
    if active < LOWER_BOUND {
        8 * (UPPER_BOUND - LOWER_BOUND)
    } else if active >= UPPER_BOUND {
        2 * (UPPER_BOUND - LOWER_BOUND)
    } else {
        2 * (UPPER_BOUND - LOWER_BOUND) + 6 * (UPPER_BOUND - active)
    }
}

pub struct NodeAllocator {
    /// All node slots, arena after arena.
    pub slots: Vec<DagNodeCore>,
    /// Number of arenas; `slots` holds `arena_count * ARENA_NODES` entries.
    pub arena_count: usize,
    /// Arena the scan cursor is in.
    pub current_arena: usize,
    /// Scan cursor: next slot the lazy sweep will look at.
    pub next_node: usize,
    /// Scan bound within the current arena.
    pub end_pointer: usize,
    /// High-water mark of the previous collection: no mark lies above it.
    pub last_active_node: usize,
    /// Whether the cursor has moved past the high-water arena this epoch.
    pub current_arena_past_active_arena: bool,
    pub need_to_collect_garbage: bool,
    /// Nodes handed out or marked live since the last collection began.
    pub active_node_count: usize,
}

impl NodeAllocator {
    pub open spec fn spec_capacity(self) -> int {
        self.slots@.len() as int
    }

    pub open spec fn spec_marked(self, i: int) -> bool {
        self.slots@[i].flags.marked
    }

    pub open spec fn wf(self) -> bool {
        &&& self.slots@.len() == self.arena_count * ARENA_NODES
        &&& self.arena_count <= MAX_ARENAS
        &&& if self.arena_count == 0 {
            self.current_arena == 0 && self.next_node == 0 && self.end_pointer == 0
                && self.last_active_node == 0
        } else {
            &&& self.current_arena < self.arena_count
            &&& self.current_arena * ARENA_NODES <= self.next_node
            &&& self.next_node <= self.end_pointer
            &&& self.end_pointer <= (self.current_arena + 1) * ARENA_NODES
            &&& self.last_active_node < self.slots@.len()
        }
        &&& forall|i: int|
            0 <= i < self.next_node ==> !(#[trigger] self.slots@[i]).flags.marked
        &&& forall|i: int|
            0 <= i < self.slots@.len() && (#[trigger] self.slots@[i]).flags.marked ==> i
                <= self.last_active_node
        &&& (self.arena_count > 0 && self.current_arena_past_active_arena
            ==> self.last_active_node < self.next_node)
        &&& (self.arena_count > 0 && self.end_pointer + RESERVE_SLOTS > self.slots@.len()
            ==> self.need_to_collect_garbage)
        &&& (self.arena_count > 0 ==> if self.current_arena == self.arena_count - 1 {
            self.end_pointer == self.slots@.len() || self.end_pointer + RESERVE_SLOTS
                == self.slots@.len()
        } else {
            self.end_pointer == (self.current_arena + 1) * ARENA_NODES
        })
    }

    pub fn new() -> (r: NodeAllocator)
        ensures
            r.wf(),
            r.spec_capacity() == 0,
            r.active_node_count == 0,
            !r.need_to_collect_garbage,
    {
        NodeAllocator {
            slots: Vec::new(),
            arena_count: 0,
            current_arena: 0,
            next_node: 0,
            end_pointer: 0,
            last_active_node: 0,
            current_arena_past_active_arena: true,
            need_to_collect_garbage: false,
            active_node_count: 0,
        }
    }

    /// Whether the allocator has garbage it wants collected.
    pub fn want_to_collect_garbage(&self) -> (r: bool)
        ensures
            r == self.need_to_collect_garbage,
    {
        self.need_to_collect_garbage
    }

    /// Nodes handed out or found live since the last collection began.
    pub fn active_node_count(&self) -> (r: usize)
        ensures
            r == self.active_node_count,
    {
        self.active_node_count
    }

    /// Counts one more live node, as the mark phase does.
    pub fn increment_active_node_count(&mut self)
        requires
            old(self).active_node_count < usize::MAX,
        ensures
            *final(self) == (NodeAllocator {
                active_node_count: (old(self).active_node_count + 1) as usize,
                ..*old(self)
            }),
    {
        self.active_node_count = self.active_node_count + 1;
    }

    /// Appends one arena of cleared slots. Cursors are the caller's business.
    #[verifier::loop_isolation(false)]
    fn allocate_new_arena(&mut self)
        requires
            old(self).slots@.len() == old(self).arena_count * ARENA_NODES,
            old(self).arena_count < MAX_ARENAS,
        ensures
            final(self).arena_count == old(self).arena_count + 1,
            final(self).slots@.len() == final(self).arena_count * ARENA_NODES,
            final(self).slots@.len() == old(self).slots@.len() + ARENA_NODES,
            forall|i: int|
                0 <= i < old(self).slots@.len() ==> final(self).slots@[i] == old(self).slots@[i],
            forall|i: int|
                old(self).slots@.len() <= i < final(self).slots@.len() ==> final(self).slots@[i]
                    == DagNodeCore::spec_cleared(),
            final(self).current_arena == old(self).current_arena,
            final(self).next_node == old(self).next_node,
            final(self).end_pointer == old(self).end_pointer,
            final(self).last_active_node == old(self).last_active_node,
            final(self).current_arena_past_active_arena == old(self).current_arena_past_active_arena,
            final(self).need_to_collect_garbage == old(self).need_to_collect_garbage,
            final(self).active_node_count == old(self).active_node_count,
    {
        let mut added: usize = 0;
        while added < ARENA_NODES
            invariant
                added <= ARENA_NODES,
                self.slots@.len() == old(self).slots@.len() + added,
                forall|i: int|
                    0 <= i < old(self).slots@.len() ==> self.slots@[i] == old(self).slots@[i],
                forall|i: int|
                    old(self).slots@.len() <= i < self.slots@.len() ==> self.slots@[i]
                        == DagNodeCore::spec_cleared(),
                self.arena_count == old(self).arena_count,
                self.current_arena == old(self).current_arena,
                self.next_node == old(self).next_node,
                self.end_pointer == old(self).end_pointer,
                self.last_active_node == old(self).last_active_node,
                self.current_arena_past_active_arena == old(self).current_arena_past_active_arena,
                self.need_to_collect_garbage == old(self).need_to_collect_garbage,
                self.active_node_count == old(self).active_node_count,
            decreases ARENA_NODES - added,
        {
            self.slots.push(DagNodeCore::cleared());
            added = added + 1;
        }
        self.arena_count = self.arena_count + 1;
        proof {
            let ghost ac = self.arena_count as int;
            let ghost ac0 = old(self).arena_count as int;
            assert(ac * ARENA_NODES == ac0 * ARENA_NODES + ARENA_NODES) by (nonlinear_arith)
                requires
                    ac == ac0 + 1,
            ;
        }
    }

    /// Allocates one node slot: scans forward from the cursor, sweeping
    /// lazily, and falls back to `slow_new_dag_node` when the current arena
    /// is exhausted. Always succeeds; the returned slot is reset (flags
    /// clear, no arguments, sort unknown).
    #[verifier::loop_isolation(false)]
    pub fn allocate_dag_node(&mut self) -> (r: usize)
        requires
            old(self).wf(),
            old(self).arena_count < MAX_ARENAS,
            old(self).active_node_count < usize::MAX,
        ensures
            final(self).wf(),
            final(self).slots@.len() >= old(self).slots@.len(),
            final(self).arena_count <= old(self).arena_count + 1,
            r < final(self).slots@.len(),
            final(self).slots@[r as int] == DagNodeCore::spec_cleared(),
            final(self).next_node == r + 1,
            final(self).active_node_count == old(self).active_node_count + 1,
            final(self).last_active_node == old(self).last_active_node,
            r >= old(self).next_node || old(self).arena_count == 0,
            r <= old(self).slots@.len(),
            // First fit: every slot the scan passed over was marked, so no
            // reusable slot is skipped and no arena is appended while one
            // remains.
            forall|i: int| old(self).next_node <= i < r ==> old(self).spec_marked(i),
            forall|i: int|
                0 <= i < old(self).slots@.len() && i != r ==> slot_swept(
                    old(self).slots@[i],
                    final(self).slots@[i],
                ),
            forall|i: int|
                old(self).slots@.len() <= i < final(self).slots@.len() && i != r ==> final(self).slots@[i] == DagNodeCore::spec_cleared(),
            forall|i: int|
                0 <= i < old(self).next_node ==> final(self).slots@[i] == old(self).slots@[i],
            final(self).need_to_collect_garbage == (old(self).need_to_collect_garbage || (old(self).arena_count > 0 && r + 1 + RESERVE_SLOTS > old(self).slots@.len())),
    {
        loop
            invariant
                self.wf(),
                forall|i: int|
                    old(self).next_node <= i < self.next_node ==> old(self).spec_marked(i),
                self.arena_count == old(self).arena_count,
                self.current_arena == old(self).current_arena,
                self.end_pointer == old(self).end_pointer,
                self.need_to_collect_garbage == old(self).need_to_collect_garbage,
                self.last_active_node == old(self).last_active_node,
                self.active_node_count == old(self).active_node_count,
                self.current_arena_past_active_arena == old(self).current_arena_past_active_arena,
                self.slots@.len() == old(self).slots@.len(),
                self.next_node >= old(self).next_node,
                forall|i: int|
                    0 <= i < self.slots@.len() ==> slot_swept(
                        old(self).slots@[i],
                        #[trigger] self.slots@[i],
                    ),
                forall|i: int|
                    0 <= i < old(self).next_node ==> self.slots@[i] == old(self).slots@[i],
                forall|i: int|
                    self.next_node <= i < self.slots@.len() ==> self.slots@[i] == old(self).slots@[i],
            decreases self.end_pointer - self.next_node + 1,
        {
            if self.arena_count == 0 || self.next_node == self.end_pointer {
                let ghost pre_slow = *self;
                let r = self.slow_new_dag_node();
                self.active_node_count = self.active_node_count + 1;
                proof {
                    assert forall|i: int|
                        old(self).next_node <= i < r implies old(self).spec_marked(i) by {
                        if i >= pre_slow.next_node {
                            assert(pre_slow.spec_marked(i));
                            assert(pre_slow.slots@[i] == old(self).slots@[i]);
                        }
                    }
                }
                return r;
            }
            let i = self.next_node;
            assert(i < self.slots@.len());
            let slot = self.slots[i];
            if slot.simple_reuse() {
                // No mark, no side data: plain reuse.
                self.slots.set(i, DagNodeCore::cleared());
                self.next_node = i + 1;
                self.active_node_count = self.active_node_count + 1;
                return i;
            }
            if !slot.is_marked() {
                // Unmarked but owning side data: run the destructor — the
                // argument vector is abandoned to its bucket — then reuse.
                self.slots.set(i, DagNodeCore::cleared());
                self.next_node = i + 1;
                self.active_node_count = self.active_node_count + 1;
                return i;
            }
            // Marked: this is the deferred sweep. Clear the mark and move on.
            self.slots.set(
                i,
                DagNodeCore { flags: slot.flags.remove(DagNodeFlag::Marked), ..slot },
            );
            self.next_node = i + 1;
        }
    }

    /// The slow allocation path: opens the last arena's reserve (arming the
    /// want-collection flag), moves the cursor to the next arena, or appends
    /// a new arena, scanning as it goes.
    #[verifier::rlimit(60)]
    #[verifier::loop_isolation(false)]
    fn slow_new_dag_node(&mut self) -> (r: usize)
        requires
            old(self).wf(),
            old(self).arena_count < MAX_ARENAS,
            old(self).arena_count == 0 || old(self).next_node == old(self).end_pointer,
        ensures
            final(self).wf(),
            final(self).slots@.len() >= old(self).slots@.len(),
            final(self).arena_count <= old(self).arena_count + 1,
            r < final(self).slots@.len(),
            final(self).slots@[r as int] == DagNodeCore::spec_cleared(),
            final(self).next_node == r + 1,
            final(self).active_node_count == old(self).active_node_count,
            final(self).last_active_node == old(self).last_active_node,
            r >= old(self).next_node || old(self).arena_count == 0,
            r <= old(self).slots@.len(),
            // The reserve is consumed before a new arena is appended: every
            // slot passed over, up to the end of the last arena, was marked.
            forall|i: int| old(self).next_node <= i < r ==> old(self).spec_marked(i),
            forall|i: int|
                0 <= i < old(self).slots@.len() && i != r ==> slot_swept(
                    old(self).slots@[i],
                    final(self).slots@[i],
                ),
            forall|i: int|
                old(self).slots@.len() <= i < final(self).slots@.len() && i != r ==> final(self).slots@[i] == DagNodeCore::spec_cleared(),
            forall|i: int|
                0 <= i < old(self).next_node ==> final(self).slots@[i] == old(self).slots@[i],
            final(self).need_to_collect_garbage == (old(self).need_to_collect_garbage || (old(self).arena_count > 0 && r + 1 + RESERVE_SLOTS > old(self).slots@.len())),
    {
        loop
            invariant
                self.wf(),
                forall|i: int|
                    old(self).next_node <= i < self.next_node ==> old(self).spec_marked(i),
                self.arena_count == old(self).arena_count,
                self.arena_count > 0 ==> self.next_node == self.end_pointer,
                self.arena_count == 0 ==> *self == *old(self),
                self.slots@.len() == old(self).slots@.len(),
                self.last_active_node == old(self).last_active_node,
                self.active_node_count == old(self).active_node_count,
                self.next_node >= old(self).next_node,
                self.need_to_collect_garbage && !old(self).need_to_collect_garbage ==> (
                self.current_arena == self.arena_count - 1 && self.end_pointer
                    == self.slots@.len() && self.next_node + RESERVE_SLOTS >= self.slots@.len()),
                old(self).need_to_collect_garbage ==> self.need_to_collect_garbage,
                forall|i: int|
                    0 <= i < self.slots@.len() ==> slot_swept(
                        old(self).slots@[i],
                        #[trigger] self.slots@[i],
                    ),
                forall|i: int|
                    0 <= i < old(self).next_node ==> self.slots@[i] == old(self).slots@[i],
            decreases self.slots@.len() - self.end_pointer,
        {
            if self.arena_count == 0 {
                // The very first allocation: create the first arena, which as
                // the last arena gets a reserve region.
                self.allocate_new_arena();
                self.current_arena = 0;
                self.end_pointer = ARENA_NODES - RESERVE_SLOTS;
                self.slots.set(0, DagNodeCore::cleared());
                self.next_node = 1;
                return 0;
            }
            if self.current_arena == self.arena_count - 1 {
                // The cursor sits at the end of the last arena.
                self.need_to_collect_garbage = true;
                let end_node = self.slots.len();
                if self.end_pointer != end_node {
                    // Open the reserve region to honor this allocation.
                    self.next_node = self.end_pointer;
                    self.end_pointer = end_node;
                } else {
                    // Reserve exhausted too: append a fresh arena and hand
                    // out its first slot. The appended arena gets no reserve.
                    proof {
                        vstd::arithmetic::div_mod::lemma_fundamental_div_mod(
                            self.last_active_node as int,
                            ARENA_NODES as int,
                        );
                    }
                    if self.current_arena == self.last_active_node / ARENA_NODES {
                        self.current_arena_past_active_arena = true;
                    }
                    let first = self.slots.len();
                    self.allocate_new_arena();
                    self.current_arena = self.current_arena + 1;
                    self.end_pointer = self.slots.len();
                    self.slots.set(first, DagNodeCore::cleared());
                    self.next_node = first + 1;
                    proof {
                        assert(self.current_arena * ARENA_NODES <= first) by (nonlinear_arith)
                            requires
                                self.current_arena * ARENA_NODES + ARENA_NODES == self.slots@.len(),
                                first + ARENA_NODES == self.slots@.len(),
                        ;
                    }
                    return first;
                }
            } else {
                // Move the cursor to the next arena.
                proof {
                    vstd::arithmetic::div_mod::lemma_fundamental_div_mod(
                        self.last_active_node as int,
                        ARENA_NODES as int,
                    );
                }
                if self.current_arena == self.last_active_node / ARENA_NODES {
                    self.current_arena_past_active_arena = true;
                }
                self.current_arena = self.current_arena + 1;
                self.next_node = self.current_arena * ARENA_NODES;
                self.end_pointer = if self.current_arena == self.arena_count - 1 {
                    self.current_arena * ARENA_NODES + (ARENA_NODES - RESERVE_SLOTS)
                } else {
                    (self.current_arena + 1) * ARENA_NODES
                };
                proof {
                    assert((self.current_arena + 1) * ARENA_NODES <= self.arena_count
                        * ARENA_NODES) by (nonlinear_arith)
                        requires
                            self.current_arena < self.arena_count,
                    ;
                }
            }
            // Lazy sweep over the slots now in view.
            let ghost scan_entry = *self;
            while self.next_node < self.end_pointer
                invariant
                    self.wf(),
                    forall|i: int|
                        old(self).next_node <= i < self.next_node ==> old(self).spec_marked(i),
                    self.end_pointer == scan_entry.end_pointer,
                    self.current_arena == scan_entry.current_arena,
                    self.current_arena_past_active_arena
                        == scan_entry.current_arena_past_active_arena,
                    self.need_to_collect_garbage == scan_entry.need_to_collect_garbage,
                    self.arena_count == old(self).arena_count,
                    self.slots@.len() == old(self).slots@.len(),
                    self.last_active_node == old(self).last_active_node,
                    self.active_node_count == old(self).active_node_count,
                    self.next_node >= old(self).next_node,
                    self.need_to_collect_garbage && !old(self).need_to_collect_garbage
                        ==> (self.current_arena == self.arena_count - 1 && self.end_pointer
                        == self.slots@.len() && self.next_node + RESERVE_SLOTS
                        >= self.slots@.len()),
                    old(self).need_to_collect_garbage ==> self.need_to_collect_garbage,
                    forall|i: int|
                        0 <= i < self.slots@.len() ==> slot_swept(
                            old(self).slots@[i],
                            #[trigger] self.slots@[i],
                        ),
                    forall|i: int|
                        0 <= i < old(self).next_node ==> self.slots@[i] == old(self).slots@[i],
                decreases self.end_pointer - self.next_node,
            {
                let i = self.next_node;
                assert(i < self.slots@.len());
                let slot = self.slots[i];
                if slot.simple_reuse() {
                    self.slots.set(i, DagNodeCore::cleared());
                    self.next_node = i + 1;
                    return i;
                }
                if !slot.is_marked() {
                    self.slots.set(i, DagNodeCore::cleared());
                    self.next_node = i + 1;
                    return i;
                }
                self.slots.set(
                    i,
                    DagNodeCore { flags: slot.flags.remove(DagNodeFlag::Marked), ..slot },
                );
                self.next_node = i + 1;
            }
        }
    }

    /// The tidy pass that opens a collection: finishes the lazy sweep over
    /// the stretch between the scan cursor and the previous high-water mark,
    /// clearing marks and running outstanding destructors, and computes the
    /// new high-water mark. Afterwards no slot anywhere is marked.
    #[verifier::loop_isolation(false)]
    pub(crate) fn sweep_arenas(&mut self)
        requires
            old(self).wf(),
            old(self).arena_count > 0,
        ensures
            final(self).wf(),
            final(self).slots@.len() == old(self).slots@.len(),
            final(self).arena_count == old(self).arena_count,
            final(self).current_arena == old(self).current_arena,
            final(self).next_node == old(self).next_node,
            final(self).end_pointer == old(self).end_pointer,
            final(self).need_to_collect_garbage == old(self).need_to_collect_garbage,
            final(self).active_node_count == old(self).active_node_count,
            final(self).current_arena_past_active_arena == old(self).current_arena_past_active_arena,
            forall|i: int| 0 <= i < final(self).slots@.len() ==> !final(self).spec_marked(i),
            forall|i: int|
                0 <= i < old(self).slots@.len() && old(self).spec_marked(i) ==> final(self).slots@[i] == (DagNodeCore {
                    flags: old(self).slots@[i].flags.spec_remove(DagNodeFlag::Marked),
                    ..old(self).slots@[i]
                }),
            forall|i: int|
                0 <= i < old(self).next_node ==> final(self).slots@[i] == old(self).slots@[i],
            forall|i: int|
                old(self).last_active_node < i < old(self).slots@.len() ==> final(self).slots@[i]
                    == old(self).slots@[i],
            forall|i: int|
                old(self).next_node <= i <= old(self).last_active_node && !old(self).spec_marked(
                    i,
                ) ==> final(self).slots@[i] == (if old(self).slots@[i].flags.needs_destruction {
                    DagNodeCore {
                        args: NodeArgs::Empty,
                        flags: DagNodeFlags::spec_empty(),
                        ..old(self).slots@[i]
                    }
                } else {
                    DagNodeCore { flags: DagNodeFlags::spec_empty(), ..old(self).slots@[i] }
                }),
            final(self).last_active_node + 1 >= old(self).next_node,
            final(self).last_active_node < final(self).slots@.len(),
            forall|i: int|
                0 <= i < old(self).slots@.len() && old(self).spec_marked(i) ==> i <= final(self).last_active_node,
            // The new high-water mark is exact: the last surviving mark, or
            // the slot just before the scan cursor when there was none.
            final(self).last_active_node as int == (if old(self).next_node == 0 {
                0int
            } else {
                old(self).next_node - 1
            }) || old(self).spec_marked(final(self).last_active_node as int),
    {
        let mut new_last_active: usize = if self.next_node == 0 {
            0
        } else {
            self.next_node - 1
        };
        if !self.current_arena_past_active_arena {
            let stop = self.last_active_node;
            let mut i = self.next_node;
            while i <= stop
                invariant
                    self.wf(),
                    stop == old(self).last_active_node,
                    i >= old(self).next_node,
                    stop < self.slots@.len(),
                    *self == (NodeAllocator { slots: self.slots, ..*old(self) }),
                    self.slots@.len() == old(self).slots@.len(),
                    forall|j: int|
                        0 <= j < self.slots@.len() && !(old(self).next_node <= j < i)
                            ==> self.slots@[j] == old(self).slots@[j],
                    forall|j: int|
                        stop < j < self.slots@.len() ==> self.slots@[j] == old(self).slots@[j],
                    forall|j: int|
                        old(self).next_node <= j < i && old(self).spec_marked(j)
                            ==> self.slots@[j] == (DagNodeCore {
                            flags: old(self).slots@[j].flags.spec_remove(DagNodeFlag::Marked),
                            ..old(self).slots@[j]
                        }),
                    forall|j: int|
                        old(self).next_node <= j < i && !old(self).spec_marked(j)
                            ==> self.slots@[j] == (if old(self).slots@[
                            j
                        ].flags.needs_destruction {
                            DagNodeCore {
                                args: NodeArgs::Empty,
                                flags: DagNodeFlags::spec_empty(),
                                ..old(self).slots@[j]
                            }
                        } else {
                            DagNodeCore {
                                flags: DagNodeFlags::spec_empty(),
                                ..old(self).slots@[j]
                            }
                        }),
                    forall|j: int| 0 <= j < i ==> !(#[trigger] self.slots@[j]).flags.marked,
                    new_last_active < self.slots@.len(),
                    new_last_active + 1 >= old(self).next_node,
                    new_last_active <= i,
                    new_last_active as int == (if old(self).next_node == 0 {
                        0int
                    } else {
                        old(self).next_node - 1
                    }) || old(self).spec_marked(new_last_active as int),
                    forall|j: int|
                        old(self).next_node <= j < i && old(self).spec_marked(j) ==> j
                            <= new_last_active,
                decreases stop + 1 - i,
            {
                let slot = self.slots[i];
                if slot.is_marked() {
                    new_last_active = i;
                    self.slots.set(
                        i,
                        DagNodeCore { flags: slot.flags.remove(DagNodeFlag::Marked), ..slot },
                    );
                } else {
                    if slot.needs_destruction() {
                        // Run the destructor: the argument vector is
                        // abandoned to its bucket.
                        self.slots.set(
                            i,
                            DagNodeCore {
                                args: NodeArgs::Empty,
                                flags: DagNodeFlags::empty(),
                                ..slot
                            },
                        );
                    } else {
                        self.slots.set(
                            i,
                            DagNodeCore {
                                flags: DagNodeFlags::empty(),
                                ..slot
                            },
                        );
                    }
                }
                i = i + 1;
            }
        }
        self.last_active_node = new_last_active;
    }

    /// Grows the arena list until total capacity covers the live-node count
    /// times the slop factor, so that collections stay rare, then resets the
    /// scan cursor to the first slot of the first arena. The last arena of a
    /// single-arena heap keeps its reserve region.
    #[verifier::rlimit(60)]
    #[verifier::loop_isolation(false)]
    pub(crate) fn grow_arenas(&mut self)
        requires
            old(self).wf(),
            old(self).arena_count > 0,
            old(self).active_node_count <= old(self).slots@.len(),
            old(self).arena_count < MAX_ARENAS / 8,
        ensures
            final(self).wf(),
            final(self).arena_count >= old(self).arena_count,
            final(self).arena_count < MAX_ARENAS,
            final(self).slots@.len() == final(self).arena_count * ARENA_NODES,
            forall|i: int|
                0 <= i < old(self).slots@.len() ==> final(self).slots@[i] == old(self).slots@[i],
            forall|i: int|
                old(self).slots@.len() <= i < final(self).slots@.len() ==> final(self).slots@[i]
                    == DagNodeCore::spec_cleared(),
            final(self).current_arena == 0,
            final(self).next_node == 0,
            final(self).end_pointer == if final(self).arena_count == 1 {
                (ARENA_NODES - RESERVE_SLOTS) as int
            } else {
                ARENA_NODES as int
            },
            !final(self).current_arena_past_active_arena,
            !final(self).need_to_collect_garbage,
            final(self).last_active_node == old(self).last_active_node,
            final(self).active_node_count == old(self).active_node_count,
            // Capacity adequacy: total slots cover the live count times the
            // slop factor (both sides scaled by the interpolation range).
            final(self).arena_count * ARENA_NODES * (UPPER_BOUND - LOWER_BOUND) >= old(
            self).active_node_count * slop_scaled(old(self).active_node_count as int),
            // And no more than needed: the count stays, or one arena fewer
            // would not reach the slop target.
            final(self).arena_count == old(self).arena_count || (final(self).arena_count - 1)
                * ARENA_NODES * (UPPER_BOUND - LOWER_BOUND) < old(self).active_node_count
                * slop_scaled(old(self).active_node_count as int),
    {
        let active = self.active_node_count;
        let range: u64 = (UPPER_BOUND - LOWER_BOUND) as u64;
        let scaled: u64 = if active < LOWER_BOUND {
            8 * range
        } else if active >= UPPER_BOUND {
            2 * range
        } else {
            2 * range + 6 * ((UPPER_BOUND - active) as u64)
        };
        let ghost a = active as int;
        let ghost sc = scaled as int;
        proof {
            assert(sc == slop_scaled(a));
            let ghost ac0 = old(self).arena_count as int;
            assert(a <= 0xC_0000 * 5460) by (nonlinear_arith)
                requires
                    a <= ac0 * 5460,
                    ac0 <= 0xC_0000,
            ;
            assert(sc <= 8 * 29360128);
            assert(a * sc <= 0x40_0000_0000_0000_0000) by (nonlinear_arith)
                requires
                    0 <= a <= 0x1_0000_0000,
                    0 <= sc <= 0x40_0000_0000,
            ;
        }
        let demand: u128 = (active as u128) * (scaled as u128);
        let unit: u128 = (ARENA_NODES as u128) * (range as u128);
        assert(unit == 5460 * 29360128);
        let ideal_wide: u128 = (demand + (unit - 1)) / unit;
        proof {
            let ghost d = demand as int;
            let ghost u = unit as int;
            let ghost q = ideal_wide as int;
            assert(d == a * sc);
            vstd::arithmetic::div_mod::lemma_fundamental_div_mod(d + (u - 1), u);
            assert(q == (d + (u - 1)) / u);
            assert(q * u >= d && q * u <= d + (u - 1)) by (nonlinear_arith)
                requires
                    d + (u - 1) == u * ((d + (u - 1)) / u) + (d + (u - 1)) % u,
                    0 <= (d + (u - 1)) % u < u,
                    q == (d + (u - 1)) / u,
                    u == 5460 * 29360128,
                    d >= 0,
            ;
            let ghost ac0 = old(self).arena_count as int;
            assert(q <= 8 * ac0) by (nonlinear_arith)
                requires
                    q * u >= d,
                    q * u <= d + (u - 1),
                    d == a * sc,
                    a <= ac0 * 5460,
                    0 <= sc <= 8 * 29360128,
                    a >= 0,
                    ac0 >= 1,
                    u == 5460 * 29360128,
            ;
        }
        let ideal: usize = ideal_wide as usize;
        while self.arena_count < ideal
            invariant
                ideal_wide as int <= 8 * old(self).arena_count,
                ideal == ideal_wide,
                self.arena_count >= old(self).arena_count,
                self.arena_count == old(self).arena_count || self.arena_count <= ideal,
                self.arena_count <= MAX_ARENAS,
                self.slots@.len() == self.arena_count * ARENA_NODES,
                forall|i: int|
                    0 <= i < old(self).slots@.len() ==> self.slots@[i] == old(self).slots@[i],
                forall|i: int|
                    old(self).slots@.len() <= i < self.slots@.len() ==> self.slots@[i]
                        == DagNodeCore::spec_cleared(),
                self.current_arena == old(self).current_arena,
                self.next_node == old(self).next_node,
                self.end_pointer == old(self).end_pointer,
                self.last_active_node == old(self).last_active_node,
                self.current_arena_past_active_arena == old(
                self).current_arena_past_active_arena,
                self.need_to_collect_garbage == old(self).need_to_collect_garbage,
                self.active_node_count == old(self).active_node_count,
            decreases ideal - self.arena_count,
        {
            self.allocate_new_arena();
        }
        // Reset the scan cursor to the first slot of the first arena.
        self.current_arena = 0;
        self.next_node = 0;
        self.end_pointer = if self.arena_count == 1 {
            ARENA_NODES - RESERVE_SLOTS
        } else {
            ARENA_NODES
        };
        self.current_arena_past_active_arena = false;
        self.need_to_collect_garbage = false;
        proof {
            let ghost acf = self.arena_count as int;
            assert(acf >= ideal_wide as int || acf == old(self).arena_count);
            assert(self.slots@.len() >= ARENA_NODES) by (nonlinear_arith)
                requires
                    self.slots@.len() == acf * 5460,
                    acf >= 1,
            ;
            assert(acf * ARENA_NODES * (UPPER_BOUND - LOWER_BOUND) >= a * sc) by (nonlinear_arith)
                requires
                    acf >= ideal_wide as int,
                    (ideal_wide as int) * (5460 * 29360128) >= a * sc,
                    ideal_wide as int >= 0,
                    ARENA_NODES == 5460,
                    UPPER_BOUND - LOWER_BOUND == 29360128,
            ;
            if acf != old(self).arena_count {
                assert(acf == ideal_wide as int);
                assert((acf - 1) * (5460 * 29360128) < a * sc) by (nonlinear_arith)
                    requires
                        acf == ideal_wide as int,
                        (ideal_wide as int) * (5460 * 29360128) <= a * sc + (5460 * 29360128
                            - 1),
                        acf >= 1,
                ;
                assert((acf - 1) * ARENA_NODES * (UPPER_BOUND - LOWER_BOUND) < a * sc)
                    by (nonlinear_arith)
                    requires
                        (acf - 1) * (5460 * 29360128) < a * sc,
                        ARENA_NODES == 5460,
                        UPPER_BOUND - LOWER_BOUND == 29360128,
                        acf >= 1,
                ;
            }
        }
    }
}

/// Marked-bit neutrality: in a well-formed allocator — the state between any
/// two public calls — no slot behind the scan cursor is marked. The lazy
/// sweep clears every mark it passes, so outside a collection cycle a live,
/// already-swept slot never shows a mark.
pub proof fn lemma_swept_region_unmarked(a: NodeAllocator, i: int)
    requires
        a.wf(),
        0 <= i < a.next_node,
    ensures
        !a.spec_marked(i),
{
}

/// A destroyed slot is disarmed: both sweep paths reset the slot's flags
/// when they run its destructor, so the destructor cannot run again until
/// `allocate_dag_node` hands the slot out and the mutator re-arms it by
/// installing a new argument vector.
pub proof fn lemma_destroyed_slot_disarmed(pre: DagNodeCore)
    ensures
        !(DagNodeCore {
            args: NodeArgs::Empty,
            flags: DagNodeFlags::spec_empty(),
            ..pre
        }).flags.needs_destruction,
        !(DagNodeCore::spec_cleared()).flags.needs_destruction,
{
}

/// The text form of a boolean.
pub open spec fn spec_bool_str(b: bool) -> Seq<char> {
    if b {
        "true"@
    } else {
        "false"@
    }
}

/// One `label: value` line of the state dump.
pub open spec fn spec_dump_line(label: Seq<char>, value: Seq<char>) -> Seq<char> {
    label + ": "@ + value + "\n"@
}

/// The whole state dump of the allocator, line by line.
pub open spec fn spec_dump(a: NodeAllocator) -> Seq<char> {
    spec_dump_line("arena_count"@, spec_decimal(a.arena_count as int)) + spec_dump_line(
        "active_node_count"@,
        spec_decimal(a.active_node_count as int),
    ) + spec_dump_line("need_to_collect_garbage"@, spec_bool_str(a.need_to_collect_garbage))
        + spec_dump_line(
        "current_arena_past_active_arena"@,
        spec_bool_str(a.current_arena_past_active_arena),
    ) + spec_dump_line("current_arena"@, spec_decimal(a.current_arena as int)) + spec_dump_line(
        "next_node"@,
        spec_decimal(a.next_node as int),
    ) + spec_dump_line("end_pointer"@, spec_decimal(a.end_pointer as int)) + spec_dump_line(
        "last_active_node"@,
        spec_decimal(a.last_active_node as int),
    )
}

fn bool_str(b: bool) -> (r: &'static str)
    ensures
        r@ == spec_bool_str(b),
{
    if b {
        "true"
    } else {
        "false"
    }
}

impl NodeAllocator {
    /// The state of the allocator, one `label: value` line per variable, for
    /// diagnostics.
    #[verifier::rlimit(100)]
    pub fn dump_memory_variables(&self) -> (r: String)
        ensures
            r@ == spec_dump(*self),
    {
        proof {
            reveal_strlit(": ");
            reveal_strlit("\n");
        }
        let mut r = String::new();
        r.append("arena_count");
        r.append(": ");
        r.append(u64_to_string(self.arena_count as u64).as_str());
        r.append("\n");
        r.append("active_node_count");
        r.append(": ");
        r.append(u64_to_string(self.active_node_count as u64).as_str());
        r.append("\n");
        r.append("need_to_collect_garbage");
        r.append(": ");
        r.append(bool_str(self.need_to_collect_garbage));
        r.append("\n");
        r.append("current_arena_past_active_arena");
        r.append(": ");
        r.append(bool_str(self.current_arena_past_active_arena));
        r.append("\n");
        r.append("current_arena");
        r.append(": ");
        r.append(u64_to_string(self.current_arena as u64).as_str());
        r.append("\n");
        r.append("next_node");
        r.append(": ");
        r.append(u64_to_string(self.next_node as u64).as_str());
        r.append("\n");
        r.append("end_pointer");
        r.append(": ");
        r.append(u64_to_string(self.end_pointer as u64).as_str());
        r.append("\n");
        r.append("last_active_node");
        r.append(": ");
        r.append(u64_to_string(self.last_active_node as u64).as_str());
        r.append("\n");
        proof {
            assert(r@ =~= spec_dump(*self));
        }
        r
    }
}

} // verus!
