/*!
A garbage-collected arena allocator for fixed-size DAG nodes, paired with a
copying bump allocator for the variable-sized argument vectors the nodes own.
A single mark traversal serves both allocators: nodes are reclaimed by a lazy
sweep folded into later allocation, and argument vectors are relocated into
fresh buckets while the mark runs.
*/

use vstd::prelude::*;

pub mod bucket;
pub mod format;
pub mod dag_node_core;
pub mod gc_vector;
pub mod heap;
pub mod narrowing_variable_info;
pub mod node_allocator;
pub mod pre_equation;
pub mod sort;
pub mod string_join;
pub mod symbol;
pub mod term;
pub mod variable;
pub mod storage_allocator;

verus! {

pub fn add(left: u64, right: u64) -> (r: u64)
    requires
        left + right <= u64::MAX,
    ensures
        r == left + right,
{
    left + right
}

} // verus!
