/*!
The common header of every DAG node: symbol, argument discriminator, sort
index, theory tag, and the per-slot flag bits the allocator steers by.

Nodes are addressed by index into the allocator's slot array, never by
pointer, so the argument field is a small enum over node and vector indices
rather than a reinterpreted word.
*/

use vstd::prelude::*;

verus! {

/// Selects which theory variant a node represents. Consumers dispatch on it.
#[derive(Copy, Clone, Debug, Eq, PartialEq, Structural)]
pub enum DagNodeTheory {
    Free,
    Variable,
    Data,
}

/// The eight per-slot flag bits.
#[derive(Copy, Clone, Debug, Eq, PartialEq, Structural)]
pub enum DagNodeFlag {
    /// Marked as in use by the current mark phase.
    Marked,
    /// Has args that need destruction before the slot is reused.
    NeedsDestruction,
    /// Reduced up to strategy by equations.
    Reduced,
    /// Copied in the current copy operation.
    Copied,
    /// Reduced and not rewritable by rules.
    Unrewritable,
    /// Unrewritable and all subterms unstackable or frozen.
    Unstackable,
    /// No variables occur below this node.
    Ground,
    /// The node carries a valid hash value.
    HashValid,
}

/// A set of `DagNodeFlag`s, one boolean per bit.
#[derive(Copy, Clone, Debug, Eq, PartialEq, Structural)]
pub struct DagNodeFlags {
    pub marked: bool,
    pub needs_destruction: bool,
    pub reduced: bool,
    pub copied: bool,
    pub unrewritable: bool,
    pub unstackable: bool,
    pub ground: bool,
    pub hash_valid: bool,
}

impl DagNodeFlags {
    /// The all-clear flag set.
    pub open spec fn spec_empty() -> DagNodeFlags {
        DagNodeFlags {
            marked: false,
            needs_destruction: false,
            reduced: false,
            copied: false,
            unrewritable: false,
            unstackable: false,
            ground: false,
            hash_valid: false,
        }
    }

    pub fn empty() -> (r: DagNodeFlags)
        ensures
            r == DagNodeFlags::spec_empty(),
    {
        DagNodeFlags {
            marked: false,
            needs_destruction: false,
            reduced: false,
            copied: false,
            unrewritable: false,
            unstackable: false,
            ground: false,
            hash_valid: false,
        }
    }

    pub open spec fn spec_contains(self, flag: DagNodeFlag) -> bool {
        match flag {
            DagNodeFlag::Marked => self.marked,
            DagNodeFlag::NeedsDestruction => self.needs_destruction,
            DagNodeFlag::Reduced => self.reduced,
            DagNodeFlag::Copied => self.copied,
            DagNodeFlag::Unrewritable => self.unrewritable,
            DagNodeFlag::Unstackable => self.unstackable,
            DagNodeFlag::Ground => self.ground,
            DagNodeFlag::HashValid => self.hash_valid,
        }
    }

    pub fn contains(self, flag: DagNodeFlag) -> (r: bool)
        ensures
            r == self.spec_contains(flag),
    {
        match flag {
            DagNodeFlag::Marked => self.marked,
            DagNodeFlag::NeedsDestruction => self.needs_destruction,
            DagNodeFlag::Reduced => self.reduced,
            DagNodeFlag::Copied => self.copied,
            DagNodeFlag::Unrewritable => self.unrewritable,
            DagNodeFlag::Unstackable => self.unstackable,
            DagNodeFlag::Ground => self.ground,
            DagNodeFlag::HashValid => self.hash_valid,
        }
    }

    /// The same set with `flag` set.
    pub open spec fn spec_insert(self, flag: DagNodeFlag) -> DagNodeFlags {
        match flag {
            DagNodeFlag::Marked => DagNodeFlags { marked: true, ..self },
            DagNodeFlag::NeedsDestruction => DagNodeFlags { needs_destruction: true, ..self },
            DagNodeFlag::Reduced => DagNodeFlags { reduced: true, ..self },
            DagNodeFlag::Copied => DagNodeFlags { copied: true, ..self },
            DagNodeFlag::Unrewritable => DagNodeFlags { unrewritable: true, ..self },
            DagNodeFlag::Unstackable => DagNodeFlags { unstackable: true, ..self },
            DagNodeFlag::Ground => DagNodeFlags { ground: true, ..self },
            DagNodeFlag::HashValid => DagNodeFlags { hash_valid: true, ..self },
        }
    }

    pub fn insert(self, flag: DagNodeFlag) -> (r: DagNodeFlags)
        ensures
            r == self.spec_insert(flag),
    {
        match flag {
            DagNodeFlag::Marked => DagNodeFlags { marked: true, ..self },
            DagNodeFlag::NeedsDestruction => DagNodeFlags { needs_destruction: true, ..self },
            DagNodeFlag::Reduced => DagNodeFlags { reduced: true, ..self },
            DagNodeFlag::Copied => DagNodeFlags { copied: true, ..self },
            DagNodeFlag::Unrewritable => DagNodeFlags { unrewritable: true, ..self },
            DagNodeFlag::Unstackable => DagNodeFlags { unstackable: true, ..self },
            DagNodeFlag::Ground => DagNodeFlags { ground: true, ..self },
            DagNodeFlag::HashValid => DagNodeFlags { hash_valid: true, ..self },
        }
    }

    /// The same set with `flag` cleared.
    pub open spec fn spec_remove(self, flag: DagNodeFlag) -> DagNodeFlags {
        match flag {
            DagNodeFlag::Marked => DagNodeFlags { marked: false, ..self },
            DagNodeFlag::NeedsDestruction => DagNodeFlags { needs_destruction: false, ..self },
            DagNodeFlag::Reduced => DagNodeFlags { reduced: false, ..self },
            DagNodeFlag::Copied => DagNodeFlags { copied: false, ..self },
            DagNodeFlag::Unrewritable => DagNodeFlags { unrewritable: false, ..self },
            DagNodeFlag::Unstackable => DagNodeFlags { unstackable: false, ..self },
            DagNodeFlag::Ground => DagNodeFlags { ground: false, ..self },
            DagNodeFlag::HashValid => DagNodeFlags { hash_valid: false, ..self },
        }
    }

    pub fn remove(self, flag: DagNodeFlag) -> (r: DagNodeFlags)
        ensures
            r == self.spec_remove(flag),
    {
        match flag {
            DagNodeFlag::Marked => DagNodeFlags { marked: false, ..self },
            DagNodeFlag::NeedsDestruction => DagNodeFlags { needs_destruction: false, ..self },
            DagNodeFlag::Reduced => DagNodeFlags { reduced: false, ..self },
            DagNodeFlag::Copied => DagNodeFlags { copied: false, ..self },
            DagNodeFlag::Unrewritable => DagNodeFlags { unrewritable: false, ..self },
            DagNodeFlag::Unstackable => DagNodeFlags { unstackable: false, ..self },
            DagNodeFlag::Ground => DagNodeFlags { ground: false, ..self },
            DagNodeFlag::HashValid => DagNodeFlags { hash_valid: false, ..self },
        }
    }
}

/// The argument discriminator of a node: no children, a single child node,
/// or a vector of children held in bucket storage.
///
/// The `NeedsDestruction` flag and this enum agree on every well-formed slot:
/// the flag is set exactly when the arguments are vector-shaped.
#[derive(Copy, Clone, Debug, Eq, PartialEq, Structural)]
pub enum NodeArgs {
    /// Arity 0: no children.
    Empty,
    /// A single child, by node index.
    Single(usize),
    /// Two or more children, by index of a node vector in bucket storage.
    Vector(usize),
}

/// One fixed-size node slot.
#[derive(Copy, Clone, Debug, Eq, PartialEq, Structural)]
pub struct DagNodeCore {
    /// Index of the node's symbol in the owning module's symbol table.
    /// The allocator stores it and never interprets it.
    pub symbol: usize,
    /// Arity of the symbol, recorded at construction so that argument
    /// handling needs no symbol table.
    pub arity: u16,
    pub args: NodeArgs,
    /// Sort index within the kind; -1 means unknown.
    pub sort_index: i8,
    pub theory_tag: DagNodeTheory,
    pub flags: DagNodeFlags,
}

impl DagNodeCore {
    /// A reset slot, as `allocate_dag_node` hands it out: flags clear,
    /// no arguments, sort unknown.
    pub open spec fn spec_cleared() -> DagNodeCore {
        DagNodeCore {
            symbol: 0,
            arity: 0,
            args: NodeArgs::Empty,
            sort_index: -1i8,
            theory_tag: DagNodeTheory::Free,
            flags: DagNodeFlags::spec_empty(),
        }
    }

    pub fn cleared() -> (r: DagNodeCore)
        ensures
            r == DagNodeCore::spec_cleared(),
    {
        DagNodeCore {
            symbol: 0,
            arity: 0,
            args: NodeArgs::Empty,
            sort_index: -1i8,
            theory_tag: DagNodeTheory::Free,
            flags: DagNodeFlags::empty(),
        }
    }

    pub open spec fn spec_is_marked(self) -> bool {
        self.flags.marked
    }

    pub fn is_marked(&self) -> (r: bool)
        ensures
            r == self.spec_is_marked(),
    {
        self.flags.marked
    }

    pub open spec fn spec_needs_destruction(self) -> bool {
        self.flags.needs_destruction
    }

    pub fn needs_destruction(&self) -> (r: bool)
        ensures
            r == self.spec_needs_destruction(),
    {
        self.flags.needs_destruction
    }

    /// A slot with neither `Marked` nor `NeedsDestruction` may be overwritten
    /// without running any destructor.
    pub open spec fn spec_simple_reuse(self) -> bool {
        !self.flags.marked && !self.flags.needs_destruction
    }

    pub fn simple_reuse(&self) -> (r: bool)
        ensures
            r == self.spec_simple_reuse(),
    {
        !self.flags.marked && !self.flags.needs_destruction
    }

    pub fn symbol(&self) -> (r: usize)
        ensures
            r == self.symbol,
    {
        self.symbol
    }

    pub fn arity(&self) -> (r: u16)
        ensures
            r == self.arity,
    {
        self.arity
    }
}

} // verus!
