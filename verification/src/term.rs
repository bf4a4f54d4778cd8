/*!
The shared core of every term, and the free-theory term built on it.

Terms reference symbols, sorts and nodes by index; the matching and rewriting
machinery that consumes them lives above this crate's scope.
*/

use vstd::prelude::*;

verus! {

#[derive(Copy, Clone, Eq, PartialEq, Debug, Structural)]
pub enum TermKind {
    Free,
    Bound,
    Ground,
    NonGround,
}

/// One term attribute; `TermAttributes` holds one boolean per variant.
#[derive(Copy, Clone, Eq, PartialEq, Debug, Structural)]
pub enum TermAttribute {
    /// The top symbol cannot change under instantiation.
    Stable,
    /// The path to the root contains only eagerly evaluated positions.
    EagerContext,
    /// Matching never returns a subproblem when all variables are bound.
    HonorsGroundOutMatch,
}

#[derive(Copy, Clone, Eq, PartialEq, Debug, Structural)]
pub struct TermAttributes {
    pub stable: bool,
    pub eager_context: bool,
    pub honors_ground_out_match: bool,
}

impl TermAttributes {
    pub open spec fn spec_empty() -> TermAttributes {
        TermAttributes { stable: false, eager_context: false, honors_ground_out_match: false }
    }

    pub fn empty() -> (r: TermAttributes)
        ensures
            r == TermAttributes::spec_empty(),
    {
        TermAttributes { stable: false, eager_context: false, honors_ground_out_match: false }
    }
}

pub struct TermCore {
    /// The top symbol of the term, by symbol-table index.
    pub symbol: usize,
    /// Sort index, when one has been computed.
    pub sort: Option<usize>,
    /// Indices of the variable terms occurring in this term or below it.
    pub occurs_set: Vec<usize>,
    /// Indices of the variable terms occurring in the context.
    pub context_set: Vec<usize>,
    /// Symbols this term could collapse to.
    pub collapse_symbols: Vec<usize>,
    pub attributes: TermAttributes,
    pub term_kind: TermKind,
    pub save_index: i32,
    pub hash_value: u32,
    /// Number of nodes in the term tree; -1 until computed.
    pub cached_size: i32,
}

impl TermCore {
    pub fn new(symbol: usize) -> (r: TermCore)
        ensures
            r.symbol == symbol,
            r.sort is None,
            r.occurs_set@.len() == 0,
            r.context_set@.len() == 0,
            r.collapse_symbols@.len() == 0,
            r.attributes == TermAttributes::spec_empty(),
            r.term_kind == TermKind::Free,
            r.save_index == 0,
            r.hash_value == 0,
            r.cached_size == -1,
    {
        TermCore {
            symbol,
            sort: None,
            occurs_set: Vec::new(),
            context_set: Vec::new(),
            collapse_symbols: Vec::new(),
            attributes: TermAttributes::empty(),
            term_kind: TermKind::Free,
            save_index: 0,
            hash_value: 0,
            cached_size: -1,
        }
    }

    /// Whether the term's top symbol cannot change under instantiation.
    pub fn is_stable(&self) -> (r: bool)
        ensures
            r == self.attributes.stable,
    {
        self.attributes.stable
    }

    /// Whether matching never returns a subproblem once all variables are
    /// bound.
    pub fn honors_ground_out_match(&self) -> (r: bool)
        ensures
            r == self.attributes.honors_ground_out_match,
    {
        self.attributes.honors_ground_out_match
    }

    pub fn set_honors_ground_out_match(&mut self, value: bool)
        ensures
            *final(self) == (TermCore {
                attributes: TermAttributes {
                    honors_ground_out_match: value,
                    ..old(self).attributes
                },
                ..*old(self)
            }),
    {
        self.attributes.honors_ground_out_match = value;
    }

    pub fn is_eager_context(&self) -> (r: bool)
        ensures
            r == self.attributes.eager_context,
    {
        self.attributes.eager_context
    }

    /// Whether no variables occur in or below this term.
    pub fn ground(&self) -> (r: bool)
        ensures
            r == (self.occurs_set@.len() == 0),
    {
        self.occurs_set.len() == 0
    }

    pub fn symbol(&self) -> (r: usize)
        ensures
            r == self.symbol,
    {
        self.symbol
    }
}

/// A free-theory term: a symbol applied to argument terms.
pub struct FreeTerm {
    pub core: TermCore,
    pub args: Vec<FreeTerm>,
    /// Slot index assigned during compilation.
    pub slot_index: i32,
    pub visited: bool,
}

impl FreeTerm {
    pub fn new(symbol: usize) -> (r: FreeTerm)
        ensures
            r.core.symbol == symbol,
            r.args@.len() == 0,
            r.slot_index == 0,
            !r.visited,
    {
        FreeTerm { core: TermCore::new(symbol), args: Vec::new(), slot_index: 0, visited: false }
    }
}

} // verus!
