/*!
Symbols: names with an arity, attributes and a hash that orders them.

The hash packs the interned-string hash of the name into the low 24 bits and
the low 8 bits of the arity into the high 8 bits, so symbols order first by
(truncated) arity and then by name hash.
*/

use vstd::prelude::*;

verus! {

/// Arity of a symbol or sort.
#[derive(Copy, Clone, Eq, PartialEq, Debug, Structural)]
pub enum Arity {
    Any,
    Nil,
    Unspecified,
    Variadic,
    Value(u16),
}

#[derive(Copy, Clone, Eq, PartialEq, Debug, Structural)]
pub enum SymbolType {
    Standard,
    Variable,
    Operator,
    Data,
}

/// Syntactic, semantic and theory attributes a symbol may carry, one boolean
/// per flag bit.
#[derive(Copy, Clone, Eq, PartialEq, Debug, Structural)]
pub struct SymbolAttributes {
    pub precedence: bool,
    pub gather: bool,
    pub format: bool,
    pub latex: bool,
    pub strategy: bool,
    pub memoized: bool,
    pub frozen: bool,
    pub constructor: bool,
    pub associative: bool,
    pub commutative: bool,
    pub left_identity: bool,
    pub right_identity: bool,
    pub idempotent: bool,
    pub iterated: bool,
}

/// One attribute flag; `SymbolAttributes` holds one boolean per variant.
#[derive(Copy, Clone, Eq, PartialEq, Debug, Structural)]
pub enum SymbolAttribute {
    Precedence,
    Gather,
    Format,
    Latex,
    Strategy,
    Memoized,
    Frozen,
    Constructor,
    Associative,
    Commutative,
    LeftIdentity,
    RightIdentity,
    Idempotent,
    Iterated,
}

impl SymbolAttributes {
    pub open spec fn spec_empty() -> SymbolAttributes {
        SymbolAttributes {
            precedence: false,
            gather: false,
            format: false,
            latex: false,
            strategy: false,
            memoized: false,
            frozen: false,
            constructor: false,
            associative: false,
            commutative: false,
            left_identity: false,
            right_identity: false,
            idempotent: false,
            iterated: false,
        }
    }

    pub fn empty() -> (r: SymbolAttributes)
        ensures
            r == SymbolAttributes::spec_empty(),
    {
        SymbolAttributes {
            precedence: false,
            gather: false,
            format: false,
            latex: false,
            strategy: false,
            memoized: false,
            frozen: false,
            constructor: false,
            associative: false,
            commutative: false,
            left_identity: false,
            right_identity: false,
            idempotent: false,
            iterated: false,
        }
    }

    pub open spec fn spec_contains(self, a: SymbolAttribute) -> bool {
        match a {
            SymbolAttribute::Precedence => self.precedence,
            SymbolAttribute::Gather => self.gather,
            SymbolAttribute::Format => self.format,
            SymbolAttribute::Latex => self.latex,
            SymbolAttribute::Strategy => self.strategy,
            SymbolAttribute::Memoized => self.memoized,
            SymbolAttribute::Frozen => self.frozen,
            SymbolAttribute::Constructor => self.constructor,
            SymbolAttribute::Associative => self.associative,
            SymbolAttribute::Commutative => self.commutative,
            SymbolAttribute::LeftIdentity => self.left_identity,
            SymbolAttribute::RightIdentity => self.right_identity,
            SymbolAttribute::Idempotent => self.idempotent,
            SymbolAttribute::Iterated => self.iterated,
        }
    }

    pub fn contains(self, a: SymbolAttribute) -> (r: bool)
        ensures
            r == self.spec_contains(a),
    {
        match a {
            SymbolAttribute::Precedence => self.precedence,
            SymbolAttribute::Gather => self.gather,
            SymbolAttribute::Format => self.format,
            SymbolAttribute::Latex => self.latex,
            SymbolAttribute::Strategy => self.strategy,
            SymbolAttribute::Memoized => self.memoized,
            SymbolAttribute::Frozen => self.frozen,
            SymbolAttribute::Constructor => self.constructor,
            SymbolAttribute::Associative => self.associative,
            SymbolAttribute::Commutative => self.commutative,
            SymbolAttribute::LeftIdentity => self.left_identity,
            SymbolAttribute::RightIdentity => self.right_identity,
            SymbolAttribute::Idempotent => self.idempotent,
            SymbolAttribute::Iterated => self.iterated,
        }
    }
}

/// The hash that the interning store assigns to a string. For dynamic and
/// inline atoms it is a function of the characters alone.
pub uninterp spec fn interned_hash(s: Seq<char>) -> u64;

/// Relies on string_cache::DefaultAtom::get_hash: for a dynamic atom the
/// pre-computed hash of the string contents, for an inline atom (7 bytes or
/// fewer) the packed string bytes themselves — in both cases a function of
/// the string alone.
#[verifier::external_body]
fn atom_hash(name: &str) -> (r: u64)
    ensures
        r == interned_hash(name@),
{
    string_cache::DefaultAtom::from(name).get_hash()
}

/// The packed symbol hash: interned-string hash in the low 24 bits, low 8
/// bits of the arity in the high 8 bits.
pub open spec fn spec_symbol_hash(name: Seq<char>, arity: Arity) -> u32 {
    (interned_hash(name) & 0x00FF_FFFF) as u32 | (((arity_value(arity) & 0xFF) as u32) << 24)
}

/// The numeric arity used for hashing: the value of `Arity::Value`, zero for
/// every other arity kind.
pub open spec fn arity_value(arity: Arity) -> u16 {
    match arity {
        Arity::Value(v) => v,
        _ => 0u16,
    }
}

pub struct Symbol {
    pub name: String,
    pub arity: Arity,
    pub attributes: SymbolAttributes,
    pub symbol_type: SymbolType,
    /// Packed hash; gives a total order on symbols, by arity then name hash.
    pub hash_value: u32,
}

impl Symbol {
    /// Whether the symbol hash is the packed form of the name and arity.
    pub open spec fn hash_consistent(self) -> bool {
        self.hash_value == spec_symbol_hash(self.name@, self.arity)
    }

    pub fn new(name: String, arity: Arity) -> (r: Symbol)
        ensures
            r.name == name,
            r.arity == arity,
            r.attributes == SymbolAttributes::spec_empty(),
            r.symbol_type == SymbolType::Standard,
            r.hash_consistent(),
    {
        let arity_bits: u16 = match arity {
            Arity::Value(v) => v,
            _ => 0u16,
        };
        let low = (atom_hash(name.as_str()) & 0x00FF_FFFF) as u32;
        let high = ((arity_bits & 0xFF) as u32) << 24;
        let hash_value = low | high;
        Symbol {
            name,
            arity,
            attributes: SymbolAttributes::empty(),
            symbol_type: SymbolType::Standard,
            hash_value,
        }
    }

    pub fn is_variable(&self) -> (r: bool)
        ensures
            r == (self.symbol_type == SymbolType::Variable),
    {
        match self.symbol_type {
            SymbolType::Variable => true,
            _ => false,
        }
    }

    /// Compares two symbols by their packed hash values: negative for less,
    /// zero for equal, positive for greater.
    pub fn compare(&self, other: &Symbol) -> (r: i8)
        ensures
            r == -1i8 <==> self.hash_value < other.hash_value,
            r == 1i8 <==> self.hash_value > other.hash_value,
            r == 0i8 <==> self.hash_value == other.hash_value,
    {
        if self.hash_value < other.hash_value {
            -1
        } else if self.hash_value > other.hash_value {
            1
        } else {
            0
        }
    }
}

} // verus!
