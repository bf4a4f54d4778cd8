/*!
Pattern variables and their binding kinds.
*/

use vstd::prelude::*;
use vstd::string::StringExecFns;

verus! {

/// What a variable may bind to: one term, a sequence of one or more terms,
/// or a possibly empty sequence.
#[derive(Copy, Clone, Debug, PartialEq, Eq, Structural)]
pub enum VariableType {
    /// A singleton wildcard (a blank).
    Blank,
    /// A one-or-more wildcard (a blank sequence).
    Sequence,
    /// A zero-or-more wildcard (a blank null sequence).
    NullSequence,
}

#[derive(Copy, Clone, Debug, PartialEq, Eq, Structural)]
pub struct Variable {
    /// The variable's symbol, by symbol-table index.
    pub symbol: usize,
    pub variable_type: VariableType,
}

impl Variable {
    /// The variable rendered as its symbol's name followed by one underscore
    /// per binding strength: `name_`, `name__` or `name___`.
    pub fn repr(&self, name: &str) -> (r: String)
        ensures
            self.variable_type == VariableType::Blank ==> r@ == name@ + "_"@,
            self.variable_type == VariableType::Sequence ==> r@ == name@ + "__"@,
            self.variable_type == VariableType::NullSequence ==> r@ == name@ + "___"@,
    {
        let s = String::from_str(name);
        match self.variable_type {
            VariableType::Blank => s.concat("_"),
            VariableType::Sequence => s.concat("__"),
            VariableType::NullSequence => s.concat("___"),
        }
    }
}

} // verus!
