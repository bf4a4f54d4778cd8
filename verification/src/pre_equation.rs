/*!
Attributes shared by equations, rules and membership axioms.
*/

use vstd::prelude::*;

verus! {

/// One statement attribute; `PreEquationAttributes` holds one boolean per
/// variant.
#[derive(Copy, Clone, Eq, PartialEq, Debug, Structural)]
pub enum PreEquationAttribute {
    Compiled,
    NonExecute,
    /// An "owise" equation.
    Otherwise,
    Variant,
    Print,
    Narrowing,
    /// A malformed statement.
    Bad,
}

#[derive(Copy, Clone, Eq, PartialEq, Debug, Structural)]
pub struct PreEquationAttributes {
    pub compiled: bool,
    pub non_execute: bool,
    pub otherwise: bool,
    pub variant: bool,
    pub print: bool,
    pub narrowing: bool,
    pub bad: bool,
}

impl PreEquationAttributes {
    pub open spec fn spec_empty() -> PreEquationAttributes {
        PreEquationAttributes {
            compiled: false,
            non_execute: false,
            otherwise: false,
            variant: false,
            print: false,
            narrowing: false,
            bad: false,
        }
    }

    pub fn empty() -> (r: PreEquationAttributes)
        ensures
            r == PreEquationAttributes::spec_empty(),
    {
        PreEquationAttributes {
            compiled: false,
            non_execute: false,
            otherwise: false,
            variant: false,
            print: false,
            narrowing: false,
            bad: false,
        }
    }

    pub open spec fn spec_contains(self, a: PreEquationAttribute) -> bool {
        match a {
            PreEquationAttribute::Compiled => self.compiled,
            PreEquationAttribute::NonExecute => self.non_execute,
            PreEquationAttribute::Otherwise => self.otherwise,
            PreEquationAttribute::Variant => self.variant,
            PreEquationAttribute::Print => self.print,
            PreEquationAttribute::Narrowing => self.narrowing,
            PreEquationAttribute::Bad => self.bad,
        }
    }

    pub fn contains(self, a: PreEquationAttribute) -> (r: bool)
        ensures
            r == self.spec_contains(a),
    {
        match a {
            PreEquationAttribute::Compiled => self.compiled,
            PreEquationAttribute::NonExecute => self.non_execute,
            PreEquationAttribute::Otherwise => self.otherwise,
            PreEquationAttribute::Variant => self.variant,
            PreEquationAttribute::Print => self.print,
            PreEquationAttribute::Narrowing => self.narrowing,
            PreEquationAttribute::Bad => self.bad,
        }
    }
}

} // verus!
