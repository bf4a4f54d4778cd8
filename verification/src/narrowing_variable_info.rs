/*!
The variable registry used during narrowing: a dense map from variable index
to the DAG node standing for the variable.
*/

use vstd::prelude::*;

verus! {

pub struct NarrowingVariableInfo {
    /// The node standing for each variable, by variable index; a slot may be
    /// empty.
    pub variables: Vec<Option<usize>>,
}

impl NarrowingVariableInfo {
    pub fn new() -> (r: NarrowingVariableInfo)
        ensures
            r.variables@.len() == 0,
    {
        NarrowingVariableInfo { variables: Vec::new() }
    }

    pub fn variable_count(&self) -> (r: usize)
        ensures
            r == self.variables@.len(),
    {
        self.variables.len()
    }

    /// The node registered for variable `index`, if any.
    pub fn index_to_variable(&self, index: usize) -> (r: Option<usize>)
        ensures
            index < self.variables@.len() ==> r == self.variables@[index as int],
            index >= self.variables@.len() ==> r is None,
    {
        if index < self.variables.len() {
            self.variables[index]
        } else {
            None
        }
    }

    /// The index registered for the node `variable`, if any.
    pub fn variable_to_index_without_insert(&self, variable: usize) -> (r: Option<usize>)
        ensures
            r matches Some(i) ==> i < self.variables@.len() && self.variables@[i as int] == Some(
                variable,
            ),
            r is None ==> forall|j: int|
                0 <= j < self.variables@.len() ==> self.variables@[j] != Some(variable),
    {
        let mut k: usize = 0;
        while k < self.variables.len()
            invariant
                k <= self.variables@.len(),
                forall|j: int| 0 <= j < k ==> self.variables@[j] != Some(variable),
            decreases self.variables@.len() - k,
        {
            match self.variables[k] {
                Some(v) => {
                    if v == variable {
                        return Some(k);
                    }
                },
                None => {},
            }
            k = k + 1;
        }
        None
    }

    /// The index registered for the node `variable`, registering it at the
    /// end when it is new.
    pub fn variable_to_index(&mut self, variable: usize) -> (r: usize)
        ensures
            r < final(self).variables@.len(),
            final(self).variables@[r as int] == Some(variable),
            final(self).variables@ == old(self).variables@ || final(self).variables@ == old(
                self,
            ).variables@.push(Some(variable)),
    {
        let existing = self.variable_to_index_without_insert(variable);
        match existing {
            Some(i) => i,
            None => {
                let r = self.variables.len();
                self.variables.push(Some(variable));
                r
            },
        }
    }

    /// The registered (index, node) pairs, in index order.
    pub fn iter(&self) -> (r: Vec<(usize, usize)>)
        ensures
            forall|k: int|
                0 <= k < r@.len() ==> (#[trigger] r@[k]).0 < self.variables@.len()
                    && self.variables@[r@[k].0 as int] == Some(r@[k].1),
    {
        let mut r: Vec<(usize, usize)> = Vec::new();
        let mut k: usize = 0;
        while k < self.variables.len()
            invariant
                k <= self.variables@.len(),
                forall|j: int|
                    0 <= j < r@.len() ==> (#[trigger] r@[j]).0 < self.variables@.len()
                        && self.variables@[r@[j].0 as int] == Some(r@[j].1),
            decreases self.variables@.len() - k,
        {
            match self.variables[k] {
                Some(v) => {
                    r.push((k, v));
                },
                None => {},
            }
            k = k + 1;
        }
        r
    }
}

} // verus!
