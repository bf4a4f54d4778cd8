/*!
Sorts, the collections that own them, and the kinds — connected components of
the subsort lattice. Sorts reference each other by index into their owning
collection.
*/

use vstd::prelude::*;
use vstd::string::StringExecFns;

use crate::symbol::Arity;

verus! {

/// A named type. Subsort edges are adjacency lists of indices into the
/// owning `SortCollection`.
pub struct Sort {
    pub name: String,
    /// Index of the sort within its kind.
    pub index_within_kind: usize,
    /// All sorts with index at or above this are subsorts.
    pub fast_compare_index: usize,
    /// Supersorts not yet placed during kind construction.
    pub unresolved_supersort_count: usize,
    pub subsorts: Vec<usize>,
    pub supersorts: Vec<usize>,
    /// Indices within the kind of all transitive subsorts.
    pub leq_sorts: Vec<usize>,
    /// The kind this sort belongs to, once computed.
    pub kind: Option<usize>,
}

impl Sort {
    pub fn new(name: String) -> (r: Sort)
        ensures
            r.name == name,
            r.index_within_kind == 0,
            r.subsorts@.len() == 0,
            r.supersorts@.len() == 0,
            r.leq_sorts@.len() == 0,
            r.kind is None,
    {
        Sort {
            name,
            index_within_kind: 0,
            fast_compare_index: 0,
            unresolved_supersort_count: 0,
            subsorts: Vec::new(),
            supersorts: Vec::new(),
            leq_sorts: Vec::new(),
            kind: None,
        }
    }

    /// `Arity::Any` for the special sort named "Any", `Arity::Nil` for the
    /// one named "None", and zero for every other sort.
    pub fn arity(&self) -> (r: Arity)
        ensures
            r == if self.name@ == "Any"@ {
                Arity::Any
            } else if self.name@ == "None"@ {
                Arity::Nil
            } else {
                Arity::Value(0u16)
            },
    {
        if self.name.eq(&String::from_str("Any")) {
            Arity::Any
        } else if self.name.eq(&String::from_str("None")) {
            Arity::Nil
        } else {
            Arity::Value(0)
        }
    }
}

/// Whether `name` occurs in the list of names.
pub open spec fn name_listed(name: Seq<char>, names: Seq<String>) -> bool {
    exists|j: int| 0 <= j < names.len() && name == (#[trigger] names[j])@
}

/// A set of uniquely named sorts, indexed densely.
pub struct SortCollection {
    pub sorts: Vec<Sort>,
}

impl SortCollection {
    pub open spec fn spec_names(self) -> Seq<Seq<char>> {
        self.sorts@.map_values(|s: Sort| s.name@)
    }

    /// No two sorts share a name.
    pub open spec fn names_unique(self) -> bool {
        forall|i: int, j: int|
            0 <= i < j < self.sorts@.len() ==> (#[trigger] self.sorts@[i].name@) != (
            #[trigger] self.sorts@[j].name@)
    }

    pub fn new() -> (r: SortCollection)
        ensures
            r.sorts@.len() == 0,
            r.names_unique(),
    {
        SortCollection { sorts: Vec::new() }
    }

    /// The index of the sort named `name`, creating the sort if the name is
    /// new. The result is the one index carrying that name.
    #[verifier::loop_isolation(false)]
    pub fn get_or_create_sort(&mut self, name: String) -> (r: usize)
        requires
            old(self).names_unique(),
        ensures
            final(self).names_unique(),
            r < final(self).sorts@.len(),
            final(self).sorts@[r as int].name@ == name@,
            forall|j: int|
                0 <= j < final(self).sorts@.len() && j != r ==> (#[trigger] final(self).sorts@[
                    j
                ].name@) != name@,
            old(self).spec_names().contains(name@) ==> final(self).sorts@ == old(self).sorts@,
            !old(self).spec_names().contains(name@) ==> final(self).sorts@ == old(self).sorts@.push(final(self).sorts@[r as int]) && r == old(self).sorts@.len(),
            final(self).sorts@.len() >= old(self).sorts@.len(),
            forall|k: int|
                0 <= k < old(self).sorts@.len() ==> final(self).sorts@[k] == old(self).sorts@[k],
    {
        let mut k: usize = 0;
        while k < self.sorts.len()
            invariant
                k <= self.sorts@.len(),
                *self == *old(self),
                forall|j: int| 0 <= j < k ==> self.sorts@[j].name@ != name@,
            decreases self.sorts@.len() - k,
        {
            if self.sorts[k].name.eq(&name) {
                proof {
                    assert(self.spec_names()[k as int] == name@);
                    assert(self.spec_names().contains(name@));
                    assert forall|j: int|
                        0 <= j < self.sorts@.len() && j != k implies (#[trigger] self.sorts@[
                        j
                    ].name@) != name@ by {
                        if j > k {
                            assert(old(self).sorts@[k as int].name@ != old(self).sorts@[
                                j
                            ].name@);
                        }
                    }
                }
                return k;
            }
            proof {
                assert(self.sorts@[k as int].name@ != name@);
            }
            k = k + 1;
        }
        let r = self.sorts.len();
        self.sorts.push(Sort::new(name));
        proof {
            if old(self).spec_names().contains(name@) {
                let j = choose|j: int|
                    0 <= j < old(self).spec_names().len() && old(self).spec_names()[j] == name@;
                assert(old(self).sorts@[j].name@ == name@);
            }
            assert forall|i: int, j: int|
                0 <= i < j < self.sorts@.len() implies (#[trigger] self.sorts@[i].name@) != (
            #[trigger] self.sorts@[j].name@) by {
                if j < r {
                    assert(old(self).sorts@[i].name@ != old(self).sorts@[j].name@);
                } else {
                    assert(self.sorts@[j].name@ == name@);
                }
            }
        }
        r
    }

    /// Creates a sort for every name in the list that is not yet present:
    /// afterwards every listed name has its sort, every sort beyond the old
    /// ones carries a listed name, and at most one sort per listed name was
    /// added.
    #[verifier::loop_isolation(false)]
    pub fn create_implicit_sorts(&mut self, sort_names: &Vec<String>)
        requires
            old(self).names_unique(),
        ensures
            final(self).names_unique(),
            final(self).sorts@.len() >= old(self).sorts@.len(),
            final(self).sorts@.len() <= old(self).sorts@.len() + sort_names@.len(),
            forall|k: int|
                0 <= k < old(self).sorts@.len() ==> final(self).sorts@[k] == old(self).sorts@[k],
            forall|j: int|
                0 <= j < sort_names@.len() ==> final(self).spec_names().contains(
                    #[trigger] sort_names@[j]@,
                ),
            forall|k: int|
                old(self).sorts@.len() <= k < final(self).sorts@.len() ==> name_listed(
                    (#[trigger] final(self).sorts@[k]).name@,
                    sort_names@,
                ),
    {
        let mut i: usize = 0;
        while i < sort_names.len()
            invariant
                i <= sort_names@.len(),
                self.names_unique(),
                self.sorts@.len() >= old(self).sorts@.len(),
                self.sorts@.len() <= old(self).sorts@.len() + i,
                forall|k: int|
                    0 <= k < old(self).sorts@.len() ==> self.sorts@[k] == old(self).sorts@[k],
                forall|j: int|
                    0 <= j < i ==> self.spec_names().contains(#[trigger] sort_names@[j]@),
                forall|k: int|
                    old(self).sorts@.len() <= k < self.sorts@.len() ==> name_listed(
                        (#[trigger] self.sorts@[k]).name@,
                        sort_names@,
                    ),
            decreases sort_names@.len() - i,
        {
            let ghost pre = *self;
            let name = sort_names[i].clone();
            proof {
                assert(name@ == sort_names@[i as int]@);
            }
            let r = self.get_or_create_sort(name);
            proof {
                assert(self.sorts@[r as int].name@ == sort_names@[i as int]@);
                assert(self.spec_names()[r as int] == sort_names@[i as int]@);
                assert(self.spec_names().contains(sort_names@[i as int]@));
                assert forall|j: int|
                    0 <= j < i implies self.spec_names().contains(
                    #[trigger] sort_names@[j]@,
                ) by {
                    let m = choose|m: int|
                        0 <= m < pre.spec_names().len() && pre.spec_names()[m]
                            == sort_names@[j]@;
                    assert(self.spec_names()[m] == sort_names@[j]@);
                }
                assert forall|k: int|
                    old(self).sorts@.len() <= k < self.sorts@.len() implies name_listed(
                    (#[trigger] self.sorts@[k]).name@,
                    sort_names@,
                ) by {
                    if k < pre.sorts@.len() {
                        assert(self.sorts@[k] == pre.sorts@[k]);
                        assert(name_listed(pre.sorts@[k].name@, sort_names@));
                    } else {
                        assert(self.sorts@[k].name@ == sort_names@[i as int]@);
                        assert(name_listed(self.sorts@[k].name@, sort_names@));
                    }
                }
            }
            i = i + 1;
        }
    }

    /// Antisymmetrically records `other` as a subsort of `this`.
    pub fn insert_subsort(&mut self, this: usize, other: usize)
        requires
            this < old(self).sorts@.len(),
            other < old(self).sorts@.len(),
            this != other,
        ensures
            final(self).sorts@.len() == old(self).sorts@.len(),
            final(self).sorts@[this as int].name@ == old(self).sorts@[this as int].name@,
            final(self).sorts@[other as int].name@ == old(self).sorts@[other as int].name@,
            final(self).sorts@[this as int].subsorts@ == old(self).sorts@[
                this as int
            ].subsorts@.push(other),
            final(self).sorts@[other as int].supersorts@ == old(self).sorts@[
                other as int
            ].supersorts@.push(this),
            forall|k: int|
                0 <= k < old(self).sorts@.len() && k != this && k != other ==> final(self).sorts@[k] == old(self).sorts@[k],
    {
        let mut sub = self.sorts[this].subsorts.clone();
        sub.push(other);
        let mut this_sort = Sort {
            name: self.sorts[this].name.clone(),
            subsorts: sub,
            supersorts: self.sorts[this].supersorts.clone(),
            leq_sorts: self.sorts[this].leq_sorts.clone(),
            ..*&self.sorts[this]
        };
        proof {
            assert(this_sort.name@ == self.sorts@[this as int].name@);
        }
        self.sorts.set(this, this_sort);
        let mut sup = self.sorts[other].supersorts.clone();
        sup.push(this);
        let other_sort = Sort {
            name: self.sorts[other].name.clone(),
            subsorts: self.sorts[other].subsorts.clone(),
            supersorts: sup,
            leq_sorts: self.sorts[other].leq_sorts.clone(),
            ..*&self.sorts[other]
        };
        self.sorts.set(other, other_sort);
    }

    pub fn len(&self) -> (r: usize)
        ensures
            r == self.sorts@.len(),
    {
        self.sorts.len()
    }

    /// The indices of all sorts, in order.
    pub fn iter(&self) -> (r: Vec<usize>)
        ensures
            r@.len() == self.sorts@.len(),
            forall|k: int| 0 <= k < r@.len() ==> r@[k] == k,
    {
        let mut r: Vec<usize> = Vec::new();
        let mut k: usize = 0;
        while k < self.sorts.len()
            invariant
                k <= self.sorts@.len(),
                r@.len() == k,
                forall|j: int| 0 <= j < k ==> r@[j] == j,
            decreases self.sorts@.len() - k,
        {
            r.push(k);
            k = k + 1;
        }
        r
    }
}

/// A connected component of the subsort lattice.
pub struct Kind {
    /// How many of the kind's sorts are maximal.
    pub maximal_sort_count: u32,
    /// Used during construction to detect cycles.
    pub visited_sort_count: u32,
    /// Whether the kind is acyclic.
    pub error_free: bool,
    /// Indices of the member sorts in the owning collection.
    pub sorts: Vec<usize>,
}

impl Kind {
    /// Appends a sort to the kind and returns its index within the kind.
    pub fn append_sort(&mut self, sort: usize) -> (r: usize)
        ensures
            final(self).sorts@ == old(self).sorts@.push(sort),
            r == old(self).sorts@.len(),
            final(self).maximal_sort_count == old(self).maximal_sort_count,
            final(self).visited_sort_count == old(self).visited_sort_count,
            final(self).error_free == old(self).error_free,
    {
        self.sorts.push(sort);
        self.sorts.len() - 1
    }
}

/// A cycle found while closing the subsort relation.
pub enum KindError {
    /// The component could not be linearly ordered.
    CycleDetected { problem_sort: usize, kind: Kind },
    /// The component has no maximal sorts.
    NoMaximalSort { problem_sort: usize, kind: Kind },
}

/// A generalization of a sort that additionally permits functors.
pub enum SortSpec {
    Sort(usize),
    Functor { arg_sorts: Vec<SortSpec>, sort_spec: Box<SortSpec> },
    Any,
    Nil,
}

impl SortSpec {
    /// The arity: that of the referenced sort, the argument count of a
    /// functor, `Any` for the any-spec, and unspecified otherwise.
    pub fn arity(&self, sorts: &SortCollection) -> (r: Arity)
        requires
            self matches SortSpec::Sort(s) ==> s < sorts.sorts@.len(),
            self matches SortSpec::Functor { arg_sorts, .. } ==> arg_sorts@.len() <= u16::MAX,
        ensures
            self matches SortSpec::Any ==> r == Arity::Any,
            self matches SortSpec::Nil ==> r == Arity::Unspecified,
            (self matches SortSpec::Functor { arg_sorts, .. } ==> r == Arity::Value(
                arg_sorts@.len() as u16,
            )),
            (self matches SortSpec::Sort(s) ==> r == (if sorts.sorts@[s as int].name@ == "Any"@ {
                Arity::Any
            } else if sorts.sorts@[s as int].name@ == "None"@ {
                Arity::Nil
            } else {
                Arity::Value(0u16)
            })),
    {
        match self {
            SortSpec::Sort(s) => sorts.sorts[*s].arity(),
            SortSpec::Functor { arg_sorts, .. } => Arity::Value(arg_sorts.len() as u16),
            SortSpec::Any => Arity::Any,
            SortSpec::Nil => Arity::Unspecified,
        }
    }
}

/// How far a module's construction has progressed.
#[derive(Copy, Clone, Eq, PartialEq, Debug, Structural)]
pub enum ModuleStatus {
    Open,
    SortSetClosed,
    SignatureClosed,
    FixUpsClosed,
    TheoryClosed,
    StackMachineCompiled,
}

} // verus!
