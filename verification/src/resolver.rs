//! The name resolver: a one-time lookup table from declared state names to
//! bounded numeric indices.
//!
//! Built once per compile from the declared state list, in declaration
//! order, so that a state's index is its position. Construction detects
//! duplicate state names — a program in which one name means two states is
//! rejected rather than silently shadowed. After construction the mapping
//! is immutable; lookups never allocate new indices.
use vstd::prelude::*;

use crate::error::{Error, ErrorV};
use crate::lowered::{StateIndex, MAX_STATES};
use crate::upper;
use crate::upper::StateU;

verus! {

/// The names of a state sequence, in declaration order.
pub open spec fn state_names(states: Seq<StateU>) -> Seq<Seq<char>> {
    states.map_values(|s: StateU| s.name)
}

/// The first position at or after `i` whose name is `name`, if any.
pub open spec fn find_name_from(names: Seq<Seq<char>>, name: Seq<char>, i: int) -> Option<int>
    decreases names.len() - i,
{
    if i < 0 || i >= names.len() {
        None
    } else if names[i] == name {
        Some(i)
    } else {
        find_name_from(names, name, i + 1)
    }
}

/// The index a name resolves to: the first declared state with that name.
pub open spec fn find_name(names: Seq<Seq<char>>, name: Seq<char>) -> Option<int> {
    find_name_from(names, name, 0)
}

/// A resolved index always points into the name list.
pub proof fn lemma_find_name_from_bounds(names: Seq<Seq<char>>, name: Seq<char>, i: int)
    ensures
        find_name_from(names, name, i) matches Some(k) ==> i <= k < names.len()
            && names[k] == name,
    decreases names.len() - i,
{
    if i < 0 || i >= names.len() {
    } else if names[i] == name {
    } else {
        lemma_find_name_from_bounds(names, name, i + 1);
    }
}

/// Whether the name at position `j` repeats an earlier one.
pub open spec fn dup_at(names: Seq<Seq<char>>, j: int) -> bool {
    exists|i: int| 0 <= i < j && names[i] == names[j]
}

/// The first name at or after position `j` that repeats an earlier one.
pub open spec fn first_dup_from(names: Seq<Seq<char>>, j: int) -> Option<Seq<char>>
    decreases names.len() - j,
{
    if j < 0 || j >= names.len() {
        None
    } else if dup_at(names, j) {
        Some(names[j])
    } else {
        first_dup_from(names, j + 1)
    }
}

/// The first duplicated state name, if any.
pub open spec fn first_dup(names: Seq<Seq<char>>) -> Option<Seq<char>> {
    first_dup_from(names, 0)
}

/// The name-to-index table. Its view is the declared name sequence; a
/// lookup resolves to the first position with the looked-up name.
pub struct StateTable {
    names: Vec<String>,
}

impl View for StateTable {
    type V = Seq<Seq<char>>;

    closed spec fn view(&self) -> Seq<Seq<char>> {
        self.names@.map_values(|n: String| n@)
    }
}

impl StateTable {
    /// A table is well formed when every position fits a one-byte index.
    pub open spec fn wf(&self) -> bool {
        self@.len() <= MAX_STATES
    }

    /// Builds the table from the declared states, rejecting the first
    /// duplicated name.
    pub fn new(states: &Vec<upper::State>) -> (r: Result<StateTable, Error>)
        requires
            states@.len() <= MAX_STATES,
        ensures
            match r {
                Ok(t) => t@ == state_names(states@.map_values(|s: upper::State| s@))
                    && first_dup(t@) is None && t.wf(),
                Err(e) => {
                    &&& first_dup(state_names(states@.map_values(|s: upper::State| s@)))
                        matches Some(n)
                    &&& e@ == ErrorV::DuplicateStateName(n)
                },
            },
    {
        let ghost all_names = state_names(states@.map_values(|s: upper::State| s@));
        proof {
            assert(all_names.len() == states@.len());
            assert forall|i: int| 0 <= i < states@.len() implies all_names[i]
                == states@[i].name@ by {
                assert(states@.map_values(|s: upper::State| s@)[i] == states@[i]@);
            }
        }
        let mut names: Vec<String> = Vec::new();
        let mut k: usize = 0;
        while k < states.len()
            invariant
                k <= states@.len(),
                all_names.len() == states@.len(),
                names@.len() == k,
                forall|i: int| 0 <= i < states@.len() ==> all_names[i] == (#[trigger] states@[i]).name@,
                forall|i: int| 0 <= i < k ==> (#[trigger] names@[i])@ == all_names[i],
            decreases states@.len() - k,
        {
            names.push(states[k].name.clone());
            k = k + 1;
        }
        proof {
            assert(names@.map_values(|n: String| n@) =~= all_names);
        }
        let mut j: usize = 1;
        while j < names.len()
            invariant
                1 <= j,
                all_names == state_names(states@.map_values(|s: upper::State| s@)),
                names@.map_values(|n: String| n@) == all_names,
                names@.len() == all_names.len(),
                first_dup(all_names) == first_dup_from(all_names, j as int),
            decreases names@.len() - j,
        {
            let mut i: usize = 0;
            while i < j
                invariant
                    i <= j < names@.len(),
                    all_names == state_names(states@.map_values(|s: upper::State| s@)),
                    names@.map_values(|n: String| n@) == all_names,
                    names@.len() == all_names.len(),
                    first_dup(all_names) == first_dup_from(all_names, j as int),
                    forall|q: int| 0 <= q < i ==> all_names[q] != all_names[j as int],
                decreases j - i,
            {
                proof {
                    assert(all_names[i as int] == names@.map_values(|n: String| n@)[i as int]);
                    assert(all_names[j as int] == names@.map_values(|n: String| n@)[j as int]);
                }
                if names[i] == names[j] {
                    proof {
                        assert(names@.map_values(|n: String| n@)[j as int] == names@[j as int]@);
                        assert(all_names[j as int] == names@[j as int]@);
                        assert(all_names[i as int] == all_names[j as int]);
                        assert(dup_at(all_names, j as int));
                        assert(first_dup_from(all_names, j as int) == Some(all_names[j as int]));
                    }
                    return Err(Error::DuplicateStateName(names[j].clone()));
                }
                i = i + 1;
            }
            proof {
                assert(!dup_at(all_names, j as int));
            }
            j = j + 1;
        }
        Ok(StateTable { names })
    }

    /// Resolves a state name to its index, or reports it as undeclared.
    pub fn get_index(&self, name: &String) -> (r: Result<StateIndex, Error>)
        requires
            self.wf(),
        ensures
            match find_name(self@, name@) {
                Some(i) => r matches Ok(ix) && ix@ == i && ix == StateIndex::from_int(i),
                None => r matches Err(e) && e@ == ErrorV::StateNotFound(name@),
            },
    {
        let mut i: usize = 0;
        while i < self.names.len()
            invariant
                i <= self@.len(),
                self.wf(),
                find_name(self@, name@) == find_name_from(self@, name@, i as int),
            decreases self@.len() - i,
        {
            if self.names[i] == *name {
                proof {
                    assert(self@[i as int] == name@);
                }
                return Ok(StateIndex::from_position(i));
            }
            proof {
                assert(self@[i as int] != name@);
            }
            i = i + 1;
        }
        Err(Error::StateNotFound(name.clone()))
    }

    /// How many states the table indexes.
    pub fn len(&self) -> (r: usize)
        ensures
            r == self@.len(),
    {
        self.names.len()
    }
}

} // verus!
