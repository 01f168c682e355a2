//! The registry: every known unit, by name, in the one order that counts.

use vstd::prelude::*;
use crate::error::{ConfigurationFault, ErrorView, MigrationError};
use crate::names::{clone_names, names_of, position_of};

verus! {

/// What is wrong with the entry at `index`, if anything: it is empty, or an
/// earlier entry has its name.
pub open spec fn defect_at(names: Seq<Seq<char>>, index: int) -> Option<ConfigurationFault> {
    if names[index].len() == 0 {
        Some(ConfigurationFault::EmptyName)
    } else if names.take(index).contains(names[index]) {
        Some(ConfigurationFault::DuplicateName)
    } else {
        None
    }
}

/// A list of names that can serve as a registry: no name is empty and none
/// occurs twice.
pub open spec fn well_formed(names: Seq<Seq<char>>) -> bool {
    &&& forall|i: int| 0 <= i < names.len() ==> (#[trigger] names[i]).len() > 0
    &&& names.no_duplicates()
}

/// A list of names is well formed exactly when no entry has a defect.
pub proof fn lemma_well_formed_iff_no_defect(names: Seq<Seq<char>>)
    ensures
        well_formed(names) <==> forall|i: int|
            0 <= i < names.len() ==> (#[trigger] defect_at(names, i)) is None,
{
    if well_formed(names) {
        assert forall|i: int| 0 <= i < names.len() implies (#[trigger] defect_at(names, i))
            is None by {
            if names.take(i).contains(names[i]) {
                let j = choose|j: int| 0 <= j < names.take(i).len() && names.take(i)[j] == names[i];
                assert(names[j] == names[i]);
            }
        }
    }
    if forall|i: int| 0 <= i < names.len() ==> (#[trigger] defect_at(names, i)) is None {
        assert forall|i: int| 0 <= i < names.len() implies (#[trigger] names[i]).len() > 0 by {
            assert(defect_at(names, i) is None);
        }
        assert forall|a: int, b: int| 0 <= a < names.len() && 0 <= b < names.len() && a != b implies names[a]
            != names[b] by {
            let (lo, hi) = if a < b {
                (a, b)
            } else {
                (b, a)
            };
            assert(defect_at(names, hi) is None);
            assert(names.take(hi)[lo] == names[lo]);
        }
    }
}

/// The ordered, immutable list of all known units.
///
/// The order of the list is the only order the runner knows: a unit comes
/// before another exactly when it stands earlier here.
#[derive(Clone, Debug, PartialEq, Eq)]
pub struct Registry {
    names: Vec<String>,
}

impl View for Registry {
    type V = Seq<Seq<char>>;

    closed spec fn view(&self) -> Seq<Seq<char>> {
        names_of(self.names@)
    }
}

impl Registry {
    /// The invariant of a registry.
    pub open spec fn wf(&self) -> bool {
        well_formed(self@)
    }

    /// Builds the registry from the unit names in their order.
    ///
    /// Refuses the list at its first entry that is empty or repeats an
    /// earlier one.
    pub fn new(names: Vec<String>) -> (made: Result<Registry, MigrationError>)
        ensures
            made is Ok <==> well_formed(names_of(names@)),
            made matches Ok(registry) ==> registry@ == names_of(names@) && registry.wf(),
            made matches Err(error) ==> exists|i: int|
                {
                    &&& 0 <= i < names.len()
                    &&& forall|j: int| 0 <= j < i ==> (#[trigger] defect_at(names_of(names@), j)) is None
                    &&& #[trigger] defect_at(names_of(names@), i) matches Some(defect)
                    &&& error@ == (ErrorView::Configuration {
                        name: names@[i]@,
                        index: i as nat,
                        defect,
                    })
                },
    {
        let ghost all = names_of(names@);
        let mut i: usize = 0;
        while i < names.len()
            invariant
                i <= names.len(),
                all == names_of(names@),
                forall|j: int| 0 <= j < i ==> (#[trigger] defect_at(all, j)) is None,
            decreases names.len() - i,
        {
            let found = if names[i].as_str().is_empty() {
                Some(ConfigurationFault::EmptyName)
            } else {
                match position_of(&names, &names[i]) {
                    Some(first) => {
                        if first < i {
                            assert(all.take(i as int)[first as int] == all[i as int]);
                            Some(ConfigurationFault::DuplicateName)
                        } else {
                            assert(!all.take(i as int).contains(all[i as int])) by {
                                if all.take(i as int).contains(all[i as int]) {
                                    let j = choose|j: int|
                                        0 <= j < all.take(i as int).len() && all.take(i as int)[j]
                                            == all[i as int];
                                    assert(names@[j]@ == all[j]);
                                }
                            }
                            None
                        }
                    },
                    None => {
                        assert(all[i as int] == names@[i as int]@);
                        None
                    },
                }
            };
            assert(found == defect_at(all, i as int));
            if let Some(defect) = found {
                proof {
                    lemma_well_formed_iff_no_defect(all);
                }
                return Err(
                    MigrationError::ConfigurationError { name: names[i].clone(), index: i, defect },
                );
            }
            i += 1;
        }
        proof {
            lemma_well_formed_iff_no_defect(all);
        }
        Ok(Registry { names })
    }

    /// Copies the registry.
    pub fn duplicate(&self) -> (copy: Registry)
        ensures
            copy@ == self@,
    {
        Registry { names: clone_names(&self.names) }
    }

    /// All unit names, in registry order.
    pub fn all_migrations(&self) -> (names: &Vec<String>)
        ensures
            names_of(names@) == self@,
    {
        &self.names
    }

    /// The number of units.
    pub fn len(&self) -> (count: usize)
        ensures
            count == self@.len(),
    {
        self.names.len()
    }

    /// The name of the unit at `index`, if the registry has that many units.
    pub fn get(&self, index: usize) -> (name: Option<&String>)
        ensures
            name is Some <==> index < self@.len(),
            name matches Some(unit) ==> unit@ == self@[index as int],
    {
        if index < self.names.len() {
            Some(&self.names[index])
        } else {
            None
        }
    }

    /// Looks a unit up by name and gives its place in the order.
    pub fn position(&self, name: &String) -> (place: Option<usize>)
        ensures
            place is Some <==> self@.contains(name@),
            place matches Some(i) ==> i < self@.len() && self@[i as int] == name@ && forall|j: int|
                0 <= j < i ==> self@[j] != name@,
    {
        position_of(&self.names, name)
    }

    /// Tells whether a unit of that name is known.
    pub fn contains(&self, name: &String) -> (known: bool)
        ensures
            known == self@.contains(name@),
    {
        position_of(&self.names, name).is_some()
    }
}

} // verus!
