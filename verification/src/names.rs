//! Unit names as mathematical values, and searches over lists of names.

use vstd::prelude::*;

verus! {

/// The names held by a list of strings, each taken as its sequence of characters.
pub open spec fn names_of(list: Seq<String>) -> Seq<Seq<char>> {
    list.map_values(|s: String| s@)
}

/// Finds the first position at which `name` stands in `list`.
pub fn position_of(list: &Vec<String>, name: &String) -> (found: Option<usize>)
    ensures
        found is Some <==> names_of(list@).contains(name@),
        found matches Some(i) ==> {
            &&& i < list.len()
            &&& list@[i as int]@ == name@
            &&& forall|j: int| 0 <= j < i ==> list@[j]@ != name@
        },
{
    let mut i: usize = 0;
    while i < list.len()
        invariant
            i <= list.len(),
            forall|j: int| 0 <= j < i ==> list@[j]@ != name@,
        decreases list.len() - i,
    {
        if list[i] == *name {
            assert(names_of(list@)[i as int] == name@);
            return Some(i);
        }
        i += 1;
    }
    None
}

/// Tells whether `name` occurs in `list`.
pub fn contains_name(list: &Vec<String>, name: &String) -> (found: bool)
    ensures
        found == names_of(list@).contains(name@),
{
    position_of(list, name).is_some()
}

/// Copies a list of names.
pub fn clone_names(list: &Vec<String>) -> (copy: Vec<String>)
    ensures
        names_of(copy@) == names_of(list@),
{
    let mut copy: Vec<String> = Vec::new();
    let mut i: usize = 0;
    while i < list.len()
        invariant
            i <= list.len(),
            copy.len() == i,
            forall|j: int| 0 <= j < i ==> copy@[j]@ == list@[j]@,
        decreases list.len() - i,
    {
        copy.push(list[i].clone());
        i += 1;
    }
    assert(names_of(copy@) =~= names_of(list@));
    copy
}

} // verus!
