//! The catalog of indicators.

use crate::names::{compare_names, names_of, NameOrder};
use vstd::prelude::*;

verus! {

/// The closed set of indicators that can carry an overlay.
#[derive(Clone, Debug)]
pub struct Catalog {
    names: Vec<String>,
}

impl View for Catalog {
    type V = Seq<Seq<char>>;

    closed spec fn view(&self) -> Seq<Seq<char>> {
        names_of(self.names@)
    }
}

impl Catalog {
    /// Whether `name` is an indicator of this catalog.
    pub open spec fn has(&self, name: Seq<char>) -> bool {
        self@.contains(name)
    }

    /// The catalog of the indicators named in `names`.
    pub fn new(names: Vec<String>) -> (catalog: Catalog)
        ensures
            catalog@ == names_of(names@),
    {
        Catalog { names }
    }

    /// The names of the catalog, in the order in which they were given.
    pub fn names(&self) -> (names: &Vec<String>)
        ensures
            names_of(names@) == self@,
    {
        &self.names
    }

    /// Whether `name` is an indicator of this catalog.
    pub fn contains(&self, name: &str) -> (found: bool)
        ensures
            found == self.has(name@),
    {
        let mut i: usize = 0;
        while i < self.names.len()
            invariant
                i <= self.names.len(),
                forall|j: int| 0 <= j < i ==> self@[j] != name@,
            decreases self.names.len() - i,
        {
            if compare_names(self.names[i].as_str(), name) == NameOrder::Same {
                assert(self@[i as int] == name@);
                return true;
            }
            i += 1;
        }
        false
    }
}

} // verus!
