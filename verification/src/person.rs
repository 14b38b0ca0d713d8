//! A small sample entity implementing [`AutoMapped`], keyed by its name.
//!
//! It shows what an implementation of the trait owes — in particular the
//! round-trip law — and gives the crate's tests a concrete record type.

use vstd::prelude::*;

use crate::AutoMapped;

verus! {

/// A person, keyed by name: splitting yields the `(name, age)` pair and
/// joining puts it back together.
#[derive(Debug, Hash, PartialEq, Eq)]
pub struct Person {
    /// The name; this is the key the person is filed under.
    pub name: String,
    /// The age; this is the payload stored beside the key.
    pub age: u16,
}

impl Clone for Person {
    /// Cloning a person gives back an equal person.
    fn clone(&self) -> (r: Self)
        ensures
            r == *self,
    {
        Person { name: self.name.clone(), age: self.age }
    }
}

impl AutoMapped for Person {
    type Key = String;

    type Value = u16;

    open spec fn spec_split(self) -> (String, u16) {
        (self.name, self.age)
    }

    open spec fn spec_join(pair: (String, u16)) -> Person {
        Person { name: pair.0, age: pair.1 }
    }

    proof fn lemma_round_trip(t: Person) {
    }

    fn split(self) -> (r: (String, u16)) {
        (self.name, self.age)
    }

    fn join(pair: (String, u16)) -> (r: Person) {
        Person { name: pair.0, age: pair.1 }
    }
}

} // verus!
