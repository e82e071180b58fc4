//! A collection of drawable, hash-identified elements with lookups by
//! identity.

use vstd::prelude::*;

use crate::node::Draw;

verus! {

/// Drawable elements identified by their hashes.
pub struct Network<T: Draw + crate::node::Hash> {
    pub elements: Vec<T>,
}

impl<T: Draw + crate::node::Hash> Network<T> {
    pub fn new(elements: Vec<T>) -> (r: Network<T>)
        ensures
            r.elements@ == elements@,
    {
        Network { elements }
    }

    /// Whether an element with the same hash as `element` is in the network.
    pub fn contains<H: crate::node::Hash>(&self, element: &H) -> (r: bool)
        ensures
            r == exists|i: int|
                0 <= i < self.elements@.len() && #[trigger] self.elements@[i].hash_of()
                    == element.hash_of(),
    {
        match self.contains_index(element) {
            Some(_) => true,
            None => false,
        }
    }

    /// The index of the first element with the same hash as `element`.
    pub fn contains_index<H: crate::node::Hash>(&self, element: &H) -> (r: Option<usize>)
        ensures
            r is None <==> forall|i: int|
                0 <= i < self.elements@.len() ==> #[trigger] self.elements@[i].hash_of()
                    != element.hash_of(),
            r is Some ==> ({
                let i = r->Some_0 as int;
                &&& 0 <= i < self.elements@.len()
                &&& self.elements@[i].hash_of() == element.hash_of()
                &&& forall|j: int| 0 <= j < i ==> #[trigger] self.elements@[j].hash_of()
                    != element.hash_of()
            }),
    {
        let target = element.get_hash();
        let mut i: usize = 0;
        while i < self.elements.len()
            invariant
                i <= self.elements@.len(),
                target == element.hash_of(),
                forall|j: int| 0 <= j < i ==> #[trigger] self.elements@[j].hash_of() != target,
            decreases self.elements@.len() - i,
        {
            if self.elements[i].get_hash() == target {
                return Some(i);
            }
            i = i + 1;
        }
        None
    }
}

} // verus!
