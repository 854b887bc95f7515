//! A list of tags shown with a word.

use vstd::prelude::*;

verus! {

/// Tags in the order they are shown.
#[derive(Debug, Clone, PartialEq, Eq)]
pub struct Tags(pub Vec<String>);

impl Tags {
    /// The tags `tags`, in that order.
    pub fn new(tags: Vec<String>) -> (made: Tags)
        ensures
            made.0 == tags,
    {
        Tags(tags)
    }

    /// The number of tags.
    pub fn len(&self) -> (count: usize)
        ensures
            count == self.0@.len(),
    {
        self.0.len()
    }

    /// The tag at position `index`.
    pub fn get(&self, index: usize) -> (tag: &String)
        requires
            index < self.0@.len(),
        ensures
            *tag == self.0@[index as int],
    {
        &self.0[index]
    }
}

} // verus!
