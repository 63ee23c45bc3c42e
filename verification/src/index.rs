//! Resolution of a loosely sampled integer against a collection of known size.

use vstd::prelude::*;

verus! {

/// A sampled integer that designates an element of a collection whose size
/// is only known when the element is looked up.
#[derive(Clone, Copy, Debug)]
pub struct Index(pub usize);

impl Index {
    /// The position that this index designates in a collection of `len` elements.
    pub open spec fn spec_index(self, len: int) -> int {
        self.0 as int % len
    }

    /// The position that an index designates lies within the collection.
    pub proof fn lemma_in_range(self, len: int)
        requires
            len > 0,
        ensures
            0 <= self.spec_index(len) < len,
    {
        vstd::arithmetic::div_mod::lemma_mod_pos_bound(self.0 as int, len);
    }

    /// Wraps a raw sampled integer.
    pub fn new(raw: usize) -> (r: Index)
        ensures
            r.0 == raw,
    {
        Index(raw)
    }

    /// Resolves the index against a collection of `len` elements.
    pub fn index(&self, len: usize) -> (r: usize)
        requires
            len > 0,
        ensures
            r == self.spec_index(len as int),
            r < len,
    {
        self.0 % len
    }

    /// Picks the element of `slice` that the index designates.
    pub fn get<'a, T>(&self, slice: &'a [T]) -> (r: &'a T)
        requires
            slice@.len() > 0,
        ensures
            *r == slice@[self.spec_index(slice@.len() as int)],
    {
        &slice[self.index(slice.len())]
    }
}

} // verus!
