//! Generation-checked handles.
use vstd::prelude::*;

verus! {

/// A stable handle to an element stored inside a slab: a slot index and the generation
/// that the slot had when the element was inserted.
///
/// A `Key` is valid only if both parts match the current state of its slot.
#[derive(Copy, Clone, Debug, PartialEq, Eq, Structural, Hash)]
pub struct Key {
    idx: u32,
    generation: u32,
}

impl View for Key {
    type V = (u32, u32);

    /// The `(index, generation)` pair that identifies the handle.
    closed spec fn view(&self) -> (u32, u32) {
        (self.idx, self.generation)
    }
}

impl Key {
    /// Creates a `Key` from raw parts.
    pub fn from_parts(index: u32, generation: u32) -> (k: Self)
        ensures
            k@ == (index, generation),
    {
        Key { idx: index, generation }
    }

    /// Two keys are equal exactly when their `(index, generation)` pairs are.
    pub proof fn lemma_view_determines_key(a: Key, b: Key)
        ensures
            a@ == b@ <==> a == b,
    {
    }

    /// Returns the slot index.
    pub fn index(self) -> (r: u32)
        ensures
            r == self@.0,
    {
        self.idx
    }

    /// Returns the generation counter.
    pub fn generation(self) -> (r: u32)
        ensures
            r == self@.1,
    {
        self.generation
    }

    /// Returns the raw `(index, generation)` pair.
    pub fn into_parts(self) -> (r: (u32, u32))
        ensures
            r == self@,
    {
        (self.idx, self.generation)
    }
}

/// Returned by `Slab::insert` when the slab has no vacant slot left.
#[derive(Debug, Copy, Clone, PartialEq, Eq, Structural)]
pub struct InsertError;

} // verus!
