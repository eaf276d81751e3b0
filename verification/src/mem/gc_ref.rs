use vstd::prelude::*;

verus! {

/// A reference to a heap object: the number of the slot the object lives in.
/// Two references are equal exactly when they name the same slot.
#[derive(Clone, Copy, Debug, PartialEq, Eq, Structural)]
pub struct GcRef {
    pub index: usize,
}

impl GcRef {
    /// The reference to the object in slot `index`.
    pub fn new_raw(index: usize) -> (r: GcRef)
        ensures
            r.index == index,
    {
        GcRef { index }
    }

    /// The slot this reference names.
    pub fn as_ptr(&self) -> (index: usize)
        ensures
            index == self.index,
    {
        self.index
    }
}

} // verus!
