use vstd::prelude::*;

verus! {

/// A function the host provides, named by its number in the host's
/// registry. The machine hands the host the arguments and takes back one
/// value.
#[derive(Clone, Copy, Debug)]
pub struct ObjNative {
    pub function: usize,
}

impl ObjNative {
    pub fn new(function: usize) -> (native: Self)
        ensures
            native.function == function,
    {
        ObjNative { function }
    }
}

} // verus!
