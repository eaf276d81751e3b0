use vstd::prelude::*;
use crate::mem::gc_ref::GcRef;

verus! {

/// A function together with the variables it captured.
pub struct ObjClosure {
    pub function: GcRef,
    pub upvalues: Vec<GcRef>,
}

impl ObjClosure {
    /// A closure over `function` that has captured nothing yet.
    pub fn new(function: GcRef) -> (closure: Self)
        ensures
            closure.function == function,
            closure.upvalues@ == Seq::<GcRef>::empty(),
    {
        ObjClosure { function, upvalues: Vec::new() }
    }
}

} // verus!
