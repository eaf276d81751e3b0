use vstd::prelude::*;
use crate::mem::gc_ref::GcRef;
use crate::value::Value;

verus! {

/// A method taken from an instance: the closure, and the receiver that will
/// stand in slot zero when it is called.
pub struct ObjBoundMethod {
    pub receiver: Value,
    pub method: GcRef,
}

impl ObjBoundMethod {
    pub fn new(receiver: Value, method: GcRef) -> (bound: Self)
        ensures
            bound.receiver == receiver,
            bound.method == method,
    {
        ObjBoundMethod { receiver, method }
    }
}

} // verus!
