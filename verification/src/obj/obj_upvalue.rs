use vstd::prelude::*;
use crate::value::Value;

verus! {

/// A captured variable. While the variable is still on the stack the
/// upvalue is open and `location` is its stack slot; once closed it owns
/// the value in `closed`.
#[derive(Clone, Copy, Debug)]
pub struct ObjUpvalue {
    pub location: Option<usize>,
    pub closed: Value,
}

impl ObjUpvalue {
    /// An open upvalue for stack slot `slot`.
    pub fn new(slot: usize) -> (upvalue: Self)
        ensures
            upvalue.location == Some(slot),
            upvalue.closed == Value::Nil,
    {
        ObjUpvalue { location: Some(slot), closed: Value::Nil }
    }
}

} // verus!
