use vstd::prelude::*;
use crate::chunk::Chunk;
use crate::mem::gc_ref::GcRef;

verus! {

/// A compiled function. The top-level script is a function without a name.
pub struct ObjFunction {
    pub arity: usize,
    pub upvalue_count: usize,
    pub chunk: Chunk,
    pub name: Option<GcRef>,
}

impl ObjFunction {
    /// A function without parameters, captures, code or name.
    pub fn new() -> (function: Self)
        ensures
            function.arity == 0,
            function.upvalue_count == 0,
            function.name.is_none(),
            function.chunk.wf(),
            function.chunk.bytecode@.len() == 0,
            function.chunk.constants@.len() == 0,
    {
        ObjFunction { arity: 0, upvalue_count: 0, chunk: Chunk::new(), name: None }
    }
}

} // verus!
