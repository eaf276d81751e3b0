use vstd::prelude::*;
use crate::mem::gc_ref::GcRef;

verus! {

/// A call in progress: the closure being run, the offset of its next
/// instruction, and the stack slot that is its slot zero.
#[derive(Clone, Copy, Debug, PartialEq, Eq, Structural)]
pub struct CallFrame {
    pub closure: GcRef,
    pub ip: usize,
    pub slots: usize,
}

} // verus!
