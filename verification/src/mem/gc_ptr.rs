use vstd::prelude::*;
use crate::mem::gc_ref::GcRef;

verus! {

/// A reference that may still be unset, for a field that is filled in after
/// its owner is made.
#[derive(Clone, Copy, Debug)]
pub struct GcPtr {
    pub target: Option<GcRef>,
}

impl GcPtr {
    pub fn new(raw: GcRef) -> (p: GcPtr)
        ensures
            p.target == Some(raw),
    {
        GcPtr { target: Some(raw) }
    }

    pub fn null() -> (p: GcPtr)
        ensures
            p.target.is_none(),
    {
        GcPtr { target: None }
    }

    pub fn is_null(&self) -> (b: bool)
        ensures
            b == self.target.is_none(),
    {
        self.target.is_none()
    }

    /// The reference held. The pointer must have been set.
    pub fn get(&self) -> (r: GcRef)
        requires
            self.target.is_some(),
        ensures
            Some(r) == self.target,
    {
        match self.target {
            Some(r) => r,
            None => GcRef { index: 0 },
        }
    }
}

} // verus!
