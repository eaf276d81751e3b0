use vstd::prelude::*;
use crate::mem::gc_map::GcMap;
use crate::mem::gc_ref::GcRef;

verus! {

/// A class: its name, and its methods by name, each a closure.
pub struct ObjClass {
    pub name: GcRef,
    pub methods: GcMap<GcRef>,
}

impl ObjClass {
    /// The class called `name`, without methods.
    pub fn new(name: GcRef) -> (class: Self)
        ensures
            class.name == name,
            class.methods@ == Map::<usize, GcRef>::empty(),
    {
        ObjClass { name, methods: GcMap::new() }
    }
}

} // verus!
