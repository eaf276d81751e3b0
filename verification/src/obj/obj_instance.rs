use vstd::prelude::*;
use crate::mem::gc_map::GcMap;
use crate::mem::gc_ref::GcRef;
use crate::value::Value;

verus! {

/// An instance of a class, with its fields by name.
pub struct ObjInstance {
    pub klass: GcRef,
    pub fields: GcMap<Value>,
}

impl ObjInstance {
    /// An instance of `klass` without fields.
    pub fn new(klass: GcRef) -> (instance: Self)
        ensures
            instance.klass == klass,
            instance.fields@ == Map::<usize, Value>::empty(),
    {
        ObjInstance { klass, fields: GcMap::new() }
    }
}

} // verus!
