use vstd::prelude::*;
use crate::mem::collector::Gc;
use crate::mem::gc_ref::GcRef;
use crate::obj::obj::ObjType;
use crate::text::append_bytes;

verus! {

/// An interned string: its bytes, and the hash the intern table gave them.
pub struct ObjString {
    pub text: Vec<u8>,
    pub hash: usize,
}

impl ObjString {
    /// The one string with the bytes `text` in the heap of `gc`: the
    /// string the intern table has for them, or else a new one, which the
    /// table then has. Nothing is collected.
    pub fn new(gc: &mut Gc, text: &Vec<u8>) -> (r: GcRef)
        requires
            old(gc).wf(),
        ensures
            final(gc).wf(),
            final(gc).heap.is_a(r, ObjType::String),
            final(gc).heap.object(r.index as int).data.text() == Some(text@),
            old(gc).heap.table().contains_key(text@) ==> r.index == old(gc).heap.table()[text@]
                && *final(gc) == *old(gc),
            !old(gc).heap.table().contains_key(text@) ==> final(gc).interned_fresh(
                old(gc),
                text@,
                r,
            ),
    {
        gc.place_string(text)
    }

    /// The string whose text is that of `left` followed by that of
    /// `right`, if both are strings: the one the table has for that text,
    /// or else a new one, and nothing else changes.
    pub fn concat(gc: &mut Gc, left: GcRef, right: GcRef) -> (r: Option<GcRef>)
        requires
            old(gc).wf(),
        ensures
            final(gc).wf(),
            r.is_some() == (old(gc).heap.is_a(left, ObjType::String) && old(gc).heap.is_a(
                right,
                ObjType::String,
            )),
            r.is_none() ==> *final(gc) == *old(gc),
            r.is_some() ==> final(gc).heap.is_a(r.unwrap(), ObjType::String) && final(gc).heap.object(r.unwrap().index as int).data.text() == Some(
                old(gc).heap.object(left.index as int).data.text().unwrap() + old(gc).heap.object(
                    right.index as int,
                ).data.text().unwrap(),
            ),
            r.is_some() ==> ({
                let joined = old(gc).heap.object(left.index as int).data.text().unwrap() + old(gc).heap.object(right.index as int).data.text().unwrap();
                if old(gc).heap.table().contains_key(joined) {
                    r.unwrap().index == old(gc).heap.table()[joined] && *final(gc) == *old(gc)
                } else {
                    final(gc).interned_fresh(old(gc), joined, r.unwrap())
                }
            }),
    {
        let joined = match (gc.heap.string(left), gc.heap.string(right)) {
            (Some(a), Some(b)) => {
                let mut text: Vec<u8> = Vec::new();
                append_bytes(&mut text, &a.text);
                append_bytes(&mut text, &b.text);
                assert(text@ =~= a.text@ + b.text@);
                Some(text)
            },
            _ => None,
        };
        match joined {
            Some(text) => Some(gc.place_string(&text)),
            None => None,
        }
    }
}

} // verus!
