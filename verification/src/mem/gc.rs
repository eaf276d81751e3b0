use vstd::prelude::*;
use dashmap::DashMap;
use std::hash::RandomState;
use crate::mem::gc_ref::GcRef;
use crate::obj::obj::Obj;
use crate::obj::obj::ObjData;
use crate::obj::obj::ObjType;
use crate::obj::obj::ObjView;
use crate::obj::obj::Object;
use crate::obj::obj_bound_method::ObjBoundMethod;
use crate::obj::obj_class::ObjClass;
use crate::obj::obj_closure::ObjClosure;
use crate::obj::obj_function::ObjFunction;
use crate::obj::obj_instance::ObjInstance;
use crate::obj::obj_native::ObjNative;
use crate::obj::obj_string::ObjString;
use crate::obj::obj_upvalue::ObjUpvalue;
use crate::value::Value;
use crate::text::append_bytes;

verus! {

#[verifier::external_type_specification]
#[verifier::external_body]
#[verifier::reject_recursive_types(K)]
#[verifier::reject_recursive_types(V)]
#[verifier::reject_recursive_types(S)]
pub struct ExDashMap<K, V, S>(DashMap<K, V, S>);

/// What an intern table holds: for each text, the slot of its string.
pub uninterp spec fn interned(table: &DashMap<Vec<u8>, usize, RandomState>) -> Map<Seq<u8>, usize>;

/// Whether slot `index` holds an object that carries the collector's mark.
pub open spec fn slot_marked(slots: Seq<Option<Object>>, index: usize) -> bool {
    index < slots.len() && slots[index as int].is_some() && slots[index as int].unwrap().obj.is_marked
}

/// The entries whose string is marked.
pub open spec fn marked_entries(entries: Map<Seq<u8>, usize>, slots: Seq<Option<Object>>) -> Map<
    Seq<u8>,
    usize,
> {
    entries.restrict(Set::new(|t: Seq<u8>| entries.contains_key(t) && slot_marked(slots, entries[t])))
}

/// Whether slot `index` holds a marked object.
pub fn slot_is_marked(slots: &Vec<Option<Object>>, index: usize) -> (marked: bool)
    ensures
        marked == slot_marked(slots@, index),
{
    if index < slots.len() {
        match &slots[index] {
            Some(object) => object.obj.is_marked,
            None => false,
        }
    } else {
        false
    }
}

/// `DashMap::new`: a table without entries.
#[verifier::external_body]
fn strings_new() -> (table: DashMap<Vec<u8>, usize, RandomState>)
    ensures
        interned(&table).dom() =~= Set::empty(),
{
    DashMap::new()
}

/// `DashMap::get`: the slot stored under `text`, if any.
#[verifier::external_body]
fn strings_get(table: &DashMap<Vec<u8>, usize, RandomState>, text: &Vec<u8>) -> (found: Option<usize>)
    ensures
        found == (if interned(table).contains_key(text@) {
            Some(interned(table)[text@])
        } else {
            None::<usize>
        }),
{
    table.get(text).map(|entry| *entry.value())
}

/// `DashMap::insert`: stores `slot` under `text`.
#[verifier::external_body]
fn strings_insert(table: &mut DashMap<Vec<u8>, usize, RandomState>, text: Vec<u8>, slot: usize)
    ensures
        interned(final(table)) == interned(old(table)).insert(text@, slot),
{
    table.insert(text, slot);
}

/// `DashMap::retain`, keeping the entries whose string is marked.
#[verifier::external_body]
fn strings_retain_marked(
    table: &mut DashMap<Vec<u8>, usize, RandomState>,
    slots: &Vec<Option<Object>>,
)
    ensures
        interned(final(table)) == marked_entries(interned(old(table)), slots@),
{
    table.retain(|_, slot| slot_is_marked(slots, *slot));
}

/// `DashMap::hash_usize`: the hash the table's own hasher gives `text`.
/// The hasher is seeded anew in every process, so nothing is said of it.
#[verifier::external_body]
fn strings_hash(table: &DashMap<Vec<u8>, usize, RandomState>, text: &Vec<u8>) -> (hash: usize) {
    table.hash_usize(text)
}

/// The object store: the slots objects live in, the list that threads the
/// live ones, and the intern table of strings.
pub struct GarbageCollector {
    pub slots: Vec<Option<Object>>,
    /// The head of the list of live objects.
    pub objects: Option<GcRef>,
    /// Slots that held an object once and are vacant now.
    pub free: Vec<usize>,
    pub strings: DashMap<Vec<u8>, usize, RandomState>,
    /// The slots of the live objects in list order, head first.
    pub chain: Ghost<Seq<usize>>,
}

/// Slot `i` holds an object.
pub open spec fn slot_live(slots: Seq<Option<Object>>, i: int) -> bool {
    0 <= i < slots.len() && slots[i].is_some()
}

/// The object in slot `i`.
pub open spec fn slot_object(slots: Seq<Option<Object>>, i: int) -> Object {
    slots[i].unwrap()
}

/// The slots after are the slots before, but for slot `r` and for slots
/// that were added.
pub open spec fn only_slot_differs(
    before: Seq<Option<Object>>,
    after: Seq<Option<Object>>,
    r: int,
) -> bool {
    &&& after.len() >= before.len()
    &&& forall|i: int|
        0 <= i < after.len() && i != r ==> i < before.len() && #[trigger] after[i] == before[i]
}

/// The slot the next object goes into: the slot that was vacated last,
/// or a new one if none is vacant.
pub open spec fn next_slot(slots: Seq<Option<Object>>, free: Seq<usize>) -> usize {
    if free.len() > 0 {
        free.last()
    } else {
        slots.len() as usize
    }
}

/// The free list once the next object has its slot.
pub open spec fn free_after(free: Seq<usize>) -> Seq<usize> {
    if free.len() > 0 {
        free.drop_last()
    } else {
        free
    }
}

/// The list that starts at `head` visits the slots of `chain` in order,
/// and they are the live slots, each once.
#[verifier::opaque]
pub open spec fn links_ok(slots: Seq<Option<Object>>, chain: Seq<usize>, head: Option<GcRef>) -> bool {
    &&& chain.no_duplicates()
    &&& forall|k: int| 0 <= k < chain.len() ==> slot_live(slots, #[trigger] chain[k] as int)
    &&& forall|i: int| #[trigger] slot_live(slots, i) ==> chain.contains(i as usize)
    &&& head == (if chain.len() == 0 {
        None
    } else {
        Some(GcRef { index: chain[0] })
    })
    &&& forall|k: int|
        0 <= k < chain.len() ==> (#[trigger] slot_object(slots, chain[k] as int)).obj.next == (if k
            + 1 < chain.len() {
            Some(GcRef { index: chain[k + 1] })
        } else {
            None
        })
}

/// The free list names vacant slots, each once.
#[verifier::opaque]
pub open spec fn free_ok(slots: Seq<Option<Object>>, free: Seq<usize>) -> bool {
    &&& free.no_duplicates()
    &&& forall|k: int|
        0 <= k < free.len() ==> (#[trigger] free[k]) < slots.len() && slots[free[k] as int].is_none()
}

/// Every header names the kind of its payload.
#[verifier::opaque]
pub open spec fn types_ok(slots: Seq<Option<Object>>) -> bool {
    forall|i: int| #[trigger]
        slot_live(slots, i) ==> slot_object(slots, i).obj.ty == slot_object(slots, i).data.ty_spec()
}

/// Every entry of the table names a live string with that text.
#[verifier::opaque]
pub open spec fn strings_sound(slots: Seq<Option<Object>>, table: Map<Seq<u8>, usize>) -> bool {
    forall|t: Seq<u8>| #[trigger]
        table.contains_key(t) ==> slot_live(slots, table[t] as int) && slot_object(
            slots,
            table[t] as int,
        ).data.text() == Some(t)
}

/// Every live string is the one the table has for its text.
#[verifier::opaque]
pub open spec fn strings_complete(slots: Seq<Option<Object>>, table: Map<Seq<u8>, usize>) -> bool {
    forall|i: int|
        slot_live(slots, i) && (#[trigger] slot_object(slots, i)).data.text().is_some()
            ==> table.contains_key(slot_object(slots, i).data.text().unwrap())
            && table[slot_object(slots, i).data.text().unwrap()] == i
}

/// No object carries a mark.
pub open spec fn slots_unmarked(slots: Seq<Option<Object>>) -> bool {
    forall|i: int| #[trigger] slot_live(slots, i) ==> !slot_object(slots, i).obj.is_marked
}

/// What the slots hold, as mathematics: for each slot, nothing, or the
/// header and the payload of its object.
pub open spec fn slots_view(slots: Seq<Option<Object>>) -> Seq<Option<(Obj, ObjView)>> {
    Seq::new(
        slots.len(),
        |i: int|
            match slots[i] {
                Some(object) => Some((object.obj, object.data@)),
                None => None,
            },
    )
}

impl View for GarbageCollector {
    type V = Seq<Option<(Obj, ObjView)>>;

    open spec fn view(&self) -> Seq<Option<(Obj, ObjView)>> {
        slots_view(self.slots@)
    }
}

/// A store in which only the payload of the object in slot `i` differs
/// holds, but for that payload, what it held.
pub proof fn lemma_payload_view(before: &GarbageCollector, after: &GarbageCollector, i: int)
    requires
        before.live(i),
        after.only_payload_differs(before, i),
    ensures
        after@ == before@.update(i, Some((before.header(i), after.data(i)))),
{
    assert(after@ =~= before@.update(i, Some((before.header(i), after.data(i)))));
}

/// Two objects that the store cannot tell apart: they stand at the same
/// place in the list, are of the same kind, and hold the same text if they
/// are strings.
pub open spec fn same_shape(a: Object, b: Object) -> bool {
    &&& a.obj.next == b.obj.next
    &&& a.obj.ty == b.obj.ty
    &&& a.data.ty_spec() == b.data.ty_spec()
    &&& a.data.text() == b.data.text()
}

/// Replacing a live object by one of the same shape keeps the store
/// consistent.
pub proof fn lemma_same_shape_keeps_store(
    before: Seq<Option<Object>>,
    after: Seq<Option<Object>>,
    i: int,
    chain: Seq<usize>,
    head: Option<GcRef>,
    free: Seq<usize>,
    table: Map<Seq<u8>, usize>,
)
    requires
        slot_live(before, i),
        slot_live(after, i),
        after == before.update(i, after[i]),
        same_shape(slot_object(before, i), slot_object(after, i)),
    ensures
        links_ok(before, chain, head) ==> links_ok(after, chain, head),
        free_ok(before, free) ==> free_ok(after, free),
        types_ok(before) ==> types_ok(after),
        strings_sound(before, table) ==> strings_sound(after, table),
        strings_complete(before, table) ==> strings_complete(after, table),
{
    reveal(links_ok);
    reveal(free_ok);
    reveal(types_ok);
    reveal(strings_sound);
    reveal(strings_complete);
    assert forall|j: int| slot_live(after, j) == slot_live(before, j) by {}
    if links_ok(before, chain, head) {
        assert forall|k: int| 0 <= k < chain.len() implies slot_live(
            after,
            #[trigger] chain[k] as int,
        ) by {
            assert(slot_live(before, chain[k] as int));
        }
        assert forall|j: int| #[trigger] slot_live(after, j) implies chain.contains(
            j as usize,
        ) by {
            assert(slot_live(before, j));
        }
        assert forall|k: int| 0 <= k < chain.len() implies (#[trigger] slot_object(
            after,
            chain[k] as int,
        )).obj.next == (if k + 1 < chain.len() {
            Some(GcRef { index: chain[k + 1] })
        } else {
            None
        }) by {
            assert(slot_live(before, chain[k] as int));
            assert(slot_object(before, chain[k] as int).obj.next == slot_object(
                after,
                chain[k] as int,
            ).obj.next);
        }
    }
    if free_ok(before, free) {
        assert forall|k: int| 0 <= k < free.len() implies (#[trigger] free[k]) < after.len()
            && after[free[k] as int].is_none() by {
            assert(before[free[k] as int].is_none());
        }
    }
    if types_ok(before) {
        assert forall|j: int| #[trigger] slot_live(after, j) implies slot_object(after, j).obj.ty
            == slot_object(after, j).data.ty_spec() by {
            assert(slot_live(before, j));
        }
    }
    if strings_sound(before, table) {
        assert forall|t: Seq<u8>| #[trigger] table.contains_key(t) implies slot_live(
            after,
            table[t] as int,
        ) && slot_object(after, table[t] as int).data.text() == Some(t) by {
            assert(slot_live(before, table[t] as int));
        }
    }
    if strings_complete(before, table) {
        assert forall|j: int|
            slot_live(after, j) && (#[trigger] slot_object(after, j)).data.text().is_some() implies table.contains_key(
            slot_object(after, j).data.text().unwrap(),
        ) && table[slot_object(after, j).data.text().unwrap()] == j by {
            assert(slot_live(before, j));
            assert(slot_object(before, j).data.text() == slot_object(after, j).data.text());
        }
    }
}

impl GarbageCollector {
    /// Slot `i` holds an object.
    pub open spec fn live(&self, i: int) -> bool {
        slot_live(self.slots@, i)
    }

    /// The object in slot `i`.
    pub open spec fn object(&self, i: int) -> Object {
        slot_object(self.slots@, i)
    }

    /// What the intern table holds.
    pub open spec fn table(&self) -> Map<Seq<u8>, usize> {
        interned(&self.strings)
    }

    /// The list visits every live object exactly once.
    pub open spec fn links_wf(&self) -> bool {
        links_ok(self.slots@, self.chain@, self.objects)
    }

    /// The free list names vacant slots, each once.
    pub open spec fn free_wf(&self) -> bool {
        free_ok(self.slots@, self.free@)
    }

    /// Every header names the kind of its payload.
    pub open spec fn types_wf(&self) -> bool {
        types_ok(self.slots@)
    }

    /// The store is consistent: the list and the free list are in order,
    /// and the intern table holds exactly the live strings.
    pub open spec fn wf(&self) -> bool {
        &&& self.links_wf()
        &&& self.free_wf()
        &&& self.types_wf()
        &&& strings_sound(self.slots@, self.table())
        &&& strings_complete(self.slots@, self.table())
    }

    /// No object carries a mark.
    pub open spec fn unmarked(&self) -> bool {
        slots_unmarked(self.slots@)
    }

    /// A store without objects.
    pub fn new() -> (heap: Self)
        ensures
            heap.wf(),
            heap.unmarked(),
            heap.slots@.len() == 0,
    {
        reveal(links_ok);
        reveal(free_ok);
        reveal(types_ok);
        reveal(strings_sound);
        reveal(strings_complete);
        let strings = strings_new();
        let heap = GarbageCollector {
            slots: Vec::new(),
            objects: None,
            free: Vec::new(),
            strings,
            chain: Ghost(Seq::empty()),
        };
        assert(strings_sound(heap.slots@, heap.table())) by {
            assert forall|t: Seq<u8>| #[trigger] heap.table().contains_key(t) implies false by {
                assert(heap.table().dom().contains(t));
            }
        }
        heap
    }

    /// Puts an object with payload `data` into a vacant slot and links it at
    /// the head of the list.
    fn allocate(&mut self, data: ObjData) -> (r: GcRef)
        requires
            old(self).links_wf(),
            old(self).free_wf(),
            old(self).types_wf(),
        ensures
            final(self).links_wf(),
            final(self).free_wf(),
            final(self).types_wf(),
            !old(self).live(r.index as int),
            r.index < final(self).slots@.len(),
            final(self).slots@[r.index as int] == Some(
                Object {
                    obj: Obj { ty: data.ty_spec(), is_marked: false, next: old(self).objects },
                    data,
                },
            ),
            only_slot_differs(old(self).slots@, final(self).slots@, r.index as int),
            final(self).strings == old(self).strings,
            final(self).chain@ == seq![r.index] + old(self).chain@,
            final(self).objects == Some(r),
            r.index == next_slot(old(self).slots@, old(self).free@),
            final(self).free@ == free_after(old(self).free@),
    {
        reveal(links_ok);
        reveal(free_ok);
        reveal(types_ok);
        let header = Obj { ty: data.ty(), is_marked: false, next: self.objects };
        let object = Object { obj: header, data };
        let reused = self.free.pop();
        let index: usize = match reused {
            Some(index) => {
                assert(old(self).free@[old(self).free@.len() - 1] == index);
                self.slots[index] = Some(object);
                index
            },
            None => {
                self.slots.push(Some(object));
                self.slots.len() - 1
            },
        };
        let r = GcRef { index };
        self.objects = Some(r);
        proof {
            let old_slots = old(self).slots@;
            let slots = self.slots@;
            let old_chain = old(self).chain@;
            let chain = seq![index] + old_chain;
            self.chain@ = chain;
            assert(!slot_live(old_slots, index as int));
            assert(only_slot_differs(old_slots, slots, index as int));
            assert forall|k: int| 0 <= k < chain.len() implies slot_live(
                slots,
                #[trigger] chain[k] as int,
            ) by {
                if k > 0 {
                    assert(chain[k] == old_chain[k - 1]);
                    assert(slot_live(old_slots, old_chain[k - 1] as int));
                }
            }
            assert(chain.no_duplicates()) by {
                assert forall|a: int, b: int| 0 <= a < chain.len() && 0 <= b < chain.len() && a
                    != b implies chain[a] != chain[b] by {
                    if a > 0 {
                        assert(chain[a] == old_chain[a - 1]);
                        assert(slot_live(old_slots, old_chain[a - 1] as int));
                    }
                    if b > 0 {
                        assert(chain[b] == old_chain[b - 1]);
                        assert(slot_live(old_slots, old_chain[b - 1] as int));
                    }
                }
            }
            assert forall|i: int| #[trigger] slot_live(slots, i) implies chain.contains(
                i as usize,
            ) by {
                if i == index {
                    assert(chain[0] == index);
                } else {
                    assert(slot_live(old_slots, i));
                    let k = choose|k: int| 0 <= k < old_chain.len() && old_chain[k] == i as usize;
                    assert(chain[k + 1] == i as usize);
                }
            }
            assert forall|k: int| 0 <= k < chain.len() implies (#[trigger] slot_object(
                slots,
                chain[k] as int,
            )).obj.next == (if k + 1 < chain.len() {
                Some(GcRef { index: chain[k + 1] })
            } else {
                None
            }) by {
                if k > 0 {
                    assert(chain[k] == old_chain[k - 1]);
                    assert(slot_live(old_slots, old_chain[k - 1] as int));
                    assert(slot_object(slots, chain[k] as int) == slot_object(
                        old_slots,
                        old_chain[k - 1] as int,
                    ));
                    if k + 1 < chain.len() {
                        assert(chain[k + 1] == old_chain[k]);
                    }
                } else {
                    if 1 < chain.len() {
                        assert(chain[1] == old_chain[0]);
                    }
                }
            }
            assert(free_ok(slots, self.free@)) by {
                assert forall|k: int| 0 <= k < self.free@.len() implies (
                #[trigger] self.free@[k]) < slots.len() && slots[self.free@[k] as int].is_none() by {
                    assert(self.free@[k] == old(self).free@[k]);
                    if reused.is_some() {
                        assert(old(self).free@[k] != old(self).free@[old(self).free@.len() - 1]);
                    }
                }
            }
            assert(types_ok(slots)) by {
                assert forall|i: int| #[trigger] slot_live(slots, i) implies slot_object(
                    slots,
                    i,
                ).obj.ty == slot_object(slots, i).data.ty_spec() by {
                    if i != index {
                        assert(slot_live(old_slots, i));
                    }
                }
            }
        }
        r
    }

    /// Allocates an object that is no string.
    pub fn new_object(&mut self, data: ObjData) -> (r: GcRef)
        requires
            old(self).wf(),
            data.text().is_none(),
        ensures
            final(self).wf(),
            !old(self).live(r.index as int),
            r.index < final(self).slots@.len(),
            final(self).slots@[r.index as int] == Some(
                Object {
                    obj: Obj { ty: data.ty_spec(), is_marked: false, next: old(self).objects },
                    data,
                },
            ),
            only_slot_differs(old(self).slots@, final(self).slots@, r.index as int),
            final(self).table() == old(self).table(),
            final(self).objects == Some(r),
            r.index == next_slot(old(self).slots@, old(self).free@),
            final(self).free@ == free_after(old(self).free@),
    {
        reveal(strings_sound);
        reveal(strings_complete);
        let r = self.allocate(data);
        proof {
            let slots = self.slots@;
            let old_slots = old(self).slots@;
            let table = self.table();
            assert forall|t: Seq<u8>| #[trigger] table.contains_key(t) implies slot_live(
                slots,
                table[t] as int,
            ) && slot_object(slots, table[t] as int).data.text() == Some(t) by {
                assert(slot_live(old_slots, table[t] as int));
            }
            assert forall|i: int|
                slot_live(slots, i) && (#[trigger] slot_object(slots, i)).data.text().is_some() implies table.contains_key(
                slot_object(slots, i).data.text().unwrap(),
            ) && table[slot_object(slots, i).data.text().unwrap()] == i by {
                assert(i != r.index);
                assert(slot_live(old_slots, i));
                assert(slot_object(slots, i) == slot_object(old_slots, i));
            }
        }
        r
    }

    /// Allocates the string with the bytes `text`, which the table does not
    /// have yet, and enters it in the table.
    fn intern_fresh(&mut self, text: &Vec<u8>) -> (r: GcRef)
        requires
            old(self).wf(),
            !old(self).table().contains_key(text@),
        ensures
            final(self).wf(),
            !old(self).live(r.index as int),
            r.index < final(self).slots@.len(),
            final(self).live(r.index as int),
            final(self).object(r.index as int).data.text() == Some(text@),
            final(self).object(r.index as int).obj == (Obj {
                ty: ObjType::String,
                is_marked: false,
                next: old(self).objects,
            }),
            final(self).table() == old(self).table().insert(text@, r.index),
            final(self).objects == Some(r),
            only_slot_differs(old(self).slots@, final(self).slots@, r.index as int),
            r.index == next_slot(old(self).slots@, old(self).free@),
            final(self).free@ == free_after(old(self).free@),
    {
        reveal(strings_sound);
        reveal(strings_complete);
        let hash = strings_hash(&self.strings, text);
        let mut owned: Vec<u8> = Vec::new();
        append_bytes(&mut owned, text);
        let mut key: Vec<u8> = Vec::new();
        append_bytes(&mut key, text);
        assert(owned@ == text@);
        assert(key@ == text@);
        let r = self.allocate(ObjData::String(ObjString { text: owned, hash }));
        strings_insert(&mut self.strings, key, r.index);
        proof {
            let slots = self.slots@;
            let old_slots = old(self).slots@;
            let table = self.table();
            let before = old(self).table();
            assert forall|t: Seq<u8>| #[trigger] table.contains_key(t) implies slot_live(
                slots,
                table[t] as int,
            ) && slot_object(slots, table[t] as int).data.text() == Some(t) by {
                if t != text@ {
                    assert(before.contains_key(t));
                    assert(slot_live(old_slots, before[t] as int));
                    assert(before[t] != r.index);
                }
            }
            assert forall|i: int|
                slot_live(slots, i) && (#[trigger] slot_object(slots, i)).data.text().is_some() implies table.contains_key(
                slot_object(slots, i).data.text().unwrap(),
            ) && table[slot_object(slots, i).data.text().unwrap()] == i by {
                if i != r.index {
                    assert(slot_live(old_slots, i));
                    assert(slot_object(slots, i) == slot_object(old_slots, i));
                    assert(slot_object(old_slots, i).data.text().unwrap() != text@);
                }
            }
        }
        r
    }

    /// The one string with the bytes `text`: the string the table already
    /// has for them, or else a new one, which the table then has.
    pub fn intern_string(&mut self, text: &Vec<u8>) -> (r: GcRef)
        requires
            old(self).wf(),
        ensures
            final(self).wf(),
            final(self).live(r.index as int),
            final(self).object(r.index as int).data.text() == Some(text@),
            final(self).table() == old(self).table().insert(text@, r.index),
            old(self).table().contains_key(text@) ==> r.index == old(self).table()[text@] && final(self).slots@ == old(self).slots@ && final(self).objects == old(self).objects && final(self).free@ == old(self).free@,
            !old(self).table().contains_key(text@) ==> r.index == next_slot(
                old(self).slots@,
                old(self).free@,
            ) && final(self).free@ == free_after(old(self).free@),
            !old(self).table().contains_key(text@) ==> !old(self).live(r.index as int) && final(self).objects == Some(r) && final(self).object(r.index as int).obj == (Obj {
                ty: ObjType::String,
                is_marked: false,
                next: old(self).objects,
            }),
            only_slot_differs(old(self).slots@, final(self).slots@, r.index as int),
    {
        reveal(strings_sound);
        match strings_get(&self.strings, text) {
            Some(index) => {
                proof {
                    assert(self.table().insert(text@, index) =~= self.table());
                }
                GcRef { index }
            },
            None => self.intern_fresh(text),
        }
    }

    /// The object `r` refers to, if there is one.
    pub fn get(&self, r: GcRef) -> (object: Option<&Object>)
        ensures
            object.is_some() == self.live(r.index as int),
            object.is_some() ==> *object.unwrap() == self.object(r.index as int),
    {
        if r.index < self.slots.len() {
            self.slots[r.index].as_ref()
        } else {
            None
        }
    }

    /// The payload of `r`, as mathematics.
    pub open spec fn data(&self, i: int) -> ObjView {
        slot_object(self.slots@, i).data@
    }

    /// The header of `r`.
    pub open spec fn header(&self, i: int) -> Obj {
        slot_object(self.slots@, i).obj
    }

    /// Whether `r` refers to a live object of kind `ty`.
    pub open spec fn is_a(&self, r: GcRef, ty: ObjType) -> bool {
        self.live(r.index as int) && self.object(r.index as int).data.ty_spec() == ty
    }

    /// The kind of the object `r` refers to.
    pub fn kind(&self, r: GcRef) -> (ty: Option<ObjType>)
        ensures
            ty == (if self.live(r.index as int) {
                Some(self.object(r.index as int).data.ty_spec())
            } else {
                None
            }),
    {
        match self.get(r) {
            Some(object) => Some(object.data.ty()),
            None => None,
        }
    }

    /// The string `r` refers to, if it refers to one.
    pub fn string(&self, r: GcRef) -> (string: Option<&ObjString>)
        ensures
            string.is_some() == self.is_a(r, ObjType::String),
            string.is_some() ==> self.object(r.index as int).data == ObjData::String(
                *string.unwrap(),
            ),
    {
        match self.get(r) {
            Some(object) => match &object.data {
                ObjData::String(s) => Some(s),
                _ => None,
            },
            None => None,
        }
    }

    /// The function `r` refers to, if it refers to one.
    pub fn function(&self, r: GcRef) -> (function: Option<&ObjFunction>)
        ensures
            function.is_some() == self.is_a(r, ObjType::Function),
            function.is_some() ==> self.object(r.index as int).data == ObjData::Function(
                *function.unwrap(),
            ),
    {
        match self.get(r) {
            Some(object) => match &object.data {
                ObjData::Function(f) => Some(f),
                _ => None,
            },
            None => None,
        }
    }

    /// The closure `r` refers to, if it refers to one.
    pub fn closure(&self, r: GcRef) -> (closure: Option<&ObjClosure>)
        ensures
            closure.is_some() == self.is_a(r, ObjType::Closure),
            closure.is_some() ==> self.object(r.index as int).data == ObjData::Closure(
                *closure.unwrap(),
            ),
    {
        match self.get(r) {
            Some(object) => match &object.data {
                ObjData::Closure(c) => Some(c),
                _ => None,
            },
            None => None,
        }
    }

    /// The class `r` refers to, if it refers to one.
    pub fn class(&self, r: GcRef) -> (class: Option<&ObjClass>)
        ensures
            class.is_some() == self.is_a(r, ObjType::Class),
            class.is_some() ==> self.object(r.index as int).data == ObjData::Class(
                *class.unwrap(),
            ),
    {
        match self.get(r) {
            Some(object) => match &object.data {
                ObjData::Class(c) => Some(c),
                _ => None,
            },
            None => None,
        }
    }

    /// The instance `r` refers to, if it refers to one.
    pub fn instance(&self, r: GcRef) -> (instance: Option<&ObjInstance>)
        ensures
            instance.is_some() == self.is_a(r, ObjType::Instance),
            instance.is_some() ==> self.object(r.index as int).data == ObjData::Instance(
                *instance.unwrap(),
            ),
    {
        match self.get(r) {
            Some(object) => match &object.data {
                ObjData::Instance(i) => Some(i),
                _ => None,
            },
            None => None,
        }
    }

    /// The bound method `r` refers to, if it refers to one.
    pub fn bound_method(&self, r: GcRef) -> (bound: Option<&ObjBoundMethod>)
        ensures
            bound.is_some() == self.is_a(r, ObjType::BoundMethod),
            bound.is_some() ==> self.object(r.index as int).data == ObjData::BoundMethod(
                *bound.unwrap(),
            ),
    {
        match self.get(r) {
            Some(object) => match &object.data {
                ObjData::BoundMethod(b) => Some(b),
                _ => None,
            },
            None => None,
        }
    }

    /// The native function `r` refers to, if it refers to one.
    pub fn native(&self, r: GcRef) -> (native: Option<&ObjNative>)
        ensures
            native.is_some() == self.is_a(r, ObjType::Native),
            native.is_some() ==> self.object(r.index as int).data == ObjData::Native(
                *native.unwrap(),
            ),
    {
        match self.get(r) {
            Some(object) => match &object.data {
                ObjData::Native(n) => Some(n),
                _ => None,
            },
            None => None,
        }
    }

    /// The upvalue `r` refers to, if it refers to one.
    pub fn upvalue(&self, r: GcRef) -> (upvalue: Option<&ObjUpvalue>)
        ensures
            upvalue.is_some() == self.is_a(r, ObjType::Upvalue),
            upvalue.is_some() ==> self.object(r.index as int).data == ObjData::Upvalue(
                *upvalue.unwrap(),
            ),
    {
        match self.get(r) {
            Some(object) => match &object.data {
                ObjData::Upvalue(u) => Some(u),
                _ => None,
            },
            None => None,
        }
    }

    /// What a mutation of the one object in slot `i` leaves as it was:
    /// every other slot, the header of the object, the list, the free list
    /// and the intern table.
    pub open spec fn only_payload_differs(&self, before: &Self, i: int) -> bool {
        &&& self.slots@.len() == before.slots@.len()
        &&& only_slot_differs(before.slots@, self.slots@, i)
        &&& self.live(i)
        &&& self.header(i) == before.header(i)
        &&& self.objects == before.objects
        &&& self.free@ == before.free@
        &&& self.chain@ == before.chain@
        &&& self.table() == before.table()
    }

    /// Puts `object` into slot `index`, which was vacated a moment ago, in
    /// place of an object of the same shape.
    fn restore(&mut self, index: usize, object: Object, Ghost(before): Ghost<Self>)
        requires
            before.wf(),
            before.live(index as int),
            old(self).slots@ == before.slots@.update(index as int, None),
            old(self).objects == before.objects,
            old(self).free@ == before.free@,
            old(self).chain@ == before.chain@,
            old(self).strings == before.strings,
            same_shape(before.object(index as int), object),
            object.obj == before.header(index as int),
        ensures
            final(self).wf(),
            final(self).only_payload_differs(&before, index as int),
            final(self).object(index as int) == object,
            before.unmarked() ==> final(self).unmarked(),
    {
        self.slots[index] = Some(object);
        proof {
            assert(self.slots@ == before.slots@.update(index as int, self.slots@[index as int]));
            lemma_same_shape_keeps_store(
                before.slots@,
                self.slots@,
                index as int,
                self.chain@,
                self.objects,
                self.free@,
                self.table(),
            );
            if before.unmarked() {
                assert forall|i: int| #[trigger] slot_live(self.slots@, i) implies !slot_object(
                    self.slots@,
                    i,
                ).obj.is_marked by {
                    assert(slot_live(before.slots@, i));
                }
            }
        }
    }

    /// Sets field `name` of instance `instance` to `value`. Does nothing,
    /// and says so, if `instance` is no instance.
    pub fn set_field(&mut self, instance: GcRef, name: GcRef, value: Value) -> (done: bool)
        requires
            old(self).wf(),
        ensures
            final(self).wf(),
            done == old(self).is_a(instance, ObjType::Instance),
            !done ==> *final(self) == *old(self),
            done ==> final(self).only_payload_differs(old(self), instance.index as int),
            done ==> final(self).data(instance.index as int) == (ObjView::Instance {
                klass: old(self).data(instance.index as int)->Instance_klass,
                fields: old(self).data(instance.index as int)->Instance_fields.insert(
                    name.index,
                    value,
                ),
            }),
            old(self).unmarked() ==> final(self).unmarked(),
    {
        match self.kind(instance) {
            Some(ObjType::Instance) => {},
            _ => {
                return false;
            },
        }
        let ghost before = *self;
        let taken = self.slots[instance.index].take();
        match taken {
            Some(Object { obj, data: ObjData::Instance(mut payload) }) => {
                payload.fields.insert(name, value);
                self.restore(
                    instance.index,
                    Object { obj, data: ObjData::Instance(payload) },
                    Ghost(before),
                );
                true
            },
            _ => {
                proof {
                    assert(false);
                }
                false
            },
        }
    }

    /// Installs `closure` as method `name` of class `class`. Does nothing,
    /// and says so, if `class` is no class.
    pub fn add_method(&mut self, class: GcRef, name: GcRef, closure: GcRef) -> (done: bool)
        requires
            old(self).wf(),
        ensures
            final(self).wf(),
            done == old(self).is_a(class, ObjType::Class),
            !done ==> *final(self) == *old(self),
            done ==> final(self).only_payload_differs(old(self), class.index as int),
            done ==> final(self).data(class.index as int) == (ObjView::Class {
                name: old(self).data(class.index as int)->Class_name,
                methods: old(self).data(class.index as int)->Class_methods.insert(
                    name.index,
                    closure,
                ),
            }),
            old(self).unmarked() ==> final(self).unmarked(),
    {
        match self.kind(class) {
            Some(ObjType::Class) => {},
            _ => {
                return false;
            },
        }
        let ghost before = *self;
        let taken = self.slots[class.index].take();
        match taken {
            Some(Object { obj, data: ObjData::Class(mut payload) }) => {
                payload.methods.insert(name, closure);
                self.restore(
                    class.index,
                    Object { obj, data: ObjData::Class(payload) },
                    Ghost(before),
                );
                true
            },
            _ => {
                proof {
                    assert(false);
                }
                false
            },
        }
    }

    /// Overwrites upvalue `upvalue`. Does nothing, and says so, if
    /// `upvalue` is no upvalue.
    pub fn set_upvalue(&mut self, upvalue: GcRef, state: ObjUpvalue) -> (done: bool)
        requires
            old(self).wf(),
        ensures
            final(self).wf(),
            done == old(self).is_a(upvalue, ObjType::Upvalue),
            !done ==> *final(self) == *old(self),
            done ==> final(self).only_payload_differs(old(self), upvalue.index as int),
            done ==> final(self).object(upvalue.index as int).data == ObjData::Upvalue(state),
            old(self).unmarked() ==> final(self).unmarked(),
    {
        match self.kind(upvalue) {
            Some(ObjType::Upvalue) => {},
            _ => {
                return false;
            },
        }
        let ghost before = *self;
        let taken = self.slots[upvalue.index].take();
        match taken {
            Some(Object { obj, data: ObjData::Upvalue(_) }) => {
                self.restore(upvalue.index, Object { obj, data: ObjData::Upvalue(state) }, Ghost(before));
                true
            },
            _ => {
                proof {
                    assert(false);
                }
                false
            },
        }
    }

    /// Replaces function `function` by `compiled`. Does nothing, and says
    /// so, if `function` is no function.
    pub fn set_function(&mut self, function: GcRef, compiled: ObjFunction) -> (done: bool)
        requires
            old(self).wf(),
        ensures
            final(self).wf(),
            done == old(self).is_a(function, ObjType::Function),
            !done ==> *final(self) == *old(self),
            done ==> final(self).only_payload_differs(old(self), function.index as int),
            done ==> final(self).object(function.index as int).data == ObjData::Function(compiled),
            old(self).unmarked() ==> final(self).unmarked(),
    {
        match self.kind(function) {
            Some(ObjType::Function) => {},
            _ => {
                return false;
            },
        }
        let ghost before = *self;
        let taken = self.slots[function.index].take();
        match taken {
            Some(Object { obj, data: ObjData::Function(_) }) => {
                self.restore(
                    function.index,
                    Object { obj, data: ObjData::Function(compiled) },
                    Ghost(before),
                );
                true
            },
            _ => {
                proof {
                    assert(false);
                }
                false
            },
        }
    }

    /// The string the table has for the bytes `text`, if it has one.
    pub fn lookup_string(&self, text: &Vec<u8>) -> (found: Option<GcRef>)
        ensures
            found == (if self.table().contains_key(text@) {
                Some(GcRef { index: self.table()[text@] })
            } else {
                None
            }),
            self.wf() && found.is_some() ==> self.live(found.unwrap().index as int) && self.object(
                found.unwrap().index as int,
            ).data.text() == Some(text@),
    {
        reveal(strings_sound);
        match strings_get(&self.strings, text) {
            Some(index) => Some(GcRef { index }),
            None => None,
        }
    }

    /// Drops from the intern table every entry whose string carries no
    /// mark.
    pub fn purge_strings(&mut self)
        requires
            old(self).wf(),
        ensures
            final(self).links_wf(),
            final(self).free_wf(),
            final(self).types_wf(),
            strings_sound(final(self).slots@, final(self).table()),
            final(self).table() == marked_entries(old(self).table(), old(self).slots@),
            forall|t: Seq<u8>| #[trigger]
                final(self).table().contains_key(t) ==> slot_marked(
                    final(self).slots@,
                    final(self).table()[t],
                ),
            final(self).slots == old(self).slots,
            final(self).objects == old(self).objects,
            final(self).free == old(self).free,
            final(self).chain == old(self).chain,
    {
        reveal(strings_sound);
        strings_retain_marked(&mut self.strings, &self.slots);
    }

    /// Clears the mark of the live object `r`. The intern table need not
    /// hold every string.
    pub fn clear_mark(&mut self, r: GcRef)
        requires
            old(self).links_wf(),
            old(self).free_wf(),
            old(self).types_wf(),
            strings_sound(old(self).slots@, old(self).table()),
            old(self).live(r.index as int),
        ensures
            final(self).links_wf(),
            final(self).free_wf(),
            final(self).types_wf(),
            strings_sound(final(self).slots@, final(self).table()),
            final(self).slots@ == old(self).slots@.update(
                r.index as int,
                final(self).slots@[r.index as int],
            ),
            final(self).live(r.index as int),
            final(self).object(r.index as int).data == old(self).object(r.index as int).data,
            final(self).header(r.index as int) == (Obj {
                is_marked: false,
                ..old(self).header(r.index as int)
            }),
            final(self).objects == old(self).objects,
            final(self).free@ == old(self).free@,
            final(self).chain@ == old(self).chain@,
            final(self).strings == old(self).strings,
    {
        let ghost before = *self;
        let taken = self.slots[r.index].take();
        match taken {
            Some(Object { obj, data }) => {
                let header = Obj { ty: obj.ty, is_marked: false, next: obj.next };
                self.slots[r.index] = Some(Object { obj: header, data });
            },
            None => {},
        }
        proof {
            assert(self.slots@ == before.slots@.update(r.index as int, self.slots@[r.index as int]));
            lemma_same_shape_keeps_store(
                before.slots@,
                self.slots@,
                r.index as int,
                self.chain@,
                self.objects,
                self.free@,
                self.table(),
            );
        }
    }

    /// Sets or clears the mark of the live object `r`.
    pub fn set_marked(&mut self, r: GcRef, marked: bool)
        requires
            old(self).wf(),
            old(self).live(r.index as int),
        ensures
            final(self).wf(),
            final(self).slots@ == old(self).slots@.update(
                r.index as int,
                final(self).slots@[r.index as int],
            ),
            final(self).live(r.index as int),
            final(self).object(r.index as int).data == old(self).object(r.index as int).data,
            final(self).header(r.index as int) == (Obj {
                is_marked: marked,
                ..old(self).header(r.index as int)
            }),
            final(self).objects == old(self).objects,
            final(self).free@ == old(self).free@,
            final(self).chain@ == old(self).chain@,
            final(self).strings == old(self).strings,
    {
        let ghost before = *self;
        let taken = self.slots[r.index].take();
        match taken {
            Some(Object { obj, data }) => {
                let header = Obj { ty: obj.ty, is_marked: marked, next: obj.next };
                self.slots[r.index] = Some(Object { obj: header, data });
            },
            None => {},
        }
        proof {
            assert(self.slots@ == before.slots@.update(r.index as int, self.slots@[r.index as int]));
            lemma_same_shape_keeps_store(
                before.slots@,
                self.slots@,
                r.index as int,
                self.chain@,
                self.objects,
                self.free@,
                self.table(),
            );
        }
    }

    /// Unlinks the object `r`, which stands at place `k` of the list, after
    /// `previous`, and vacates its slot. The intern table must not name it.
    /// Returns the object that followed it.
    pub(crate) fn release(&mut self, previous: Option<GcRef>, r: GcRef, Ghost(k): Ghost<int>) -> (next:
        Option<GcRef>)
        requires
            old(self).links_wf(),
            old(self).free_wf(),
            old(self).types_wf(),
            strings_sound(old(self).slots@, old(self).table()),
            0 <= k < old(self).chain@.len(),
            old(self).chain@[k] == r.index,
            previous == (if k > 0 {
                Some(GcRef { index: old(self).chain@[k - 1] })
            } else {
                None
            }),
            forall|t: Seq<u8>| #[trigger]
                old(self).table().contains_key(t) ==> old(self).table()[t] != r.index,
        ensures
            final(self).links_wf(),
            final(self).free_wf(),
            final(self).types_wf(),
            strings_sound(final(self).slots@, final(self).table()),
            final(self).chain@ == old(self).chain@.remove(k),
            final(self).free@ == old(self).free@.push(r.index),
            final(self).strings == old(self).strings,
            next == old(self).header(r.index as int).next,
            final(self).slots@.len() == old(self).slots@.len(),
            final(self).slots@[r.index as int].is_none(),
            forall|i: int|
                0 <= i < final(self).slots@.len() && i != r.index && (k == 0 || i != old(self).chain@[k - 1]) ==> #[trigger] final(self).slots@[i] == old(self).slots@[i],
            k > 0 ==> ({
                let p = old(self).chain@[k - 1] as int;
                &&& final(self).live(p)
                &&& final(self).object(p).data == old(self).object(p).data
                &&& final(self).header(p).is_marked == old(self).header(p).is_marked
                &&& final(self).header(p).ty == old(self).header(p).ty
            }),
    {
        reveal(links_ok);
        reveal(free_ok);
        reveal(types_ok);
        reveal(strings_sound);
        let ghost before = *self;
        let ghost chain = self.chain@;
        assert(slot_live(before.slots@, chain[k] as int));
        let taken = self.slots[r.index].take();
        let next = match taken {
            Some(object) => object.obj.next,
            None => None,
        };
        match previous {
            Some(p) => {
                assert(slot_live(before.slots@, chain[k - 1] as int));
                assert(chain[k - 1] != chain[k]);
                let held = self.slots[p.index].take();
                match held {
                    Some(Object { obj, data }) => {
                        let header = Obj { ty: obj.ty, is_marked: obj.is_marked, next };
                        self.slots[p.index] = Some(Object { obj: header, data });
                    },
                    None => {},
                }
            },
            None => {
                self.objects = next;
            },
        }
        self.free.push(r.index);
        let count = self.slots.len();
        proof {
            let slots = self.slots@;
            let old_slots = before.slots@;
            let new_chain = chain.remove(k);
            assert(slots.len() == count);
            self.chain@ = new_chain;
            let table = self.table();
            assert(slot_object(old_slots, chain[k] as int).obj.next == (if k + 1 < chain.len() {
                Some(GcRef { index: chain[k + 1] })
            } else {
                None
            }));
            assert forall|j: int| 0 <= j < new_chain.len() implies new_chain[j] == (if j < k {
                chain[j]
            } else {
                chain[j + 1]
            }) by {}
            assert forall|j: int| 0 <= j < new_chain.len() implies slot_live(
                slots,
                #[trigger] new_chain[j] as int,
            ) by {
                let j2 = if j < k {
                    j
                } else {
                    j + 1
                };
                assert(slot_live(old_slots, chain[j2] as int));
                assert(chain[j2] != chain[k]);
            }
            assert(new_chain.no_duplicates()) by {
                assert forall|a: int, b: int|
                    0 <= a < new_chain.len() && 0 <= b < new_chain.len() && a
                        != b implies new_chain[a] != new_chain[b] by {
                    let a2 = if a < k {
                        a
                    } else {
                        a + 1
                    };
                    let b2 = if b < k {
                        b
                    } else {
                        b + 1
                    };
                    assert(chain[a2] != chain[b2]);
                }
            }
            assert forall|i: int| #[trigger] slot_live(slots, i) implies new_chain.contains(
                i as usize,
            ) by {
                assert(i != r.index);
                assert(slot_live(old_slots, i));
                assert(chain.contains(i as usize));
                let j = choose|j: int| 0 <= j < chain.len() && chain[j] == i as usize;
                assert(j != k);
                if j < k {
                    assert(new_chain[j] == i as usize);
                } else {
                    assert(new_chain[j - 1] == i as usize);
                }
            }
            assert forall|j: int| 0 <= j < new_chain.len() implies (#[trigger] slot_object(
                slots,
                new_chain[j] as int,
            )).obj.next == (if j + 1 < new_chain.len() {
                Some(GcRef { index: new_chain[j + 1] })
            } else {
                None
            }) by {
                let j2 = if j < k {
                    j
                } else {
                    j + 1
                };
                assert(slot_live(old_slots, chain[j2] as int));
                assert(chain[j2] != chain[k]);
                assert(slot_object(old_slots, chain[j2] as int).obj.next == (if j2 + 1
                    < chain.len() {
                    Some(GcRef { index: chain[j2 + 1] })
                } else {
                    None
                }));
                if k > 0 && j == k - 1 {
                } else {
                    if k > 0 {
                        assert(chain[j2] != chain[k - 1]);
                    }
                    assert(slots[chain[j2] as int] == old_slots[chain[j2] as int]);
                }
            }
            assert(free_ok(slots, self.free@)) by {
                let free = self.free@;
                let old_free = before.free@;
                assert forall|a: int| 0 <= a < free.len() implies (#[trigger] free[a])
                    < slots.len() && slots[free[a] as int].is_none() by {
                    if a < old_free.len() {
                        assert(free[a] == old_free[a]);
                        assert(old_slots[old_free[a] as int].is_none());
                        if k > 0 {
                            assert(slot_live(old_slots, chain[k - 1] as int));
                        }
                    }
                }
                assert forall|a: int, b: int| 0 <= a < free.len() && 0 <= b < free.len() && a
                    != b implies free[a] != free[b] by {
                    if a < old_free.len() {
                        assert(free[a] == old_free[a]);
                        assert(old_slots[old_free[a] as int].is_none());
                    }
                    if b < old_free.len() {
                        assert(free[b] == old_free[b]);
                        assert(old_slots[old_free[b] as int].is_none());
                    }
                }
            }
            assert(types_ok(slots)) by {
                assert forall|i: int| #[trigger] slot_live(slots, i) implies slot_object(
                    slots,
                    i,
                ).obj.ty == slot_object(slots, i).data.ty_spec() by {
                    assert(slot_live(old_slots, i));
                }
            }
            assert(strings_sound(slots, table)) by {
                assert forall|t: Seq<u8>| #[trigger] table.contains_key(t) implies slot_live(
                    slots,
                    table[t] as int,
                ) && slot_object(slots, table[t] as int).data.text() == Some(t) by {
                    assert(slot_live(old_slots, table[t] as int));
                    assert(table[t] != r.index);
                }
            }
        }
        next
    }
}

/// A change to slots other than the live ones, or one that leaves every
/// header as it was, leaves no mark: if no object was marked before, none
/// is after.
pub proof fn lemma_unmarked_frame(before: Seq<Option<Object>>, after: Seq<Option<Object>>, i: int)
    requires
        slots_unmarked(before),
        only_slot_differs(before, after, i),
        slot_live(after, i) ==> !slot_object(after, i).obj.is_marked,
    ensures
        slots_unmarked(after),
{
    assert forall|j: int| #[trigger] slot_live(after, j) implies !slot_object(
        after,
        j,
    ).obj.is_marked by {
        if j != i {
            assert(slot_live(before, j));
        }
    }
}

/// The list of a consistent store names live slots, each once, and every
/// live slot.
pub proof fn lemma_chain_distinct(heap: &GarbageCollector)
    requires
        heap.links_wf(),
    ensures
        heap.chain@.no_duplicates(),
        forall|k: int|
            0 <= k < heap.chain@.len() ==> slot_live(heap.slots@, (#[trigger] heap.chain@[k]) as int),
        forall|i: int| #[trigger] slot_live(heap.slots@, i) ==> heap.chain@.contains(i as usize),
        heap.objects == (if heap.chain@.len() == 0 {
            None
        } else {
            Some(GcRef { index: heap.chain@[0] })
        }),
{
    reveal(links_ok);
}

/// Two values that refer to live strings are equal exactly when the
/// strings have the same bytes.
pub proof fn lemma_string_equality_is_identity(heap: &GarbageCollector, a: GcRef, b: GcRef)
    requires
        heap.wf(),
        heap.is_a(a, ObjType::String),
        heap.is_a(b, ObjType::String),
    ensures
        crate::value::values_equal(Value::Obj(a), Value::Obj(b)) <==> heap.object(
            a.index as int,
        ).data.text() == heap.object(b.index as int).data.text(),
{
    if heap.object(a.index as int).data.text() == heap.object(b.index as int).data.text() {
        lemma_equal_strings_are_identical(heap, a, b);
    }
}

/// Two live strings with the same bytes are the same object.
pub proof fn lemma_equal_strings_are_identical(heap: &GarbageCollector, a: GcRef, b: GcRef)
    requires
        heap.wf(),
        heap.live(a.index as int),
        heap.live(b.index as int),
        heap.object(a.index as int).data.text().is_some(),
        heap.object(a.index as int).data.text() == heap.object(b.index as int).data.text(),
    ensures
        a == b,
{
    reveal(strings_complete);
}

} // verus!
