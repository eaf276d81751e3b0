use rlox::mem::collector::Gc;
use rlox::mem::gc_ref::GcRef;
use rlox::obj::obj::ObjData;
use rlox::obj::obj::ObjType;
use rlox::obj::obj_class::ObjClass;
use rlox::obj::obj_closure::ObjClosure;
use rlox::obj::obj_function::ObjFunction;
use rlox::obj::obj_instance::ObjInstance;
use rlox::obj::obj_string::ObjString;
use rlox::obj::obj_upvalue::ObjUpvalue;
use rlox::value::Value;

fn live_count(gc: &Gc) -> usize {
    gc.heap.slots.iter().filter(|slot| slot.is_some()).count()
}

fn listed(gc: &Gc) -> Vec<usize> {
    let mut out = Vec::new();
    let mut at = gc.heap.objects;
    while let Some(r) = at {
        out.push(r.index);
        at = gc.heap.get(r).unwrap().obj.next;
    }
    out
}

#[test]
fn interning_the_same_bytes_twice_gives_the_same_string() {
    let mut gc = Gc::new();
    let a = ObjString::new(&mut gc, &b"same".to_vec());
    let b = ObjString::new(&mut gc, &b"same".to_vec());
    let c = ObjString::new(&mut gc, &b"other".to_vec());
    assert_eq!(a, b);
    assert_ne!(a, c);
    assert_eq!(live_count(&gc), 2);
    assert_eq!(gc.heap.string(a).unwrap().text, b"same".to_vec());
}

#[test]
fn concatenation_goes_through_the_intern_table() {
    let mut gc = Gc::new();
    let ab = ObjString::new(&mut gc, &b"ab".to_vec());
    let a = ObjString::new(&mut gc, &b"a".to_vec());
    let b = ObjString::new(&mut gc, &b"b".to_vec());
    assert_eq!(ObjString::concat(&mut gc, a, b), Some(ab));
    let ba = ObjString::concat(&mut gc, b, a).unwrap();
    assert_eq!(gc.heap.string(ba).unwrap().text, b"ba".to_vec());
    let class = gc.place(ObjData::Class(ObjClass::new(a)));
    assert_eq!(ObjString::concat(&mut gc, a, class), None);
}

#[test]
fn new_objects_are_linked_at_the_head_of_the_list() {
    let mut gc = Gc::new();
    let a = ObjString::new(&mut gc, &b"a".to_vec());
    let f = gc.place(ObjData::Function(ObjFunction::new()));
    let c = gc.place(ObjData::Closure(ObjClosure::new(f)));
    assert_eq!(listed(&gc), vec![c.index, f.index, a.index]);
    assert_eq!(gc.heap.kind(c), Some(ObjType::Closure));
    assert_eq!(gc.heap.kind(GcRef::new_raw(99)), None);
}

#[test]
fn a_collection_keeps_what_the_roots_lead_to_and_frees_the_rest() {
    let mut gc = Gc::new();
    let name = ObjString::new(&mut gc, &b"Thing".to_vec());
    let field = ObjString::new(&mut gc, &b"field".to_vec());
    let held = ObjString::new(&mut gc, &b"held".to_vec());
    let lost = ObjString::new(&mut gc, &b"lost".to_vec());
    let class = gc.place(ObjData::Class(ObjClass::new(name)));
    let instance = gc.place(ObjData::Instance(ObjInstance::new(class)));
    assert!(gc.heap.set_field(instance, field, Value::Obj(held)));
    let orphan = gc.place(ObjData::Upvalue(ObjUpvalue::new(3)));
    assert_eq!(live_count(&gc), 7);

    gc.run(&vec![instance]);

    assert_eq!(live_count(&gc), 5);
    for kept in [name, field, held, class, instance] {
        assert!(gc.heap.get(kept).is_some());
        assert!(!gc.heap.get(kept).unwrap().obj.is_marked);
    }
    assert!(gc.heap.get(lost).is_none());
    assert!(gc.heap.get(orphan).is_none());
    assert_eq!(gc.heap.lookup_string(&b"lost".to_vec()), None);
    assert_eq!(gc.heap.lookup_string(&b"held".to_vec()), Some(held));
    let mut list = listed(&gc);
    list.sort();
    let mut expected = vec![name.index, field.index, held.index, class.index, instance.index];
    expected.sort();
    assert_eq!(list, expected);
}

#[test]
fn a_collection_without_roots_frees_everything() {
    let mut gc = Gc::new();
    ObjString::new(&mut gc, &b"a".to_vec());
    let f = gc.place(ObjData::Function(ObjFunction::new()));
    gc.place(ObjData::Closure(ObjClosure::new(f)));
    gc.run(&Vec::<GcRef>::new());
    assert_eq!(live_count(&gc), 0);
    assert_eq!(listed(&gc), Vec::<usize>::new());
    assert_eq!(gc.bytes_allocated, 0);
    assert_eq!(gc.next_gc, 0);
}

#[test]
fn a_freed_slot_is_used_again() {
    let mut gc = Gc::new();
    let a = ObjString::new(&mut gc, &b"a".to_vec());
    let b = ObjString::new(&mut gc, &b"b".to_vec());
    gc.run(&vec![b]);
    let c = ObjString::new(&mut gc, &b"c".to_vec());
    assert_eq!(c.index, a.index);
    assert_eq!(live_count(&gc), 2);
}

#[test]
fn bytes_are_counted_and_the_threshold_doubles() {
    let mut gc = Gc::new();
    assert_eq!(gc.next_gc, 1048576);
    let a = ObjString::new(&mut gc, &b"a".to_vec());
    assert_eq!(gc.bytes_allocated, 56);
    let f = gc.place(ObjData::Function(ObjFunction::new()));
    assert_eq!(gc.bytes_allocated, 56 + 128);
    assert!(!gc.should_collect());
    gc.run(&vec![a]);
    assert!(gc.heap.get(f).is_none());
    assert_eq!(gc.bytes_allocated, 56);
    assert_eq!(gc.next_gc, 112);
}

#[test]
fn in_stress_mode_every_allocation_collects_first() {
    let mut gc = Gc::new();
    gc.stress = true;
    let roots: Vec<GcRef> = Vec::new();
    let a = gc.intern(&b"a".to_vec(), &roots);
    let b = gc.intern(&b"b".to_vec(), &roots);
    assert!(gc.heap.get(b).is_some());
    assert_eq!(live_count(&gc), 1);
    assert_eq!(a.index, b.index);
    let again = gc.intern(&b"b".to_vec(), &roots);
    assert_eq!(again, b);
    let f = gc.allocate(ObjData::Function(ObjFunction::new()), &vec![b]);
    assert!(gc.heap.get(b).is_some());
    assert!(gc.heap.get(f).is_some());
}

#[test]
fn a_cycle_that_nothing_leads_to_is_freed() {
    let mut gc = Gc::new();
    let name = ObjString::new(&mut gc, &b"Node".to_vec());
    let next = ObjString::new(&mut gc, &b"next".to_vec());
    let class = gc.place(ObjData::Class(ObjClass::new(name)));
    let one = gc.place(ObjData::Instance(ObjInstance::new(class)));
    let two = gc.place(ObjData::Instance(ObjInstance::new(class)));
    assert!(gc.heap.set_field(one, next, Value::Obj(two)));
    assert!(gc.heap.set_field(two, next, Value::Obj(one)));
    gc.run(&vec![class]);
    assert!(gc.heap.get(one).is_none());
    assert!(gc.heap.get(two).is_none());
    assert!(gc.heap.get(class).is_some());
    assert!(gc.heap.get(name).is_some());
    assert!(gc.heap.get(next).is_none());
}

#[test]
fn mutators_refuse_objects_of_another_kind() {
    let mut gc = Gc::new();
    let name = ObjString::new(&mut gc, &b"n".to_vec());
    let class = gc.place(ObjData::Class(ObjClass::new(name)));
    assert!(!gc.heap.set_field(class, name, Value::Nil));
    assert!(!gc.heap.add_method(name, name, class));
    assert!(!gc.heap.set_upvalue(class, ObjUpvalue::new(0)));
    assert!(!gc.heap.set_function(class, ObjFunction::new()));
    assert!(gc.heap.add_method(class, name, class));
    assert_eq!(gc.heap.class(class).unwrap().methods.get(name), Some(class));
}

#[test]
fn the_default_map_and_the_default_vector_are_empty() {
    let map: rlox::mem::gc_map::GcMap<u64> = Default::default();
    assert!(map.entries().is_empty());
    let vector: rlox::mem::inline_vec::InlineVec<4, u8> = Default::default();
    assert!(vector.is_empty());
    assert_eq!(vector.len(), 0);
}

#[test]
fn joining_strings_gives_the_string_the_table_has() {
    let mut gc = rlox::mem::collector::Gc::new();
    let left = gc.place_string(&b"ab".to_vec());
    let right = gc.place_string(&b"cd".to_vec());
    let whole = gc.place_string(&b"abcd".to_vec());
    let joined = rlox::obj::obj_string::ObjString::concat(&mut gc, left, right).unwrap();
    assert_eq!(joined, whole);
    assert_eq!(gc.heap.string(left).unwrap().text, b"ab".to_vec());
    assert_eq!(gc.heap.string(right).unwrap().text, b"cd".to_vec());
    let fresh = rlox::obj::obj_string::ObjString::concat(&mut gc, right, left).unwrap();
    assert_ne!(fresh, whole);
    assert_eq!(gc.heap.string(fresh).unwrap().text, b"cdab".to_vec());
}
