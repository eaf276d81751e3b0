use vstd::prelude::*;
use crate::mem::gc::lemma_chain_distinct;
use crate::mem::gc::lemma_unmarked_frame;
use crate::mem::gc::links_ok;
use crate::mem::gc::strings_complete;
use crate::mem::gc::only_slot_differs;
use crate::mem::gc::slot_live;
use crate::mem::gc::slot_marked;
use crate::mem::gc::slot_object;
use crate::mem::gc::slots_unmarked;
use crate::mem::gc::GarbageCollector;
use crate::mem::gc_ref::GcRef;
use crate::obj::obj::ObjData;
use crate::obj::obj::ObjType;
use crate::obj::obj::ObjView;
use crate::obj::obj::Object;
use crate::value::Value;

verus! {

/// How much the threshold grows over what survived a collection.
pub const GC_HEAP_GROW_FACTOR: usize = 2;

/// The threshold of a new collector.
pub const INITIAL_NEXT_GC: usize = 1048576;

/// The object a value refers to, if it refers to one.
pub open spec fn value_ref(v: Value) -> Option<GcRef> {
    match v {
        Value::Obj(r) => Some(r),
        _ => None,
    }
}

/// Whether an object with payload `data` holds a reference to `c`.
pub open spec fn refers_to(data: ObjView, c: GcRef) -> bool {
    match data {
        ObjView::BoundMethod { receiver, method } => c == method || value_ref(receiver) == Some(c),
        ObjView::Class { name, methods } => c == name || methods.contains_key(c.index) || exists|
            k: usize,
        |
            methods.contains_key(k) && #[trigger] methods[k] == c,
        ObjView::Closure { function, upvalues } => c == function || upvalues.contains(c),
        ObjView::Function { name, constants, .. } => name == Some(c) || exists|j: int|
            0 <= j < constants.len() && value_ref(#[trigger] constants[j]) == Some(c),
        ObjView::Instance { klass, fields } => c == klass || fields.contains_key(c.index) || exists|
            k: usize,
        |
            fields.contains_key(k) && value_ref(#[trigger] fields[k]) == Some(c),
        ObjView::Native { .. } => false,
        ObjView::String { .. } => false,
        ObjView::Upvalue { closed, .. } => value_ref(closed) == Some(c),
    }
}

/// A path through the heap: it starts at a root, every object on it is
/// live, and each holds a reference to the next.
pub open spec fn is_path(slots: Seq<Option<Object>>, roots: Set<GcRef>, path: Seq<GcRef>) -> bool {
    &&& path.len() > 0
    &&& roots.contains(path[0])
    &&& forall|k: int| 0 <= k < path.len() ==> slot_live(slots, (#[trigger] path[k]).index as int)
    &&& forall|k: int|
        0 <= k < path.len() - 1 ==> refers_to(
            slot_object(slots, (#[trigger] path[k]).index as int).data@,
            path[k + 1],
        )
}

/// Whether a path leads from the roots to the live object `r`.
pub open spec fn reachable(slots: Seq<Option<Object>>, roots: Set<GcRef>, r: GcRef) -> bool {
    exists|path: Seq<GcRef>| #[trigger] is_path(slots, roots, path) && path.last() == r
}

/// Every reference that a live object holds leads to a live object.
pub open spec fn heap_closed(slots: Seq<Option<Object>>) -> bool {
    forall|o: GcRef, c: GcRef|
        slot_live(slots, o.index as int) && #[trigger] refers_to(
            slot_object(slots, o.index as int).data@,
            c,
        ) ==> slot_live(slots, c.index as int)
}

/// As `heap_closed`, of what the slots hold as mathematics.
pub open spec fn view_closed(heap: Seq<Option<(crate::obj::obj::Obj, ObjView)>>) -> bool {
    forall|o: GcRef, c: GcRef|
        0 <= o.index < heap.len() && heap[o.index as int].is_some() && #[trigger] refers_to(
            heap[o.index as int].unwrap().1,
            c,
        ) ==> 0 <= c.index < heap.len() && heap[c.index as int].is_some()
}

/// The slots are closed exactly when what they hold is.
pub proof fn lemma_view_closed(slots: Seq<Option<Object>>)
    ensures
        heap_closed(slots) <==> view_closed(crate::mem::gc::slots_view(slots)),
{
    let heap = crate::mem::gc::slots_view(slots);
    assert forall|i: int| 0 <= i < slots.len() implies heap[i].is_some() == slots[i].is_some() && (
    slots[i].is_some() ==> heap[i].unwrap().1 == slots[i].unwrap().data@) by {}
    if heap_closed(slots) {
        assert forall|o: GcRef, c: GcRef|
            0 <= o.index < heap.len() && heap[o.index as int].is_some() && #[trigger] refers_to(
                heap[o.index as int].unwrap().1,
                c,
            ) implies 0 <= c.index < heap.len() && heap[c.index as int].is_some() by {
            assert(slot_live(slots, o.index as int));
            assert(refers_to(slot_object(slots, o.index as int).data@, c));
            assert(slot_live(slots, c.index as int));
        }
    }
    if view_closed(heap) {
        assert forall|o: GcRef, c: GcRef|
            slot_live(slots, o.index as int) && #[trigger] refers_to(
                slot_object(slots, o.index as int).data@,
                c,
            ) implies slot_live(slots, c.index as int) by {
            assert(refers_to(heap[o.index as int].unwrap().1, c));
            assert(heap[c.index as int].is_some());
        }
    }
}

/// An object with the payload `view` may join the heap: every reference
/// it holds leads to a live object.
pub open spec fn refers_to_live(slots: Seq<Option<Object>>, view: ObjView) -> bool {
    forall|c: GcRef| #[trigger] refers_to(view, c) ==> slot_live(slots, c.index as int)
}

/// The bytes an object of kind `ty` is counted as.
pub open spec fn size_of(ty: ObjType) -> usize {
    match ty {
        ObjType::BoundMethod => 48,
        ObjType::Class => 64,
        ObjType::Closure => 56,
        ObjType::Function => 128,
        ObjType::Instance => 64,
        ObjType::Native => 32,
        ObjType::String => 56,
        ObjType::Upvalue => 56,
    }
}

/// The bytes an object of kind `ty` is counted as.
pub fn object_size(ty: ObjType) -> (size: usize)
    ensures
        size == size_of(ty),
{
    match ty {
        ObjType::BoundMethod => 48,
        ObjType::Class => 64,
        ObjType::Closure => 56,
        ObjType::Function => 128,
        ObjType::Instance => 64,
        ObjType::Native => 32,
        ObjType::String => 56,
        ObjType::Upvalue => 56,
    }
}

/// The objects that are known to be in use and whose references have not
/// been followed yet.
pub struct GrayStack {
    pub stack: Vec<GcRef>,
}

impl View for GrayStack {
    type V = Seq<GcRef>;

    open spec fn view(&self) -> Seq<GcRef> {
        self.stack@
    }
}

impl GrayStack {
    pub fn new() -> (gray: Self)
        ensures
            gray@ == Seq::<GcRef>::empty(),
    {
        GrayStack { stack: Vec::new() }
    }

    pub fn push(&mut self, obj: GcRef)
        ensures
            final(self)@ == old(self)@.push(obj),
    {
        self.stack.push(obj);
    }

    pub fn pop(&mut self) -> (obj: Option<GcRef>)
        ensures
            old(self)@.len() == 0 ==> obj.is_none() && final(self)@ == old(self)@,
            old(self)@.len() > 0 ==> obj == Some(old(self)@.last()) && final(self)@ == old(self)@.drop_last(),
    {
        self.stack.pop()
    }

    /// Pushes the object `value` refers to, if it refers to one.
    pub fn push_value(&mut self, value: Value)
        ensures
            final(self)@ == (match value {
                Value::Obj(r) => old(self)@.push(r),
                _ => old(self)@,
            }),
    {
        match value {
            Value::Obj(r) => self.stack.push(r),
            _ => {},
        }
    }

    /// Pushes every reference of `refs`, in order.
    pub fn push_all(&mut self, refs: &Vec<GcRef>)
        ensures
            final(self)@ == old(self)@ + refs@,
    {
        let mut i: usize = 0;
        while i < refs.len()
            invariant
                i <= refs.len(),
                self@ == old(self)@ + refs@.subrange(0, i as int),
            decreases refs.len() - i,
        {
            self.stack.push(refs[i]);
            assert(refs@.subrange(0, i + 1) == refs@.subrange(0, i as int).push(refs@[i as int]));
            i += 1;
        }
        assert(refs@.subrange(0, refs.len() as int) == refs@);
    }
}

/// The members of a concatenation are the members of its parts.
pub proof fn lemma_concat_to_set(a: Seq<GcRef>, b: Seq<GcRef>)
    ensures
        (a + b).to_set() == a.to_set().union(b.to_set()),
{
    let c = a + b;
    assert forall|r: GcRef| c.to_set().contains(r) <==> a.to_set().union(b.to_set()).contains(
        r,
    ) by {
        if c.contains(r) {
            let w = choose|w: int| 0 <= w < c.len() && c[w] == r;
            if w < a.len() {
                assert(a[w] == r);
            } else {
                assert(b[w - a.len()] == r);
            }
        }
        if a.contains(r) {
            let w = choose|w: int| 0 <= w < a.len() && a[w] == r;
            assert(c[w] == r);
        }
        if b.contains(r) {
            let w = choose|w: int| 0 <= w < b.len() && b[w] == r;
            assert(c[a.len() + w] == r);
        }
    }
    assert(c.to_set() =~= a.to_set().union(b.to_set()));
}

/// Something that holds references the collector must treat as in use.
pub trait GcRoot {
    /// The references held.
    spec fn roots(&self) -> Set<GcRef>;

    /// Pushes the references held onto the gray stack.
    fn mark(&self, gray_stack: &mut GrayStack)
        ensures
            final(gray_stack)@.to_set() == old(gray_stack)@.to_set().union(self.roots()),
    ;
}

impl GcRoot for Vec<GcRef> {
    open spec fn roots(&self) -> Set<GcRef> {
        self@.to_set()
    }

    fn mark(&self, gray_stack: &mut GrayStack) {
        gray_stack.push_all(self);
        proof {
            lemma_concat_to_set(old(gray_stack)@, self@);
        }
    }
}

/// The references an object with payload `data` holds, each at least once.
pub fn children(data: &ObjData) -> (out: Vec<GcRef>)
    ensures
        forall|j: int| 0 <= j < out@.len() ==> refers_to(data@, #[trigger] out@[j]),
        forall|c: GcRef| #[trigger] refers_to(data@, c) ==> out@.contains(c),
{
    let mut out = GrayStack::new();
    match data {
        ObjData::BoundMethod(bound) => {
            out.push(bound.method);
            out.push_value(bound.receiver);
            assert(out@[0] == bound.method);
            assert forall|c: GcRef| #[trigger] refers_to(data@, c) implies out@.contains(c) by {
                if c == bound.method {
                    assert(out@[0] == c);
                } else {
                    assert(out@[1] == c);
                }
            }
        },
        ObjData::Class(class) => {
            out.push(class.name);
            let entries = class.methods.entries();
            let mut i: usize = 0;
            while i < entries.len()
                invariant
                    i <= entries.len(),
                    data@ == (ObjView::Class { name: class.name, methods: class.methods@ }),
                    out@.len() == 1 + 2 * i,
                    out@[0] == class.name,
                    forall|q: int|
                        0 <= q < i ==> out@[1 + 2 * q] == (GcRef { index: (#[trigger] entries@[q]).0 })
                            && out@[2 + 2 * q] == entries@[q].1,
                    forall|q: int|
                        0 <= q < entries@.len() ==> class.methods@.contains_key(
                            (#[trigger] entries@[q]).0,
                        ) && class.methods@[entries@[q].0] == entries@[q].1,
                decreases entries.len() - i,
            {
                let (key, method) = entries[i];
                out.push(GcRef { index: key });
                out.push(method);
                i += 1;
            }
            assert forall|j: int| 0 <= j < out@.len() implies refers_to(
                data@,
                #[trigger] out@[j],
            ) by {
                if j > 0 {
                    let q = (j - 1) / 2;
                    assert(class.methods@.contains_key(entries@[q].0));
                    if j == 1 + 2 * q {
                    } else {
                        assert(j == 2 + 2 * q);
                        assert(class.methods@[entries@[q].0] == out@[j]);
                    }
                }
            }
            assert forall|c: GcRef| #[trigger] refers_to(data@, c) implies out@.contains(c) by {
                if c == class.name {
                    assert(out@[0] == c);
                } else if class.methods@.contains_key(c.index) {
                    let q = choose|q: int| 0 <= q < entries@.len() && entries@[q].0 == c.index;
                    assert(out@[1 + 2 * q] == c);
                } else {
                    let k = choose|k: usize|
                        class.methods@.contains_key(k) && #[trigger] class.methods@[k] == c;
                    let q = choose|q: int| 0 <= q < entries@.len() && entries@[q].0 == k;
                    assert(out@[2 + 2 * q] == c);
                }
            }
        },
        ObjData::Closure(closure) => {
            out.push(closure.function);
            out.push_all(&closure.upvalues);
            assert(out@[0] == closure.function);
            assert forall|j: int| 0 <= j < out@.len() implies refers_to(
                data@,
                #[trigger] out@[j],
            ) by {
                if j > 0 {
                    assert(out@[j] == closure.upvalues@[j - 1]);
                }
            }
            assert forall|c: GcRef| #[trigger] refers_to(data@, c) implies out@.contains(c) by {
                if c == closure.function {
                    assert(out@[0] == c);
                } else {
                    let q = choose|q: int|
                        0 <= q < closure.upvalues@.len() && closure.upvalues@[q] == c;
                    assert(out@[q + 1] == c);
                }
            }
        },
        ObjData::Function(function) => {
            match function.name {
                Some(name) => {
                    out.push(name);
                    assert(out@[0] == name);
                },
                None => {},
            }
            let constants = &function.chunk.constants;
            let mut i: usize = 0;
            while i < constants.len()
                invariant
                    i <= constants.len(),
                    constants == &function.chunk.constants,
                    data@->Function_name == function.name,
                    data@->Function_constants == constants@,
                    data@ is Function,
                    forall|j: int| 0 <= j < out@.len() ==> refers_to(data@, #[trigger] out@[j]),
                    function.name.is_some() ==> out@.contains(function.name.unwrap()),
                    forall|q: int|
                        0 <= q < i && value_ref(#[trigger] constants@[q]).is_some() ==> out@.contains(
                            value_ref(constants@[q]).unwrap(),
                        ),
                decreases constants.len() - i,
            {
                let ghost before = out@;
                out.push_value(constants[i]);
                proof {
                    assert forall|j: int| 0 <= j < out@.len() implies refers_to(
                        data@,
                        #[trigger] out@[j],
                    ) by {
                        if j < before.len() {
                            assert(out@[j] == before[j]);
                        } else {
                            assert(value_ref(constants@[i as int]) == Some(out@[j]));
                        }
                    }
                    assert forall|q: int|
                        0 <= q < i + 1 && value_ref(
                            #[trigger] constants@[q],
                        ).is_some() implies out@.contains(value_ref(constants@[q]).unwrap()) by {
                        let c = value_ref(constants@[q]).unwrap();
                        if q < i {
                            let w = choose|w: int| 0 <= w < before.len() && before[w] == c;
                            assert(out@[w] == c);
                        } else {
                            assert(out@[before.len() as int] == c);
                        }
                    }
                    if function.name.is_some() {
                        let c = function.name.unwrap();
                        let w = choose|w: int| 0 <= w < before.len() && before[w] == c;
                        assert(out@[w] == c);
                    }
                }
                i += 1;
            }
            assert forall|c: GcRef| #[trigger] refers_to(data@, c) implies out@.contains(c) by {
                if function.name == Some(c) {
                } else {
                    let q = choose|q: int|
                        0 <= q < constants@.len() && value_ref(#[trigger] constants@[q]) == Some(c);
                    assert(value_ref(constants@[q]).is_some());
                }
            }
        },
        ObjData::Instance(instance) => {
            out.push(instance.klass);
            let entries = instance.fields.entries();
            let mut i: usize = 0;
            while i < entries.len()
                invariant
                    i <= entries.len(),
                    data@ == (ObjView::Instance { klass: instance.klass, fields: instance.fields@ }),
                    out@.len() > 0,
                    out@[0] == instance.klass,
                    forall|j: int| 0 <= j < out@.len() ==> refers_to(data@, #[trigger] out@[j]),
                    forall|q: int|
                        0 <= q < i ==> out@.contains(GcRef { index: (#[trigger] entries@[q]).0 }),
                    forall|q: int|
                        0 <= q < i && value_ref((#[trigger] entries@[q]).1).is_some() ==> out@.contains(
                            value_ref(entries@[q].1).unwrap(),
                        ),
                    forall|q: int|
                        0 <= q < entries@.len() ==> instance.fields@.contains_key(
                            (#[trigger] entries@[q]).0,
                        ) && instance.fields@[entries@[q].0] == entries@[q].1,
                decreases entries.len() - i,
            {
                let ghost before = out@;
                let (key, value) = entries[i];
                out.push(GcRef { index: key });
                let ghost middle = out@;
                out.push_value(value);
                proof {
                    assert forall|j: int| 0 <= j < out@.len() implies refers_to(
                        data@,
                        #[trigger] out@[j],
                    ) by {
                        if j < before.len() {
                            assert(out@[j] == before[j]);
                        } else if j == before.len() {
                            assert(instance.fields@.contains_key(entries@[i as int].0));
                        } else {
                            assert(instance.fields@.contains_key(entries@[i as int].0));
                            assert(value_ref(instance.fields@[entries@[i as int].0]) == Some(
                                out@[j],
                            ));
                        }
                    }
                    assert forall|q: int| 0 <= q < i + 1 implies out@.contains(
                        GcRef { index: (#[trigger] entries@[q]).0 },
                    ) by {
                        let c = GcRef { index: entries@[q].0 };
                        if q < i {
                            let w = choose|w: int| 0 <= w < before.len() && before[w] == c;
                            assert(out@[w] == c);
                        } else {
                            assert(out@[before.len() as int] == c);
                        }
                    }
                    assert forall|q: int|
                        0 <= q < i + 1 && value_ref(
                            (#[trigger] entries@[q]).1,
                        ).is_some() implies out@.contains(value_ref(entries@[q].1).unwrap()) by {
                        let c = value_ref(entries@[q].1).unwrap();
                        if q < i {
                            let w = choose|w: int| 0 <= w < before.len() && before[w] == c;
                            assert(out@[w] == c);
                        } else {
                            assert(out@[middle.len() as int] == c);
                        }
                    }
                }
                i += 1;
            }
            assert forall|c: GcRef| #[trigger] refers_to(data@, c) implies out@.contains(c) by {
                if c == instance.klass {
                    assert(out@[0] == c);
                } else if instance.fields@.contains_key(c.index) {
                    let q = choose|q: int| 0 <= q < entries@.len() && entries@[q].0 == c.index;
                    assert(out@.contains(GcRef { index: entries@[q].0 }));
                } else {
                    let k = choose|k: usize|
                        instance.fields@.contains_key(k) && value_ref(
                            #[trigger] instance.fields@[k],
                        ) == Some(c);
                    let q = choose|q: int| 0 <= q < entries@.len() && entries@[q].0 == k;
                    assert(value_ref(entries@[q].1).is_some());
                }
            }
        },
        ObjData::Native(_) => {},
        ObjData::String(_) => {},
        ObjData::Upvalue(upvalue) => {
            out.push_value(upvalue.closed);
            assert forall|c: GcRef| #[trigger] refers_to(data@, c) implies out@.contains(c) by {
                assert(out@[0] == c);
            }
        },
    }
    out.stack
}

/// Slot `i` holds an object that carries the mark.
pub open spec fn is_marked(slots: Seq<Option<Object>>, i: int) -> bool {
    slot_live(slots, i) && slot_object(slots, i).obj.is_marked
}

/// The slots after hold the objects the slots before held, with other marks.
pub open spec fn same_but_marks(before: Seq<Option<Object>>, after: Seq<Option<Object>>) -> bool {
    &&& after.len() == before.len()
    &&& forall|i: int| #[trigger] slot_live(after, i) == slot_live(before, i)
    &&& forall|i: int| #[trigger]
        slot_live(before, i) ==> slot_object(after, i).data == slot_object(before, i).data
            && slot_object(after, i).obj.ty == slot_object(before, i).obj.ty && slot_object(
            after,
            i,
        ).obj.next == slot_object(before, i).obj.next
}

/// How many live objects carry no mark.
pub open spec fn unmarked_count(slots: Seq<Option<Object>>) -> nat
    decreases slots.len(),
{
    if slots.len() == 0 {
        0
    } else {
        unmarked_count(slots.drop_last()) + (if slots.last().is_some()
            && !slots.last().unwrap().obj.is_marked {
            1nat
        } else {
            0nat
        })
    }
}

proof fn lemma_marking_decreases(before: Seq<Option<Object>>, after: Seq<Option<Object>>, i: int)
    requires
        slot_live(before, i),
        !slot_object(before, i).obj.is_marked,
        after == before.update(i, after[i]),
        slot_live(after, i),
        slot_object(after, i).obj.is_marked,
    ensures
        unmarked_count(after) + 1 == unmarked_count(before),
    decreases before.len(),
{
    if i == before.len() - 1 {
        assert(after.drop_last() == before.drop_last());
    } else {
        assert(after.drop_last() == before.drop_last().update(i, after.drop_last()[i]));
        lemma_marking_decreases(before.drop_last(), after.drop_last(), i);
    }
}

/// A reference held by a reachable object leads to a reachable object.
pub proof fn lemma_reachable_step(
    slots: Seq<Option<Object>>,
    roots: Set<GcRef>,
    from: GcRef,
    to: GcRef,
)
    requires
        reachable(slots, roots, from),
        refers_to(slot_object(slots, from.index as int).data@, to),
        slot_live(slots, to.index as int),
    ensures
        reachable(slots, roots, to),
{
    let p = choose|p: Seq<GcRef>| #[trigger] is_path(slots, roots, p) && p.last() == from;
    let q = p.push(to);
    assert forall|k: int| 0 <= k < q.len() implies slot_live(
        slots,
        (#[trigger] q[k]).index as int,
    ) by {
        if k < p.len() {
            assert(q[k] == p[k]);
        }
    }
    assert forall|k: int| 0 <= k < q.len() - 1 implies refers_to(
        slot_object(slots, (#[trigger] q[k]).index as int).data@,
        q[k + 1],
    ) by {
        assert(q[k] == p[k]);
        if k < p.len() - 1 {
            assert(q[k + 1] == p[k + 1]);
        }
    }
    assert(q[0] == p[0]);
    assert(is_path(slots, roots, q));
    assert(q.last() == to);
}

/// A live root is reachable.
pub proof fn lemma_root_reachable(slots: Seq<Option<Object>>, roots: Set<GcRef>, r: GcRef)
    requires
        roots.contains(r),
        slot_live(slots, r.index as int),
    ensures
        reachable(slots, roots, r),
{
    let p = seq![r];
    assert(p[0] == r);
    assert(is_path(slots, roots, p));
    assert(p.last() == r);
}

/// When every live root is marked and every live object that a marked
/// object refers to is marked, every object on a path is marked.
proof fn lemma_marks_cover_path(
    graph: Seq<Option<Object>>,
    slots: Seq<Option<Object>>,
    roots: Set<GcRef>,
    path: Seq<GcRef>,
    k: int,
)
    requires
        is_path(graph, roots, path),
        0 <= k < path.len(),
        forall|c: GcRef|
            #[trigger] roots.contains(c) && slot_live(graph, c.index as int) ==> is_marked(
                slots,
                c.index as int,
            ),
        forall|r: GcRef, c: GcRef|
            is_marked(slots, r.index as int) && #[trigger] refers_to(
                slot_object(graph, r.index as int).data@,
                c,
            ) && slot_live(graph, c.index as int) ==> is_marked(slots, c.index as int),
    ensures
        is_marked(slots, path[k].index as int),
    decreases k,
{
    if k == 0 {
        assert(roots.contains(path[0]));
        assert(slot_live(graph, path[0].index as int));
    } else {
        lemma_marks_cover_path(graph, slots, roots, path, k - 1);
        assert(refers_to(slot_object(graph, path[k - 1].index as int).data@, path[k]));
        assert(slot_live(graph, path[k].index as int));
    }
}

/// Where a trace stands that started from the references `roots` in the
/// heap `graph`: only reachable objects are marked or gray, and whatever a
/// marked object or a root refers to is marked or gray.
pub open spec fn tracing(
    graph: Seq<Option<Object>>,
    roots: Set<GcRef>,
    slots: Seq<Option<Object>>,
    gray: Seq<GcRef>,
) -> bool {
    &&& same_but_marks(graph, slots)
    &&& forall|r: GcRef|
        is_marked(slots, r.index as int) ==> #[trigger] reachable(graph, roots, r)
    &&& forall|j: int|
        0 <= j < gray.len() && slot_live(graph, (#[trigger] gray[j]).index as int) ==> reachable(
            graph,
            roots,
            gray[j],
        )
    &&& forall|r: GcRef, c: GcRef|
        is_marked(slots, r.index as int) && #[trigger] refers_to(
            slot_object(graph, r.index as int).data@,
            c,
        ) && slot_live(graph, c.index as int) ==> is_marked(slots, c.index as int) || gray.contains(
            c,
        )
    &&& forall|c: GcRef|
        #[trigger] roots.contains(c) && slot_live(graph, c.index as int) ==> is_marked(
            slots,
            c.index as int,
        ) || gray.contains(c)
}

proof fn lemma_tracing_start(graph: Seq<Option<Object>>, gray: Seq<GcRef>)
    requires
        slots_unmarked(graph),
    ensures
        tracing(graph, gray.to_set(), graph, gray),
{
    let roots = gray.to_set();
    assert forall|j: int|
        0 <= j < gray.len() && slot_live(graph, (#[trigger] gray[j]).index as int) implies reachable(
        graph,
        roots,
        gray[j],
    ) by {
        assert(gray.contains(gray[j]));
        lemma_root_reachable(graph, roots, gray[j]);
    }
    assert forall|r: GcRef| is_marked(graph, r.index as int) implies #[trigger] reachable(
        graph,
        roots,
        r,
    ) by {
        assert(slot_live(graph, r.index as int));
    }
    assert forall|r: GcRef, c: GcRef|
        is_marked(graph, r.index as int) && #[trigger] refers_to(
            slot_object(graph, r.index as int).data@,
            c,
        ) && slot_live(graph, c.index as int) implies is_marked(graph, c.index as int)
        || gray.contains(c) by {
        assert(slot_live(graph, r.index as int));
    }
}

proof fn lemma_tracing_skip(
    graph: Seq<Option<Object>>,
    roots: Set<GcRef>,
    slots: Seq<Option<Object>>,
    gray: Seq<GcRef>,
)
    requires
        tracing(graph, roots, slots, gray),
        gray.len() > 0,
        !slot_live(slots, gray.last().index as int) || is_marked(slots, gray.last().index as int),
    ensures
        tracing(graph, roots, slots, gray.drop_last()),
{
    let rest = gray.drop_last();
    let g = gray.last();
    assert forall|j: int|
        0 <= j < rest.len() && slot_live(graph, (#[trigger] rest[j]).index as int) implies reachable(
        graph,
        roots,
        rest[j],
    ) by {
        assert(rest[j] == gray[j]);
    }
    assert forall|r: GcRef, c: GcRef|
        is_marked(slots, r.index as int) && #[trigger] refers_to(
            slot_object(graph, r.index as int).data@,
            c,
        ) && slot_live(graph, c.index as int) implies is_marked(slots, c.index as int)
        || rest.contains(c) by {
        if !is_marked(slots, c.index as int) {
            let w = choose|w: int| 0 <= w < gray.len() && gray[w] == c;
            if w < rest.len() {
                assert(rest[w] == c);
            } else {
                assert(slot_live(slots, c.index as int));
            }
        }
    }
    assert forall|c: GcRef|
        #[trigger] roots.contains(c) && slot_live(graph, c.index as int) implies is_marked(
        slots,
        c.index as int,
    ) || rest.contains(c) by {
        if !is_marked(slots, c.index as int) {
            let w = choose|w: int| 0 <= w < gray.len() && gray[w] == c;
            if w < rest.len() {
                assert(rest[w] == c);
            } else {
                assert(slot_live(slots, c.index as int));
            }
        }
    }
}

proof fn lemma_tracing_visit(
    graph: Seq<Option<Object>>,
    roots: Set<GcRef>,
    slots: Seq<Option<Object>>,
    after: Seq<Option<Object>>,
    gray: Seq<GcRef>,
    kids: Seq<GcRef>,
)
    requires
        tracing(graph, roots, slots, gray),
        gray.len() > 0,
        slot_live(slots, gray.last().index as int),
        !slot_object(slots, gray.last().index as int).obj.is_marked,
        after == slots.update(gray.last().index as int, after[gray.last().index as int]),
        slot_live(after, gray.last().index as int),
        slot_object(after, gray.last().index as int).obj.is_marked,
        slot_object(after, gray.last().index as int).obj.ty == slot_object(
            slots,
            gray.last().index as int,
        ).obj.ty,
        slot_object(after, gray.last().index as int).obj.next == slot_object(
            slots,
            gray.last().index as int,
        ).obj.next,
        slot_object(after, gray.last().index as int).data == slot_object(
            slots,
            gray.last().index as int,
        ).data,
        forall|j: int|
            0 <= j < kids.len() ==> refers_to(
                slot_object(after, gray.last().index as int).data@,
                #[trigger] kids[j],
            ),
        forall|c: GcRef| #[trigger]
            refers_to(slot_object(after, gray.last().index as int).data@, c) ==> kids.contains(c),
    ensures
        tracing(graph, roots, after, gray.drop_last() + kids),
        unmarked_count(after) + 1 == unmarked_count(slots),
{
    let g = gray.last();
    let rest = gray.drop_last();
    let next = rest + kids;
    lemma_marking_decreases(slots, after, g.index as int);
    assert(slot_live(graph, g.index as int));
    assert(gray[gray.len() - 1] == g);
    assert(reachable(graph, roots, g));
    assert(slot_object(graph, g.index as int).data == slot_object(after, g.index as int).data);
    assert(same_but_marks(graph, after)) by {
        assert forall|i: int| #[trigger] slot_live(after, i) == slot_live(graph, i) by {
            assert(slot_live(slots, i) == slot_live(graph, i));
        }
        assert forall|i: int| #[trigger] slot_live(graph, i) implies slot_object(after, i).data
            == slot_object(graph, i).data && slot_object(after, i).obj.ty == slot_object(
            graph,
            i,
        ).obj.ty && slot_object(after, i).obj.next == slot_object(graph, i).obj.next by {
            assert(slot_live(slots, i));
        }
    }
    assert forall|r: GcRef| is_marked(after, r.index as int) implies #[trigger] reachable(
        graph,
        roots,
        r,
    ) by {
        if r.index != g.index {
            assert(is_marked(slots, r.index as int));
        }
    }
    assert forall|j: int|
        0 <= j < next.len() && slot_live(graph, (#[trigger] next[j]).index as int) implies reachable(
        graph,
        roots,
        next[j],
    ) by {
        if j < rest.len() {
            assert(next[j] == gray[j]);
        } else {
            assert(next[j] == kids[j - rest.len()]);
            assert(refers_to(slot_object(graph, g.index as int).data@, next[j]));
            lemma_reachable_step(graph, roots, g, next[j]);
        }
    }
    assert forall|r: GcRef, c: GcRef|
        is_marked(after, r.index as int) && #[trigger] refers_to(
            slot_object(graph, r.index as int).data@,
            c,
        ) && slot_live(graph, c.index as int) implies is_marked(after, c.index as int)
        || next.contains(c) by {
        if r.index == g.index {
            assert(kids.contains(c));
            let w = choose|w: int| 0 <= w < kids.len() && kids[w] == c;
            assert(next[rest.len() + w] == c);
        } else {
            assert(is_marked(slots, r.index as int));
            if is_marked(slots, c.index as int) {
                assert(is_marked(after, c.index as int));
            } else {
                let w = choose|w: int| 0 <= w < gray.len() && gray[w] == c;
                if w < rest.len() {
                    assert(next[w] == c);
                }
            }
        }
    }
    assert forall|c: GcRef|
        #[trigger] roots.contains(c) && slot_live(graph, c.index as int) implies is_marked(
        after,
        c.index as int,
    ) || next.contains(c) by {
        if is_marked(slots, c.index as int) {
            assert(is_marked(after, c.index as int));
        } else {
            let w = choose|w: int| 0 <= w < gray.len() && gray[w] == c;
            if w < rest.len() {
                assert(next[w] == c);
            }
        }
    }
}

proof fn lemma_tracing_done(
    graph: Seq<Option<Object>>,
    roots: Set<GcRef>,
    slots: Seq<Option<Object>>,
)
    requires
        tracing(graph, roots, slots, Seq::<GcRef>::empty()),
    ensures
        forall|r: GcRef|
            is_marked(slots, r.index as int) <==> #[trigger] reachable(graph, roots, r),
{
    let gray = Seq::<GcRef>::empty();
    assert forall|r: GcRef| #[trigger] reachable(graph, roots, r) implies is_marked(
        slots,
        r.index as int,
    ) by {
        let p = choose|p: Seq<GcRef>| #[trigger] is_path(graph, roots, p) && p.last() == r;
        assert forall|x: GcRef, c: GcRef|
            is_marked(slots, x.index as int) && #[trigger] refers_to(
                slot_object(graph, x.index as int).data@,
                c,
            ) && slot_live(graph, c.index as int) implies is_marked(slots, c.index as int) by {
            assert(!gray.contains(c));
        }
        assert forall|c: GcRef|
            #[trigger] roots.contains(c) && slot_live(graph, c.index as int) implies is_marked(
            slots,
            c.index as int,
        ) by {
            assert(!gray.contains(c));
        }
        lemma_marks_cover_path(graph, slots, roots, p, p.len() - 1);
    }
}

/// The bytes of the objects of `chain` that carry no mark.
pub open spec fn unmarked_bytes(slots: Seq<Option<Object>>, chain: Seq<usize>) -> nat
    decreases chain.len(),
{
    if chain.len() == 0 {
        0
    } else {
        unmarked_bytes(slots, chain.drop_last()) + (if is_marked(slots, chain.last() as int) {
            0nat
        } else {
            size_of(slot_object(slots, chain.last() as int).data.ty_spec()) as nat
        })
    }
}

/// The slots of `chain` whose objects carry the mark, in order.
pub open spec fn marked_slots(slots: Seq<Option<Object>>, chain: Seq<usize>) -> Seq<usize>
    decreases chain.len(),
{
    if chain.len() == 0 {
        Seq::empty()
    } else if is_marked(slots, chain.last() as int) {
        marked_slots(slots, chain.drop_last()).push(chain.last())
    } else {
        marked_slots(slots, chain.drop_last())
    }
}

/// The slots of `chain` whose objects carry no mark, in order.
pub open spec fn unmarked_slots(slots: Seq<Option<Object>>, chain: Seq<usize>) -> Seq<usize>
    decreases chain.len(),
{
    if chain.len() == 0 {
        Seq::empty()
    } else if is_marked(slots, chain.last() as int) {
        unmarked_slots(slots, chain.drop_last())
    } else {
        unmarked_slots(slots, chain.drop_last()).push(chain.last())
    }
}

/// The slots of `chain` whose objects a path leads to from the roots, in
/// order.
pub open spec fn live_slots(graph: Seq<Option<Object>>, roots: Set<GcRef>, chain: Seq<usize>) -> Seq<
    usize,
>
    decreases chain.len(),
{
    if chain.len() == 0 {
        Seq::empty()
    } else if reachable(graph, roots, GcRef { index: chain.last() }) {
        live_slots(graph, roots, chain.drop_last()).push(chain.last())
    } else {
        live_slots(graph, roots, chain.drop_last())
    }
}

/// The slots of `chain` whose objects no path leads to from the roots, in
/// order.
pub open spec fn dead_slots(graph: Seq<Option<Object>>, roots: Set<GcRef>, chain: Seq<usize>) -> Seq<
    usize,
>
    decreases chain.len(),
{
    if chain.len() == 0 {
        Seq::empty()
    } else if reachable(graph, roots, GcRef { index: chain.last() }) {
        dead_slots(graph, roots, chain.drop_last())
    } else {
        dead_slots(graph, roots, chain.drop_last()).push(chain.last())
    }
}

/// The bytes of the objects of `chain` that no path leads to from the
/// roots.
pub open spec fn dead_bytes(graph: Seq<Option<Object>>, roots: Set<GcRef>, chain: Seq<usize>) -> nat
    decreases chain.len(),
{
    if chain.len() == 0 {
        0
    } else {
        dead_bytes(graph, roots, chain.drop_last()) + (if reachable(
            graph,
            roots,
            GcRef { index: chain.last() },
        ) {
            0nat
        } else {
            size_of(slot_object(graph, chain.last() as int).data.ty_spec()) as nat
        })
    }
}

/// Where the marked objects are the reachable ones, the bytes of the
/// objects without mark are the bytes of the objects that no path leads to.
proof fn lemma_unmarked_are_dead(
    graph: Seq<Option<Object>>,
    marked: Seq<Option<Object>>,
    roots: Set<GcRef>,
    chain: Seq<usize>,
)
    requires
        same_but_marks(graph, marked),
        forall|r: GcRef| is_marked(marked, r.index as int) <==> #[trigger] reachable(graph, roots, r),
        forall|k: int| 0 <= k < chain.len() ==> slot_live(graph, #[trigger] chain[k] as int),
    ensures
        unmarked_bytes(marked, chain) == dead_bytes(graph, roots, chain),
        marked_slots(marked, chain) == live_slots(graph, roots, chain),
        unmarked_slots(marked, chain) == dead_slots(graph, roots, chain),
    decreases chain.len(),
{
    if chain.len() > 0 {
        let rest = chain.drop_last();
        assert forall|k: int| 0 <= k < rest.len() implies slot_live(
            graph,
            #[trigger] rest[k] as int,
        ) by {
            assert(rest[k] == chain[k]);
        }
        lemma_unmarked_are_dead(graph, marked, roots, rest);
        let last = GcRef { index: chain.last() };
        assert(slot_live(graph, chain[chain.len() - 1] as int));
        assert(is_marked(marked, last.index as int) <==> reachable(graph, roots, last));
    }
}

/// `bytes` less `freed`, or zero if that is more.
pub open spec fn bytes_less(bytes: usize, freed: nat) -> usize {
    if freed >= bytes {
        0
    } else {
        (bytes - freed) as usize
    }
}

/// The threshold after a collection that `bytes` survived: twice as much,
/// or all there is.
pub open spec fn grown(bytes: usize) -> usize {
    if bytes > usize::MAX / 2 {
        usize::MAX
    } else {
        (bytes * 2) as usize
    }
}

/// Where a sweep stands that has dealt with the first `i` objects of the
/// list `chain` and kept those of `kept`: the list now holds the kept
/// objects and then the objects not dealt with; the kept objects have lost
/// their mark, the others of the first `i` their slot, and the rest are as
/// they were in `orig`.
pub open spec fn sweeping(
    heap: &GarbageCollector,
    orig: Seq<Option<Object>>,
    chain: Seq<usize>,
    i: int,
    kept: Seq<usize>,
) -> bool {
    let slots = heap.slots@;
    &&& 0 <= i <= chain.len()
    &&& orig.len() <= usize::MAX
    &&& heap.links_wf()
    &&& heap.free_wf()
    &&& heap.types_wf()
    &&& crate::mem::gc::strings_sound(slots, heap.table())
    &&& forall|t: Seq<u8>| #[trigger]
        heap.table().contains_key(t) ==> is_marked(orig, heap.table()[t] as int)
    &&& slots.len() == orig.len()
    &&& heap.chain@ == kept + chain.subrange(i, chain.len() as int)
    &&& forall|p: int|
        i <= p < chain.len() ==> slot_live(orig, (#[trigger] chain[p]) as int) && slots[chain[p] as int]
            == orig[chain[p] as int]
    &&& forall|q: int|
        0 <= q < kept.len() ==> is_marked(orig, (#[trigger] kept[q]) as int) && slot_live(
            slots,
            kept[q] as int,
        ) && !slot_object(slots, kept[q] as int).obj.is_marked && slot_object(
            slots,
            kept[q] as int,
        ).data == slot_object(orig, kept[q] as int).data
    &&& forall|p: int|
        0 <= p < i && is_marked(orig, (#[trigger] chain[p]) as int) ==> kept.contains(chain[p])
    &&& forall|j: int| #[trigger] slot_live(orig, j) ==> chain.contains(j as usize)
    &&& kept == marked_slots(orig, chain.take(i))
}

/// The object the sweep deals with next is live and as it was, and follows
/// the last object kept.
pub proof fn lemma_sweeping_current(
    heap: &GarbageCollector,
    orig: Seq<Option<Object>>,
    chain: Seq<usize>,
    i: int,
    kept: Seq<usize>,
)
    requires
        sweeping(heap, orig, chain, i, kept),
        i < chain.len(),
    ensures
        heap.chain@.len() == kept.len() + chain.len() - i,
        heap.chain@[kept.len() as int] == chain[i],
        kept.len() > 0 ==> heap.chain@[kept.len() - 1] == kept.last(),
        slot_live(heap.slots@, chain[i] as int),
        heap.slots@[chain[i] as int] == orig[chain[i] as int],
        slot_object(heap.slots@, chain[i] as int).obj.next == (if i + 1 < chain.len() {
            Some(GcRef { index: chain[i + 1] })
        } else {
            None
        }),
{
    reveal(links_ok);
    let k = kept.len() as int;
    let rest = chain.subrange(i, chain.len() as int);
    assert(heap.chain@[k] == rest[0]);
    assert(rest[0] == chain[i]);
    if k > 0 {
        assert(heap.chain@[k - 1] == kept[k - 1]);
    }
    assert(slot_live(heap.slots@, heap.chain@[k] as int));
    assert(slot_object(heap.slots@, heap.chain@[k] as int).obj.next == (if k + 1
        < heap.chain@.len() {
        Some(GcRef { index: heap.chain@[k + 1] })
    } else {
        None
    }));
    if i + 1 < chain.len() {
        assert(heap.chain@[k + 1] == rest[1]);
        assert(rest[1] == chain[i + 1]);
    }
}

/// A sweep that has dealt with the whole list leaves the marked objects,
/// unmarked, and a consistent store.
pub proof fn lemma_sweeping_done(
    heap: &GarbageCollector,
    before: &GarbageCollector,
    orig: Seq<Option<Object>>,
    chain: Seq<usize>,
    kept: Seq<usize>,
)
    requires
        sweeping(heap, orig, chain, chain.len() as int, kept),
        before.slots@ == orig,
        strings_complete(orig, before.table()),
        heap.table() == crate::mem::gc::marked_entries(before.table(), orig),
    ensures
        heap.wf(),
        heap.unmarked(),
        forall|j: int| heap.live(j) <==> #[trigger] is_marked(orig, j),
        forall|j: int| #[trigger]
            heap.live(j) ==> heap.object(j).data == slot_object(orig, j).data,
{
    reveal(links_ok);
    reveal(strings_complete);
    let slots = heap.slots@;
    let table = heap.table();
    assert(heap.chain@ == kept);
    assert forall|j: int| slot_live(slots, j) implies #[trigger] is_marked(orig, j) by {
        assert(kept.contains(j as usize));
        let q = choose|q: int| 0 <= q < kept.len() && kept[q] == j as usize;
        assert(is_marked(orig, kept[q] as int));
    }
    assert forall|j: int| #[trigger] is_marked(orig, j) implies slot_live(slots, j) by {
        assert(slot_live(orig, j));
        assert(chain.contains(j as usize));
        let p = choose|p: int| 0 <= p < chain.len() && chain[p] == j as usize;
        assert(is_marked(orig, chain[p] as int));
        assert(kept.contains(chain[p]));
        let q = choose|q: int| 0 <= q < kept.len() && kept[q] == chain[p];
        assert(slot_live(slots, kept[q] as int));
    }
    assert forall|j: int| #[trigger] slot_live(slots, j) implies slot_object(slots, j).data
        == slot_object(orig, j).data && !slot_object(slots, j).obj.is_marked by {
        assert(kept.contains(j as usize));
        let q = choose|q: int| 0 <= q < kept.len() && kept[q] == j as usize;
        assert(slot_live(slots, kept[q] as int));
    }
    assert(strings_complete(slots, table)) by {
        assert forall|j: int|
            slot_live(slots, j) && (#[trigger] slot_object(
                slots,
                j,
            )).data.text().is_some() implies table.contains_key(
            slot_object(slots, j).data.text().unwrap(),
        ) && table[slot_object(slots, j).data.text().unwrap()] == j by {
            assert(is_marked(orig, j));
            assert(slot_live(orig, j));
            let t = slot_object(slots, j).data.text().unwrap();
            assert(slot_object(orig, j).data.text() == Some(t));
            assert(before.table().contains_key(t));
            assert(slot_marked(orig, before.table()[t]));
        }
    }
}

impl GarbageCollector {
    /// One step of a sweep, at a marked object: the object loses its mark.
    pub(crate) fn sweep_keep(
        &mut self,
        r: GcRef,
        Ghost(orig): Ghost<Seq<Option<Object>>>,
        Ghost(chain): Ghost<Seq<usize>>,
        Ghost(i): Ghost<int>,
        Ghost(kept): Ghost<Seq<usize>>,
    )
        requires
            sweeping(old(self), orig, chain, i, kept),
            i < chain.len(),
            r.index == chain[i],
            is_marked(orig, chain[i] as int),
        ensures
            sweeping(final(self), orig, chain, i + 1, kept.push(r.index)),
            final(self).table() == old(self).table(),
            final(self).free@ == old(self).free@,
    {
        proof {
            lemma_sweeping_current(self, orig, chain, i, kept);
            lemma_chain_distinct(self);
            assert(chain.take(i + 1).drop_last() == chain.take(i));
            assert(chain.take(i + 1).last() == chain[i]);
        }
        let ghost k = kept.len() as int;
        let ghost before_chain = self.chain@;
        self.clear_mark(r);
        proof {
            let slots = self.slots@;
            let kept2 = kept.push(r.index);
            assert(before_chain =~= kept2 + chain.subrange(i + 1, chain.len() as int));
            assert forall|p: int| i + 1 <= p < chain.len() implies slot_live(
                orig,
                (#[trigger] chain[p]) as int,
            ) && slots[chain[p] as int] == orig[chain[p] as int] by {
                assert(before_chain[k + (p - i)] == chain[p]);
                assert(before_chain[k + (p - i)] != before_chain[k]);
            }
            assert forall|q: int| 0 <= q < kept2.len() implies is_marked(
                orig,
                (#[trigger] kept2[q]) as int,
            ) && slot_live(slots, kept2[q] as int) && !slot_object(
                slots,
                kept2[q] as int,
            ).obj.is_marked && slot_object(slots, kept2[q] as int).data == slot_object(
                orig,
                kept2[q] as int,
            ).data by {
                if q < k {
                    assert(kept2[q] == kept[q]);
                    assert(kept[q] == before_chain[q]);
                    assert(before_chain[q] != before_chain[k]);
                }
            }
            assert forall|p: int|
                0 <= p < i + 1 && is_marked(orig, (#[trigger] chain[p]) as int) implies kept2.contains(
                chain[p],
            ) by {
                if p < i {
                    let w = choose|w: int| 0 <= w < k && kept[w] == chain[p];
                    assert(kept2[w] == chain[p]);
                } else {
                    assert(kept2[k] == chain[p]);
                }
            }
        }
    }

    /// One step of a sweep, at an object without mark: the object is
    /// unlinked and its slot vacated.
    pub(crate) fn sweep_free(
        &mut self,
        previous: Option<GcRef>,
        r: GcRef,
        Ghost(orig): Ghost<Seq<Option<Object>>>,
        Ghost(chain): Ghost<Seq<usize>>,
        Ghost(i): Ghost<int>,
        Ghost(kept): Ghost<Seq<usize>>,
    )
        requires
            sweeping(old(self), orig, chain, i, kept),
            i < chain.len(),
            r.index == chain[i],
            !is_marked(orig, chain[i] as int),
            previous == (if kept.len() > 0 {
                Some(GcRef { index: kept.last() })
            } else {
                None
            }),
        ensures
            sweeping(final(self), orig, chain, i + 1, kept),
            final(self).table() == old(self).table(),
            final(self).free@ == old(self).free@.push(r.index),
    {
        proof {
            lemma_sweeping_current(self, orig, chain, i, kept);
            lemma_chain_distinct(self);
            assert(chain.take(i + 1).drop_last() == chain.take(i));
            assert(chain.take(i + 1).last() == chain[i]);
            assert forall|t: Seq<u8>| #[trigger] self.table().contains_key(t) implies self.table()[t]
                != r.index by {
                assert(is_marked(orig, self.table()[t] as int));
            }
        }
        let ghost k = kept.len() as int;
        let ghost before_chain = self.chain@;
        let ghost before_slots = self.slots@;
        self.release(previous, r, Ghost(k));
        proof {
            let slots = self.slots@;
            assert(before_chain.remove(k) =~= kept + chain.subrange(i + 1, chain.len() as int));
            assert forall|p: int| i + 1 <= p < chain.len() implies slot_live(
                orig,
                (#[trigger] chain[p]) as int,
            ) && slots[chain[p] as int] == orig[chain[p] as int] by {
                assert(before_chain[k + (p - i)] == chain[p]);
                assert(before_chain[k + (p - i)] != before_chain[k]);
                if k > 0 {
                    assert(before_chain[k + (p - i)] != before_chain[k - 1]);
                }
                assert(slots[chain[p] as int] == before_slots[chain[p] as int]);
            }
            assert forall|q: int| 0 <= q < kept.len() implies is_marked(
                orig,
                (#[trigger] kept[q]) as int,
            ) && slot_live(slots, kept[q] as int) && !slot_object(
                slots,
                kept[q] as int,
            ).obj.is_marked && slot_object(slots, kept[q] as int).data == slot_object(
                orig,
                kept[q] as int,
            ).data by {
                assert(kept[q] == before_chain[q]);
                assert(before_chain[q] != before_chain[k]);
                if q < k - 1 {
                    assert(before_chain[q] != before_chain[k - 1]);
                    assert(slots[kept[q] as int] == before_slots[kept[q] as int]);
                }
            }
        }
    }
}

/// The collector: the object store, the count of bytes in use that decides
/// when to collect, and the gray stack of a collection under way.
pub struct Gc {
    pub heap: GarbageCollector,
    pub bytes_allocated: usize,
    pub next_gc: usize,
    /// Whether to collect before every allocation.
    pub stress: bool,
    pub gray: GrayStack,
}

impl Gc {
    /// Between collections the store is consistent, no object is marked
    /// and the gray stack is empty.
    pub open spec fn wf(&self) -> bool {
        &&& self.heap.wf()
        &&& self.heap.unmarked()
        &&& self.gray@.len() == 0
    }

    /// Whether the next allocation collects first.
    pub open spec fn due(&self) -> bool {
        self.stress || self.bytes_allocated > self.next_gc
    }

    /// What a collection with the roots `roots` makes of the collector
    /// `before`: the objects that a path leads to stay as they are, all
    /// others are gone, from the store and from the intern table.
    pub open spec fn collection(before: &Gc, roots: Set<GcRef>, after: &Gc) -> bool {
        let graph = before.heap.slots@;
        &&& after.wf()
        &&& after.heap.slots@.len() == graph.len()
        &&& forall|r: GcRef|
            after.heap.live(r.index as int) <==> #[trigger] reachable(graph, roots, r)
        &&& forall|i: int| #[trigger]
            after.heap.live(i) ==> after.heap.object(i).data == before.heap.object(i).data
        &&& forall|t: Seq<u8>| #[trigger]
            after.heap.table().contains_key(t) <==> before.heap.table().contains_key(t)
                && reachable(graph, roots, GcRef { index: before.heap.table()[t] })
        &&& forall|t: Seq<u8>| #[trigger]
            after.heap.table().contains_key(t) ==> after.heap.table()[t] == before.heap.table()[t]
        &&& after.bytes_allocated == bytes_less(
            before.bytes_allocated,
            dead_bytes(graph, roots, before.heap.chain@),
        )
        &&& after.heap.chain@ == live_slots(graph, roots, before.heap.chain@)
        &&& after.heap.free@ == before.heap.free@ + dead_slots(graph, roots, before.heap.chain@)
        &&& after.next_gc == grown(after.bytes_allocated)
        &&& after.stress == before.stress
    }

    /// After a collection no object carries a mark, and the intern table
    /// names no string that no path leads to from the roots.
    pub proof fn lemma_collection_is_clean(before: &Gc, roots: Set<GcRef>, after: &Gc)
        requires
            Gc::collection(before, roots, after),
        ensures
            forall|i: int| #[trigger] after.heap.live(i) ==> !after.heap.header(i).is_marked,
            forall|t: Seq<u8>| #[trigger]
                after.heap.table().contains_key(t) ==> reachable(
                    before.heap.slots@,
                    roots,
                    GcRef { index: after.heap.table()[t] },
                ),
    {
    }

    /// A collection keeps a closed heap closed: what is left refers only
    /// to what is left. And what the roots refer to is left.
    pub proof fn lemma_collection_keeps_closed(before: &Gc, roots: Set<GcRef>, after: &Gc)
        requires
            Gc::collection(before, roots, after),
            heap_closed(before.heap.slots@),
        ensures
            heap_closed(after.heap.slots@),
            forall|r: GcRef|
                #[trigger] roots.contains(r) && before.heap.live(r.index as int)
                    ==> after.heap.live(r.index as int),
            forall|r: GcRef| #[trigger]
                reachable(before.heap.slots@, roots, r) ==> after.heap.live(r.index as int),
    {
        let graph = before.heap.slots@;
        let slots = after.heap.slots@;
        assert forall|o: GcRef, c: GcRef|
            slot_live(slots, o.index as int) && #[trigger] refers_to(
                slot_object(slots, o.index as int).data@,
                c,
            ) implies slot_live(slots, c.index as int) by {
            assert(after.heap.live(o.index as int));
            assert(reachable(graph, roots, o));
            let p = choose|p: Seq<GcRef>| #[trigger] is_path(graph, roots, p) && p.last() == o;
            assert(slot_live(graph, p[p.len() - 1].index as int));
            assert(slot_object(slots, o.index as int).data == slot_object(
                graph,
                o.index as int,
            ).data);
            assert(slot_live(graph, c.index as int));
            lemma_reachable_step(graph, roots, o, c);
            assert(after.heap.live(c.index as int));
        }
        assert forall|r: GcRef|
            #[trigger] roots.contains(r) && before.heap.live(
                r.index as int,
            ) implies after.heap.live(r.index as int) by {
            lemma_root_reachable(graph, roots, r);
        }
    }

    /// An allocation keeps a closed heap closed, if the new object refers
    /// only to live objects; and what was live stays as it was.
    pub proof fn lemma_allocated_keeps_closed(&self, before: &Gc, view: ObjView, r: GcRef)
        requires
            self.allocated_as(before, view, r),
            heap_closed(before.heap.slots@),
            refers_to_live(before.heap.slots@, view),
        ensures
            heap_closed(self.heap.slots@),
            forall|i: int| #[trigger]
                before.heap.live(i) ==> self.heap.live(i) && self.heap.object(i)
                    == before.heap.object(i),
    {
        let old_slots = before.heap.slots@;
        let slots = self.heap.slots@;
        assert forall|i: int| #[trigger] slot_live(old_slots, i) implies slot_live(slots, i)
            && slot_object(slots, i) == slot_object(old_slots, i) by {
            assert(slots[i] == old_slots[i]);
        }
        assert forall|o: GcRef, c: GcRef|
            slot_live(slots, o.index as int) && #[trigger] refers_to(
                slot_object(slots, o.index as int).data@,
                c,
            ) implies slot_live(slots, c.index as int) by {
            let i = o.index as int;
            if i == r.index {
                assert(slot_live(old_slots, c.index as int));
            } else {
                assert(slots[i] == old_slots[i]);
                assert(slot_live(old_slots, i));
                assert(slot_live(old_slots, c.index as int));
            }
        }
    }

    /// Interning a new string keeps a closed heap closed; and what was
    /// live stays as it was.
    pub proof fn lemma_interned_keeps_closed(&self, before: &Gc, text: Seq<u8>, r: GcRef)
        requires
            self.interned_fresh(before, text, r),
            heap_closed(before.heap.slots@),
        ensures
            heap_closed(self.heap.slots@),
            forall|i: int| #[trigger]
                before.heap.live(i) ==> self.heap.live(i) && self.heap.object(i)
                    == before.heap.object(i),
    {
        let old_slots = before.heap.slots@;
        let slots = self.heap.slots@;
        assert forall|i: int| #[trigger] slot_live(old_slots, i) implies slot_live(slots, i)
            && slot_object(slots, i) == slot_object(old_slots, i) by {
            assert(slots[i] == old_slots[i]);
        }
        assert forall|o: GcRef, c: GcRef|
            slot_live(slots, o.index as int) && #[trigger] refers_to(
                slot_object(slots, o.index as int).data@,
                c,
            ) implies slot_live(slots, c.index as int) by {
            let i = o.index as int;
            if i != r.index {
                assert(slots[i] == old_slots[i]);
                assert(slot_live(old_slots, i));
                assert(slot_live(old_slots, c.index as int));
            }
        }
    }

    /// Giving an object a payload that refers only to live objects keeps a
    /// closed heap closed; and what was live stays live.
    pub proof fn lemma_payload_set_keeps_closed(&self, before: &Gc, i: int, view: ObjView)
        requires
            self.payload_set(before, i, view),
            self.heap.slots@.len() == before.heap.slots@.len(),
            heap_closed(before.heap.slots@),
            refers_to_live(before.heap.slots@, view),
        ensures
            heap_closed(self.heap.slots@),
            forall|j: int| #[trigger] before.heap.live(j) == self.heap.live(j),
            forall|j: int|
                before.heap.live(j) && j != i ==> (#[trigger] self.heap.data(j))
                    == before.heap.data(j),
    {
        let old_slots = before.heap.slots@;
        let slots = self.heap.slots@;
        assert forall|j: int| #[trigger] slot_live(old_slots, j) == slot_live(slots, j) by {
            if 0 <= j < slots.len() {
                assert(self.heap@[j].is_some() == slots[j].is_some());
                assert(before.heap@[j].is_some() == old_slots[j].is_some());
            }
        }
        assert forall|j: int| slot_live(old_slots, j) && j != i implies (#[trigger] self.heap.data(
            j,
        )) == before.heap.data(j) by {
            assert(self.heap@[j] == before.heap@[j]);
        }
        assert(self.heap@[i] == Some((before.heap.header(i), view)));
        assert forall|o: GcRef, c: GcRef|
            slot_live(slots, o.index as int) && #[trigger] refers_to(
                slot_object(slots, o.index as int).data@,
                c,
            ) implies slot_live(slots, c.index as int) by {
            let j = o.index as int;
            assert(slot_live(old_slots, j));
            if j == i {
                assert(slot_object(slots, j).data@ == view);
                assert(slot_live(old_slots, c.index as int));
            } else {
                assert(self.heap.data(j) == before.heap.data(j));
                assert(slot_live(old_slots, c.index as int));
            }
        }
    }

    /// What stands ready for an allocation under the roots `roots`: the
    /// collector `before` itself, or what a collection makes of it if one
    /// is due.
    pub open spec fn prepared(before: &Gc, roots: Set<GcRef>, ready: &Gc) -> bool {
        if before.due() {
            Gc::collection(before, roots, ready)
        } else {
            *ready == *before
        }
    }

    /// A collector without objects.
    pub fn new() -> (gc: Self)
        ensures
            gc.wf(),
            gc.heap.slots@.len() == 0,
            gc.bytes_allocated == 0,
            gc.next_gc == INITIAL_NEXT_GC,
            !gc.stress,
    {
        Gc {
            heap: GarbageCollector::new(),
            bytes_allocated: 0,
            next_gc: INITIAL_NEXT_GC,
            stress: false,
            gray: GrayStack::new(),
        }
    }

    /// Whether the next allocation collects first.
    pub fn should_collect(&self) -> (due: bool)
        ensures
            due == self.due(),
    {
        self.stress || self.bytes_allocated > self.next_gc
    }

    /// Pushes the references `roots` holds onto the gray stack.
    pub fn mark_roots<R: GcRoot>(&mut self, roots: &R)
        ensures
            final(self).gray@.to_set() == old(self).gray@.to_set().union(roots.roots()),
            final(self).heap == old(self).heap,
            final(self).bytes_allocated == old(self).bytes_allocated,
            final(self).next_gc == old(self).next_gc,
            final(self).stress == old(self).stress,
    {
        roots.mark(&mut self.gray);
    }

    /// Marks every object that a path leads to from the references on the
    /// gray stack, and no other.
    pub fn trace_references(&mut self)
        requires
            old(self).heap.wf(),
            old(self).heap.unmarked(),
        ensures
            final(self).heap.wf(),
            final(self).gray@.len() == 0,
            same_but_marks(old(self).heap.slots@, final(self).heap.slots@),
            forall|r: GcRef|
                is_marked(final(self).heap.slots@, r.index as int) <==> #[trigger] reachable(
                    old(self).heap.slots@,
                    old(self).gray@.to_set(),
                    r,
                ),
            final(self).heap.objects == old(self).heap.objects,
            final(self).heap.free@ == old(self).heap.free@,
            final(self).heap.chain@ == old(self).heap.chain@,
            final(self).heap.strings == old(self).heap.strings,
            final(self).bytes_allocated == old(self).bytes_allocated,
            final(self).next_gc == old(self).next_gc,
            final(self).stress == old(self).stress,
    {
        let ghost graph = self.heap.slots@;
        let ghost roots = self.gray@.to_set();
        proof {
            lemma_tracing_start(graph, self.gray@);
        }
        while self.gray.stack.len() > 0
            invariant
                self.heap.wf(),
                tracing(graph, roots, self.heap.slots@, self.gray@),
                self.heap.objects == old(self).heap.objects,
                self.heap.free@ == old(self).heap.free@,
                self.heap.chain@ == old(self).heap.chain@,
                self.heap.strings == old(self).heap.strings,
                self.bytes_allocated == old(self).bytes_allocated,
                self.next_gc == old(self).next_gc,
                self.stress == old(self).stress,
            decreases unmarked_count(self.heap.slots@), self.gray@.len(),
        {
            let ghost gray_before = self.gray@;
            let ghost slots_before = self.heap.slots@;
            let popped = self.gray.pop();
            let g = popped.unwrap();
            let fresh = match self.heap.get(g) {
                Some(object) => !object.obj.is_marked,
                None => false,
            };
            if fresh {
                self.heap.set_marked(g, true);
                let kids = match self.heap.get(g) {
                    Some(object) => children(&object.data),
                    None => Vec::new(),
                };
                self.gray.push_all(&kids);
                proof {
                    lemma_tracing_visit(
                        graph,
                        roots,
                        slots_before,
                        self.heap.slots@,
                        gray_before,
                        kids@,
                    );
                }
            } else {
                proof {
                    lemma_tracing_skip(graph, roots, slots_before, gray_before);
                }
            }
        }
        proof {
            assert(self.gray@ =~= Seq::<GcRef>::empty());
            lemma_tracing_done(graph, roots, self.heap.slots@);
        }
    }

    /// Drops from the intern table the strings that carry no mark, then
    /// walks the list of objects: an object that carries no mark is
    /// unlinked and its slot vacated, a marked one loses its mark.
    pub fn sweep(&mut self)
        requires
            old(self).heap.wf(),
        ensures
            final(self).heap.wf(),
            final(self).heap.unmarked(),
            final(self).heap.slots@.len() == old(self).heap.slots@.len(),
            forall|i: int|
                final(self).heap.live(i) <==> #[trigger] is_marked(old(self).heap.slots@, i),
            forall|i: int| #[trigger]
                final(self).heap.live(i) ==> final(self).heap.object(i).data == old(self).heap.object(i).data,
            final(self).heap.table() == crate::mem::gc::marked_entries(
                old(self).heap.table(),
                old(self).heap.slots@,
            ),
            final(self).bytes_allocated == bytes_less(
                old(self).bytes_allocated,
                unmarked_bytes(old(self).heap.slots@, old(self).heap.chain@),
            ),
            final(self).heap.chain@ == marked_slots(old(self).heap.slots@, old(self).heap.chain@),
            final(self).heap.free@ == old(self).heap.free@ + unmarked_slots(
                old(self).heap.slots@,
                old(self).heap.chain@,
            ),
            final(self).next_gc == old(self).next_gc,
            final(self).stress == old(self).stress,
            final(self).gray == old(self).gray,
    {
        self.heap.purge_strings();
        let ghost orig = self.heap.slots@;
        let ghost chain = self.heap.chain@;
        let ghost table = self.heap.table();
        let ghost mut i: int = 0;
        let ghost mut kept: Seq<usize> = Seq::empty();
        let mut previous: Option<GcRef> = None;
        let mut current: Option<GcRef> = self.heap.objects;
        proof {
            assert(kept + chain.subrange(0, chain.len() as int) == chain);
            assert(chain.take(0) =~= Seq::<usize>::empty());
            assert(self.heap.free@ + unmarked_slots(orig, chain.take(0)) =~= self.heap.free@);
            assert forall|t: Seq<u8>| #[trigger] table.contains_key(t) implies is_marked(
                orig,
                table[t] as int,
            ) by {
                assert(slot_marked(orig, table[t]));
            }
        }
        let count = self.heap.slots.len();
        proof {
            assert(orig.len() == count);
            lemma_chain_distinct(&self.heap);
            assert(sweeping(&self.heap, orig, chain, 0, kept));
        }
        while current.is_some()
            invariant
                sweeping(&self.heap, orig, chain, i, kept),
                orig == old(self).heap.slots@,
                chain == old(self).heap.chain@,
                self.heap.table() == table,
                current == (if i < chain.len() {
                    Some(GcRef { index: chain[i] })
                } else {
                    None
                }),
                previous == (if kept.len() > 0 {
                    Some(GcRef { index: kept.last() })
                } else {
                    None
                }),
                self.bytes_allocated == bytes_less(
                    old(self).bytes_allocated,
                    unmarked_bytes(orig, chain.take(i)),
                ),
                self.heap.free@ == old(self).heap.free@ + unmarked_slots(orig, chain.take(i)),
                self.next_gc == old(self).next_gc,
                self.stress == old(self).stress,
                self.gray == old(self).gray,
            decreases chain.len() - i,
        {
            let r = current.unwrap();
            proof {
                lemma_sweeping_current(&self.heap, orig, chain, i, kept);
                assert(chain.take(i + 1).drop_last() == chain.take(i));
                assert(chain.take(i + 1).last() == chain[i]);
            }
            let (marked, next, size) = match self.heap.get(r) {
                Some(object) => (object.obj.is_marked, object.obj.next, object_size(
                    object.data.ty(),
                )),
                None => (false, None, 0),
            };
            if marked {
                self.heap.sweep_keep(r, Ghost(orig), Ghost(chain), Ghost(i), Ghost(kept));
                previous = Some(r);
                proof {
                    kept = kept.push(r.index);
                }
            } else {
                self.heap.sweep_free(
                    previous,
                    r,
                    Ghost(orig),
                    Ghost(chain),
                    Ghost(i),
                    Ghost(kept),
                );
                self.bytes_allocated = self.bytes_allocated.saturating_sub(size);
            }
            current = next;
            proof {
                i = i + 1;
            }
        }
        proof {
            assert(chain.take(i) == chain);
            lemma_sweeping_done(&self.heap, &old(self).heap, orig, chain, kept);
            assert(self.heap.chain@ == kept);
        }
    }

    /// Collects: marks what the roots lead to, then sweeps the rest away
    /// and sets the threshold anew.
    pub fn run<R: GcRoot>(&mut self, roots: &R)
        requires
            old(self).wf(),
        ensures
            Gc::collection(old(self), roots.roots(), final(self)),
    {
        self.mark_roots(roots);
        assert(self.gray@.to_set() =~= roots.roots());
        self.trace_references();
        let ghost marked = self.heap.slots@;
        let ghost graph = old(self).heap.slots@;
        proof {
            lemma_chain_distinct(&old(self).heap);
            lemma_unmarked_are_dead(graph, marked, roots.roots(), old(self).heap.chain@);
        }
        self.sweep();
        self.next_gc = if self.bytes_allocated > usize::MAX / 2 {
            usize::MAX
        } else {
            self.bytes_allocated * GC_HEAP_GROW_FACTOR
        };
        proof {
            assert forall|r: GcRef|
                self.heap.live(r.index as int) <==> #[trigger] reachable(
                    graph,
                    roots.roots(),
                    r,
                ) by {
                assert(self.heap.live(r.index as int) <==> is_marked(marked, r.index as int));
            }
            assert forall|i: int| #[trigger] self.heap.live(i) implies self.heap.object(i).data
                == old(self).heap.object(i).data by {
                assert(is_marked(marked, i));
                assert(slot_live(graph, i));
            }
            assert forall|t: Seq<u8>| #[trigger]
                self.heap.table().contains_key(t) <==> old(self).heap.table().contains_key(t)
                    && reachable(
                    graph,
                    roots.roots(),
                    GcRef { index: old(self).heap.table()[t] },
                ) by {
                let r = GcRef { index: old(self).heap.table()[t] };
                assert(slot_marked(marked, r.index) == is_marked(marked, r.index as int));
            }
        }
    }

    /// Allocates an object that is no string, without collecting.
    pub fn place(&mut self, data: ObjData) -> (r: GcRef)
        requires
            old(self).wf(),
            data.text().is_none(),
        ensures
            final(self).wf(),
            final(self).allocated(old(self), data, r),
    {
        let ghost before = *self;
        let size = object_size(data.ty());
        self.bytes_allocated = self.bytes_allocated.saturating_add(size);
        let r = self.heap.new_object(data);
        proof {
            lemma_unmarked_frame(before.heap.slots@, self.heap.slots@, r.index as int);
        }
        r
    }

    /// The one string with the bytes `text`, allocated without collecting
    /// if the table does not have it.
    pub fn place_string(&mut self, text: &Vec<u8>) -> (r: GcRef)
        requires
            old(self).wf(),
        ensures
            final(self).wf(),
            final(self).heap.live(r.index as int),
            final(self).heap.object(r.index as int).data.text() == Some(text@),
            old(self).heap.table().contains_key(text@) ==> r.index == old(self).heap.table()[text@]
                && *final(self) == *old(self),
            !old(self).heap.table().contains_key(text@) ==> final(self).interned_fresh(
                old(self),
                text@,
                r,
            ),
    {
        match self.heap.lookup_string(text) {
            Some(r) => r,
            None => {
                let ghost before = *self;
                let size = object_size(ObjType::String);
                self.bytes_allocated = self.bytes_allocated.saturating_add(size);
                let r = self.heap.intern_string(text);
                proof {
                    lemma_unmarked_frame(before.heap.slots@, self.heap.slots@, r.index as int);
                }
                r
            },
        }
    }

    /// Allocates an object that is no string. Collects first if a
    /// collection is due.
    pub fn allocate<R: GcRoot>(&mut self, data: ObjData, roots: &R) -> (r: GcRef)
        requires
            old(self).wf(),
            data.text().is_none(),
        ensures
            final(self).wf(),
            exists|mid: Gc| #[trigger]
                Gc::prepared(old(self), roots.roots(), &mid) && final(self).allocated(
                    &mid,
                    data,
                    r,
                ),
    {
        if self.should_collect() {
            self.run(roots);
        }
        let ghost mid = *self;
        let r = self.place(data);
        proof {
            assert(self.allocated(&mid, data, r));
            assert(Gc::prepared(old(self), roots.roots(), &mid));
        }
        r
    }

    /// What allocating an object with payload `data` makes of the
    /// collector `before`: the object stands in slot `r`, which was
    /// vacant, at the head of the list; nothing else has changed but the
    /// count of bytes.
    pub open spec fn allocated(&self, before: &Gc, data: ObjData, r: GcRef) -> bool {
        &&& r.index == crate::mem::gc::next_slot(before.heap.slots@, before.heap.free@)
        &&& self.heap.free@ == crate::mem::gc::free_after(before.heap.free@)
        &&& !before.heap.live(r.index as int)
        &&& r.index < self.heap.slots@.len()
        &&& self.heap.slots@[r.index as int] == Some(
            Object {
                obj: crate::obj::obj::Obj {
                    ty: data.ty_spec(),
                    is_marked: false,
                    next: before.heap.objects,
                },
                data,
            },
        )
        &&& only_slot_differs(before.heap.slots@, self.heap.slots@, r.index as int)
        &&& self.heap.table() == before.heap.table()
        &&& self.heap.objects == Some(r)
        &&& self.bytes_allocated == before.bytes_allocated.saturating_add(size_of(data.ty_spec()))
        &&& self.next_gc == before.next_gc
        &&& self.stress == before.stress
    }

    /// What allocating an object that holds `view` makes of the collector
    /// `before`.
    pub open spec fn allocated_as(&self, before: &Gc, view: ObjView, r: GcRef) -> bool {
        &&& r.index == crate::mem::gc::next_slot(before.heap.slots@, before.heap.free@)
        &&& self.heap.free@ == crate::mem::gc::free_after(before.heap.free@)
        &&& !before.heap.live(r.index as int)
        &&& self.heap.live(r.index as int)
        &&& self.heap.data(r.index as int) == view
        &&& self.heap.header(r.index as int) == (crate::obj::obj::Obj {
            ty: self.heap.object(r.index as int).data.ty_spec(),
            is_marked: false,
            next: before.heap.objects,
        })
        &&& only_slot_differs(before.heap.slots@, self.heap.slots@, r.index as int)
        &&& self.heap.table() == before.heap.table()
        &&& self.heap.objects == Some(r)
        &&& self.bytes_allocated == before.bytes_allocated.saturating_add(
            size_of(self.heap.object(r.index as int).data.ty_spec()),
        )
        &&& self.next_gc == before.next_gc
        &&& self.stress == before.stress
    }

    /// What giving the object in slot `i` the payload `view` makes of the
    /// collector `before`.
    pub open spec fn payload_set(&self, before: &Gc, i: int, view: ObjView) -> bool {
        &&& before.heap.live(i)
        &&& self.heap@ == before.heap@.update(i, Some((before.heap.header(i), view)))
        &&& self.heap.table() == before.heap.table()
        &&& self.heap.objects == before.heap.objects
        &&& self.heap.free@ == before.heap.free@
        &&& self.heap.chain@ == before.heap.chain@
        &&& self.bytes_allocated == before.bytes_allocated
        &&& self.next_gc == before.next_gc
        &&& self.stress == before.stress
        &&& self.gray == before.gray
    }

    /// The one string with the bytes `text`. Collects first if a
    /// collection is due and the string has to be allocated.
    pub fn intern<R: GcRoot>(&mut self, text: &Vec<u8>, roots: &R) -> (r: GcRef)
        requires
            old(self).wf(),
        ensures
            final(self).wf(),
            final(self).heap.live(r.index as int),
            final(self).heap.object(r.index as int).data.text() == Some(text@),
            old(self).heap.table().contains_key(text@) ==> r.index == old(self).heap.table()[text@]
                && *final(self) == *old(self),
            !old(self).heap.table().contains_key(text@) ==> exists|mid: Gc| #[trigger]
                Gc::prepared(old(self), roots.roots(), &mid) && final(self).interned_fresh(
                    &mid,
                    text@,
                    r,
                ),
    {
        match self.heap.lookup_string(text) {
            Some(r) => r,
            None => {
                if self.should_collect() {
                    self.run(roots);
                }
                let ghost mid = *self;
                proof {
                    if old(self).due() {
                        assert(!mid.heap.table().contains_key(text@));
                    }
                }
                let r = self.place_string(text);
                proof {
                    assert(self.interned_fresh(&mid, text@, r));
                    assert(Gc::prepared(old(self), roots.roots(), &mid));
                }
                r
            },
        }
    }

    /// What interning a text that the table did not have makes of the
    /// collector `before`: a new string with that text stands in slot `r`,
    /// which was vacant, at the head of the list, and the table has it.
    pub open spec fn interned_fresh(&self, before: &Gc, text: Seq<u8>, r: GcRef) -> bool {
        &&& r.index == crate::mem::gc::next_slot(before.heap.slots@, before.heap.free@)
        &&& self.heap.free@ == crate::mem::gc::free_after(before.heap.free@)
        &&& !before.heap.live(r.index as int)
        &&& self.heap.live(r.index as int)
        &&& self.heap.object(r.index as int).data.text() == Some(text)
        &&& self.heap.header(r.index as int) == (crate::obj::obj::Obj {
            ty: ObjType::String,
            is_marked: false,
            next: before.heap.objects,
        })
        &&& only_slot_differs(before.heap.slots@, self.heap.slots@, r.index as int)
        &&& self.heap.table() == before.heap.table().insert(text, r.index)
        &&& self.heap.objects == Some(r)
        &&& self.bytes_allocated == before.bytes_allocated.saturating_add(size_of(ObjType::String))
        &&& self.next_gc == before.next_gc
        &&& self.stress == before.stress
    }
}

} // verus!
