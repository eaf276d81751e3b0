use vstd::prelude::*;
use crate::mem::collector::Gc;
use crate::mem::collector::GcRoot;
use crate::mem::collector::GrayStack;
use crate::mem::gc_ref::GcRef;
use crate::obj::obj::ObjData;
use crate::obj::obj::ObjType;
use crate::obj::obj::ObjView;
use crate::text::append_bytes;
use crate::value::Value;
use crate::vm::signal::signal_view;
use crate::vm::signal::RuntimeErrorKind;
use crate::vm::signal::RuntimeErrorKindView;
use crate::vm::signal::Signal;
use crate::vm::signal::SignalView;
use crate::vm::Vm;

verus! {

/// The members of a sequence with one more pushed.
pub proof fn lemma_push_to_set(a: Seq<GcRef>, x: GcRef)
    ensures
        a.push(x).to_set() == a.to_set().insert(x),
{
    let b = a.push(x);
    assert forall|r: GcRef| b.to_set().contains(r) <==> a.to_set().insert(x).contains(r) by {
        if b.contains(r) {
            let w = choose|w: int| 0 <= w < b.len() && b[w] == r;
            if w < a.len() {
                assert(a[w] == r);
            }
        }
        if a.contains(r) {
            let w = choose|w: int| 0 <= w < a.len() && a[w] == r;
            assert(b[w] == r);
        }
        if r == x {
            assert(b[a.len() as int] == x);
        }
    }
    assert(b.to_set() =~= a.to_set().insert(x));
}

impl<const MAX_FRAMES: usize, const STACK_SIZE: usize> Vm<MAX_FRAMES, STACK_SIZE> {
    /// The references the machine holds itself, each at least once.
    pub fn gather_roots(&self) -> (roots: Vec<GcRef>)
        ensures
            roots@.to_set() == self.roots(),
    {
        let mut out = GrayStack::new();
        out.push(self.init_string);
        proof {
            lemma_push_to_set(Seq::<GcRef>::empty(), self.init_string);
            assert(Seq::<GcRef>::empty().to_set() =~= Set::<GcRef>::empty());
        }
        let mut i: usize = 0;
        while i < self.stack.len()
            invariant
                i <= self.stack@.len(),
                forall|r: GcRef|
                    #[trigger] out@.to_set().contains(r) <==> r == self.init_string || exists|j: int|
                        0 <= j < i && #[trigger] self.stack@[j] == Value::Obj(r),
            decreases self.stack@.len() - i,
        {
            let ghost before = out@;
            let value = *self.stack.get(i);
            out.push_value(value);
            proof {
                match value {
                    Value::Obj(x) => {
                        lemma_push_to_set(before, x);
                    },
                    _ => {},
                }
                assert forall|r: GcRef|
                    #[trigger] out@.to_set().contains(r) <==> r == self.init_string || exists|j: int|
                        0 <= j < i + 1 && #[trigger] self.stack@[j] == Value::Obj(r) by {
                    if exists|j: int| 0 <= j < i + 1 && #[trigger] self.stack@[j] == Value::Obj(r) {
                        let j = choose|j: int|
                            0 <= j < i + 1 && #[trigger] self.stack@[j] == Value::Obj(r);
                        if j < i {
                            assert(before.to_set().contains(r));
                        }
                    }
                    if before.to_set().contains(r) && r != self.init_string {
                        let j = choose|j: int|
                            0 <= j < i && #[trigger] self.stack@[j] == Value::Obj(r);
                        assert(self.stack@[j] == Value::Obj(r));
                    }
                    if value == Value::Obj(r) {
                        assert(self.stack@[i as int] == Value::Obj(r));
                    }
                }
            }
            i += 1;
        }
        let ghost from_stack = out@.to_set();
        let mut i: usize = 0;
        while i < self.frames.len()
            invariant
                i <= self.frames@.len(),
                forall|r: GcRef|
                    #[trigger] out@.to_set().contains(r) <==> from_stack.contains(r) || exists|j: int|
                        0 <= j < i && (#[trigger] self.frames@[j]).closure == r,
            decreases self.frames@.len() - i,
        {
            let ghost before = out@;
            let closure = self.frames.get(i).closure;
            out.push(closure);
            proof {
                lemma_push_to_set(before, closure);
                assert forall|r: GcRef|
                    #[trigger] out@.to_set().contains(r) <==> from_stack.contains(r) || exists|j: int|
                        0 <= j < i + 1 && (#[trigger] self.frames@[j]).closure == r by {
                    if exists|j: int| 0 <= j < i + 1 && (#[trigger] self.frames@[j]).closure == r {
                        let j = choose|j: int|
                            0 <= j < i + 1 && (#[trigger] self.frames@[j]).closure == r;
                        if j < i {
                            assert(before.to_set().contains(r));
                        }
                    }
                    if before.to_set().contains(r) && !from_stack.contains(r) {
                        let j = choose|j: int|
                            0 <= j < i && (#[trigger] self.frames@[j]).closure == r;
                        assert(self.frames@[j].closure == r);
                    }
                    if closure == r {
                        assert(self.frames@[i as int].closure == r);
                    }
                }
            }
            i += 1;
        }
        let ghost from_frames = out@.to_set();
        let mut i: usize = 0;
        while i < self.open_upvalues.len()
            invariant
                i <= self.open_upvalues@.len(),
                forall|r: GcRef|
                    #[trigger] out@.to_set().contains(r) <==> from_frames.contains(r) || exists|j: int|
                        0 <= j < i && (#[trigger] self.open_upvalues@[j]).upvalue == r,
            decreases self.open_upvalues@.len() - i,
        {
            let ghost before = out@;
            let upvalue = self.open_upvalues[i].upvalue;
            out.push(upvalue);
            proof {
                lemma_push_to_set(before, upvalue);
                assert forall|r: GcRef|
                    #[trigger] out@.to_set().contains(r) <==> from_frames.contains(r) || exists|j: int|
                        0 <= j < i + 1 && (#[trigger] self.open_upvalues@[j]).upvalue == r by {
                    if exists|j: int|
                        0 <= j < i + 1 && (#[trigger] self.open_upvalues@[j]).upvalue == r {
                        let j = choose|j: int|
                            0 <= j < i + 1 && (#[trigger] self.open_upvalues@[j]).upvalue == r;
                        if j < i {
                            assert(before.to_set().contains(r));
                        }
                    }
                    if before.to_set().contains(r) && !from_frames.contains(r) {
                        let j = choose|j: int|
                            0 <= j < i && (#[trigger] self.open_upvalues@[j]).upvalue == r;
                        assert(self.open_upvalues@[j].upvalue == r);
                    }
                    if upvalue == r {
                        assert(self.open_upvalues@[i as int].upvalue == r);
                    }
                }
            }
            i += 1;
        }
        let ghost from_upvalues = out@.to_set();
        let entries = self.globals.entries();
        let mut i: usize = 0;
        while i < entries.len()
            invariant
                i <= entries@.len(),
                forall|r: GcRef|
                    #[trigger] out@.to_set().contains(r) <==> from_upvalues.contains(r) || exists|j: int|
                        0 <= j < i && ((#[trigger] entries@[j]).0 == r.index || entries@[j].1
                            == Value::Obj(r)),
            decreases entries@.len() - i,
        {
            let ghost before = out@;
            let (key, value) = entries[i];
            out.push(GcRef { index: key });
            let ghost middle = out@;
            out.push_value(value);
            proof {
                lemma_push_to_set(before, GcRef { index: key });
                match value {
                    Value::Obj(x) => {
                        lemma_push_to_set(middle, x);
                    },
                    _ => {},
                }
                assert forall|r: GcRef|
                    #[trigger] out@.to_set().contains(r) <==> from_upvalues.contains(r) || exists|j: int|
                        0 <= j < i + 1 && ((#[trigger] entries@[j]).0 == r.index || entries@[j].1
                            == Value::Obj(r)) by {
                    if exists|j: int|
                        0 <= j < i + 1 && ((#[trigger] entries@[j]).0 == r.index || entries@[j].1
                            == Value::Obj(r)) {
                        let j = choose|j: int|
                            0 <= j < i + 1 && ((#[trigger] entries@[j]).0 == r.index
                                || entries@[j].1 == Value::Obj(r));
                        if j < i {
                            assert(before.to_set().contains(r));
                        }
                    }
                    if before.to_set().contains(r) && !from_upvalues.contains(r) {
                        let j = choose|j: int|
                            0 <= j < i && ((#[trigger] entries@[j]).0 == r.index || entries@[j].1
                                == Value::Obj(r));
                        assert(entries@[j].0 == r.index || entries@[j].1 == Value::Obj(r));
                    }
                    if key == r.index || value == Value::Obj(r) {
                        assert(entries@[i as int].0 == r.index || entries@[i as int].1
                            == Value::Obj(r));
                    }
                }
            }
            i += 1;
        }
        proof {
            assert forall|r: GcRef| #[trigger] out@.to_set().contains(r) <==> self.is_root(r) by {
                if self.stack@.contains(Value::Obj(r)) {
                    let j = choose|j: int|
                        0 <= j < self.stack@.len() && self.stack@[j] == Value::Obj(r);
                    assert(self.stack@[j] == Value::Obj(r));
                }
                if self.globals@.contains_key(r.index) {
                    let j = choose|j: int| 0 <= j < entries@.len() && entries@[j].0 == r.index;
                    assert(entries@[j].0 == r.index);
                }
                if exists|k: usize|
                    self.globals@.contains_key(k) && #[trigger] self.globals@[k] == Value::Obj(r) {
                    let k = choose|k: usize|
                        self.globals@.contains_key(k) && #[trigger] self.globals@[k] == Value::Obj(
                            r,
                        );
                    let j = choose|j: int| 0 <= j < entries@.len() && entries@[j].0 == k;
                    assert(entries@[j].1 == Value::Obj(r));
                }
                if out@.to_set().contains(r) {
                    if from_upvalues.contains(r) {
                        if from_frames.contains(r) {
                            if from_stack.contains(r) {
                                if r != self.init_string {
                                    let j = choose|j: int|
                                        0 <= j < self.stack@.len() && #[trigger] self.stack@[j]
                                            == Value::Obj(r);
                                    assert(self.stack@.contains(Value::Obj(r)));
                                }
                            }
                        }
                    } else {
                        let j = choose|j: int|
                            0 <= j < entries@.len() && ((#[trigger] entries@[j]).0 == r.index
                                || entries@[j].1 == Value::Obj(r));
                        assert(self.globals@.contains_key(entries@[j].0));
                        assert(self.globals@[entries@[j].0] == entries@[j].1);
                    }
                }
            }
            assert(out@.to_set() =~= self.roots());
        }
        out.stack
    }

    /// The machine has allocated the object `r`, which holds `view`, after
    /// a collection if one was due, and has not changed otherwise.
    pub open spec fn allocation(before: &Self, after: &Self, view: ObjView, r: GcRef) -> bool {
        &&& exists|ready: Gc| #[trigger]
            Gc::prepared(&before.gc, before.roots(), &ready) && after.gc.allocated_as(
                &ready,
                view,
                r,
            )
        &&& after.stack == before.stack
        &&& after.frames == before.frames
        &&& after.globals == before.globals
        &&& after.open_upvalues == before.open_upvalues
        &&& after.init_string == before.init_string
    }

    /// Allocates an object that is no string. Collects first if a
    /// collection is due, with what the machine holds as the roots.
    pub fn allocate(&mut self, data: ObjData) -> (r: GcRef)
        requires
            old(self).wf(),
            data.text().is_none(),
        ensures
            final(self).wf(),
            Self::allocation(old(self), final(self), data@, r),
            old(self).sound() && (forall|c: GcRef| #[trigger]
                crate::mem::collector::refers_to(data@, c) ==> crate::mem::collector::reachable(
                    old(self).gc.heap.slots@,
                    old(self).roots(),
                    c,
                )) ==> final(self).sound(),
    {
        if self.gc.should_collect() {
            let roots = self.gather_roots();
            self.gc.run(&roots);
        }
        let ghost ready = self.gc;
        let r = self.gc.place(data);
        proof {
            assert(Gc::prepared(&old(self).gc, old(self).roots(), &ready));
            assert(self.gc.allocated_as(&ready, data@, r));
            if old(self).sound() && (forall|c: GcRef| #[trigger]
                crate::mem::collector::refers_to(data@, c) ==> crate::mem::collector::reachable(
                    old(self).gc.heap.slots@,
                    old(self).roots(),
                    c,
                )) {
                Self::lemma_allocation_sound(
                    &old(self).gc,
                    old(self).roots(),
                    &self.gc,
                    data@,
                    r,
                );
                assert forall|x: GcRef| #[trigger] self.is_root(x) implies self.gc.heap.live(
                    x.index as int,
                ) by {
                    assert(old(self).is_root(x));
                    assert(old(self).roots().contains(x));
                }
            }
        }
        r
    }

    /// The machine has interned the text `text` as the string `r`: the
    /// string the table had for it, or else a new one, allocated after a
    /// collection if one was due.
    pub open spec fn interning(before: &Self, after: &Self, text: Seq<u8>, r: GcRef) -> bool {
        &&& if before.gc.heap.table().contains_key(text) {
            r.index == before.gc.heap.table()[text] && after.gc == before.gc
        } else {
            exists|ready: Gc| #[trigger]
                Gc::prepared(&before.gc, before.roots(), &ready) && after.gc.interned_fresh(
                    &ready,
                    text,
                    r,
                )
        }
        &&& after.gc.heap.is_a(r, ObjType::String)
        &&& after.gc.heap.object(r.index as int).data.text() == Some(text)
        &&& after.stack == before.stack
        &&& after.frames == before.frames
        &&& after.globals == before.globals
        &&& after.open_upvalues == before.open_upvalues
        &&& after.init_string == before.init_string
    }

    /// The one string with the bytes `text`.
    pub fn intern(&mut self, text: &Vec<u8>) -> (r: GcRef)
        requires
            old(self).wf(),
        ensures
            final(self).wf(),
            Self::interning(old(self), final(self), text@, r),
            old(self).sound() ==> final(self).sound(),
    {
        match self.gc.heap.lookup_string(text) {
            Some(r) => r,
            None => {
                if self.gc.should_collect() {
                    let roots = self.gather_roots();
                    self.gc.run(&roots);
                }
                let ghost ready = self.gc;
                let r = self.gc.place_string(text);
                proof {
                    assert(Gc::prepared(&old(self).gc, old(self).roots(), &ready));
                    assert(self.gc.interned_fresh(&ready, text@, r));
                    if old(self).sound() {
                        if old(self).gc.due() {
                            Gc::lemma_collection_keeps_closed(
                                &old(self).gc,
                                old(self).roots(),
                                &ready,
                            );
                        }
                        self.gc.lemma_interned_keeps_closed(&ready, text@, r);
                        assert forall|x: GcRef| #[trigger] self.is_root(x) implies self.gc.heap.live(
                            x.index as int,
                        ) by {
                            assert(old(self).is_root(x));
                            assert(old(self).roots().contains(x));
                            assert(ready.heap.live(x.index as int));
                        }
                    }
                }
                r
            },
        }
    }

    /// Defines the global `name` as the native function that the host
    /// keeps under the number `function`.
    pub fn define_native(&mut self, name: &Vec<u8>, function: usize)
        requires
            old(self).wf(),
        ensures
            final(self).wf(),
            final(self).stack == old(self).stack,
            final(self).frames == old(self).frames,
            final(self).open_upvalues == old(self).open_upvalues,
            final(self).init_string == old(self).init_string,
            exists|key: GcRef, native: GcRef|
                final(self).globals@ == #[trigger] old(self).globals@.insert(
                    key.index,
                    Value::Obj(native),
                ) && final(self).gc.heap.is_a(native, ObjType::Native) && final(self).gc.heap.data(
                    native.index as int,
                ) == (ObjView::Native { function }) && final(self).gc.heap.is_a(
                    key,
                    ObjType::String,
                ) && final(self).gc.heap.object(key.index as int).data.text() == Some(name@),
            old(self).sound() ==> final(self).sound(),
    {
        let key = self.intern(name);
        let ghost interned = *self;
        self.globals.insert(key, Value::Nil);
        let ghost keyed = *self;
        proof {
            if old(self).sound() {
                assert forall|x: GcRef| #[trigger] keyed.is_root(x) implies keyed.gc.heap.live(
                    x.index as int,
                ) by {
                    if keyed.globals@.contains_key(x.index) && x.index != key.index {
                        assert(interned.globals@.contains_key(x.index));
                    }
                    if exists|k: usize|
                        keyed.globals@.contains_key(k) && #[trigger] keyed.globals@[k]
                            == Value::Obj(x) {
                        let k = choose|k: usize|
                            keyed.globals@.contains_key(k) && #[trigger] keyed.globals@[k]
                                == Value::Obj(x);
                        assert(interned.globals@.contains_key(k) && interned.globals@[k]
                            == Value::Obj(x));
                    }
                    assert(x.index == key.index || interned.is_root(x));
                }
            }
        }
        let native = self.allocate(
            ObjData::Native(crate::obj::obj_native::ObjNative::new(function)),
        );
        let ghost allocated = *self;
        self.globals.insert(key, Value::Obj(native));
        proof {
            assert(self.globals@ =~= old(self).globals@.insert(key.index, Value::Obj(native)));
            assert(self.gc.heap.is_a(native, ObjType::Native));
            let ready = choose|ready: Gc| #[trigger]
                Gc::prepared(&keyed.gc, keyed.roots(), &ready) && allocated.gc.allocated_as(
                    &ready,
                    ObjView::Native { function },
                    native,
                );
            assert(keyed.globals@.contains_key(key.index));
            assert(keyed.is_root(key));
            assert(keyed.roots().contains(key));
            crate::mem::collector::lemma_root_reachable(keyed.gc.heap.slots@, keyed.roots(), key);
            assert(ready.heap.live(key.index as int));
            assert(ready.heap.object(key.index as int).data == keyed.gc.heap.object(
                key.index as int,
            ).data);
            assert(self.gc.heap.object(key.index as int).data.text() == Some(name@));
            if old(self).sound() {
                assert(allocated.sound());
                assert forall|x: GcRef| #[trigger] self.is_root(x) implies self.gc.heap.live(
                    x.index as int,
                ) by {
                    if self.globals@.contains_key(x.index) {
                        assert(allocated.globals@.contains_key(x.index));
                    }
                    if exists|k: usize|
                        self.globals@.contains_key(k) && #[trigger] self.globals@[k] == Value::Obj(
                            x,
                        ) {
                        let k = choose|k: usize|
                            self.globals@.contains_key(k) && #[trigger] self.globals@[k]
                                == Value::Obj(x);
                        if k != key.index {
                            assert(allocated.globals@.contains_key(k) && allocated.globals@[k]
                                == Value::Obj(x));
                        }
                    }
                    assert(x == native || allocated.is_root(x));
                }
            }
        }
    }

    /// A copy of the text of the string `name`.
    pub fn name_text(&self, name: GcRef) -> (text: Vec<u8>)
        ensures
            self.gc.heap.live(name.index as int) ==> text@ == self.text_of(name),
            !self.gc.heap.live(name.index as int) ==> text@ == Seq::<u8>::empty(),
    {
        let mut text: Vec<u8> = Vec::new();
        match self.gc.heap.string(name) {
            Some(string) => {
                append_bytes(&mut text, &string.text);
                assert(text@ =~= string.text@);
            },
            None => {},
        }
        text
    }

    /// `GetGlobal`: pushes the value of the global that the operand names;
    /// a name without value is an error.
    pub open spec fn get_global_effect(before: &Self, after: &Self, out: Option<SignalView>) -> bool {
        match before.name_at(1) {
            Some(name) => if before.globals@.contains_key(name.index) {
                Self::pushes(before, after, out, before.globals@[name.index], 2)
            } else {
                Self::failed(
                    before,
                    after,
                    out,
                    RuntimeErrorKindView::UndefinedVariable(before.text_of(name)),
                )
            },
            None => Self::failed(before, after, out, RuntimeErrorKindView::Corrupt),
        }
    }

    pub(crate) fn op_get_global(&mut self) -> (out: Option<Signal>)
        requires
            old(self).wf(),
        ensures
            final(self).wf(),
            Self::get_global_effect(old(self), final(self), signal_view(out)),
    {
        match self.fetch_name(1) {
            Some(name) => match self.globals.get(name) {
                Some(value) => self.push_and_go(value, 2),
                None => {
                    let text = self.name_text(name);
                    Some(self.fail(RuntimeErrorKind::UndefinedVariable(text)))
                },
            },
            None => Some(self.fail(RuntimeErrorKind::Corrupt)),
        }
    }

    /// `DefineGlobal`: gives the global that the operand names the value
    /// on top of the stack, and drops that.
    pub open spec fn define_global_effect(
        before: &Self,
        after: &Self,
        out: Option<SignalView>,
    ) -> bool {
        match before.name_at(1) {
            Some(name) => if before.stack@.len() >= 1 {
                &&& out.is_none()
                &&& after.stack@ == before.stack@.drop_last()
                &&& Self::ip_moved(before, after, before.frame().ip + 2)
                &&& after.globals@ == before.globals@.insert(name.index, before.stack@.last())
                &&& after.open_upvalues@ == before.open_upvalues@
                &&& after.gc == before.gc
                &&& after.init_string == before.init_string
            } else {
                Self::failed(before, after, out, RuntimeErrorKindView::Corrupt)
            },
            None => Self::failed(before, after, out, RuntimeErrorKindView::Corrupt),
        }
    }

    pub(crate) fn op_define_global(&mut self) -> (out: Option<Signal>)
        requires
            old(self).wf(),
        ensures
            final(self).wf(),
            Self::define_global_effect(old(self), final(self), signal_view(out)),
    {
        match self.fetch_name(1) {
            Some(name) => {
                if self.stack.len() >= 1 {
                    let value = self.peek(0);
                    self.globals.insert(name, value);
                    self.stack.pop_n(1);
                    self.go(2);
                    None
                } else {
                    Some(self.fail(RuntimeErrorKind::Corrupt))
                }
            },
            None => Some(self.fail(RuntimeErrorKind::Corrupt)),
        }
    }

    /// `SetGlobal`: gives the global that the operand names the value on
    /// top of the stack, which stays; a name without value is an error.
    pub open spec fn set_global_effect(before: &Self, after: &Self, out: Option<SignalView>) -> bool {
        match before.name_at(1) {
            Some(name) => if before.stack@.len() >= 1 {
                if before.globals@.contains_key(name.index) {
                    &&& out.is_none()
                    &&& after.stack@ == before.stack@
                    &&& Self::ip_moved(before, after, before.frame().ip + 2)
                    &&& after.globals@ == before.globals@.insert(name.index, before.stack@.last())
                    &&& after.open_upvalues@ == before.open_upvalues@
                    &&& after.gc == before.gc
                    &&& after.init_string == before.init_string
                } else {
                    Self::failed(
                        before,
                        after,
                        out,
                        RuntimeErrorKindView::UndefinedVariable(before.text_of(name)),
                    )
                }
            } else {
                Self::failed(before, after, out, RuntimeErrorKindView::Corrupt)
            },
            None => Self::failed(before, after, out, RuntimeErrorKindView::Corrupt),
        }
    }

    pub(crate) fn op_set_global(&mut self) -> (out: Option<Signal>)
        requires
            old(self).wf(),
        ensures
            final(self).wf(),
            Self::set_global_effect(old(self), final(self), signal_view(out)),
    {
        match self.fetch_name(1) {
            Some(name) => {
                if self.stack.len() >= 1 {
                    if self.globals.get(name).is_some() {
                        let value = self.peek(0);
                        self.globals.insert(name, value);
                        self.go(2);
                        None
                    } else {
                        let text = self.name_text(name);
                        Some(self.fail(RuntimeErrorKind::UndefinedVariable(text)))
                    }
                } else {
                    Some(self.fail(RuntimeErrorKind::Corrupt))
                }
            },
            None => Some(self.fail(RuntimeErrorKind::Corrupt)),
        }
    }
}

} // verus!
