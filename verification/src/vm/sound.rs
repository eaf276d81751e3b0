use vstd::prelude::*;
use crate::mem::collector::heap_closed;
use crate::mem::collector::lemma_reachable_step;
use crate::mem::collector::lemma_root_reachable;
use crate::mem::collector::reachable;
use crate::mem::collector::refers_to;
use crate::mem::collector::refers_to_live;
use crate::mem::collector::Gc;
use crate::mem::gc::slot_live;
use crate::mem::gc::slot_object;
use crate::mem::gc_ref::GcRef;
use crate::obj::obj::Object;
use crate::obj::obj::ObjType;
use crate::obj::obj::ObjView;
use crate::value::Value;
use crate::vm::call_frame::CallFrame;
use crate::vm::function_of;
use crate::vm::machine_root;
use crate::vm::machine_roots;
use crate::vm::signal::RuntimeErrorKindView;
use crate::vm::signal::SignalView;
use crate::vm::Vm;

verus! {

/// The value refers to nothing, or to a live object.
pub open spec fn value_live(slots: Seq<Option<Object>>, value: Value) -> bool {
    match value {
        Value::Obj(r) => slot_live(slots, r.index as int),
        _ => true,
    }
}

/// A frame of `frames` runs `closure`.
pub open spec fn closure_held(frames: Seq<CallFrame>, closure: GcRef) -> bool {
    exists|i: int| 0 <= i < frames.len() && (#[trigger] frames[i]).closure == closure
}

/// Every value of the sequence refers to nothing or to a live object.
pub open spec fn values_live(slots: Seq<Option<Object>>, values: Seq<Value>) -> bool {
    forall|k: int| 0 <= k < values.len() ==> value_live(slots, #[trigger] values[k])
}

impl<const MAX_FRAMES: usize, const STACK_SIZE: usize> Vm<MAX_FRAMES, STACK_SIZE> {
    /// The machine holds no reference to an object that is gone: what it
    /// holds itself is live, and so is whatever a live object refers to.
    pub open spec fn sound(&self) -> bool {
        &&& heap_closed(self.gc.heap.slots@)
        &&& forall|r: GcRef| #[trigger] self.is_root(r) ==> self.gc.heap.live(r.index as int)
    }

    /// What stands on the stack of a sound machine is live.
    pub proof fn lemma_stack_live(&self)
        requires
            self.sound(),
        ensures
            values_live(self.gc.heap.slots@, self.stack@),
    {
        assert forall|k: int| 0 <= k < self.stack@.len() implies value_live(
            self.gc.heap.slots@,
            #[trigger] self.stack@[k],
        ) by {
            match self.stack@[k] {
                Value::Obj(r) => {
                    assert(self.stack@.contains(Value::Obj(r)));
                    assert(self.is_root(r));
                },
                _ => {},
            }
        }
    }

    /// What a live object of a sound machine refers to is live.
    pub proof fn lemma_child_live(&self, o: GcRef, c: GcRef)
        requires
            self.sound(),
            self.gc.heap.live(o.index as int),
            refers_to(self.gc.heap.data(o.index as int), c),
        ensures
            self.gc.heap.live(c.index as int),
    {
    }

    /// The function a sound machine is running and its constants are live
    /// and can be reached from the innermost frame.
    pub proof fn lemma_constant_reachable(&self, index: int)
        requires
            self.sound(),
            self.function().is_some(),
            0 <= index < self.constants().len(),
        ensures
            value_live(self.gc.heap.slots@, self.constants()[index]),
            self.constants()[index] is Obj ==> reachable(
                self.gc.heap.slots@,
                self.roots(),
                self.constants()[index]->Obj_0,
            ),
            reachable(self.gc.heap.slots@, self.roots(), self.function().unwrap()),
            reachable(self.gc.heap.slots@, self.roots(), self.frame().closure),
    {
        let slots = self.gc.heap.slots@;
        let closure = self.frame().closure;
        let function = self.function().unwrap();
        assert(self.frames@[self.frames@.len() - 1].closure == closure);
        assert(self.is_root(closure));
        assert(self.roots().contains(closure));
        lemma_root_reachable(slots, self.roots(), closure);
        assert(refers_to(self.gc.heap.data(closure.index as int), function));
        lemma_reachable_step(slots, self.roots(), closure, function);
        match self.constants()[index] {
            Value::Obj(c) => {
                assert(crate::mem::collector::value_ref(self.constants()[index]) == Some(c));
                assert(refers_to(self.gc.heap.data(function.index as int), c));
                self.lemma_child_live(function, c);
                lemma_reachable_step(slots, self.roots(), function, c);
            },
            _ => {},
        }
    }

    /// A machine that has stopped on an error is sound if it was.
    pub proof fn lemma_failed_sound(
        before: &Self,
        after: &Self,
        out: Option<SignalView>,
        kind: RuntimeErrorKindView,
    )
        requires
            before.sound(),
            Self::failed(before, after, out, kind),
        ensures
            after.sound(),
    {
        assert forall|r: GcRef| #[trigger] after.is_root(r) implies after.gc.heap.live(
            r.index as int,
        ) by {
            assert(!after.stack@.contains(Value::Obj(r)));
            assert(before.is_root(r));
        }
    }

    /// A machine that has gone on with a stack of live values is sound if
    /// it was.
    pub proof fn lemma_went_on_sound(before: &Self, after: &Self, stack: Seq<Value>, ip: int)
        requires
            before.sound(),
            Self::went_on(before, after, stack, ip),
            values_live(before.gc.heap.slots@, stack),
        ensures
            after.sound(),
    {
        assert forall|r: GcRef| #[trigger] after.is_root(r) implies after.gc.heap.live(
            r.index as int,
        ) by {
            Self::lemma_root_kept(before, after, r);
            if after.stack@.contains(Value::Obj(r)) {
                let k = choose|k: int| 0 <= k < stack.len() && stack[k] == Value::Obj(r);
                assert(value_live(before.gc.heap.slots@, stack[k]));
            }
        }
    }

    /// Where the frames have only moved on and the upvalue list, the
    /// globals and the name `init` are as they were, what the machine
    /// holds is what it held, or stands on its stack.
    pub proof fn lemma_root_kept(before: &Self, after: &Self, r: GcRef)
        requires
            after.is_root(r),
            before.frames@.len() > 0,
            after.frames@.len() == before.frames@.len(),
            forall|i: int|
                0 <= i < before.frames@.len() ==> (#[trigger] after.frames@[i]).closure
                    == before.frames@[i].closure,
            after.open_upvalues@ == before.open_upvalues@,
            after.globals@ == before.globals@,
            after.init_string == before.init_string,
        ensures
            before.is_root(r) || after.stack@.contains(Value::Obj(r)),
    {
        if exists|i: int| 0 <= i < after.frames@.len() && (#[trigger] after.frames@[i]).closure == r {
            let i = choose|i: int|
                0 <= i < after.frames@.len() && (#[trigger] after.frames@[i]).closure == r;
            assert(before.frames@[i].closure == r);
        }
    }

    /// Pushing a live value keeps the machine sound.
    pub proof fn lemma_pushes_sound(
        before: &Self,
        after: &Self,
        out: Option<SignalView>,
        value: Value,
        width: int,
    )
        requires
            before.sound(),
            Self::pushes(before, after, out, value, width),
            value_live(before.gc.heap.slots@, value),
        ensures
            after.sound(),
    {
        if before.stack@.len() < STACK_SIZE {
            before.lemma_stack_live();
            Self::lemma_went_on_sound(
                before,
                after,
                before.stack@.push(value),
                before.frame().ip + width,
            );
        } else {
            Self::lemma_failed_sound(before, after, out, RuntimeErrorKindView::StackOverflow);
        }
    }

    /// Replacing values on top of the stack by a live value keeps the
    /// machine sound.
    pub proof fn lemma_replaces_sound(
        before: &Self,
        after: &Self,
        out: Option<SignalView>,
        count: int,
        value: Value,
        width: int,
    )
        requires
            before.sound(),
            0 <= count <= before.stack@.len(),
            Self::replaces(before, after, out, count, value, width),
            value_live(before.gc.heap.slots@, value),
        ensures
            after.sound(),
    {
        before.lemma_stack_live();
        Self::lemma_went_on_sound(
            before,
            after,
            before.stack@.take(before.stack@.len() - count).push(value),
            before.frame().ip + width,
        );
    }

    /// Dropping values from the stack keeps the machine sound.
    pub proof fn lemma_drops_sound(
        before: &Self,
        after: &Self,
        out: Option<SignalView>,
        count: int,
        width: int,
    )
        requires
            before.sound(),
            0 <= count <= before.stack@.len(),
            Self::drops(before, after, out, count, width),
        ensures
            after.sound(),
    {
        before.lemma_stack_live();
        Self::lemma_went_on_sound(
            before,
            after,
            before.stack@.take(before.stack@.len() - count),
            before.frame().ip + width,
        );
    }

    pub proof fn lemma_constant_sound(before: &Self, after: &Self, out: Option<SignalView>)
        requires
            before.sound(),
            Self::constant_effect(before, after, out),
        ensures
            after.sound(),
    {
        match before.constant_at(1) {
            Some(value) => {
                before.lemma_constant_reachable(before.byte_at(1).unwrap() as int);
                Self::lemma_pushes_sound(before, after, out, value, 2);
            },
            None => Self::lemma_failed_sound(before, after, out, RuntimeErrorKindView::Corrupt),
        }
    }

    pub proof fn lemma_literal_sound(
        before: &Self,
        after: &Self,
        out: Option<SignalView>,
        value: Value,
    )
        requires
            before.sound(),
            Self::literal_effect(before, after, out, value),
            !(value is Obj),
        ensures
            after.sound(),
    {
        if before.byte_at(0).is_some() {
            Self::lemma_pushes_sound(before, after, out, value, 1);
        } else {
            Self::lemma_failed_sound(before, after, out, RuntimeErrorKindView::Corrupt);
        }
    }

    pub proof fn lemma_pop_sound(before: &Self, after: &Self, out: Option<SignalView>)
        requires
            before.sound(),
            Self::pop_effect(before, after, out),
        ensures
            after.sound(),
    {
        if before.byte_at(0).is_some() && before.stack@.len() > 0 {
            Self::lemma_drops_sound(before, after, out, 1, 1);
        } else {
            Self::lemma_failed_sound(before, after, out, RuntimeErrorKindView::Corrupt);
        }
    }

    pub proof fn lemma_get_local_sound(before: &Self, after: &Self, out: Option<SignalView>)
        requires
            before.sound(),
            Self::get_local_effect(before, after, out),
        ensures
            after.sound(),
    {
        before.lemma_stack_live();
        match before.local_at() {
            Some(slot) => Self::lemma_pushes_sound(before, after, out, before.stack@[slot], 2),
            None => Self::lemma_failed_sound(before, after, out, RuntimeErrorKindView::Corrupt),
        }
    }

    pub proof fn lemma_set_local_sound(before: &Self, after: &Self, out: Option<SignalView>)
        requires
            before.sound(),
            Self::set_local_effect(before, after, out),
        ensures
            after.sound(),
    {
        before.lemma_stack_live();
        match before.local_at() {
            Some(slot) => Self::lemma_went_on_sound(
                before,
                after,
                before.stack@.update(slot, before.stack@.last()),
                before.frame().ip + 2,
            ),
            None => Self::lemma_failed_sound(before, after, out, RuntimeErrorKindView::Corrupt),
        }
    }

    /// `Equal`, `Not`, `Negate`, `Less` and `Greater` leave a boolean or a
    /// number, which refers to nothing.
    pub proof fn lemma_plain_result_sound(before: &Self, after: &Self, out: Option<SignalView>)
        requires
            before.sound(),
            Self::equal_effect(before, after, out) || Self::not_effect(before, after, out)
                || Self::negate_effect(before, after, out) || Self::compare_effect(
                before,
                after,
                out,
                true,
            ) || Self::compare_effect(before, after, out, false),
        ensures
            after.sound(),
    {
        before.lemma_stack_live();
        let n = before.stack@.len();
        if out.is_some() {
            let kind = out.unwrap()->Error_kind;
            Self::lemma_failed_sound(before, after, out, kind);
        } else {
            if Self::equal_effect(before, after, out) {
                Self::lemma_replaces_sound(
                    before,
                    after,
                    out,
                    2,
                    Value::Bool(
                        crate::value::values_equal(before.stack@[n - 2], before.stack@[n - 1]),
                    ),
                    1,
                );
            } else if Self::not_effect(before, after, out) {
                Self::lemma_replaces_sound(
                    before,
                    after,
                    out,
                    1,
                    Value::Bool(before.stack@.last().falsey()),
                    1,
                );
            } else if Self::negate_effect(before, after, out) {
                Self::lemma_replaces_sound(
                    before,
                    after,
                    out,
                    1,
                    Value::Number(
                        crate::value::number_negated(before.stack@.last()->Number_0),
                    ),
                    1,
                );
            } else if Self::compare_effect(before, after, out, true) {
                Self::lemma_replaces_sound(
                    before,
                    after,
                    out,
                    2,
                    Value::Bool(
                        crate::value::number_less(
                            before.stack@[n - 1]->Number_0,
                            before.stack@[n - 2]->Number_0,
                        ),
                    ),
                    1,
                );
            } else {
                Self::lemma_replaces_sound(
                    before,
                    after,
                    out,
                    2,
                    Value::Bool(
                        crate::value::number_less(
                            before.stack@[n - 2]->Number_0,
                            before.stack@[n - 1]->Number_0,
                        ),
                    ),
                    1,
                );
            }
        }
    }

    /// `Subtract`, `Multiply`, `Divide` and `Print` only take values off
    /// the stack.
    pub proof fn lemma_handed_out_sound(before: &Self, after: &Self, out: Option<SignalView>)
        requires
            before.sound(),
            Self::print_effect(before, after, out) || exists|op: crate::vm::signal::ArithmeticOp|
                #[trigger] Self::arithmetic_effect(before, after, out, op),
        ensures
            after.sound(),
    {
        before.lemma_stack_live();
        let n = before.stack@.len();
        if out.is_some() && out.unwrap() is Error {
            let kind = out.unwrap()->Error_kind;
            Self::lemma_failed_sound(before, after, out, kind);
        } else if Self::print_effect(before, after, out) {
            Self::lemma_went_on_sound(
                before,
                after,
                before.stack@.take(n - 1),
                before.frame().ip + 1,
            );
        } else {
            Self::lemma_went_on_sound(
                before,
                after,
                before.stack@.take(n - 2),
                before.frame().ip + 1,
            );
        }
    }

    /// `Jump`, `JumpIfFalse` and `Loop` leave the stack as it is.
    pub proof fn lemma_jumps_sound(before: &Self, after: &Self, out: Option<SignalView>)
        requires
            before.sound(),
            Self::jump_effect(before, after, out) || Self::jump_if_false_effect(before, after, out)
                || Self::loop_effect(before, after, out),
        ensures
            after.sound(),
    {
        before.lemma_stack_live();
        if out.is_some() {
            Self::lemma_failed_sound(before, after, out, RuntimeErrorKindView::Corrupt);
        } else {
            Self::lemma_went_on_sound(
                before,
                after,
                before.stack@,
                after.frames@.last().ip as int,
            );
        }
    }

    pub proof fn lemma_get_global_sound(before: &Self, after: &Self, out: Option<SignalView>)
        requires
            before.sound(),
            Self::get_global_effect(before, after, out),
        ensures
            after.sound(),
    {
        match before.name_at(1) {
            Some(name) => {
                if before.globals@.contains_key(name.index) {
                    let value = before.globals@[name.index];
                    match value {
                        Value::Obj(r) => {
                            assert(before.is_root(r));
                        },
                        _ => {},
                    }
                    Self::lemma_pushes_sound(before, after, out, value, 2);
                } else {
                    Self::lemma_failed_sound(
                        before,
                        after,
                        out,
                        RuntimeErrorKindView::UndefinedVariable(before.text_of(name)),
                    );
                }
            },
            None => Self::lemma_failed_sound(before, after, out, RuntimeErrorKindView::Corrupt),
        }
    }

    /// `DefineGlobal` and `SetGlobal` give a name that is live a value
    /// from the stack.
    pub proof fn lemma_set_global_sound(before: &Self, after: &Self, out: Option<SignalView>)
        requires
            before.sound(),
            Self::define_global_effect(before, after, out) || Self::set_global_effect(
                before,
                after,
                out,
            ),
        ensures
            after.sound(),
    {
        before.lemma_stack_live();
        if out.is_some() {
            let kind = out.unwrap()->Error_kind;
            Self::lemma_failed_sound(before, after, out, kind);
        } else {
            let name = before.name_at(1).unwrap();
            let value = before.stack@.last();
            assert(after.globals@ == before.globals@.insert(name.index, value));
            assert forall|r: GcRef| #[trigger] after.is_root(r) implies after.gc.heap.live(
                r.index as int,
            ) by {
                if after.stack@.contains(Value::Obj(r)) {
                    let k = choose|k: int|
                        0 <= k < after.stack@.len() && after.stack@[k] == Value::Obj(r);
                    assert(before.stack@[k] == Value::Obj(r));
                    assert(before.stack@.contains(Value::Obj(r)));
                    assert(before.is_root(r));
                } else if exists|i: int|
                    0 <= i < after.frames@.len() && (#[trigger] after.frames@[i]).closure == r {
                    let i = choose|i: int|
                        0 <= i < after.frames@.len() && (#[trigger] after.frames@[i]).closure == r;
                    assert(before.frames@[i].closure == r);
                    assert(before.is_root(r));
                } else if after.globals@.contains_key(r.index) {
                    if r.index != name.index {
                        assert(before.globals@.contains_key(r.index));
                        assert(before.is_root(r));
                    }
                } else if exists|k: usize|
                    after.globals@.contains_key(k) && #[trigger] after.globals@[k] == Value::Obj(r) {
                    let k = choose|k: usize|
                        after.globals@.contains_key(k) && #[trigger] after.globals@[k]
                            == Value::Obj(r);
                    if k == name.index {
                        assert(before.stack@.contains(Value::Obj(r)));
                        assert(before.is_root(r));
                    } else {
                        assert(before.globals@.contains_key(k) && before.globals@[k] == Value::Obj(
                            r,
                        ));
                        assert(before.is_root(r));
                    }
                } else {
                    assert(before.is_root(r));
                }
            }
        }
    }

    pub proof fn lemma_get_upvalue_sound(before: &Self, after: &Self, out: Option<SignalView>)
        requires
            before.sound(),
            Self::get_upvalue_effect(before, after, out),
        ensures
            after.sound(),
    {
        before.lemma_stack_live();
        match before.upvalue_at() {
            Some(r) => match before.gc.heap.data(r.index as int)->Upvalue_location {
                Some(slot) => {
                    if slot < before.stack@.len() {
                        Self::lemma_pushes_sound(before, after, out, before.stack@[slot as int], 2);
                    } else {
                        Self::lemma_failed_sound(
                            before,
                            after,
                            out,
                            RuntimeErrorKindView::Corrupt,
                        );
                    }
                },
                None => {
                    let closed = before.gc.heap.data(r.index as int)->Upvalue_closed;
                    match closed {
                        Value::Obj(c) => {
                            assert(crate::mem::collector::value_ref(closed) == Some(c));
                            before.lemma_child_live(r, c);
                        },
                        _ => {},
                    }
                    Self::lemma_pushes_sound(before, after, out, closed, 2);
                },
            },
            None => Self::lemma_failed_sound(before, after, out, RuntimeErrorKindView::Corrupt),
        }
    }

    /// Setting the payload of an object to one that refers only to live
    /// objects, and going on with a stack of live values, keeps the
    /// machine sound.
    pub proof fn lemma_went_on_setting_sound(
        before: &Self,
        after: &Self,
        i: int,
        view: ObjView,
        stack: Seq<Value>,
        ip: int,
    )
        requires
            before.sound(),
            Self::went_on_setting(before, after, i, view, stack, ip),
            refers_to_live(before.gc.heap.slots@, view),
            values_live(before.gc.heap.slots@, stack),
        ensures
            after.sound(),
    {
        assert(after.gc.heap@.len() == before.gc.heap@.len());
        after.gc.lemma_payload_set_keeps_closed(&before.gc, i, view);
        assert forall|r: GcRef| #[trigger] after.is_root(r) implies after.gc.heap.live(
            r.index as int,
        ) by {
            Self::lemma_root_kept(before, after, r);
            if after.stack@.contains(Value::Obj(r)) {
                let k = choose|k: int| 0 <= k < stack.len() && stack[k] == Value::Obj(r);
                assert(value_live(before.gc.heap.slots@, stack[k]));
            }
            assert(before.gc.heap.live(r.index as int));
        }
    }

    pub proof fn lemma_set_upvalue_sound(before: &Self, after: &Self, out: Option<SignalView>)
        requires
            before.sound(),
            Self::set_upvalue_effect(before, after, out),
        ensures
            after.sound(),
    {
        before.lemma_stack_live();
        if out.is_some() {
            Self::lemma_failed_sound(before, after, out, RuntimeErrorKindView::Corrupt);
        } else {
            let r = before.upvalue_at().unwrap();
            match before.gc.heap.data(r.index as int)->Upvalue_location {
                Some(slot) => Self::lemma_went_on_sound(
                    before,
                    after,
                    before.stack@.update(slot as int, before.stack@.last()),
                    before.frame().ip + 2,
                ),
                None => {
                    let view = ObjView::Upvalue { location: None, closed: before.stack@.last() };
                    assert(value_live(before.gc.heap.slots@, before.stack@.last()));
                    Self::lemma_went_on_setting_sound(
                        before,
                        after,
                        r.index as int,
                        view,
                        before.stack@,
                        before.frame().ip + 2,
                    );
                },
            }
        }
    }

    pub proof fn lemma_set_property_sound(before: &Self, after: &Self, out: Option<SignalView>)
        requires
            before.sound(),
            Self::set_property_effect(before, after, out),
        ensures
            after.sound(),
    {
        before.lemma_stack_live();
        if out.is_some() {
            let kind = out.unwrap()->Error_kind;
            Self::lemma_failed_sound(before, after, out, kind);
        } else {
            let n = before.stack@.len();
            let name = before.name_at(1).unwrap();
            let instance = crate::vm::object::as_a(
                &before.gc.heap,
                before.stack@[n - 2],
                ObjType::Instance,
            ).unwrap();
            let klass = before.gc.heap.data(instance.index as int)->Instance_klass;
            let fields = before.gc.heap.data(instance.index as int)->Instance_fields;
            let value = before.stack@[n - 1];
            let view = ObjView::Instance { klass, fields: fields.insert(name.index, value) };
            assert(value_live(before.gc.heap.slots@, value));
            assert forall|c: GcRef| #[trigger] refers_to(view, c) implies slot_live(
                before.gc.heap.slots@,
                c.index as int,
            ) by {
                if c == klass {
                    assert(refers_to(before.gc.heap.data(instance.index as int), c));
                    before.lemma_child_live(instance, c);
                } else if fields.insert(name.index, value).contains_key(c.index) {
                    if c.index != name.index {
                        assert(refers_to(before.gc.heap.data(instance.index as int), c));
                        before.lemma_child_live(instance, c);
                    }
                } else {
                    let k = choose|k: usize|
                        fields.insert(name.index, value).contains_key(k)
                            && crate::mem::collector::value_ref(
                            #[trigger] fields.insert(name.index, value)[k],
                        ) == Some(c);
                    if k != name.index {
                        assert(fields.contains_key(k) && crate::mem::collector::value_ref(
                            fields[k],
                        ) == Some(c));
                        assert(refers_to(before.gc.heap.data(instance.index as int), c));
                        before.lemma_child_live(instance, c);
                    }
                }
            }
            Self::lemma_went_on_setting_sound(
                before,
                after,
                instance.index as int,
                view,
                before.stack@.take(n - 2).push(value),
                before.frame().ip + 2,
            );
        }
    }

    pub proof fn lemma_method_sound(before: &Self, after: &Self, out: Option<SignalView>)
        requires
            before.sound(),
            Self::method_effect(before, after, out),
        ensures
            after.sound(),
    {
        before.lemma_stack_live();
        if out.is_some() {
            Self::lemma_failed_sound(before, after, out, RuntimeErrorKindView::Corrupt);
        } else {
            let n = before.stack@.len();
            let name = before.name_at(1).unwrap();
            let class = crate::vm::object::as_a(
                &before.gc.heap,
                before.stack@[n - 2],
                ObjType::Class,
            ).unwrap();
            let method = crate::vm::object::as_a(
                &before.gc.heap,
                before.stack@[n - 1],
                ObjType::Closure,
            ).unwrap();
            let class_name = before.gc.heap.data(class.index as int)->Class_name;
            let methods = before.gc.heap.data(class.index as int)->Class_methods;
            let view = ObjView::Class {
                name: class_name,
                methods: methods.insert(name.index, method),
            };
            assert forall|c: GcRef| #[trigger] refers_to(view, c) implies slot_live(
                before.gc.heap.slots@,
                c.index as int,
            ) by {
                if c == class_name {
                    assert(refers_to(before.gc.heap.data(class.index as int), c));
                    before.lemma_child_live(class, c);
                } else if methods.insert(name.index, method).contains_key(c.index) {
                    if c.index != name.index {
                        assert(refers_to(before.gc.heap.data(class.index as int), c));
                        before.lemma_child_live(class, c);
                    }
                } else {
                    let k = choose|k: usize|
                        methods.insert(name.index, method).contains_key(k) && #[trigger] methods.insert(
                            name.index,
                            method,
                        )[k] == c;
                    if k != name.index {
                        assert(methods.contains_key(k) && methods[k] == c);
                        assert(refers_to(before.gc.heap.data(class.index as int), c));
                        before.lemma_child_live(class, c);
                    }
                }
            }
            Self::lemma_went_on_setting_sound(
                before,
                after,
                class.index as int,
                view,
                before.stack@.drop_last(),
                before.frame().ip + 2,
            );
        }
    }

    pub proof fn lemma_inherit_sound(before: &Self, after: &Self, out: Option<SignalView>)
        requires
            before.sound(),
            Self::inherit_effect(before, after, out),
        ensures
            after.sound(),
    {
        before.lemma_stack_live();
        if out.is_some() {
            let kind = out.unwrap()->Error_kind;
            Self::lemma_failed_sound(before, after, out, kind);
        } else {
            let n = before.stack@.len();
            let superclass = crate::vm::object::as_a(
                &before.gc.heap,
                before.stack@[n - 2],
                ObjType::Class,
            ).unwrap();
            let subclass = crate::vm::object::as_a(
                &before.gc.heap,
                before.stack@[n - 1],
                ObjType::Class,
            ).unwrap();
            let name = before.gc.heap.data(subclass.index as int)->Class_name;
            let own = before.gc.heap.data(subclass.index as int)->Class_methods;
            let inherited = before.gc.heap.data(superclass.index as int)->Class_methods;
            let view = ObjView::Class { name, methods: own.union_prefer_right(inherited) };
            assert forall|c: GcRef| #[trigger] refers_to(view, c) implies slot_live(
                before.gc.heap.slots@,
                c.index as int,
            ) by {
                let all = own.union_prefer_right(inherited);
                if c == name {
                    assert(refers_to(before.gc.heap.data(subclass.index as int), c));
                    before.lemma_child_live(subclass, c);
                } else if all.contains_key(c.index) {
                    if inherited.contains_key(c.index) {
                        assert(refers_to(before.gc.heap.data(superclass.index as int), c));
                        before.lemma_child_live(superclass, c);
                    } else {
                        assert(refers_to(before.gc.heap.data(subclass.index as int), c));
                        before.lemma_child_live(subclass, c);
                    }
                } else {
                    let k = choose|k: usize| all.contains_key(k) && #[trigger] all[k] == c;
                    if inherited.contains_key(k) {
                        assert(inherited[k] == c);
                        assert(refers_to(before.gc.heap.data(superclass.index as int), c));
                        before.lemma_child_live(superclass, c);
                    } else {
                        assert(own.contains_key(k) && own[k] == c);
                        assert(refers_to(before.gc.heap.data(subclass.index as int), c));
                        before.lemma_child_live(subclass, c);
                    }
                }
            }
            Self::lemma_went_on_setting_sound(
                before,
                after,
                subclass.index as int,
                view,
                before.stack@.drop_last(),
                before.frame().ip + 1,
            );
        }
    }

    /// An allocation, after a collection if one was due, keeps a closed
    /// heap closed and what the roots refer to live, if what the new
    /// object refers to could be reached from the roots.
    pub proof fn lemma_allocation_sound(
        before: &Gc,
        roots: Set<GcRef>,
        after: &Gc,
        view: ObjView,
        r: GcRef,
    )
        requires
            heap_closed(before.heap.slots@),
            exists|ready: Gc| #[trigger]
                Gc::prepared(before, roots, &ready) && after.allocated_as(&ready, view, r),
            forall|c: GcRef| #[trigger]
                refers_to(view, c) ==> reachable(before.heap.slots@, roots, c),
        ensures
            heap_closed(after.heap.slots@),
            after.heap.live(r.index as int),
            forall|x: GcRef|
                #[trigger] roots.contains(x) && before.heap.live(x.index as int)
                    ==> after.heap.live(x.index as int),
            forall|x: GcRef| #[trigger]
                reachable(before.heap.slots@, roots, x) ==> after.heap.live(x.index as int)
                    && after.heap.object(x.index as int).data == before.heap.object(
                    x.index as int,
                ).data,
    {
        let ready = choose|ready: Gc| #[trigger]
            Gc::prepared(before, roots, &ready) && after.allocated_as(&ready, view, r);
        let graph = before.heap.slots@;
        if before.due() {
            Gc::lemma_collection_keeps_closed(before, roots, &ready);
        } else {
            assert forall|x: GcRef| #[trigger] reachable(graph, roots, x) implies ready.heap.live(
                x.index as int,
            ) by {
                let p = choose|p: Seq<GcRef>|
                    #[trigger] crate::mem::collector::is_path(graph, roots, p) && p.last() == x;
                assert(slot_live(graph, p[p.len() - 1].index as int));
            }
        }
        assert forall|c: GcRef| #[trigger] refers_to(view, c) implies slot_live(
            ready.heap.slots@,
            c.index as int,
        ) by {
            assert(reachable(graph, roots, c));
        }
        after.lemma_allocated_keeps_closed(&ready, view, r);
        assert forall|x: GcRef| #[trigger] reachable(graph, roots, x) implies after.heap.live(
            x.index as int,
        ) && after.heap.object(x.index as int).data == before.heap.object(x.index as int).data by {
            assert(ready.heap.live(x.index as int));
            assert(ready.heap.object(x.index as int).data == before.heap.object(
                x.index as int,
            ).data);
        }
        assert forall|x: GcRef|
            #[trigger] roots.contains(x) && before.heap.live(
                x.index as int,
            ) implies after.heap.live(x.index as int) by {
            lemma_root_reachable(graph, roots, x);
        }
    }

    /// Going on with a newly allocated object on a stack that otherwise
    /// holds what the machine held keeps the machine sound, if what the
    /// new object refers to could be reached.
    pub proof fn lemma_went_on_allocating_sound(
        before: &Self,
        after: &Self,
        view: ObjView,
        r: GcRef,
        stack: Seq<Value>,
        ip: int,
    )
        requires
            before.sound(),
            Self::went_on_allocating(before, after, view, r, stack, ip),
            forall|c: GcRef| #[trigger]
                refers_to(view, c) ==> reachable(before.gc.heap.slots@, before.roots(), c),
            forall|k: int|
                0 <= k < stack.len() ==> (#[trigger] stack[k]) == Value::Obj(r) || !(stack[k] is Obj)
                    || before.stack@.contains(stack[k]),
        ensures
            after.sound(),
    {
        Self::lemma_allocation_sound(&before.gc, before.roots(), &after.gc, view, r);
        assert forall|x: GcRef| #[trigger] after.is_root(x) implies after.gc.heap.live(
            x.index as int,
        ) by {
            Self::lemma_root_kept(before, after, x);
            if after.stack@.contains(Value::Obj(x)) {
                let k = choose|k: int| 0 <= k < stack.len() && stack[k] == Value::Obj(x);
                if x != r {
                    assert(before.stack@.contains(stack[k]));
                    assert(before.is_root(x));
                }
            }
            if x != r {
                assert(before.is_root(x));
                assert(before.roots().contains(x));
            }
        }
    }

    pub proof fn lemma_class_sound(before: &Self, after: &Self, out: Option<SignalView>)
        requires
            before.sound(),
            Self::class_effect(before, after, out),
        ensures
            after.sound(),
    {
        if out.is_some() {
            let kind = out.unwrap()->Error_kind;
            Self::lemma_failed_sound(before, after, out, kind);
        } else {
            let name = before.name_at(1).unwrap();
            let view = ObjView::Class { name, methods: Map::empty() };
            let r = choose|r: GcRef| #[trigger]
                Self::went_on_allocating(
                    before,
                    after,
                    view,
                    r,
                    before.stack@.push(Value::Obj(r)),
                    before.frame().ip + 2,
                );
            before.lemma_constant_reachable(before.byte_at(1).unwrap() as int);
            assert forall|c: GcRef| #[trigger] refers_to(view, c) implies reachable(
                before.gc.heap.slots@,
                before.roots(),
                c,
            ) by {
                assert(c == name);
            }
            let stack = before.stack@.push(Value::Obj(r));
            assert forall|k: int| 0 <= k < stack.len() implies (#[trigger] stack[k]) == Value::Obj(r)
                || !(stack[k] is Obj) || before.stack@.contains(stack[k]) by {
                if k < before.stack@.len() {
                    assert(before.stack@[k] == stack[k]);
                }
            }
            Self::lemma_went_on_allocating_sound(
                before,
                after,
                view,
                r,
                stack,
                before.frame().ip + 2,
            );
        }
    }

    /// What stands on the stack of a sound machine can be reached.
    pub proof fn lemma_stack_reachable(&self, k: int)
        requires
            self.sound(),
            0 <= k < self.stack@.len(),
            self.stack@[k] is Obj,
        ensures
            reachable(self.gc.heap.slots@, self.roots(), self.stack@[k]->Obj_0),
    {
        let r = self.stack@[k]->Obj_0;
        assert(self.stack@[k] == Value::Obj(r));
        assert(self.stack@.contains(Value::Obj(r)));
        assert(self.is_root(r));
        assert(self.roots().contains(r));
        lemma_root_reachable(self.gc.heap.slots@, self.roots(), r);
    }

    /// Binding a method that can be reached to a receiver from the stack
    /// keeps the machine sound.
    pub proof fn lemma_binds_sound(
        before: &Self,
        after: &Self,
        out: Option<SignalView>,
        receiver: Value,
        method: GcRef,
        count: int,
        width: int,
    )
        requires
            before.sound(),
            1 <= count <= before.stack@.len(),
            Self::binds(before, after, out, receiver, method, count, width),
            before.stack@.contains(receiver),
            reachable(before.gc.heap.slots@, before.roots(), method),
        ensures
            after.sound(),
    {
        let view = ObjView::BoundMethod { receiver, method };
        let n = before.stack@.len();
        let r = choose|r: GcRef| #[trigger]
            Self::went_on_allocating(
                before,
                after,
                view,
                r,
                before.stack@.take(n - count).push(Value::Obj(r)),
                before.frame().ip + width,
            );
        assert forall|c: GcRef| #[trigger] refers_to(view, c) implies reachable(
            before.gc.heap.slots@,
            before.roots(),
            c,
        ) by {
            if c != method {
                assert(receiver == Value::Obj(c));
                let k = choose|k: int| 0 <= k < n && before.stack@[k] == receiver;
                before.lemma_stack_reachable(k);
            }
        }
        let stack = before.stack@.take(n - count).push(Value::Obj(r));
        assert forall|k: int| 0 <= k < stack.len() implies (#[trigger] stack[k]) == Value::Obj(r)
            || !(stack[k] is Obj) || before.stack@.contains(stack[k]) by {
            if k < n - count {
                assert(before.stack@[k] == stack[k]);
            }
        }
        Self::lemma_went_on_allocating_sound(
            before,
            after,
            view,
            r,
            stack,
            before.frame().ip + width,
        );
    }

    /// The method `name` of the class of the instance at place `k` of the
    /// stack can be reached, and so can the field `name` of the instance.
    pub proof fn lemma_member_reachable(&self, k: int, name: GcRef)
        requires
            self.sound(),
            0 <= k < self.stack@.len(),
            crate::vm::object::as_a(&self.gc.heap, self.stack@[k], ObjType::Instance).is_some(),
        ensures
            ({
                let instance = self.stack@[k]->Obj_0;
                let class = self.gc.heap.data(instance.index as int)->Instance_klass;
                &&& crate::vm::object::method_of(&self.gc.heap, class, name).is_some()
                    ==> reachable(
                    self.gc.heap.slots@,
                    self.roots(),
                    crate::vm::object::method_of(&self.gc.heap, class, name).unwrap(),
                )
                &&& crate::vm::object::field_of(&self.gc.heap, instance, name).is_some()
                    ==> value_live(
                    self.gc.heap.slots@,
                    crate::vm::object::field_of(&self.gc.heap, instance, name).unwrap(),
                )
            }),
    {
        let slots = self.gc.heap.slots@;
        let instance = self.stack@[k]->Obj_0;
        let class = self.gc.heap.data(instance.index as int)->Instance_klass;
        self.lemma_stack_reachable(k);
        if crate::vm::object::method_of(&self.gc.heap, class, name).is_some() {
            let method = crate::vm::object::method_of(&self.gc.heap, class, name).unwrap();
            assert(refers_to(self.gc.heap.data(instance.index as int), class));
            lemma_reachable_step(slots, self.roots(), instance, class);
            let methods = self.gc.heap.data(class.index as int)->Class_methods;
            assert(methods.contains_key(name.index) && methods[name.index] == method);
            assert(refers_to(self.gc.heap.data(class.index as int), method));
            self.lemma_child_live(class, method);
            lemma_reachable_step(slots, self.roots(), class, method);
        }
        if crate::vm::object::field_of(&self.gc.heap, instance, name).is_some() {
            let field = crate::vm::object::field_of(&self.gc.heap, instance, name).unwrap();
            let fields = self.gc.heap.data(instance.index as int)->Instance_fields;
            match field {
                Value::Obj(c) => {
                    assert(fields.contains_key(name.index)
                        && crate::mem::collector::value_ref(fields[name.index]) == Some(c));
                    assert(refers_to(self.gc.heap.data(instance.index as int), c));
                    self.lemma_child_live(instance, c);
                },
                _ => {},
            }
        }
    }

    /// The method `name` of the class at place `k` of the stack can be
    /// reached.
    pub proof fn lemma_class_method_reachable(&self, k: int, name: GcRef)
        requires
            self.sound(),
            0 <= k < self.stack@.len(),
            crate::vm::object::as_a(&self.gc.heap, self.stack@[k], ObjType::Class).is_some(),
            crate::vm::object::method_of(&self.gc.heap, self.stack@[k]->Obj_0, name).is_some(),
        ensures
            reachable(
                self.gc.heap.slots@,
                self.roots(),
                crate::vm::object::method_of(&self.gc.heap, self.stack@[k]->Obj_0, name).unwrap(),
            ),
    {
        let class = self.stack@[k]->Obj_0;
        let method = crate::vm::object::method_of(&self.gc.heap, class, name).unwrap();
        self.lemma_stack_reachable(k);
        let methods = self.gc.heap.data(class.index as int)->Class_methods;
        assert(methods.contains_key(name.index) && methods[name.index] == method);
        assert(refers_to(self.gc.heap.data(class.index as int), method));
        self.lemma_child_live(class, method);
        lemma_reachable_step(self.gc.heap.slots@, self.roots(), class, method);
    }

    pub proof fn lemma_get_property_sound(before: &Self, after: &Self, out: Option<SignalView>)
        requires
            before.sound(),
            Self::get_property_effect(before, after, out),
        ensures
            after.sound(),
    {
        let n = before.stack@.len();
        let heap = &before.gc.heap;
        if out.is_some() {
            let kind = out.unwrap()->Error_kind;
            Self::lemma_failed_sound(before, after, out, kind);
        } else {
            let name = before.name_at(1).unwrap();
            let instance = crate::vm::object::as_a(heap, before.stack@[n - 1], ObjType::Instance).unwrap();
            before.lemma_member_reachable(n - 1, name);
            match crate::vm::object::field_of(heap, instance, name) {
                Some(value) => Self::lemma_replaces_sound(before, after, out, 1, value, 2),
                None => {
                    let method = crate::vm::object::method_of(
                        heap,
                        heap.data(instance.index as int)->Instance_klass,
                        name,
                    ).unwrap();
                    assert(before.stack@.contains(before.stack@[n - 1]));
                    Self::lemma_binds_sound(
                        before,
                        after,
                        out,
                        before.stack@[n - 1],
                        method,
                        1,
                        2,
                    );
                },
            }
        }
    }

    pub proof fn lemma_get_super_sound(before: &Self, after: &Self, out: Option<SignalView>)
        requires
            before.sound(),
            Self::get_super_effect(before, after, out),
        ensures
            after.sound(),
    {
        let n = before.stack@.len();
        let heap = &before.gc.heap;
        if out.is_some() {
            let kind = out.unwrap()->Error_kind;
            Self::lemma_failed_sound(before, after, out, kind);
        } else {
            let name = before.name_at(1).unwrap();
            let superclass = crate::vm::object::as_a(heap, before.stack@[n - 1], ObjType::Class).unwrap();
            let method = crate::vm::object::method_of(heap, superclass, name).unwrap();
            before.lemma_class_method_reachable(n - 1, name);
            assert(before.stack@.contains(before.stack@[n - 2]));
            Self::lemma_binds_sound(before, after, out, before.stack@[n - 2], method, 2, 2);
        }
    }

    pub proof fn lemma_add_sound(before: &Self, after: &Self, out: Option<SignalView>)
        requires
            before.sound(),
            before.gc.heap.wf(),
            Self::add_effect(before, after, out),
        ensures
            after.sound(),
    {
        before.lemma_stack_live();
        let n = before.stack@.len();
        if out.is_some() && out.unwrap() is Error {
            let kind = out.unwrap()->Error_kind;
            Self::lemma_failed_sound(before, after, out, kind);
        } else if out.is_some() {
            Self::lemma_went_on_sound(
                before,
                after,
                before.stack@.take(n - 2),
                before.frame().ip + 1,
            );
        } else {
            let left = before.stack@[n - 2]->Obj_0;
            let right = before.stack@[n - 1]->Obj_0;
            let text = before.text_of(left) + before.text_of(right);
            let r = choose|r: GcRef| #[trigger]
                Self::went_on_interning(
                    before,
                    after,
                    text,
                    r,
                    before.stack@.take(n - 2).push(Value::Obj(r)),
                    before.frame().ip + 1,
                );
            let stack = before.stack@.take(n - 2).push(Value::Obj(r));
            if before.gc.heap.table().contains_key(text) {
                assert(before.gc.heap.live(r.index as int)) by {
                    reveal(crate::mem::gc::strings_sound);
                }
                assert(values_live(before.gc.heap.slots@, stack)) by {
                    assert forall|k: int| 0 <= k < stack.len() implies value_live(
                        before.gc.heap.slots@,
                        #[trigger] stack[k],
                    ) by {
                        if k < n - 2 {
                            assert(stack[k] == before.stack@[k]);
                        }
                    }
                }
                Self::lemma_went_on_sound(before, after, stack, before.frame().ip + 1);
            } else {
                let ready = choose|ready: Gc| #[trigger]
                    Gc::prepared(&before.gc, before.roots(), &ready) && after.gc.interned_fresh(
                        &ready,
                        text,
                        r,
                    );
                if before.gc.due() {
                    Gc::lemma_collection_keeps_closed(&before.gc, before.roots(), &ready);
                }
                after.gc.lemma_interned_keeps_closed(&ready, text, r);
                assert forall|x: GcRef| #[trigger] after.is_root(x) implies after.gc.heap.live(
                    x.index as int,
                ) by {
                    Self::lemma_root_kept(before, after, x);
                    if after.stack@.contains(Value::Obj(x)) && x != r {
                        let k = choose|k: int| 0 <= k < stack.len() && stack[k] == Value::Obj(x);
                        assert(before.stack@[k] == stack[k]);
                        assert(before.stack@.contains(Value::Obj(x)));
                        assert(before.is_root(x));
                    }
                    if x != r {
                        assert(before.is_root(x));
                        assert(before.roots().contains(x));
                        assert(ready.heap.live(x.index as int));
                    }
                }
            }
        }
    }

    /// Entering a live closure with a stack of live values keeps the
    /// machine sound.
    pub proof fn lemma_entered_sound(
        before: &Self,
        after: &Self,
        stack: Seq<Value>,
        closure: GcRef,
        argc: usize,
        width: int,
    )
        requires
            before.sound(),
            Self::entered(before, after, stack, closure, argc, width),
            after.gc == before.gc,
            values_live(before.gc.heap.slots@, stack),
            before.gc.heap.live(closure.index as int),
        ensures
            after.sound(),
    {
        assert forall|r: GcRef| #[trigger] after.is_root(r) implies after.gc.heap.live(
            r.index as int,
        ) by {
            if after.stack@.contains(Value::Obj(r)) {
                let k = choose|k: int| 0 <= k < stack.len() && stack[k] == Value::Obj(r);
                assert(value_live(before.gc.heap.slots@, stack[k]));
            } else if exists|i: int|
                0 <= i < after.frames@.len() && (#[trigger] after.frames@[i]).closure == r {
                let i = choose|i: int|
                    0 <= i < after.frames@.len() && (#[trigger] after.frames@[i]).closure == r;
                if i < before.frames@.len() {
                    assert(before.frames@[i].closure == r);
                    assert(before.is_root(r));
                }
            } else {
                assert(before.is_root(r));
            }
        }
    }

    pub proof fn lemma_enters_sound(
        before: &Self,
        after: &Self,
        out: Option<SignalView>,
        stack: Seq<Value>,
        closure: GcRef,
        argc: usize,
        width: int,
    )
        requires
            before.sound(),
            Self::enters(before, after, out, stack, closure, argc, width),
            values_live(before.gc.heap.slots@, stack),
        ensures
            after.sound(),
    {
        match before.refusal(closure, argc) {
            Some(kind) => Self::lemma_failed_sound(before, after, out, kind),
            None => Self::lemma_entered_sound(before, after, stack, closure, argc, width),
        }
    }

    /// Calling a value from a stack of live values keeps the machine
    /// sound.
    pub proof fn lemma_call_effect_sound(
        before: &Self,
        after: &Self,
        out: Option<SignalView>,
        stack: Seq<Value>,
        callee: Value,
        argc: usize,
        width: int,
    )
        requires
            before.sound(),
            stack.len() > argc,
            callee == stack[stack.len() - 1 - argc],
            values_live(before.gc.heap.slots@, stack),
            Self::call_effect(before, after, out, stack, callee, argc, width),
        ensures
            after.sound(),
    {
        let heap = &before.gc.heap;
        let slots = heap.slots@;
        let base = stack.len() - 1 - argc;
        let r = callee->Obj_0;
        if out.is_some() && out.unwrap() is Error {
            let kind = out.unwrap()->Error_kind;
            Self::lemma_failed_sound(before, after, out, kind);
        } else {
            Self::lemma_called_sound(before, after, out, stack, r, argc, width);
        }
    }

    /// As `lemma_call_effect_sound`, where the call went through.
    proof fn lemma_called_sound(
        before: &Self,
        after: &Self,
        out: Option<SignalView>,
        stack: Seq<Value>,
        r: GcRef,
        argc: usize,
        width: int,
    )
        requires
            before.sound(),
            stack.len() > argc,
            Value::Obj(r) == stack[stack.len() - 1 - argc],
            values_live(before.gc.heap.slots@, stack),
            Self::call_effect(before, after, out, stack, Value::Obj(r), argc, width),
            !(out.is_some() && out.unwrap() is Error),
        ensures
            after.sound(),
    {
        let heap = &before.gc.heap;
        let slots = heap.slots@;
        let base = stack.len() - 1 - argc;
        match heap.data(r.index as int) {
            ObjView::BoundMethod { receiver, method } => {
                assert(refers_to(heap.data(r.index as int), method));
                before.lemma_child_live(r, method);
                match receiver {
                    Value::Obj(c) => {
                        assert(crate::mem::collector::value_ref(receiver) == Some(c));
                        assert(refers_to(heap.data(r.index as int), c));
                        before.lemma_child_live(r, c);
                    },
                    _ => {},
                }
                Self::lemma_enters_sound(
                    before,
                    after,
                    out,
                    stack.update(base, receiver),
                    method,
                    argc,
                    width,
                );
            },
            ObjView::Class { methods, .. } => {
                let roots = machine_roots(
                    stack,
                    before.frames@,
                    before.open_upvalues@,
                    before.globals@,
                    before.init_string,
                );
                let view = ObjView::Instance { klass: r, fields: Map::empty() };
                assert(stack.contains(Value::Obj(r)));
                assert(roots.contains(r));
                lemma_root_reachable(slots, roots, r);
                assert forall|c: GcRef| #[trigger] refers_to(view, c) implies reachable(
                    slots,
                    roots,
                    c,
                ) by {
                    assert(c == r);
                }
                assert forall|x: GcRef| #[trigger] roots.contains(x) implies heap.live(
                    x.index as int,
                ) by {
                    if stack.contains(Value::Obj(x)) {
                        let k = choose|k: int| 0 <= k < stack.len() && stack[k] == Value::Obj(x);
                        assert(value_live(slots, stack[k]));
                    } else {
                        assert(before.is_root(x));
                    }
                }
                if methods.contains_key(before.init_string.index) {
                    let init = methods[before.init_string.index];
                    let instance = choose|instance: GcRef|
                        #[trigger] after.gc.heap.live(instance.index as int) && Self::entered(
                            before,
                            after,
                            stack.update(base, Value::Obj(instance)),
                            init,
                            argc,
                            width,
                        ) && Self::instantiated(before, after, stack, r, instance);
                    assert(refers_to(heap.data(r.index as int), init));
                    before.lemma_child_live(r, init);
                    lemma_reachable_step(slots, roots, r, init);
                    Self::lemma_allocation_sound(&before.gc, roots, &after.gc, view, instance);
                    let now = stack.update(base, Value::Obj(instance));
                    assert forall|x: GcRef| #[trigger] after.is_root(x) implies after.gc.heap.live(
                        x.index as int,
                    ) by {
                        if after.stack@.contains(Value::Obj(x)) {
                            let k = choose|k: int| 0 <= k < now.len() && now[k] == Value::Obj(x);
                            if k != base {
                                assert(stack[k] == Value::Obj(x));
                                assert(stack.contains(Value::Obj(x)));
                                assert(roots.contains(x));
                            }
                        } else if exists|i: int|
                            0 <= i < after.frames@.len() && (#[trigger] after.frames@[i]).closure
                                == x {
                            let i = choose|i: int|
                                0 <= i < after.frames@.len() && (
                                #[trigger] after.frames@[i]).closure == x;
                            if i < before.frames@.len() {
                                assert(before.frames@[i].closure == x);
                                assert(roots.contains(x));
                            }
                        } else {
                            assert(roots.contains(x));
                        }
                    }
                } else {
                    let instance = choose|instance: GcRef|
                        #[trigger] after.gc.heap.live(instance.index as int) && Self::instantiated(
                            before,
                            after,
                            stack,
                            r,
                            instance,
                        ) && after.stack@ == stack.update(base, Value::Obj(instance))
                            && Self::ip_moved(before, after, before.frame().ip + width)
                            && after.globals@ == before.globals@ && after.open_upvalues@
                            == before.open_upvalues@ && after.init_string == before.init_string;
                    Self::lemma_allocation_sound(&before.gc, roots, &after.gc, view, instance);
                    let now = stack.update(base, Value::Obj(instance));
                    assert forall|x: GcRef| #[trigger] after.is_root(x) implies after.gc.heap.live(
                        x.index as int,
                    ) by {
                        Self::lemma_root_kept(before, after, x);
                        if after.stack@.contains(Value::Obj(x)) {
                            let k = choose|k: int| 0 <= k < now.len() && now[k] == Value::Obj(x);
                            if k != base {
                                assert(stack[k] == Value::Obj(x));
                                assert(stack.contains(Value::Obj(x)));
                                assert(roots.contains(x));
                            }
                        } else {
                            assert(before.is_root(x));
                            assert(roots.contains(x));
                        }
                    }
                }
            },
            ObjView::Closure { .. } => {
                Self::lemma_enters_sound(before, after, out, stack, r, argc, width);
            },
            ObjView::Native { .. } => {
                Self::lemma_went_on_sound(
                    before,
                    after,
                    stack.take(base),
                    before.frame().ip + width,
                );
            },
            _ => {},
        }
    }

    pub proof fn lemma_call_op_sound(before: &Self, after: &Self, out: Option<SignalView>)
        requires
            before.sound(),
            Self::call_op_effect(before, after, out),
        ensures
            after.sound(),
    {
        before.lemma_stack_live();
        let n = before.stack@.len();
        match before.byte_at(1) {
            Some(argc) => {
                if n > argc {
                    Self::lemma_call_effect_sound(
                        before,
                        after,
                        out,
                        before.stack@,
                        before.stack@[n - 1 - argc],
                        argc as usize,
                        2,
                    );
                } else {
                    Self::lemma_failed_sound(before, after, out, RuntimeErrorKindView::Corrupt);
                }
            },
            None => Self::lemma_failed_sound(before, after, out, RuntimeErrorKindView::Corrupt),
        }
    }

    pub proof fn lemma_invoke_sound(before: &Self, after: &Self, out: Option<SignalView>)
        requires
            before.sound(),
            Self::invoke_effect(before, after, out),
        ensures
            after.sound(),
    {
        before.lemma_stack_live();
        let n = before.stack@.len();
        let heap = &before.gc.heap;
        match (before.name_at(1), before.byte_at(2)) {
            (Some(name), Some(argc)) => {
                if n > argc {
                    let base = n - 1 - argc;
                    match crate::vm::object::as_a(heap, before.stack@[base], ObjType::Instance) {
                        Some(instance) => {
                            before.lemma_member_reachable(base, name);
                            match crate::vm::object::field_of(heap, instance, name) {
                                Some(field) => {
                                    Self::lemma_call_effect_sound(
                                        before,
                                        after,
                                        out,
                                        before.stack@.update(base, field),
                                        field,
                                        argc as usize,
                                        3,
                                    );
                                },
                                None => match crate::vm::object::method_of(
                                    heap,
                                    heap.data(instance.index as int)->Instance_klass,
                                    name,
                                ) {
                                    Some(method) => {
                                        Self::lemma_enters_sound(
                                            before,
                                            after,
                                            out,
                                            before.stack@,
                                            method,
                                            argc as usize,
                                            3,
                                        );
                                    },
                                    None => Self::lemma_failed_sound(
                                        before,
                                        after,
                                        out,
                                        RuntimeErrorKindView::UndefinedProperty(
                                            before.text_of(name),
                                        ),
                                    ),
                                },
                            }
                        },
                        None => Self::lemma_failed_sound(
                            before,
                            after,
                            out,
                            RuntimeErrorKindView::OnlyInstancesHaveMethods,
                        ),
                    }
                } else {
                    Self::lemma_failed_sound(before, after, out, RuntimeErrorKindView::Corrupt);
                }
            },
            _ => Self::lemma_failed_sound(before, after, out, RuntimeErrorKindView::Corrupt),
        }
    }

    pub proof fn lemma_super_invoke_sound(before: &Self, after: &Self, out: Option<SignalView>)
        requires
            before.sound(),
            Self::super_invoke_effect(before, after, out),
        ensures
            after.sound(),
    {
        before.lemma_stack_live();
        let n = before.stack@.len();
        let heap = &before.gc.heap;
        match (before.name_at(1), before.byte_at(2)) {
            (Some(name), Some(argc)) => {
                if n > argc + 1 {
                    match crate::vm::object::as_a(heap, before.stack@[n - 1], ObjType::Class) {
                        Some(superclass) => match crate::vm::object::method_of(
                            heap,
                            superclass,
                            name,
                        ) {
                            Some(method) => {
                                before.lemma_class_method_reachable(n - 1, name);
                                Self::lemma_enters_sound(
                                    before,
                                    after,
                                    out,
                                    before.stack@.drop_last(),
                                    method,
                                    argc as usize,
                                    3,
                                );
                            },
                            None => Self::lemma_failed_sound(
                                before,
                                after,
                                out,
                                RuntimeErrorKindView::UndefinedProperty(before.text_of(name)),
                            ),
                        },
                        None => Self::lemma_failed_sound(
                            before,
                            after,
                            out,
                            RuntimeErrorKindView::Corrupt,
                        ),
                    }
                } else {
                    Self::lemma_failed_sound(before, after, out, RuntimeErrorKindView::Corrupt);
                }
            },
            _ => Self::lemma_failed_sound(before, after, out, RuntimeErrorKindView::Corrupt),
        }
    }

    /// Closing upvalues over a stack of live values keeps the heap closed
    /// and every object live.
    pub proof fn lemma_close_all_closed(
        heap: Seq<Option<(crate::obj::obj::Obj, ObjView)>>,
        entries: Seq<crate::vm::OpenUpvalue>,
        stack: Seq<Value>,
    )
        requires
            crate::mem::collector::view_closed(heap),
            forall|k: int|
                0 <= k < stack.len() ==> ((#[trigger] stack[k]) is Obj ==> 0 <= stack[k]->Obj_0.index
                    < heap.len() && heap[stack[k]->Obj_0.index as int].is_some()),
        ensures
            crate::mem::collector::view_closed(crate::vm::upvalue::close_all(heap, entries, stack)),
            crate::vm::upvalue::close_all(heap, entries, stack).len() == heap.len(),
            forall|i: int|
                0 <= i < heap.len() ==> (#[trigger] crate::vm::upvalue::close_all(
                    heap,
                    entries,
                    stack,
                )[i]).is_some() == heap[i].is_some(),
        decreases entries.len(),
    {
        if entries.len() > 0 {
            let rest = crate::vm::upvalue::close_all(heap, entries.drop_last(), stack);
            Self::lemma_close_all_closed(heap, entries.drop_last(), stack);
            let entry = entries.last();
            let done = crate::vm::upvalue::close_one(rest, entry, stack);
            let i = entry.upvalue.index as int;
            assert forall|j: int| 0 <= j < heap.len() implies (#[trigger] done[j]).is_some()
                == heap[j].is_some() by {
                assert(rest[j].is_some() == heap[j].is_some());
            }
            assert forall|o: GcRef, c: GcRef|
                0 <= o.index < done.len() && done[o.index as int].is_some() && #[trigger] refers_to(
                    done[o.index as int].unwrap().1,
                    c,
                ) implies 0 <= c.index < done.len() && done[c.index as int].is_some() by {
                if o.index == i && done != rest {
                    let value = crate::vm::upvalue::slot_value(stack, entry.slot);
                    assert(crate::mem::collector::value_ref(value) == Some(c));
                    assert(stack[entry.slot as int] == value);
                    assert(rest[c.index as int].is_some() == heap[c.index as int].is_some());
                } else {
                    assert(done[o.index as int] == rest[o.index as int]);
                    assert(refers_to(rest[o.index as int].unwrap().1, c));
                    assert(rest[c.index as int].is_some());
                    assert(rest[c.index as int].is_some() == heap[c.index as int].is_some());
                    assert(done[c.index as int].is_some() == heap[c.index as int].is_some());
                }
            }
        }
    }

    /// Closing upvalues keeps the heap of a sound machine closed and every
    /// object live.
    pub proof fn lemma_upvalues_closed_sound(before: &Self, after: &Self, boundary: usize)
        requires
            before.sound(),
            Self::upvalues_closed(before, after, boundary),
        ensures
            heap_closed(after.gc.heap.slots@),
            after.gc.heap.slots@.len() == before.gc.heap.slots@.len(),
            forall|i: int| #[trigger] after.gc.heap.live(i) == before.gc.heap.live(i),
            forall|j: int|
                0 <= j < after.open_upvalues@.len() ==> before.open_upvalues@.contains(
                    #[trigger] after.open_upvalues@[j],
                ),
    {
        let k = crate::vm::upvalue::closing_count(before.open_upvalues@, boundary) as int;
        let heap = before.gc.heap@;
        let slots = before.gc.heap.slots@;
        crate::mem::collector::lemma_view_closed(slots);
        crate::mem::collector::lemma_view_closed(after.gc.heap.slots@);
        before.lemma_stack_live();
        assert forall|j: int|
            0 <= j < before.stack@.len() && (#[trigger] before.stack@[j]) is Obj implies 0
            <= before.stack@[j]->Obj_0.index < heap.len()
            && heap[before.stack@[j]->Obj_0.index as int].is_some() by {
            assert(value_live(slots, before.stack@[j]));
        }
        Self::lemma_close_all_closed(heap, before.open_upvalues@.take(k), before.stack@);
        assert(after.gc.heap@.len() == heap.len());
        assert forall|i: int| #[trigger] after.gc.heap.live(i) == before.gc.heap.live(i) by {
            if 0 <= i < heap.len() {
                assert(after.gc.heap@[i].is_some() == heap[i].is_some());
                assert(after.gc.heap@[i].is_some() == after.gc.heap.slots@[i].is_some());
                assert(heap[i].is_some() == slots[i].is_some());
            }
        }
        crate::vm::upvalue::lemma_closing_count_bound(before.open_upvalues@, boundary);
        Self::lemma_skip_within(before.open_upvalues@, after.open_upvalues@, k);
    }

    /// What is left of a list behind its first `k` entries is in the list.
    proof fn lemma_skip_within(
        list: Seq<crate::vm::OpenUpvalue>,
        rest: Seq<crate::vm::OpenUpvalue>,
        k: int,
    )
        requires
            rest == list.skip(k),
            0 <= k <= list.len(),
        ensures
            forall|j: int| 0 <= j < rest.len() ==> list.contains(#[trigger] rest[j]),
    {
        assert forall|j: int| 0 <= j < rest.len() implies list.contains(#[trigger] rest[j]) by {
            assert(list[j + k] == rest[j]);
        }
    }

    pub proof fn lemma_close_upvalue_sound(before: &Self, after: &Self, out: Option<SignalView>)
        requires
            before.sound(),
            Self::close_upvalue_effect(before, after, out),
        ensures
            after.sound(),
    {
        let n = before.stack@.len();
        if out.is_some() {
            Self::lemma_failed_sound(before, after, out, RuntimeErrorKindView::Corrupt);
        } else {
            Self::lemma_upvalues_closed_sound(before, after, (n - 1) as usize);
            assert forall|r: GcRef| #[trigger] after.is_root(r) implies after.gc.heap.live(
                r.index as int,
            ) by {
                assert forall|k: int| 0 <= k < after.stack@.len() implies before.stack@.contains(
                    #[trigger] after.stack@[k],
                ) by {
                    assert(after.stack@[k] == before.stack@[k]);
                }
                assert forall|k: int| 0 <= k < after.frames@.len() implies closure_held(
                    before.frames@,
                    (#[trigger] after.frames@[k]).closure,
                ) by {
                    assert(before.frames@[k].closure == after.frames@[k].closure);
                }
                Self::lemma_root_left(before, after, r);
            }
        }
    }

    /// Where the stack, the frames and the upvalue list hold only what
    /// they held, and the globals and the name `init` are as they were,
    /// the machine holds only what it held.
    pub proof fn lemma_root_left(before: &Self, after: &Self, r: GcRef)
        requires
            after.is_root(r),
            forall|k: int|
                0 <= k < after.stack@.len() ==> before.stack@.contains(#[trigger] after.stack@[k]),
            forall|k: int|
                0 <= k < after.frames@.len() ==> closure_held(
                    before.frames@,
                    (#[trigger] after.frames@[k]).closure,
                ),
            forall|j: int|
                0 <= j < after.open_upvalues@.len() ==> before.open_upvalues@.contains(
                    #[trigger] after.open_upvalues@[j],
                ),
            after.globals@ == before.globals@,
            after.init_string == before.init_string,
        ensures
            before.is_root(r),
    {
        if after.stack@.contains(Value::Obj(r)) {
            let k = choose|k: int| 0 <= k < after.stack@.len() && after.stack@[k] == Value::Obj(r);
            assert(before.stack@.contains(after.stack@[k]));
        } else if exists|k: int|
            0 <= k < after.frames@.len() && (#[trigger] after.frames@[k]).closure == r {
            let k = choose|k: int|
                0 <= k < after.frames@.len() && (#[trigger] after.frames@[k]).closure == r;
            assert(closure_held(before.frames@, after.frames@[k].closure));
            let i = choose|i: int|
                0 <= i < before.frames@.len() && (#[trigger] before.frames@[i]).closure == r;
            assert(before.frames@[i].closure == r);
        } else if exists|j: int|
            0 <= j < after.open_upvalues@.len() && (#[trigger] after.open_upvalues@[j]).upvalue
                == r {
            let j = choose|j: int|
                0 <= j < after.open_upvalues@.len() && (
                #[trigger] after.open_upvalues@[j]).upvalue == r;
            assert(before.open_upvalues@.contains(after.open_upvalues@[j]));
            let i = choose|i: int|
                0 <= i < before.open_upvalues@.len() && before.open_upvalues@[i]
                    == after.open_upvalues@[j];
            assert(before.open_upvalues@[i].upvalue == r);
        }
    }

    pub proof fn lemma_return_sound(before: &Self, after: &Self, out: Option<SignalView>)
        requires
            before.sound(),
            Self::return_effect(before, after, out),
        ensures
            after.sound(),
    {
        let n = before.stack@.len();
        if before.byte_at(0).is_some() && n >= 1 && before.frame().slots < n {
            Self::lemma_upvalues_closed_sound(before, after, before.frame().slots);
            assert forall|r: GcRef| #[trigger] after.is_root(r) implies after.gc.heap.live(
                r.index as int,
            ) by {
                assert forall|k: int| 0 <= k < after.stack@.len() implies before.stack@.contains(
                    #[trigger] after.stack@[k],
                ) by {
                    if k < before.frame().slots {
                        assert(after.stack@[k] == before.stack@[k]);
                    } else {
                        assert(after.stack@[k] == before.stack@[n - 1]);
                    }
                }
                assert forall|k: int| 0 <= k < after.frames@.len() implies closure_held(
                    before.frames@,
                    (#[trigger] after.frames@[k]).closure,
                ) by {
                    assert(before.frames@[k].closure == after.frames@[k].closure);
                }
                Self::lemma_root_left(before, after, r);
            }
        } else {
            Self::lemma_failed_sound(before, after, out, RuntimeErrorKindView::Corrupt);
        }
    }

    /// What could be reached stays within reach where everything that
    /// could be reached stays as it was and no root is given up.
    pub proof fn lemma_reachable_kept(
        before: Seq<Option<Object>>,
        after: Seq<Option<Object>>,
        roots: Set<GcRef>,
        more: Set<GcRef>,
        x: GcRef,
    )
        requires
            forall|y: GcRef| #[trigger]
                reachable(before, roots, y) ==> slot_live(after, y.index as int) && slot_object(
                    after,
                    y.index as int,
                ).data == slot_object(before, y.index as int).data,
            roots.subset_of(more),
            reachable(before, roots, x),
        ensures
            reachable(after, more, x),
    {
        let p = choose|p: Seq<GcRef>|
            #[trigger] crate::mem::collector::is_path(before, roots, p) && p.last() == x;
        assert forall|k: int| 0 <= k < p.len() implies reachable(before, roots, #[trigger] p[k]) by {
            let q = p.take(k + 1);
            assert(q[0] == p[0]);
            assert forall|j: int| 0 <= j < q.len() implies slot_live(
                before,
                (#[trigger] q[j]).index as int,
            ) by {
                assert(q[j] == p[j]);
            }
            assert forall|j: int| 0 <= j < q.len() - 1 implies refers_to(
                slot_object(before, (#[trigger] q[j]).index as int).data@,
                q[j + 1],
            ) by {
                assert(q[j] == p[j]);
                assert(q[j + 1] == p[j + 1]);
            }
            assert(crate::mem::collector::is_path(before, roots, q));
            assert(q.last() == p[k]);
        }
        assert forall|k: int| 0 <= k < p.len() implies slot_live(
            after,
            (#[trigger] p[k]).index as int,
        ) by {
            assert(reachable(before, roots, p[k]));
        }
        assert forall|k: int| 0 <= k < p.len() - 1 implies refers_to(
            slot_object(after, (#[trigger] p[k]).index as int).data@,
            p[k + 1],
        ) by {
            assert(reachable(before, roots, p[k]));
        }
        assert(more.contains(p[0]));
        assert(crate::mem::collector::is_path(after, more, p));
    }

    /// Capturing a variable keeps the machine sound, and whatever could be
    /// reached stays within reach, as it was.
    pub proof fn lemma_captured_sound(before: &Self, after: &Self, slot: usize, r: GcRef)
        requires
            before.sound(),
            Self::captured(before, after, slot, r),
        ensures
            after.sound(),
            after.gc.heap.live(r.index as int),
            forall|x: GcRef| #[trigger]
                reachable(before.gc.heap.slots@, before.roots(), x) ==> after.gc.heap.live(
                    x.index as int,
                ) && after.gc.heap.object(x.index as int).data == before.gc.heap.object(
                    x.index as int,
                ).data,
            before.roots().subset_of(after.roots()),
    {
        let list = before.open_upvalues@;
        let graph = before.gc.heap.slots@;
        if exists|i: int| 0 <= i < list.len() && (#[trigger] list[i]).slot == slot {
            let i = choose|i: int|
                0 <= i < list.len() && (#[trigger] list[i]).slot == slot && list[i].upvalue == r;
            assert(before.is_root(r));
            assert forall|x: GcRef| #[trigger] after.is_root(x) implies after.gc.heap.live(
                x.index as int,
            ) by {
                assert(before.is_root(x));
            }
            assert forall|x: GcRef| #[trigger]
                reachable(graph, before.roots(), x) implies after.gc.heap.live(x.index as int) by {
                let p = choose|p: Seq<GcRef>|
                    #[trigger] crate::mem::collector::is_path(graph, before.roots(), p) && p.last()
                        == x;
                assert(slot_live(graph, p[p.len() - 1].index as int));
            }
            assert forall|x: GcRef| before.roots().contains(x) implies after.roots().contains(
                x,
            ) by {
                assert(before.is_root(x));
                assert(after.is_root(x));
            }
        } else {
            let view = ObjView::Upvalue { location: Some(slot), closed: Value::Nil };
            Self::lemma_allocation_sound(&before.gc, before.roots(), &after.gc, view, r);
            let p = choose|p: int|
                0 <= p <= list.len() && #[trigger] list.insert(
                    p,
                    crate::vm::OpenUpvalue { slot, upvalue: r },
                ) == after.open_upvalues@;
            let now = after.open_upvalues@;
            assert forall|x: GcRef| #[trigger] after.is_root(x) implies after.gc.heap.live(
                x.index as int,
            ) by {
                if exists|j: int| 0 <= j < now.len() && (#[trigger] now[j]).upvalue == x {
                    let j = choose|j: int| 0 <= j < now.len() && (#[trigger] now[j]).upvalue == x;
                    if j < p {
                        assert(list[j] == now[j]);
                        assert(before.is_root(x));
                        assert(before.roots().contains(x));
                    } else if j > p {
                        assert(list[j - 1] == now[j]);
                        assert(before.is_root(x));
                        assert(before.roots().contains(x));
                    }
                } else {
                    assert(before.is_root(x));
                    assert(before.roots().contains(x));
                }
            }
            assert forall|x: GcRef| before.roots().contains(x) implies after.roots().contains(
                x,
            ) by {
                assert(before.is_root(x));
                if exists|i: int| 0 <= i < list.len() && (#[trigger] list[i]).upvalue == x {
                    let i = choose|i: int| 0 <= i < list.len() && (#[trigger] list[i]).upvalue == x;
                    if i < p {
                        assert(now[i] == list[i]);
                    } else {
                        assert(now[i + 1] == list[i]);
                    }
                }
                assert(after.is_root(x));
            }
        }
    }

    pub proof fn lemma_closure_sound(before: &Self, after: &Self, out: Option<SignalView>)
        requires
            before.sound(),
            Self::closure_effect(before, after, out),
        ensures
            after.sound(),
    {
        if out.is_some() {
            let kind = out.unwrap()->Error_kind;
            Self::lemma_failed_sound(before, after, out, kind);
        }
    }

    /// No instruction makes a sound machine hold a reference to an object
    /// that is gone.
    pub proof fn lemma_stepped_sound(before: &Self, after: &Self, out: Option<SignalView>)
        requires
            before.wf(),
            before.sound(),
            Self::stepped(before, after, out),
        ensures
            after.sound(),
    {
        match before.byte_at(0) {
            Some(byte) => match crate::chunk::Op::decode(byte) {
                Some(op) => match op {
                    crate::chunk::Op::Closure => Self::lemma_closure_sound(before, after, out),
                    crate::chunk::Op::Constant => Self::lemma_constant_sound(before, after, out),
                    crate::chunk::Op::False => Self::lemma_literal_sound(
                        before,
                        after,
                        out,
                        Value::Bool(false),
                    ),
                    crate::chunk::Op::Nil => Self::lemma_literal_sound(
                        before,
                        after,
                        out,
                        Value::Nil,
                    ),
                    crate::chunk::Op::True => Self::lemma_literal_sound(
                        before,
                        after,
                        out,
                        Value::Bool(true),
                    ),
                    crate::chunk::Op::Jump | crate::chunk::Op::JumpIfFalse
                    | crate::chunk::Op::Loop => Self::lemma_jumps_sound(before, after, out),
                    crate::chunk::Op::Pop => Self::lemma_pop_sound(before, after, out),
                    crate::chunk::Op::Return => Self::lemma_return_sound(before, after, out),
                    crate::chunk::Op::Call => Self::lemma_call_op_sound(before, after, out),
                    crate::chunk::Op::Invoke => Self::lemma_invoke_sound(before, after, out),
                    crate::chunk::Op::SuperInvoke => Self::lemma_super_invoke_sound(
                        before,
                        after,
                        out,
                    ),
                    crate::chunk::Op::CloseUpvalue => Self::lemma_close_upvalue_sound(
                        before,
                        after,
                        out,
                    ),
                    crate::chunk::Op::DefineGlobal | crate::chunk::Op::SetGlobal => Self::lemma_set_global_sound(
                        before,
                        after,
                        out,
                    ),
                    crate::chunk::Op::GetGlobal => Self::lemma_get_global_sound(before, after, out),
                    crate::chunk::Op::GetLocal => Self::lemma_get_local_sound(before, after, out),
                    crate::chunk::Op::GetProperty => Self::lemma_get_property_sound(
                        before,
                        after,
                        out,
                    ),
                    crate::chunk::Op::GetSuper => Self::lemma_get_super_sound(before, after, out),
                    crate::chunk::Op::GetUpvalue => Self::lemma_get_upvalue_sound(
                        before,
                        after,
                        out,
                    ),
                    crate::chunk::Op::SetLocal => Self::lemma_set_local_sound(before, after, out),
                    crate::chunk::Op::SetProperty => Self::lemma_set_property_sound(
                        before,
                        after,
                        out,
                    ),
                    crate::chunk::Op::SetUpvalue => Self::lemma_set_upvalue_sound(
                        before,
                        after,
                        out,
                    ),
                    crate::chunk::Op::Equal | crate::chunk::Op::Greater | crate::chunk::Op::Less
                    | crate::chunk::Op::Negate | crate::chunk::Op::Not => Self::lemma_plain_result_sound(
                        before,
                        after,
                        out,
                    ),
                    crate::chunk::Op::Add => Self::lemma_add_sound(before, after, out),
                    crate::chunk::Op::Divide => {
                        assert(Self::arithmetic_effect(
                            before,
                            after,
                            out,
                            crate::vm::signal::ArithmeticOp::Divide,
                        ));
                        Self::lemma_handed_out_sound(before, after, out);
                    },
                    crate::chunk::Op::Multiply => {
                        assert(Self::arithmetic_effect(
                            before,
                            after,
                            out,
                            crate::vm::signal::ArithmeticOp::Multiply,
                        ));
                        Self::lemma_handed_out_sound(before, after, out);
                    },
                    crate::chunk::Op::Subtract => {
                        assert(Self::arithmetic_effect(
                            before,
                            after,
                            out,
                            crate::vm::signal::ArithmeticOp::Subtract,
                        ));
                        Self::lemma_handed_out_sound(before, after, out);
                    },
                    crate::chunk::Op::Print => Self::lemma_handed_out_sound(before, after, out),
                    crate::chunk::Op::Class => Self::lemma_class_sound(before, after, out),
                    crate::chunk::Op::Inherit => Self::lemma_inherit_sound(before, after, out),
                    crate::chunk::Op::Method => Self::lemma_method_sound(before, after, out),
                },
                None => Self::lemma_failed_sound(before, after, out, RuntimeErrorKindView::Corrupt),
            },
            None => Self::lemma_failed_sound(before, after, out, RuntimeErrorKindView::Corrupt),
        }
    }
}

} // verus!
