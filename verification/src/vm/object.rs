use vstd::prelude::*;
use crate::mem::collector::Gc;
use crate::mem::gc::lemma_payload_view;
use crate::mem::gc::GarbageCollector;
use crate::mem::gc_ref::GcRef;
use crate::obj::obj::ObjData;
use crate::obj::obj::ObjType;
use crate::obj::obj::ObjView;
use crate::obj::obj_bound_method::ObjBoundMethod;
use crate::obj::obj_class::ObjClass;
use crate::text::append_bytes;
use crate::value::Value;
use crate::vm::signal::signal_view;
use crate::vm::signal::ArithmeticOp;
use crate::vm::signal::RuntimeErrorKind;
use crate::vm::signal::RuntimeErrorKindView;
use crate::vm::signal::Signal;
use crate::vm::signal::SignalView;
use crate::vm::Vm;

verus! {

/// The method `name` of class `class`, if `class` is a class that has it.
pub open spec fn method_of(heap: &GarbageCollector, class: GcRef, name: GcRef) -> Option<GcRef> {
    if heap.is_a(class, ObjType::Class) && heap.data(class.index as int)->Class_methods.contains_key(
        name.index,
    ) {
        Some(heap.data(class.index as int)->Class_methods[name.index])
    } else {
        None
    }
}

/// The field `name` of instance `instance`, if `instance` is an instance
/// that has it.
pub open spec fn field_of(heap: &GarbageCollector, instance: GcRef, name: GcRef) -> Option<Value> {
    if heap.is_a(instance, ObjType::Instance) && heap.data(
        instance.index as int,
    )->Instance_fields.contains_key(name.index) {
        Some(heap.data(instance.index as int)->Instance_fields[name.index])
    } else {
        None
    }
}

/// The object a value refers to, if it refers to one of kind `ty`.
pub open spec fn as_a(heap: &GarbageCollector, value: Value, ty: ObjType) -> Option<GcRef> {
    match value {
        Value::Obj(r) => if heap.is_a(r, ty) {
            Some(r)
        } else {
            None
        },
        _ => None,
    }
}

/// The object `value` refers to, if it refers to one of kind `ty`.
pub fn value_as(heap: &GarbageCollector, value: Value, ty: ObjType) -> (r: Option<GcRef>)
    ensures
        r == as_a(heap, value, ty),
{
    match value {
        Value::Obj(r) => match heap.kind(r) {
            Some(kind) => if kind == ty {
                Some(r)
            } else {
                None
            },
            None => None,
        },
        _ => None,
    }
}

/// The method `name` of class `class`.
pub fn find_method(heap: &GarbageCollector, class: GcRef, name: GcRef) -> (method: Option<GcRef>)
    ensures
        method == method_of(heap, class, name),
{
    match heap.class(class) {
        Some(payload) => payload.methods.get(name),
        None => None,
    }
}

/// The field `name` of instance `instance`.
pub fn find_field(heap: &GarbageCollector, instance: GcRef, name: GcRef) -> (field: Option<Value>)
    ensures
        field == field_of(heap, instance, name),
{
    match heap.instance(instance) {
        Some(payload) => payload.fields.get(name),
        None => None,
    }
}

impl<const MAX_FRAMES: usize, const STACK_SIZE: usize> Vm<MAX_FRAMES, STACK_SIZE> {
    /// The machine has allocated the object `r`, which holds `view`, after
    /// a collection if one was due, has gone on to the instruction at `ip`
    /// with the stack `stack`, and has not changed otherwise.
    pub open spec fn went_on_allocating(
        before: &Self,
        after: &Self,
        view: ObjView,
        r: GcRef,
        stack: Seq<Value>,
        ip: int,
    ) -> bool {
        &&& exists|ready: Gc| #[trigger]
            Gc::prepared(&before.gc, before.roots(), &ready) && after.gc.allocated_as(
                &ready,
                view,
                r,
            )
        &&& after.stack@ == stack
        &&& Self::ip_moved(before, after, ip)
        &&& after.globals@ == before.globals@
        &&& after.open_upvalues@ == before.open_upvalues@
        &&& after.init_string == before.init_string
    }

    /// The machine has given the object in slot `i` the payload `view`,
    /// has gone on to the instruction at `ip` with the stack `stack`, and
    /// has not changed otherwise.
    pub open spec fn went_on_setting(
        before: &Self,
        after: &Self,
        i: int,
        view: ObjView,
        stack: Seq<Value>,
        ip: int,
    ) -> bool {
        &&& after.gc.payload_set(&before.gc, i, view)
        &&& after.stack@ == stack
        &&& Self::ip_moved(before, after, ip)
        &&& after.globals@ == before.globals@
        &&& after.open_upvalues@ == before.open_upvalues@
        &&& after.init_string == before.init_string
    }

    /// `Class`: pushes a new class without methods, named as the operand
    /// says.
    pub open spec fn class_effect(before: &Self, after: &Self, out: Option<SignalView>) -> bool {
        match before.name_at(1) {
            Some(name) => if before.stack@.len() < STACK_SIZE {
                out.is_none() && exists|r: GcRef| #[trigger]
                    Self::went_on_allocating(
                        before,
                        after,
                        ObjView::Class { name, methods: Map::empty() },
                        r,
                        before.stack@.push(Value::Obj(r)),
                        before.frame().ip + 2,
                    )
            } else {
                Self::failed(before, after, out, RuntimeErrorKindView::StackOverflow)
            },
            None => Self::failed(before, after, out, RuntimeErrorKindView::Corrupt),
        }
    }

    pub(crate) fn op_class(&mut self) -> (out: Option<Signal>)
        requires
            old(self).wf(),
        ensures
            final(self).wf(),
            Self::class_effect(old(self), final(self), signal_view(out)),
    {
        match self.fetch_name(1) {
            Some(name) => {
                if self.stack.is_full() {
                    Some(self.fail(RuntimeErrorKind::StackOverflow))
                } else {
                    let r = self.allocate(ObjData::Class(ObjClass::new(name)));
                    self.stack.push(Value::Obj(r));
                    self.go(2);
                    proof {
                        assert(Self::went_on_allocating(
                            old(self),
                            self,
                            ObjView::Class { name, methods: Map::empty() },
                            r,
                            old(self).stack@.push(Value::Obj(r)),
                            old(self).frame().ip + 2,
                        ));
                    }
                    None
                }
            },
            None => Some(self.fail(RuntimeErrorKind::Corrupt)),
        }
    }

    /// `Method`: makes the closure on top of the stack the method of the
    /// class beneath it that the operand names, and drops the closure.
    pub open spec fn method_effect(before: &Self, after: &Self, out: Option<SignalView>) -> bool {
        let n = before.stack@.len();
        match before.name_at(1) {
            Some(name) => if n >= 2 {
                match (
                    as_a(&before.gc.heap, before.stack@[n - 2], ObjType::Class),
                    as_a(&before.gc.heap, before.stack@[n - 1], ObjType::Closure),
                ) {
                    (Some(class), Some(method)) => out.is_none() && Self::went_on_setting(
                        before,
                        after,
                        class.index as int,
                        ObjView::Class {
                            name: before.gc.heap.data(class.index as int)->Class_name,
                            methods: before.gc.heap.data(class.index as int)->Class_methods.insert(
                                name.index,
                                method,
                            ),
                        },
                        before.stack@.drop_last(),
                        before.frame().ip + 2,
                    ),
                    _ => Self::failed(before, after, out, RuntimeErrorKindView::Corrupt),
                }
            } else {
                Self::failed(before, after, out, RuntimeErrorKindView::Corrupt)
            },
            None => Self::failed(before, after, out, RuntimeErrorKindView::Corrupt),
        }
    }

    pub(crate) fn op_method(&mut self) -> (out: Option<Signal>)
        requires
            old(self).wf(),
        ensures
            final(self).wf(),
            Self::method_effect(old(self), final(self), signal_view(out)),
    {
        match self.fetch_name(1) {
            Some(name) => {
                if self.stack.len() >= 2 {
                    let class = value_as(&self.gc.heap, self.peek(1), ObjType::Class);
                    let method = value_as(&self.gc.heap, self.peek(0), ObjType::Closure);
                    match (class, method) {
                        (Some(class), Some(method)) => {
                            self.gc.heap.add_method(class, name, method);
                            proof {
                                lemma_payload_view(
                                    &old(self).gc.heap,
                                    &self.gc.heap,
                                    class.index as int,
                                );
                            }
                            self.stack.pop_n(1);
                            self.go(2);
                            None
                        },
                        _ => Some(self.fail(RuntimeErrorKind::Corrupt)),
                    }
                } else {
                    Some(self.fail(RuntimeErrorKind::Corrupt))
                }
            },
            None => Some(self.fail(RuntimeErrorKind::Corrupt)),
        }
    }

    /// `SetProperty`: sets the field that the operand names, of the
    /// instance beneath the top of the stack, to the value on top, and
    /// leaves only that value; anything but an instance is an error.
    pub open spec fn set_property_effect(
        before: &Self,
        after: &Self,
        out: Option<SignalView>,
    ) -> bool {
        let n = before.stack@.len();
        match before.name_at(1) {
            Some(name) => if n >= 2 {
                match as_a(&before.gc.heap, before.stack@[n - 2], ObjType::Instance) {
                    Some(instance) => out.is_none() && Self::went_on_setting(
                        before,
                        after,
                        instance.index as int,
                        ObjView::Instance {
                            klass: before.gc.heap.data(instance.index as int)->Instance_klass,
                            fields: before.gc.heap.data(
                                instance.index as int,
                            )->Instance_fields.insert(name.index, before.stack@[n - 1]),
                        },
                        before.stack@.take(n - 2).push(before.stack@[n - 1]),
                        before.frame().ip + 2,
                    ),
                    None => Self::failed(
                        before,
                        after,
                        out,
                        RuntimeErrorKindView::OnlyInstancesHaveFields,
                    ),
                }
            } else {
                Self::failed(before, after, out, RuntimeErrorKindView::Corrupt)
            },
            None => Self::failed(before, after, out, RuntimeErrorKindView::Corrupt),
        }
    }

    pub(crate) fn op_set_property(&mut self) -> (out: Option<Signal>)
        requires
            old(self).wf(),
        ensures
            final(self).wf(),
            Self::set_property_effect(old(self), final(self), signal_view(out)),
    {
        match self.fetch_name(1) {
            Some(name) => {
                if self.stack.len() >= 2 {
                    let value = self.peek(0);
                    match value_as(&self.gc.heap, self.peek(1), ObjType::Instance) {
                        Some(instance) => {
                            self.gc.heap.set_field(instance, name, value);
                            proof {
                                lemma_payload_view(
                                    &old(self).gc.heap,
                                    &self.gc.heap,
                                    instance.index as int,
                                );
                            }
                            self.stack.pop_n(2);
                            self.stack.push(value);
                            self.go(2);
                            None
                        },
                        None => Some(self.fail(RuntimeErrorKind::OnlyInstancesHaveFields)),
                    }
                } else {
                    Some(self.fail(RuntimeErrorKind::Corrupt))
                }
            },
            None => Some(self.fail(RuntimeErrorKind::Corrupt)),
        }
    }

    /// The machine has bound the method `method` to `receiver`: it has
    /// allocated the bound method, put it in place of the top `count`
    /// values of the stack, and gone `width` bytes ahead.
    pub open spec fn binds(
        before: &Self,
        after: &Self,
        out: Option<SignalView>,
        receiver: Value,
        method: GcRef,
        count: int,
        width: int,
    ) -> bool {
        out.is_none() && exists|r: GcRef| #[trigger]
            Self::went_on_allocating(
                before,
                after,
                ObjView::BoundMethod { receiver, method },
                r,
                before.stack@.take(before.stack@.len() - count).push(Value::Obj(r)),
                before.frame().ip + width,
            )
    }

    fn bind(&mut self, receiver: Value, method: GcRef, count: usize, width: usize) -> (out: Option<
        Signal,
    >)
        requires
            old(self).wf(),
            old(self).frames@.len() > 0,
            old(self).frame().ip + width <= usize::MAX,
            1 <= count <= old(self).stack@.len(),
        ensures
            final(self).wf(),
            Self::binds(
                old(self),
                final(self),
                signal_view(out),
                receiver,
                method,
                count as int,
                width as int,
            ),
    {
        let r = self.allocate(ObjData::BoundMethod(ObjBoundMethod::new(receiver, method)));
        self.stack.pop_n(count);
        self.stack.push(Value::Obj(r));
        self.go(width);
        proof {
            assert(Self::went_on_allocating(
                old(self),
                self,
                ObjView::BoundMethod { receiver, method },
                r,
                old(self).stack@.take(old(self).stack@.len() - count).push(Value::Obj(r)),
                old(self).frame().ip + width,
            ));
        }
        None
    }

    /// `GetProperty`: replaces the instance on top of the stack by its
    /// field that the operand names or, if it has no such field, by the
    /// method of that name of its class, bound to it. Anything but an
    /// instance is an error, and so is a name that is neither.
    pub open spec fn get_property_effect(
        before: &Self,
        after: &Self,
        out: Option<SignalView>,
    ) -> bool {
        let n = before.stack@.len();
        let heap = &before.gc.heap;
        match before.name_at(1) {
            Some(name) => if n >= 1 {
                match as_a(heap, before.stack@[n - 1], ObjType::Instance) {
                    Some(instance) => match field_of(heap, instance, name) {
                        Some(value) => Self::replaces(before, after, out, 1, value, 2),
                        None => match method_of(
                            heap,
                            heap.data(instance.index as int)->Instance_klass,
                            name,
                        ) {
                            Some(method) => Self::binds(
                                before,
                                after,
                                out,
                                before.stack@[n - 1],
                                method,
                                1,
                                2,
                            ),
                            None => Self::failed(
                                before,
                                after,
                                out,
                                RuntimeErrorKindView::UndefinedProperty(before.text_of(name)),
                            ),
                        },
                    },
                    None => Self::failed(
                        before,
                        after,
                        out,
                        RuntimeErrorKindView::OnlyInstancesHaveProperties,
                    ),
                }
            } else {
                Self::failed(before, after, out, RuntimeErrorKindView::Corrupt)
            },
            None => Self::failed(before, after, out, RuntimeErrorKindView::Corrupt),
        }
    }

    pub(crate) fn op_get_property(&mut self) -> (out: Option<Signal>)
        requires
            old(self).wf(),
        ensures
            final(self).wf(),
            Self::get_property_effect(old(self), final(self), signal_view(out)),
    {
        match self.fetch_name(1) {
            Some(name) => {
                if self.stack.len() >= 1 {
                    let receiver = self.peek(0);
                    match value_as(&self.gc.heap, receiver, ObjType::Instance) {
                        Some(instance) => match find_field(&self.gc.heap, instance, name) {
                            Some(value) => self.replace_and_go(1, value, 2),
                            None => {
                                let class = match self.gc.heap.instance(instance) {
                                    Some(payload) => payload.klass,
                                    None => instance,
                                };
                                match find_method(&self.gc.heap, class, name) {
                                    Some(method) => self.bind(receiver, method, 1, 2),
                                    None => {
                                        let text = self.name_text(name);
                                        Some(self.fail(RuntimeErrorKind::UndefinedProperty(text)))
                                    },
                                }
                            },
                        },
                        None => Some(self.fail(RuntimeErrorKind::OnlyInstancesHaveProperties)),
                    }
                } else {
                    Some(self.fail(RuntimeErrorKind::Corrupt))
                }
            },
            None => Some(self.fail(RuntimeErrorKind::Corrupt)),
        }
    }

    /// `GetSuper`: replaces the superclass on top of the stack and the
    /// receiver beneath it by the method of the superclass that the
    /// operand names, bound to the receiver; a name that is no method is an
    /// error.
    pub open spec fn get_super_effect(before: &Self, after: &Self, out: Option<SignalView>) -> bool {
        let n = before.stack@.len();
        let heap = &before.gc.heap;
        match before.name_at(1) {
            Some(name) => if n >= 2 {
                match as_a(heap, before.stack@[n - 1], ObjType::Class) {
                    Some(superclass) => match method_of(heap, superclass, name) {
                        Some(method) => Self::binds(
                            before,
                            after,
                            out,
                            before.stack@[n - 2],
                            method,
                            2,
                            2,
                        ),
                        None => Self::failed(
                            before,
                            after,
                            out,
                            RuntimeErrorKindView::UndefinedProperty(before.text_of(name)),
                        ),
                    },
                    None => Self::failed(before, after, out, RuntimeErrorKindView::Corrupt),
                }
            } else {
                Self::failed(before, after, out, RuntimeErrorKindView::Corrupt)
            },
            None => Self::failed(before, after, out, RuntimeErrorKindView::Corrupt),
        }
    }

    pub(crate) fn op_get_super(&mut self) -> (out: Option<Signal>)
        requires
            old(self).wf(),
        ensures
            final(self).wf(),
            Self::get_super_effect(old(self), final(self), signal_view(out)),
    {
        match self.fetch_name(1) {
            Some(name) => {
                if self.stack.len() >= 2 {
                    let receiver = self.peek(1);
                    match value_as(&self.gc.heap, self.peek(0), ObjType::Class) {
                        Some(superclass) => match find_method(&self.gc.heap, superclass, name) {
                            Some(method) => self.bind(receiver, method, 2, 2),
                            None => {
                                let text = self.name_text(name);
                                Some(self.fail(RuntimeErrorKind::UndefinedProperty(text)))
                            },
                        },
                        None => Some(self.fail(RuntimeErrorKind::Corrupt)),
                    }
                } else {
                    Some(self.fail(RuntimeErrorKind::Corrupt))
                }
            },
            None => Some(self.fail(RuntimeErrorKind::Corrupt)),
        }
    }

    /// `Add`: takes two numbers off the stack and asks the host for their
    /// sum, or replaces two strings by the string of their texts joined;
    /// anything else on top is an error.
    pub open spec fn add_effect(before: &Self, after: &Self, out: Option<SignalView>) -> bool {
        let n = before.stack@.len();
        let heap = &before.gc.heap;
        if before.byte_at(0).is_some() && n >= 2 {
            match (before.stack@[n - 2], before.stack@[n - 1]) {
                (Value::Number(left), Value::Number(right)) => out == Some(
                    SignalView::Arithmetic { op: ArithmeticOp::Add, left, right },
                ) && Self::went_on(before, after, before.stack@.take(n - 2), before.frame().ip + 1),
                (Value::Obj(left), Value::Obj(right)) => if heap.is_a(left, ObjType::String)
                    && heap.is_a(right, ObjType::String) {
                    out.is_none() && exists|r: GcRef| #[trigger]
                        Self::went_on_interning(
                            before,
                            after,
                            before.text_of(left) + before.text_of(right),
                            r,
                            before.stack@.take(n - 2).push(Value::Obj(r)),
                            before.frame().ip + 1,
                        )
                } else {
                    Self::failed(
                        before,
                        after,
                        out,
                        RuntimeErrorKindView::OperandsMustBeTwoNumbersOrTwoStrings,
                    )
                },
                _ => Self::failed(
                    before,
                    after,
                    out,
                    RuntimeErrorKindView::OperandsMustBeTwoNumbersOrTwoStrings,
                ),
            }
        } else {
            Self::failed(before, after, out, RuntimeErrorKindView::Corrupt)
        }
    }

    /// The machine has interned `text` as the string `r`, has gone on to
    /// the instruction at `ip` with the stack `stack`, and has not changed
    /// otherwise.
    pub open spec fn went_on_interning(
        before: &Self,
        after: &Self,
        text: Seq<u8>,
        r: GcRef,
        stack: Seq<Value>,
        ip: int,
    ) -> bool {
        &&& if before.gc.heap.table().contains_key(text) {
            r.index == before.gc.heap.table()[text] && after.gc == before.gc
        } else {
            exists|ready: Gc| #[trigger]
                Gc::prepared(&before.gc, before.roots(), &ready) && after.gc.interned_fresh(
                    &ready,
                    text,
                    r,
                )
        }
        &&& after.stack@ == stack
        &&& Self::ip_moved(before, after, ip)
        &&& after.globals@ == before.globals@
        &&& after.open_upvalues@ == before.open_upvalues@
        &&& after.init_string == before.init_string
    }

    pub(crate) fn op_add(&mut self) -> (out: Option<Signal>)
        requires
            old(self).wf(),
        ensures
            final(self).wf(),
            Self::add_effect(old(self), final(self), signal_view(out)),
    {
        if self.fetch(0).is_some() && self.stack.len() >= 2 {
            match (self.peek(1), self.peek(0)) {
                (Value::Number(left), Value::Number(right)) => {
                    self.stack.pop_n(2);
                    self.go(1);
                    Some(Signal::Arithmetic { op: ArithmeticOp::Add, left, right })
                },
                (Value::Obj(left), Value::Obj(right)) => {
                    let joined = match (self.gc.heap.string(left), self.gc.heap.string(right)) {
                        (Some(a), Some(b)) => {
                            let mut text: Vec<u8> = Vec::new();
                            append_bytes(&mut text, &a.text);
                            append_bytes(&mut text, &b.text);
                            assert(text@ =~= a.text@ + b.text@);
                            Some(text)
                        },
                        _ => None,
                    };
                    match joined {
                        Some(text) => {
                            let r = self.intern(&text);
                            self.stack.pop_n(2);
                            self.stack.push(Value::Obj(r));
                            self.go(1);
                            proof {
                                assert(Self::went_on_interning(
                                    old(self),
                                    self,
                                    old(self).text_of(left) + old(self).text_of(right),
                                    r,
                                    old(self).stack@.take(old(self).stack@.len() - 2).push(
                                        Value::Obj(r),
                                    ),
                                    old(self).frame().ip + 1,
                                ));
                            }
                            None
                        },
                        None => Some(
                            self.fail(RuntimeErrorKind::OperandsMustBeTwoNumbersOrTwoStrings),
                        ),
                    }
                },
                _ => Some(self.fail(RuntimeErrorKind::OperandsMustBeTwoNumbersOrTwoStrings)),
            }
        } else {
            Some(self.fail(RuntimeErrorKind::Corrupt))
        }
    }
}

} // verus!
