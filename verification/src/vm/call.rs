use vstd::prelude::*;
use crate::mem::collector::Gc;
use crate::mem::gc::lemma_payload_view;
use crate::mem::gc_ref::GcRef;
use crate::obj::obj::ObjData;
use crate::obj::obj::ObjType;
use crate::obj::obj::ObjView;
use crate::obj::obj_closure::ObjClosure;
use crate::obj::obj_instance::ObjInstance;
use crate::value::Value;
use crate::vm::call_frame::CallFrame;
use crate::vm::function_of;
use crate::vm::object::as_a;
use crate::vm::object::field_of;
use crate::vm::object::find_field;
use crate::vm::object::find_method;
use crate::vm::object::method_of;
use crate::vm::object::value_as;
use crate::vm::signal::signal_view;
use crate::vm::signal::RuntimeErrorKind;
use crate::vm::signal::RuntimeErrorKindView;
use crate::vm::signal::Signal;
use crate::vm::signal::SignalView;
use crate::vm::Vm;

verus! {

impl<const MAX_FRAMES: usize, const STACK_SIZE: usize> Vm<MAX_FRAMES, STACK_SIZE> {
    /// Why `closure` cannot be called with `argc` arguments, if it cannot:
    /// it takes another number of arguments, or the frames are used up.
    pub open spec fn refusal(&self, closure: GcRef, argc: usize) -> Option<RuntimeErrorKindView> {
        match function_of(&self.gc.heap, closure) {
            None => Some(RuntimeErrorKindView::Corrupt),
            Some(function) => {
                let arity = self.gc.heap.data(function.index as int)->Function_arity;
                if arity != argc {
                    Some(RuntimeErrorKindView::Arity { expected: arity, got: argc })
                } else if self.frames@.len() >= MAX_FRAMES {
                    Some(RuntimeErrorKindView::StackOverflow)
                } else {
                    None
                }
            },
        }
    }

    fn check_call(&self, closure: GcRef, argc: usize) -> (refusal: Option<RuntimeErrorKind>)
        ensures
            self.refusal(closure, argc) == (match refusal {
                Some(kind) => Some(kind@),
                None => None,
            }),
    {
        let function = match self.gc.heap.closure(closure) {
            Some(payload) => self.gc.heap.function(payload.function),
            None => None,
        };
        match function {
            None => Some(RuntimeErrorKind::Corrupt),
            Some(function) => {
                if function.arity != argc {
                    Some(RuntimeErrorKind::Arity { expected: function.arity, got: argc })
                } else if self.frames.is_full() {
                    Some(RuntimeErrorKind::StackOverflow)
                } else {
                    None
                }
            },
        }
    }

    /// A frame for `closure` stands on top of the frames, its slot zero
    /// just beneath the `argc` arguments on top of the stack `stack`; the
    /// frame beneath it will go on `width` bytes ahead.
    pub open spec fn entered(
        before: &Self,
        after: &Self,
        stack: Seq<Value>,
        closure: GcRef,
        argc: usize,
        width: int,
    ) -> bool {
        &&& after.stack@ == stack
        &&& before.frames@.len() > 0
        &&& after.frames@ == before.frames@.update(
            before.frames@.len() - 1,
            CallFrame { ip: (before.frame().ip + width) as usize, ..before.frame() },
        ).push(CallFrame { closure, ip: 0, slots: (stack.len() - 1 - argc) as usize })
        &&& after.globals@ == before.globals@
        &&& after.open_upvalues@ == before.open_upvalues@
        &&& after.init_string == before.init_string
    }

    /// The machine has begun the call of `closure`, or reports why the
    /// call is refused: it has stopped then if `reset`, and else is as it
    /// was.
    pub open spec fn begun(
        before: &Self,
        after: &Self,
        out: Option<SignalView>,
        stack: Seq<Value>,
        closure: GcRef,
        argc: usize,
        width: int,
        reset: bool,
    ) -> bool {
        match before.refusal(closure, argc) {
            Some(kind) => Self::stopped(before, after, out, kind, reset),
            None => out.is_none() && Self::entered(before, after, stack, closure, argc, width)
                && after.gc == before.gc,
        }
    }

    /// The machine has begun the call of `closure`, or has stopped because
    /// the call is refused.
    pub open spec fn enters(
        before: &Self,
        after: &Self,
        out: Option<SignalView>,
        stack: Seq<Value>,
        closure: GcRef,
        argc: usize,
        width: int,
    ) -> bool {
        Self::begun(before, after, out, stack, closure, argc, width, true)
    }

    /// What is left of a call that the machine was asked for: where the
    /// call was refused the machine has stopped, its stacks empty, and
    /// else it is as the call left it.
    pub open spec fn settled(mid: &Self, after: &Self, out: Option<SignalView>) -> bool {
        if out is Some && out->Some_0 is Error {
            &&& after.stack@.len() == 0
            &&& after.frames@.len() == 0
            &&& after.open_upvalues@.len() == 0
            &&& after.globals == mid.globals
            &&& after.gc == mid.gc
            &&& after.init_string == mid.init_string
        } else {
            *after == *mid
        }
    }

    /// Stops the program if `out` is an error that a call was refused
    /// with.
    pub(crate) fn settle(&mut self, out: Option<Signal>) -> (same: Option<Signal>)
        ensures
            same == out,
            Self::settled(old(self), final(self), signal_view(out)),
            old(self).wf() ==> final(self).wf(),
            old(self).sound() ==> final(self).sound(),
    {
        let stop = match &out {
            Some(Signal::Error(_)) => true,
            _ => false,
        };
        if stop {
            self.reset();
        }
        out
    }

    /// Begins the call of `closure` with the `argc` arguments on top of
    /// the stack: checks the number of arguments and that there is room
    /// for a frame, then pushes the frame. A call that is refused leaves
    /// the machine as it was.
    pub fn call(&mut self, closure: GcRef, argc: usize, width: usize) -> (out: Option<Signal>)
        requires
            old(self).wf(),
            old(self).frames@.len() > 0,
            old(self).frame().ip + width <= usize::MAX,
            old(self).stack@.len() > argc,
        ensures
            final(self).wf(),
            Self::begun(
                old(self),
                final(self),
                signal_view(out),
                old(self).stack@,
                closure,
                argc,
                width as int,
                false,
            ),
    {
        match self.check_call(closure, argc) {
            Some(kind) => Some(self.refuse(kind)),
            None => {
                self.go(width);
                let slots = self.stack.len() - 1 - argc;
                self.frames.push(CallFrame { closure, ip: 0, slots });
                None
            },
        }
    }

    /// What the instruction that calls `callee` with the `argc` arguments
    /// on top of the stack `stack` does: as `call_outcome`, and a call that
    /// is refused stops the program.
    pub open spec fn call_effect(
        before: &Self,
        after: &Self,
        out: Option<SignalView>,
        stack: Seq<Value>,
        callee: Value,
        argc: usize,
        width: int,
    ) -> bool {
        Self::call_outcome(before, after, out, stack, callee, argc, width, true)
    }

    /// What calling `callee` with the `argc` arguments on top of the stack
    /// `stack` does. A closure is entered. A bound method is entered with
    /// its receiver in slot zero. A class makes an instance, which takes
    /// slot zero, and its initializer, if it has one, is entered; without
    /// one it takes no arguments. A native function is handed to the host
    /// with its arguments. Nothing else can be called. Where the call is
    /// refused the error is reported: the machine has stopped then if
    /// `reset`, and else is as it was.
    pub open spec fn call_outcome(
        before: &Self,
        after: &Self,
        out: Option<SignalView>,
        stack: Seq<Value>,
        callee: Value,
        argc: usize,
        width: int,
        reset: bool,
    ) -> bool {
        let heap = &before.gc.heap;
        let base = stack.len() - 1 - argc;
        match callee {
            Value::Obj(r) => if heap.live(r.index as int) {
                match heap.data(r.index as int) {
                    ObjView::BoundMethod { receiver, method } => Self::begun(
                        before,
                        after,
                        out,
                        stack.update(base, receiver),
                        method,
                        argc,
                        width,
                        reset,
                    ),
                    ObjView::Class { methods, .. } => if methods.contains_key(
                        before.init_string.index,
                    ) {
                        match before.refusal(methods[before.init_string.index], argc) {
                            Some(kind) => Self::stopped(before, after, out, kind, reset),
                            None => out.is_none() && exists|instance: GcRef|
                                #[trigger] after.gc.heap.live(instance.index as int)
                                    && Self::entered(
                                    before,
                                    after,
                                    stack.update(base, Value::Obj(instance)),
                                    methods[before.init_string.index],
                                    argc,
                                    width,
                                ) && Self::instantiated(before, after, stack, r, instance),
                        }
                    } else if argc != 0 {
                        Self::stopped(
                            before,
                            after,
                            out,
                            RuntimeErrorKindView::Arity { expected: 0, got: argc },
                            reset,
                        )
                    } else {
                        out.is_none() && exists|instance: GcRef|
                            #[trigger] after.gc.heap.live(instance.index as int)
                                && Self::instantiated(before, after, stack, r, instance)
                                && after.stack@ == stack.update(base, Value::Obj(instance))
                                && Self::ip_moved(
                                before,
                                after,
                                before.frame().ip + width,
                            ) && after.globals@ == before.globals@ && after.open_upvalues@
                                == before.open_upvalues@ && after.init_string == before.init_string
                    },
                    ObjView::Closure { .. } => Self::begun(
                        before,
                        after,
                        out,
                        stack,
                        r,
                        argc,
                        width,
                        reset,
                    ),
                    ObjView::Native { function } => out == Some(
                        SignalView::Native {
                            function,
                            args: stack.subrange(base + 1, stack.len() as int),
                        },
                    ) && Self::went_on(before, after, stack.take(base), before.frame().ip + width),
                    _ => Self::stopped(before, after, out, RuntimeErrorKindView::NotCallable, reset),
                }
            } else {
                Self::stopped(before, after, out, RuntimeErrorKindView::NotCallable, reset)
            },
            _ => Self::stopped(before, after, out, RuntimeErrorKindView::NotCallable, reset),
        }
    }

    /// The machine has allocated `instance`, an instance of `class`
    /// without fields, after a collection if one was due, with `stack` and
    /// what else the machine held as the roots.
    pub open spec fn instantiated(
        before: &Self,
        after: &Self,
        stack: Seq<Value>,
        class: GcRef,
        instance: GcRef,
    ) -> bool {
        exists|ready: Gc| #[trigger]
            Gc::prepared(
                &before.gc,
                crate::vm::machine_roots(
                    stack,
                    before.frames@,
                    before.open_upvalues@,
                    before.globals@,
                    before.init_string,
                ),
                &ready,
            ) && after.gc.allocated_as(
                &ready,
                ObjView::Instance { klass: class, fields: Map::empty() },
                instance,
            )
    }

    /// Calls `callee` with the `argc` arguments on top of the stack. A
    /// call that is refused leaves the machine as it was.
    pub fn call_value(&mut self, callee: Value, argc: usize, width: usize) -> (out: Option<Signal>)
        requires
            old(self).wf(),
            old(self).frames@.len() > 0,
            old(self).frame().ip + width <= usize::MAX,
            old(self).stack@.len() > argc,
        ensures
            final(self).wf(),
            Self::call_outcome(
                old(self),
                final(self),
                signal_view(out),
                old(self).stack@,
                callee,
                argc,
                width as int,
                false,
            ),
    {
        let r = match callee {
            Value::Obj(r) => r,
            _ => {
                return Some(self.refuse(RuntimeErrorKind::NotCallable));
            },
        };
        let base = self.stack.len() - 1 - argc;
        match self.gc.heap.kind(r) {
            Some(ObjType::BoundMethod) => {
                let (receiver, method) = match self.gc.heap.bound_method(r) {
                    Some(bound) => (bound.receiver, bound.method),
                    None => (Value::Nil, r),
                };
                match self.check_call(method, argc) {
                    Some(kind) => Some(self.refuse(kind)),
                    None => {
                        self.stack.set(base, receiver);
                        self.call(method, argc, width)
                    },
                }
            },
            Some(ObjType::Class) => {
                let init = find_method(&self.gc.heap, r, self.init_string);
                match init {
                    Some(init) => match self.check_call(init, argc) {
                        Some(kind) => Some(self.refuse(kind)),
                        None => {
                            let instance = self.allocate(ObjData::Instance(ObjInstance::new(r)));
                            self.stack.set(base, Value::Obj(instance));
                            self.go(width);
                            self.frames.push(CallFrame { closure: init, ip: 0, slots: base });
                            proof {
                                assert(self.gc.heap.live(instance.index as int));
                                assert(Self::instantiated(
                                    old(self),
                                    self,
                                    old(self).stack@,
                                    r,
                                    instance,
                                ));
                                assert(Self::entered(
                                    old(self),
                                    self,
                                    old(self).stack@.update(base as int, Value::Obj(instance)),
                                    init,
                                    argc,
                                    width as int,
                                ));
                            }
                            None
                        },
                    },
                    None => {
                        if argc != 0 {
                            Some(self.refuse(RuntimeErrorKind::Arity { expected: 0, got: argc }))
                        } else {
                            let instance = self.allocate(ObjData::Instance(ObjInstance::new(r)));
                            self.stack.set(base, Value::Obj(instance));
                            self.go(width);
                            proof {
                                assert(self.gc.heap.live(instance.index as int));
                                assert(Self::instantiated(
                                    old(self),
                                    self,
                                    old(self).stack@,
                                    r,
                                    instance,
                                ));
                            }
                            None
                        }
                    },
                }
            },
            Some(ObjType::Closure) => self.call(r, argc, width),
            Some(ObjType::Native) => {
                let function = match self.gc.heap.native(r) {
                    Some(native) => native.function,
                    None => 0,
                };
                let mut args: Vec<Value> = Vec::new();
                let mut i: usize = base + 1;
                while i < self.stack.len()
                    invariant
                        base + 1 <= i <= self.stack@.len(),
                        *self == *old(self),
                        args@ == self.stack@.subrange(base + 1, i as int),
                    decreases self.stack@.len() - i,
                {
                    args.push(*self.stack.get(i));
                    assert(self.stack@.subrange(base + 1, i + 1) =~= self.stack@.subrange(
                        base + 1,
                        i as int,
                    ).push(self.stack@[i as int]));
                    i += 1;
                }
                self.stack.pop_n(argc + 1);
                self.go(width);
                Some(Signal::Native { function, args })
            },
            _ => Some(self.refuse(RuntimeErrorKind::NotCallable)),
        }
    }

    /// `Call`: calls the value beneath the arguments, whose number the
    /// operand gives.
    pub open spec fn call_op_effect(before: &Self, after: &Self, out: Option<SignalView>) -> bool {
        let n = before.stack@.len();
        match before.byte_at(1) {
            Some(argc) => if n > argc {
                Self::call_effect(
                    before,
                    after,
                    out,
                    before.stack@,
                    before.stack@[n - 1 - argc],
                    argc as usize,
                    2,
                )
            } else {
                Self::failed(before, after, out, RuntimeErrorKindView::Corrupt)
            },
            None => Self::failed(before, after, out, RuntimeErrorKindView::Corrupt),
        }
    }

    #[verifier::spinoff_prover]
    pub(crate) fn op_call(&mut self) -> (out: Option<Signal>)
        requires
            old(self).wf(),
        ensures
            final(self).wf(),
            Self::call_op_effect(old(self), final(self), signal_view(out)),
    {
        match self.fetch(1) {
            Some(argc) => {
                if self.stack.len() > argc as usize {
                    let callee = self.peek(argc as usize);
                    let out = self.call_value(callee, argc as usize, 2);
                    self.settle(out)
                } else {
                    Some(self.fail(RuntimeErrorKind::Corrupt))
                }
            },
            None => Some(self.fail(RuntimeErrorKind::Corrupt)),
        }
    }

    /// `Invoke`: calls the property that the first operand names, of the
    /// instance beneath the arguments: its field of that name, if it has
    /// one, and else the method of that name of its class, with the
    /// instance in slot zero. Anything but an instance is an error, and so
    /// is a name that is neither.
    pub open spec fn invoke_effect(before: &Self, after: &Self, out: Option<SignalView>) -> bool {
        let n = before.stack@.len();
        let heap = &before.gc.heap;
        match (before.name_at(1), before.byte_at(2)) {
            (Some(name), Some(argc)) => if n > argc {
                let base = n - 1 - argc;
                match as_a(heap, before.stack@[base], ObjType::Instance) {
                    Some(instance) => match field_of(heap, instance, name) {
                        Some(field) => Self::call_effect(
                            before,
                            after,
                            out,
                            before.stack@.update(base, field),
                            field,
                            argc as usize,
                            3,
                        ),
                        None => match method_of(
                            heap,
                            heap.data(instance.index as int)->Instance_klass,
                            name,
                        ) {
                            Some(method) => Self::enters(
                                before,
                                after,
                                out,
                                before.stack@,
                                method,
                                argc as usize,
                                3,
                            ),
                            None => Self::failed(
                                before,
                                after,
                                out,
                                RuntimeErrorKindView::UndefinedProperty(before.text_of(name)),
                            ),
                        },
                    },
                    None => Self::failed(
                        before,
                        after,
                        out,
                        RuntimeErrorKindView::OnlyInstancesHaveMethods,
                    ),
                }
            } else {
                Self::failed(before, after, out, RuntimeErrorKindView::Corrupt)
            },
            _ => Self::failed(before, after, out, RuntimeErrorKindView::Corrupt),
        }
    }

    #[verifier::spinoff_prover]
    pub(crate) fn op_invoke(&mut self) -> (out: Option<Signal>)
        requires
            old(self).wf(),
        ensures
            final(self).wf(),
            Self::invoke_effect(old(self), final(self), signal_view(out)),
    {
        match (self.fetch_name(1), self.fetch(2)) {
            (Some(name), Some(argc)) => {
                let argc = argc as usize;
                if self.stack.len() > argc {
                    let base = self.stack.len() - 1 - argc;
                    let receiver = self.peek(argc);
                    match value_as(&self.gc.heap, receiver, ObjType::Instance) {
                        Some(instance) => match find_field(&self.gc.heap, instance, name) {
                            Some(field) => {
                                self.stack.set(base, field);
                                let out = self.call_value(field, argc, 3);
                                self.settle(out)
                            },
                            None => {
                                let class = match self.gc.heap.instance(instance) {
                                    Some(payload) => payload.klass,
                                    None => instance,
                                };
                                match find_method(&self.gc.heap, class, name) {
                                    Some(method) => {
                                        let out = self.call(method, argc, 3);
                                        self.settle(out)
                                    },
                                    None => {
                                        let text = self.name_text(name);
                                        Some(self.fail(RuntimeErrorKind::UndefinedProperty(text)))
                                    },
                                }
                            },
                        },
                        None => Some(self.fail(RuntimeErrorKind::OnlyInstancesHaveMethods)),
                    }
                } else {
                    Some(self.fail(RuntimeErrorKind::Corrupt))
                }
            },
            _ => Some(self.fail(RuntimeErrorKind::Corrupt)),
        }
    }

    /// `SuperInvoke`: takes the superclass off the stack and calls its
    /// method that the first operand names, with the receiver beneath the
    /// arguments in slot zero; a name that is no method is an error.
    pub open spec fn super_invoke_effect(
        before: &Self,
        after: &Self,
        out: Option<SignalView>,
    ) -> bool {
        let n = before.stack@.len();
        let heap = &before.gc.heap;
        match (before.name_at(1), before.byte_at(2)) {
            (Some(name), Some(argc)) => if n > argc + 1 {
                match as_a(heap, before.stack@[n - 1], ObjType::Class) {
                    Some(superclass) => match method_of(heap, superclass, name) {
                        Some(method) => Self::enters(
                            before,
                            after,
                            out,
                            before.stack@.drop_last(),
                            method,
                            argc as usize,
                            3,
                        ),
                        None => Self::failed(
                            before,
                            after,
                            out,
                            RuntimeErrorKindView::UndefinedProperty(before.text_of(name)),
                        ),
                    },
                    None => Self::failed(before, after, out, RuntimeErrorKindView::Corrupt),
                }
            } else {
                Self::failed(before, after, out, RuntimeErrorKindView::Corrupt)
            },
            _ => Self::failed(before, after, out, RuntimeErrorKindView::Corrupt),
        }
    }

    #[verifier::spinoff_prover]
    pub(crate) fn op_super_invoke(&mut self) -> (out: Option<Signal>)
        requires
            old(self).wf(),
        ensures
            final(self).wf(),
            Self::super_invoke_effect(old(self), final(self), signal_view(out)),
    {
        match (self.fetch_name(1), self.fetch(2)) {
            (Some(name), Some(argc)) => {
                let argc = argc as usize;
                if self.stack.len() > argc + 1 {
                    match value_as(&self.gc.heap, self.peek(0), ObjType::Class) {
                        Some(superclass) => match find_method(&self.gc.heap, superclass, name) {
                            Some(method) => {
                                self.stack.pop_n(1);
                                let out = self.call(method, argc, 3);
                                self.settle(out)
                            },
                            None => {
                                let text = self.name_text(name);
                                Some(self.fail(RuntimeErrorKind::UndefinedProperty(text)))
                            },
                        },
                        None => Some(self.fail(RuntimeErrorKind::Corrupt)),
                    }
                } else {
                    Some(self.fail(RuntimeErrorKind::Corrupt))
                }
            },
            _ => Some(self.fail(RuntimeErrorKind::Corrupt)),
        }
    }

    /// `Return`: closes the upvalues of the frame, drops the frame and
    /// what it had on the stack, and pushes the value that was on top.
    /// When the last frame returns, the program is done.
    pub open spec fn return_effect(before: &Self, after: &Self, out: Option<SignalView>) -> bool {
        let n = before.stack@.len();
        if before.byte_at(0).is_some() && n >= 1 && before.frame().slots < n {
            &&& Self::upvalues_closed(before, after, before.frame().slots)
            &&& after.globals@ == before.globals@
            &&& after.init_string == before.init_string
            &&& if before.frames@.len() == 1 {
                &&& out == Some(SignalView::Done)
                &&& after.stack@.len() == 0
                &&& after.frames@.len() == 0
            } else {
                &&& out.is_none()
                &&& after.frames@ == before.frames@.drop_last()
                &&& after.stack@ == before.stack@.take(before.frame().slots as int).push(
                    before.stack@.last(),
                )
            }
        } else {
            Self::failed(before, after, out, RuntimeErrorKindView::Corrupt)
        }
    }

    pub(crate) fn op_return(&mut self) -> (out: Option<Signal>)
        requires
            old(self).wf(),
        ensures
            final(self).wf(),
            Self::return_effect(old(self), final(self), signal_view(out)),
    {
        if self.fetch(0).is_none() || self.stack.len() < 1 {
            return Some(self.fail(RuntimeErrorKind::Corrupt));
        }
        let slots = self.frames.get(self.frames.len() - 1).slots;
        let n = self.stack.len();
        if slots >= n {
            return Some(self.fail(RuntimeErrorKind::Corrupt));
        }
        let result = self.peek(0);
        self.close_upvalues(slots);
        self.frames.pop();
        if self.frames.len() == 0 {
            self.stack.clear();
            Some(Signal::Done)
        } else {
            self.stack.pop_n(n - slots);
            self.stack.push(result);
            None
        }
    }

    /// `Inherit`: gives the class on top of the stack every method of the
    /// class beneath it, and drops the class on top; anything but a class
    /// beneath is an error.
    pub open spec fn inherit_effect(before: &Self, after: &Self, out: Option<SignalView>) -> bool {
        let n = before.stack@.len();
        let heap = &before.gc.heap;
        if before.byte_at(0).is_some() && n >= 2 {
            match as_a(heap, before.stack@[n - 2], ObjType::Class) {
                Some(superclass) => match as_a(heap, before.stack@[n - 1], ObjType::Class) {
                    Some(subclass) => out.is_none() && Self::went_on_setting(
                        before,
                        after,
                        subclass.index as int,
                        ObjView::Class {
                            name: heap.data(subclass.index as int)->Class_name,
                            methods: heap.data(
                                subclass.index as int,
                            )->Class_methods.union_prefer_right(
                                heap.data(superclass.index as int)->Class_methods,
                            ),
                        },
                        before.stack@.drop_last(),
                        before.frame().ip + 1,
                    ),
                    None => Self::failed(before, after, out, RuntimeErrorKindView::Corrupt),
                },
                None => Self::failed(
                    before,
                    after,
                    out,
                    RuntimeErrorKindView::SuperclassMustBeAClass,
                ),
            }
        } else {
            Self::failed(before, after, out, RuntimeErrorKindView::Corrupt)
        }
    }

    pub(crate) fn op_inherit(&mut self) -> (out: Option<Signal>)
        requires
            old(self).wf(),
        ensures
            final(self).wf(),
            Self::inherit_effect(old(self), final(self), signal_view(out)),
    {
        if self.fetch(0).is_none() || self.stack.len() < 2 {
            return Some(self.fail(RuntimeErrorKind::Corrupt));
        }
        let superclass = match value_as(&self.gc.heap, self.peek(1), ObjType::Class) {
            Some(superclass) => superclass,
            None => {
                return Some(self.fail(RuntimeErrorKind::SuperclassMustBeAClass));
            },
        };
        let subclass = match value_as(&self.gc.heap, self.peek(0), ObjType::Class) {
            Some(subclass) => subclass,
            None => {
                return Some(self.fail(RuntimeErrorKind::Corrupt));
            },
        };
        let entries = match self.gc.heap.class(superclass) {
            Some(payload) => payload.methods.entries(),
            None => Vec::new(),
        };
        let ghost inherited = old(self).gc.heap.data(superclass.index as int)->Class_methods;
        let ghost own = old(self).gc.heap.data(subclass.index as int)->Class_methods;
        let ghost name = old(self).gc.heap.data(subclass.index as int)->Class_name;
        let ghost header = old(self).gc.heap.header(subclass.index as int);
        let ghost heap0 = old(self).gc.heap@;
        let mut i: usize = 0;
        proof {
            assert(heap0.len() == old(self).gc.heap.slots@.len());
            assert(heap0 =~= heap0.update(
                subclass.index as int,
                Some((header, ObjView::Class { name, methods: own })),
            ));
        }
        while i < entries.len()
            invariant
                i <= entries@.len(),
                subclass.index < heap0.len(),
                self.gc.wf(),
                self.stack == old(self).stack,
                self.frames == old(self).frames,
                self.globals == old(self).globals,
                self.open_upvalues == old(self).open_upvalues,
                self.init_string == old(self).init_string,
                self.gc.heap.is_a(subclass, ObjType::Class),
                self.gc.heap.header(subclass.index as int) == header,
                self.gc.heap.data(subclass.index as int) is Class,
                self.gc.heap.data(subclass.index as int)->Class_name == name,
                self.gc.heap@ == heap0.update(
                    subclass.index as int,
                    Some((header, self.gc.heap.data(subclass.index as int))),
                ),
                forall|q: int|
                    0 <= q < entries@.len() ==> inherited.contains_key((#[trigger] entries@[q]).0)
                        && inherited[entries@[q].0] == entries@[q].1,
                forall|k: usize| #[trigger]
                    inherited.contains_key(k) ==> exists|q: int|
                        0 <= q < entries@.len() && entries@[q].0 == k,
                forall|a: int, b: int|
                    0 <= a < b < entries@.len() ==> entries@[a].0 != entries@[b].0,
                forall|k: usize|
                    (#[trigger] self.gc.heap.data(
                        subclass.index as int,
                    )->Class_methods.contains_key(k)) <==> own.contains_key(k) || exists|q: int|
                        0 <= q < i && (#[trigger] entries@[q]).0 == k,
                forall|q: int|
                    0 <= q < i ==> self.gc.heap.data(subclass.index as int)->Class_methods[(
                    #[trigger] entries@[q]).0] == entries@[q].1,
                forall|k: usize|
                    own.contains_key(k) && !(exists|q: int|
                        0 <= q < i && (#[trigger] entries@[q]).0 == k) ==> (
                    #[trigger] self.gc.heap.data(subclass.index as int)->Class_methods[k])
                        == own[k],
                self.gc.heap.table() == old(self).gc.heap.table(),
                self.gc.heap.objects == old(self).gc.heap.objects,
                self.gc.heap.free@ == old(self).gc.heap.free@,
                self.gc.heap.chain@ == old(self).gc.heap.chain@,
                self.gc.bytes_allocated == old(self).gc.bytes_allocated,
                self.gc.next_gc == old(self).gc.next_gc,
                self.gc.stress == old(self).gc.stress,
                self.gc.gray == old(self).gc.gray,
            decreases entries@.len() - i,
        {
            let (key, method) = entries[i];
            let ghost before = self.gc.heap;
            let ghost methods = before.data(subclass.index as int)->Class_methods;
            self.gc.heap.add_method(subclass, GcRef { index: key }, method);
            proof {
                lemma_payload_view(&before, &self.gc.heap, subclass.index as int);
                let now = self.gc.heap.data(subclass.index as int)->Class_methods;
                assert(now == methods.insert(key, method));
                assert forall|k: usize|
                    (#[trigger] now.contains_key(k)) <==> own.contains_key(k) || exists|q: int|
                        0 <= q < i + 1 && (#[trigger] entries@[q]).0 == k by {
                    if exists|q: int| 0 <= q < i + 1 && (#[trigger] entries@[q]).0 == k {
                        let q = choose|q: int| 0 <= q < i + 1 && (#[trigger] entries@[q]).0 == k;
                        if q < i {
                            assert(methods.contains_key(k));
                        }
                    }
                    if methods.contains_key(k) && !own.contains_key(k) {
                        let q = choose|q: int| 0 <= q < i && (#[trigger] entries@[q]).0 == k;
                        assert(entries@[q].0 == k);
                    }
                    if k == key {
                        assert(entries@[i as int].0 == k);
                    }
                }
                assert forall|q: int| 0 <= q < i + 1 implies now[(#[trigger] entries@[q]).0]
                    == entries@[q].1 by {
                    if q < i {
                        assert(entries@[q].0 != entries@[i as int].0);
                    }
                }
                assert forall|k: usize|
                    own.contains_key(k) && !(exists|q: int|
                        0 <= q < i + 1 && (#[trigger] entries@[q]).0 == k) implies (
                #[trigger] now[k]) == own[k] by {
                    assert(entries@[i as int].0 != k);
                    assert(!(exists|q: int| 0 <= q < i && (#[trigger] entries@[q]).0 == k)) by {
                        if exists|q: int| 0 <= q < i && (#[trigger] entries@[q]).0 == k {
                            let q = choose|q: int| 0 <= q < i && (#[trigger] entries@[q]).0 == k;
                            assert(0 <= q < i + 1 && entries@[q].0 == k);
                        }
                    }
                }
                assert(before@ == heap0.update(
                    subclass.index as int,
                    Some((header, before.data(subclass.index as int))),
                ));
                assert(self.gc.heap@ == before@.update(
                    subclass.index as int,
                    Some((header, self.gc.heap.data(subclass.index as int))),
                ));
                assert(self.gc.heap@ =~= heap0.update(
                    subclass.index as int,
                    Some((header, self.gc.heap.data(subclass.index as int))),
                ));
            }
            i += 1;
        }
        proof {
            let now = self.gc.heap.data(subclass.index as int)->Class_methods;
            let goal = own.union_prefer_right(inherited);
            assert forall|k: usize| now.contains_key(k) <==> goal.contains_key(k) by {
                if inherited.contains_key(k) {
                    let q = choose|q: int| 0 <= q < entries@.len() && entries@[q].0 == k;
                    assert(entries@[q].0 == k);
                }
                if now.contains_key(k) && !own.contains_key(k) {
                    let q = choose|q: int| 0 <= q < i && (#[trigger] entries@[q]).0 == k;
                    assert(inherited.contains_key(entries@[q].0));
                }
            }
            assert forall|k: usize| now.contains_key(k) implies now[k] == goal[k] by {
                if inherited.contains_key(k) {
                    let q = choose|q: int| 0 <= q < entries@.len() && entries@[q].0 == k;
                    assert(now[entries@[q].0] == entries@[q].1);
                } else {
                    assert(!(exists|q: int| 0 <= q < i && (#[trigger] entries@[q]).0 == k)) by {
                        if exists|q: int| 0 <= q < i && (#[trigger] entries@[q]).0 == k {
                            let q = choose|q: int| 0 <= q < i && (#[trigger] entries@[q]).0 == k;
                            assert(inherited.contains_key(entries@[q].0));
                        }
                    }
                }
            }
            assert(now =~= goal);
        }
        self.stack.pop_n(1);
        self.go(1);
        None
    }
}

} // verus!
