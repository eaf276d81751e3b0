use vstd::prelude::*;
use vstd::string::StringSliceAdditionalSpecFns;
use crate::compiler::driver::compile;
use crate::compiler::driver::Compiler;
use crate::compiler::parser::Error;
use crate::mem::collector::Gc;
use crate::mem::gc_ref::GcRef;
use crate::obj::obj::ObjData;
use crate::obj::obj::ObjView;
use crate::obj::obj_closure::ObjClosure;
use crate::value::Value;
use crate::vm::call_frame::CallFrame;
use crate::vm::machine_roots;
use crate::vm::signal::signal_view;
use crate::vm::signal::RuntimeErrorKind;
use crate::vm::signal::RuntimeErrorKindView;
use crate::vm::signal::Signal;
use crate::vm::signal::SignalView;
use crate::vm::OpenUpvalue;
use crate::vm::Vm;

verus! {

impl<const MAX_FRAMES: usize, const STACK_SIZE: usize> Vm<MAX_FRAMES, STACK_SIZE> {
    /// The machine stands ready to run `function`: a closure over it,
    /// newly allocated, is in stack slot zero, and one frame runs that
    /// closure from its first instruction. A machine without room for one
    /// value and one frame has stopped instead.
    pub open spec fn loaded(
        before: &Self,
        after: &Self,
        out: Option<SignalView>,
        function: GcRef,
    ) -> bool {
        &&& after.globals@ == before.globals@
        &&& after.init_string == before.init_string
        &&& after.open_upvalues@.len() == 0
        &&& if STACK_SIZE >= 1 && MAX_FRAMES >= 1 {
            &&& out.is_none()
            &&& exists|closure: GcRef|
                #[trigger] after.gc.heap.live(closure.index as int) && after.stack@ == seq![
                    Value::Obj(closure),
                ] && after.frames@ == seq![CallFrame { closure, ip: 0, slots: 0 }]
                    && exists|ready: Gc| #[trigger]
                    Gc::prepared(
                        &before.gc,
                        machine_roots(
                            seq![Value::Obj(function)],
                            Seq::<CallFrame>::empty(),
                            Seq::<OpenUpvalue>::empty(),
                            before.globals@,
                            before.init_string,
                        ),
                        &ready,
                    ) && after.gc.allocated_as(
                        &ready,
                        ObjView::Closure { function, upvalues: Seq::empty() },
                        closure,
                    )
        } else {
            &&& out == Some(
                SignalView::Error {
                    kind: RuntimeErrorKindView::StackOverflow,
                    trace: Seq::empty(),
                },
            )
            &&& after.stack@.len() == 0
            &&& after.frames@.len() == 0
            &&& after.gc == before.gc
        }
    }

    /// Makes the machine ready to run `function` from its start: whatever
    /// was on the stacks is dropped.
    pub fn load(&mut self, function: GcRef) -> (out: Option<Signal>)
        requires
            old(self).wf(),
        ensures
            final(self).wf(),
            Self::loaded(old(self), final(self), signal_view(out), function),
            old(self).sound() && old(self).gc.heap.live(function.index as int) ==> final(self).sound(),
    {
        self.reset();
        if self.stack.is_full() || self.frames.is_full() {
            let ghost cleared = *self;
            let signal = self.fail(RuntimeErrorKind::StackOverflow);
            proof {
                assert(cleared.trace() =~= Seq::empty());
            }
            return Some(signal);
        }
        let ghost cleared = *self;
        self.stack.push(Value::Obj(function));
        let ghost rooted = *self;
        proof {
            if old(self).sound() && old(self).gc.heap.live(function.index as int) {
                assert forall|r: GcRef| #[trigger] rooted.is_root(r) implies rooted.gc.heap.live(
                    r.index as int,
                ) by {
                    if rooted.stack@.contains(Value::Obj(r)) {
                        let k = choose|k: int|
                            0 <= k < rooted.stack@.len() && rooted.stack@[k] == Value::Obj(r);
                        assert(r == function);
                    } else {
                        assert(cleared.is_root(r));
                    }
                }
                assert(rooted.stack@[0] == Value::Obj(function));
                rooted.lemma_stack_reachable(0);
                assert forall|c: GcRef| #[trigger]
                    crate::mem::collector::refers_to(
                        ObjView::Closure { function, upvalues: Seq::empty() },
                        c,
                    ) implies crate::mem::collector::reachable(
                    rooted.gc.heap.slots@,
                    rooted.roots(),
                    c,
                ) by {
                    assert(c == function);
                }
            }
        }
        let closure = self.allocate(ObjData::Closure(ObjClosure::new(function)));
        let ghost allocated = *self;
        self.stack.set(0, Value::Obj(closure));
        self.frames.push(CallFrame { closure, ip: 0, slots: 0 });
        proof {
            if old(self).sound() && old(self).gc.heap.live(function.index as int) {
                assert(allocated.sound());
                assert(allocated.gc.heap.live(closure.index as int));
                assert forall|r: GcRef| #[trigger] self.is_root(r) implies self.gc.heap.live(
                    r.index as int,
                ) by {
                    if self.stack@.contains(Value::Obj(r)) {
                        let k = choose|k: int|
                            0 <= k < self.stack@.len() && self.stack@[k] == Value::Obj(r);
                        assert(r == closure);
                    } else if exists|i: int|
                        0 <= i < self.frames@.len() && (#[trigger] self.frames@[i]).closure == r {
                        assert(r == closure);
                    } else {
                        assert(allocated.is_root(r));
                    }
                }
            }
            assert(rooted.stack@ =~= seq![Value::Obj(function)]);
            assert(rooted.frames@ =~= Seq::<CallFrame>::empty());
            assert(rooted.open_upvalues@ =~= Seq::<OpenUpvalue>::empty());
            assert(self.stack@ =~= seq![Value::Obj(closure)]);
            assert(self.frames@ =~= seq![CallFrame { closure, ip: 0, slots: 0 }]);
            assert(self.gc.heap.live(closure.index as int));
        }
        None
    }

    /// The machine `after` has begun to run `function` on the machine
    /// `compiled`: it was made ready, if it has room, and then ran for at
    /// most `fuel` instructions.
    pub open spec fn started(
        compiled: &Self,
        after: &Self,
        signal: SignalView,
        function: GcRef,
        fuel: usize,
    ) -> bool {
        ||| exists|ready: Self| #[trigger]
            Self::loaded(compiled, &ready, None, function) && Self::ran(&ready, after, signal, fuel)
        ||| Self::loaded(compiled, after, Some(signal), function)
    }

    /// Compiles `source` and, if no error is found, runs it for at most
    /// `fuel` instructions, or until the machine has something to tell
    /// its host. `parse_number` turns the text of a number into the
    /// number. Compile errors are handed back as they are; nothing is run
    /// then, and the stacks stay as they were. The errors and the script,
    /// with its code and constants, are those of `compiled`.
    pub fn interpret<F: Fn(&Vec<u8>) -> u64>(&mut self, source: &str, parse_number: F, fuel: usize) -> (r:
        Result<Signal, Vec<Error>>)
        requires
            old(self).wf(),
            forall|t: &Vec<u8>| call_requires(parse_number, (t,)),
        ensures
            final(self).wf(),
            old(self).sound() ==> final(self).sound(),
            r.is_err() ==> final(self).stack == old(self).stack && final(self).frames == old(self).frames && final(self).open_upvalues == old(self).open_upvalues && final(self).globals
                == old(self).globals && final(self).init_string == old(self).init_string
                && r->Err_0@.len() > 0,
            r.is_ok() == (crate::compiler::model_statement::compiled(
                source.spec_bytes(),
            ).errors.len() == 0),
            r.is_err() ==> crate::compiler::parser::error_views(r->Err_0@)
                == crate::compiler::model_statement::compiled(source.spec_bytes()).errors,
            r.is_ok() ==> exists|compiled: Self, function: GcRef| #[trigger]
                Self::started(&compiled, final(self), r.unwrap()@, function, fuel)
                    && Compiler::<F>::complete(&compiled.gc, function)
                    && crate::compiler::faithful::represents(
                    compiled.gc.heap.slots@,
                    parse_number,
                    Value::Obj(function),
                    crate::compiler::model::ConstView::Function(
                        crate::compiler::model_statement::compiled(
                            source.spec_bytes(),
                        ).state().finished(),
                    ),
                )
                    && compiled.stack == old(self).stack && compiled.frames == old(self).frames && compiled.open_upvalues == old(self).open_upvalues && compiled.globals == old(self).globals && compiled.init_string
                    == old(self).init_string,
    {
        let pinned = self.gather_roots();
        let mut gc = Gc::new();
        core::mem::swap(&mut self.gc, &mut gc);
        proof {
            if old(self).sound() {
                assert forall|i: int| 0 <= i < pinned@.len() implies gc.heap.live(
                    (#[trigger] pinned@[i]).index as int,
                ) by {
                    assert(pinned@.to_set().contains(pinned@[i]));
                    assert(old(self).is_root(pinned@[i]));
                }
            }
        }
        let (gc, compiled) = compile(source, gc, pinned, parse_number);
        self.gc = gc;
        proof {
            if old(self).sound() {
                assert forall|r: GcRef| #[trigger] self.is_root(r) implies self.gc.heap.live(
                    r.index as int,
                ) by {
                    assert(old(self).is_root(r));
                    assert(pinned@.to_set().contains(r));
                    let i = choose|i: int| 0 <= i < pinned@.len() && pinned@[i] == r;
                    assert(self.gc.heap.live(pinned@[i].index as int));
                }
                assert(self.sound());
            }
        }
        match compiled {
            Err(errors) => Err(errors),
            Ok(function) => {
                let ghost compiled = *self;
                proof {
                    assert(compiled.stack == old(self).stack);
                    assert(compiled.frames == old(self).frames);
                    assert(compiled.globals == old(self).globals);
                    assert(compiled.init_string == old(self).init_string);
                    assert(Compiler::<F>::complete(&compiled.gc, function));
                    assert(crate::compiler::faithful::represents(
                        compiled.gc.heap.slots@,
                        parse_number,
                        Value::Obj(function),
                        crate::compiler::model::ConstView::Function(
                            crate::compiler::model_statement::compiled(
                                source.spec_bytes(),
                            ).state().finished(),
                        ),
                    ));
                }
                match self.load(function) {
                    Some(signal) => {
                        let r: Result<Signal, Vec<Error>> = Ok(signal);
                        proof {
                            assert(Self::started(&compiled, self, r.unwrap()@, function, fuel));
                            assert(compiled.open_upvalues == old(self).open_upvalues);
                        }
                        r
                    },
                    None => {
                        let ghost ready = *self;
                        let signal = self.run(fuel);
                        let r: Result<Signal, Vec<Error>> = Ok(signal);
                        proof {
                            assert(Self::loaded(&compiled, &ready, None, function));
                            assert(Self::started(&compiled, self, r.unwrap()@, function, fuel));
                            assert(compiled.open_upvalues == old(self).open_upvalues);
                        }
                        r
                    },
                }
            },
        }
    }
}

} // verus!
